//! WARC records: a version line, `name: value` header lines, a blank line,
//! `Content-Length` bytes of body, then two line breaks.
use vstd::prelude::*;

verus! {

/// The value of the first header named `name`.
pub open spec fn header_value(headers: Seq<(Seq<u8>, Seq<u8>)>, name: Seq<u8>) -> Option<Seq<u8>>
    decreases headers.len(),
{
    if headers.len() == 0 {
        None
    } else if headers[0].0 == name {
        Some(headers[0].1)
    } else {
        header_value(headers.drop_first(), name)
    }
}

impl ArchiveRecord {
    /// The value of the first header named `name`, compared byte for byte.
    pub fn header(&self, name: &[u8]) -> (r: Option<Vec<u8>>)
        ensures
            match r {
                Some(v) => header_value(self@.headers, name@) == Some(v@),
                None => header_value(self@.headers, name@) is None,
            },
    {
        let ghost h = self@.headers;
        let mut i: usize = 0;
        assert(h.skip(0) =~= h);
        while i < self.headers.len()
            invariant
                h == fields_view(self.headers@),
                i <= h.len(),
                header_value(h, name@) == header_value(h.skip(i as int), name@),
            decreases self.headers.len() - i,
        {
            assert(h.skip(i as int).drop_first() =~= h.skip(i + 1));
            assert(h[i as int] == self.headers@[i as int]@);
            if bytes_equal(self.headers[i].name.as_slice(), name) {
                return Some(self.headers[i].value.clone());
            }
            i = i + 1;
        }
        None
    }

    /// The number of body bytes, as the record's `Content-Length` stated.
    pub fn content_length(&self) -> (r: usize)
        ensures
            r == self@.body.len(),
    {
        self.body.len()
    }
}

/// Why a record could not be parsed.
#[derive(Debug, Clone, Copy, PartialEq, Eq, Structural)]
pub enum ParseError {
    /// The version line or a header line is malformed, the header block has
    /// no blank line, a header name repeats, the content length is not a
    /// number, or the body is not followed by two line breaks.
    MalformedHeader,
    /// The data ends before the body and its two line breaks.
    TruncatedBody,
}

/// One header line of a record.
pub struct HeaderField {
    pub name: Vec<u8>,
    pub value: Vec<u8>,
}

impl View for HeaderField {
    type V = (Seq<u8>, Seq<u8>);

    open spec fn view(&self) -> (Seq<u8>, Seq<u8>) {
        (self.name@, self.value@)
    }
}

/// One archive record.
pub struct ArchiveRecord {
    /// What follows `WARC/` on the first line.
    pub version: Vec<u8>,
    /// The header fields in the order they appear; no name repeats.
    pub headers: Vec<HeaderField>,
    pub body: Vec<u8>,
}

/// The mathematical value of a record.
pub struct RecordView {
    pub version: Seq<u8>,
    pub headers: Seq<(Seq<u8>, Seq<u8>)>,
    pub body: Seq<u8>,
}

pub open spec fn fields_view(v: Seq<HeaderField>) -> Seq<(Seq<u8>, Seq<u8>)> {
    v.map_values(|f: HeaderField| f@)
}

impl View for ArchiveRecord {
    type V = RecordView;

    open spec fn view(&self) -> RecordView {
        RecordView { version: self.version@, headers: fields_view(self.headers@), body: self.body@ }
    }
}

pub open spec fn is_crlf_at(s: Seq<u8>, i: int) -> bool {
    0 <= i && i + 1 < s.len() && s[i] == 13u8 && s[i + 1] == 10u8
}

/// Where the first line break at or after `from` starts.
pub open spec fn line_end(s: Seq<u8>, from: int) -> Option<int>
    decreases s.len() - from,
{
    if from < 0 || from + 1 >= s.len() {
        None
    } else if is_crlf_at(s, from) {
        Some(from)
    } else {
        line_end(s, from + 1)
    }
}

/// A byte that may stand in a header name.
pub open spec fn is_token_byte(b: u8) -> bool {
    32 < b < 128 && b != 0x28 && b != 0x29 && b != 0x3C && b != 0x3E && b != 0x40 && b != 0x2C
        && b != 0x3B && b != 0x3A && b != 0x22 && b != 0x2F && b != 0x5B && b != 0x5D && b != 0x3F
        && b != 0x3D && b != 0x7B && b != 0x7D && b != 0x5C
}

pub open spec fn is_blank_byte(b: u8) -> bool {
    b == 0x20 || b == 0x09
}

/// The end of the run of name bytes that starts at `i`.
pub open spec fn skip_token(line: Seq<u8>, i: int) -> int
    decreases line.len() - i,
{
    if 0 <= i < line.len() && is_token_byte(line[i]) {
        skip_token(line, i + 1)
    } else {
        i
    }
}

/// The end of the run of spaces and tabs that starts at `i`.
pub open spec fn skip_blanks(line: Seq<u8>, i: int) -> int
    decreases line.len() - i,
{
    if 0 <= i < line.len() && is_blank_byte(line[i]) {
        skip_blanks(line, i + 1)
    } else {
        i
    }
}

/// The name and value of a header line, `name: value`, with the blanks
/// around the colon dropped.
pub open spec fn field_of(line: Seq<u8>) -> Option<(Seq<u8>, Seq<u8>)> {
    let t = skip_token(line, 0);
    let c = skip_blanks(line, t);
    if t == 0 || c >= line.len() || line[c] != 0x3Au8 {
        None
    } else {
        Some((line.subrange(0, t), line.subrange(skip_blanks(line, c + 1), line.len() as int)))
    }
}

/// The header lines from `p` up to the blank line, appended to `acc`, and
/// where the data goes on after the blank line.
pub open spec fn header_fields(s: Seq<u8>, p: int, acc: Seq<(Seq<u8>, Seq<u8>)>) -> Option<
    (Seq<(Seq<u8>, Seq<u8>)>, int),
>
    decreases s.len() - p,
{
    if p < 0 || p > s.len() {
        None
    } else {
        match line_end(s, p) {
            None => None,
            Some(e) => if e < p || e + 2 > s.len() {
                None
            } else if e == p {
                Some((acc, p + 2))
            } else {
                match field_of(s.subrange(p, e)) {
                    None => None,
                    Some(f) => header_fields(s, e + 2, acc.push(f)),
                }
            },
        }
    }
}

proof fn lemma_line_end_bounds(s: Seq<u8>, from: int)
    ensures
        line_end(s, from) matches Some(e) ==> from <= e && is_crlf_at(s, e),
    decreases s.len() - from,
{
    if 0 <= from && from + 1 < s.len() && !is_crlf_at(s, from) {
        lemma_line_end_bounds(s, from + 1);
    }
}

fn find_line_end(s: &[u8], from: usize) -> (r: Option<usize>)
    ensures
        match r {
            Some(e) => line_end(s@, from as int) == Some(e as int) && from <= e && e + 2
                <= s@.len(),
            None => line_end(s@, from as int) is None,
        },
{
    let mut i = from;
    while i < s.len() && s.len() - i >= 2
        invariant
            from <= i,
            line_end(s@, from as int) == line_end(s@, i as int),
        decreases s.len() - i,
    {
        if s[i] == 13 && s[i + 1] == 10 {
            return Some(i);
        }
        i = i + 1;
    }
    None
}

fn scan_token(line: &[u8], from: usize) -> (r: usize)
    requires
        from <= line@.len(),
    ensures
        r as int == skip_token(line@, from as int),
        from <= r <= line@.len(),
{
    let mut i = from;
    while i < line.len() && is_token(line[i])
        invariant
            from <= i <= line@.len(),
            skip_token(line@, from as int) == skip_token(line@, i as int),
        decreases line.len() - i,
    {
        i = i + 1;
    }
    i
}

fn scan_blanks(line: &[u8], from: usize) -> (r: usize)
    requires
        from <= line@.len(),
    ensures
        r as int == skip_blanks(line@, from as int),
        from <= r <= line@.len(),
{
    let mut i = from;
    while i < line.len() && (line[i] == 0x20 || line[i] == 0x09)
        invariant
            from <= i <= line@.len(),
            skip_blanks(line@, from as int) == skip_blanks(line@, i as int),
        decreases line.len() - i,
    {
        i = i + 1;
    }
    i
}

fn is_token(b: u8) -> (r: bool)
    ensures
        r == is_token_byte(b),
{
    32 < b && b < 128 && b != 0x28 && b != 0x29 && b != 0x3C && b != 0x3E && b != 0x40 && b
        != 0x2C && b != 0x3B && b != 0x3A && b != 0x22 && b != 0x2F && b != 0x5B && b != 0x5D
        && b != 0x3F && b != 0x3D && b != 0x7B && b != 0x7D && b != 0x5C
}

fn copy_range(s: &[u8], start: usize, end: usize) -> (r: Vec<u8>)
    requires
        start <= end <= s@.len(),
    ensures
        r@ == s@.subrange(start as int, end as int),
{
    vstd::slice::slice_to_vec(vstd::slice::slice_subrange(s, start, end))
}

/// Splits a header line into its name and value.
pub fn parse_field(line: &[u8]) -> (r: Option<HeaderField>)
    ensures
        match r {
            Some(f) => field_of(line@) == Some(f@),
            None => field_of(line@) is None,
        },
{
    let t = scan_token(line, 0);
    let c = scan_blanks(line, t);
    if t == 0 || c >= line.len() || line[c] != 0x3A {
        return None;
    }
    let v = scan_blanks(line, c + 1);
    Some(HeaderField { name: copy_range(line, 0, t), value: copy_range(line, v, line.len()) })
}

/// Reads the header lines from `p` up to the blank line, and where the data
/// goes on after it.
fn read_header_fields(s: &[u8], p: usize) -> (r: Option<(Vec<HeaderField>, usize)>)
    requires
        p <= s@.len(),
    ensures
        match r {
            Some((fields, q)) => header_fields(s@, p as int, Seq::empty()) == Some(
                (fields_view(fields@), q as int),
            ) && p < q <= s@.len(),
            None => header_fields(s@, p as int, Seq::empty()) is None,
        },
{
    let mut fields: Vec<HeaderField> = Vec::new();
    let mut i = p;
    assert(fields_view(fields@) =~= Seq::empty());
    loop
        invariant
            p <= i <= s@.len(),
            header_fields(s@, p as int, Seq::empty()) == header_fields(
                s@,
                i as int,
                fields_view(fields@),
            ),
        decreases s@.len() - i,
    {
        match find_line_end(s, i) {
            None => return None,
            Some(e) => {
                proof {
                    lemma_line_end_bounds(s@, i as int);
                }
                let len = s.len();
                assert(e + 2 <= len);
                if e == i {
                    return Some((fields, i + 2));
                }
                let line = vstd::slice::slice_subrange(s, i, e);
                match parse_field(line) {
                    None => return None,
                    Some(f) => {
                        proof {
                            assert(fields_view(fields@.push(f)) =~= fields_view(fields@).push(f@));
                        }
                        fields.push(f);
                        i = e + 2;
                    },
                }
            },
        }
    }
}

/// The number written by a run of decimal digits.
pub open spec fn digits_value(s: Seq<u8>) -> int
    decreases s.len(),
{
    if s.len() == 0 {
        0
    } else {
        digits_value(s.drop_last()) * 10 + (s.last() - 48)
    }
}

pub open spec fn all_digits(s: Seq<u8>) -> bool {
    forall|i: int| 0 <= i < s.len() ==> 48 <= #[trigger] s[i] <= 57
}

/// The number a header value states, where it is one that fits in `usize`.
pub open spec fn decimal_value(s: Seq<u8>) -> Option<int> {
    if s.len() > 0 && all_digits(s) && digits_value(s) <= usize::MAX {
        Some(digits_value(s))
    } else {
        None
    }
}

proof fn lemma_digits_grow(s: Seq<u8>, i: int, j: int)
    requires
        0 <= i <= j <= s.len(),
        all_digits(s),
    ensures
        digits_value(s.subrange(0, i)) <= digits_value(s.subrange(0, j)),
    decreases j - i,
{
    if i < j {
        lemma_digits_grow(s, i, j - 1);
        assert(s.subrange(0, j).drop_last() =~= s.subrange(0, j - 1));
        assert(digits_value(s.subrange(0, j - 1)) >= 0) by {
            lemma_digits_nonneg(s.subrange(0, j - 1));
        }
    }
}

proof fn lemma_digits_nonneg(s: Seq<u8>)
    requires
        all_digits(s),
    ensures
        digits_value(s) >= 0,
    decreases s.len(),
{
    if s.len() > 0 {
        lemma_digits_nonneg(s.drop_last());
    }
}

/// Reads a header value as a decimal number that fits in `usize`.
pub fn parse_decimal(v: &[u8]) -> (r: Option<usize>)
    ensures
        match r {
            Some(n) => decimal_value(v@) == Some(n as int),
            None => decimal_value(v@) is None,
        },
{
    if v.len() == 0 {
        return None;
    }
    let mut acc: usize = 0;
    let mut i: usize = 0;
    while i < v.len()
        invariant
            i <= v@.len(),
            all_digits(v@.subrange(0, i as int)),
            acc as int == digits_value(v@.subrange(0, i as int)),
        decreases v.len() - i,
    {
        let b = v[i];
        assert(v@.subrange(0, i + 1).drop_last() =~= v@.subrange(0, i as int));
        if b < 48 || b > 57 {
            assert(!all_digits(v@));
            return None;
        }
        let d = (b - 48) as usize;
        if acc > (usize::MAX - d) / 10 {
            proof {
                assert(acc * 10 + d > usize::MAX) by (nonlinear_arith)
                    requires
                        acc > (usize::MAX - d) / 10,
                        d <= 9,
                ;
                if all_digits(v@) {
                    lemma_digits_grow(v@, i + 1, v@.len() as int);
                    assert(v@.subrange(0, v@.len() as int) =~= v@);
                }
            }
            return None;
        }
        acc = acc * 10 + d;
        i = i + 1;
    }
    assert(v@.subrange(0, i as int) =~= v@);
    Some(acc)
}

/// The name `content-length`.
pub open spec fn content_length_name() -> Seq<u8> {
    seq![99u8, 111, 110, 116, 101, 110, 116, 45, 108, 101, 110, 103, 116, 104]
}

pub open spec fn ascii_lower(b: u8) -> u8 {
    if 65 <= b <= 90 {
        (b + 32) as u8
    } else {
        b
    }
}

/// Whether a header name is `Content-Length`, in any case.
pub open spec fn is_content_length(name: Seq<u8>) -> bool {
    name.len() == 14 && forall|i: int| 0 <= i < 14 ==> ascii_lower(#[trigger] name[i])
        == content_length_name()[i]
}

/// The content length stated by the first `Content-Length` field from `i` on;
/// zero where there is none.
pub open spec fn content_length_from(fields: Seq<(Seq<u8>, Seq<u8>)>, i: int) -> Option<int>
    decreases fields.len() - i,
{
    if i < 0 || i >= fields.len() {
        Some(0)
    } else if is_content_length(fields[i].0) {
        decimal_value(fields[i].1)
    } else {
        content_length_from(fields, i + 1)
    }
}

pub open spec fn names_distinct(fields: Seq<(Seq<u8>, Seq<u8>)>) -> bool {
    forall|i: int, j: int| 0 <= i < j < fields.len() ==> fields[i].0 != fields[j].0
}

pub const CONTENT_LENGTH: [u8; 14] = [99, 111, 110, 116, 101, 110, 116, 45, 108, 101, 110, 103, 116, 104];

fn name_is_content_length(name: &[u8]) -> (r: bool)
    ensures
        r == is_content_length(name@),
{
    if name.len() != 14 {
        return false;
    }
    let mut i: usize = 0;
    while i < 14
        invariant
            name@.len() == 14,
            i <= 14,
            forall|k: int| 0 <= k < i ==> ascii_lower(#[trigger] name@[k])
                == content_length_name()[k],
        decreases 14 - i,
    {
        let b = name[i];
        let lower = if 65 <= b && b <= 90 {
            b + 32
        } else {
            b
        };
        if lower != CONTENT_LENGTH[i] {
            return false;
        }
        i = i + 1;
    }
    true
}

fn bytes_equal(a: &[u8], b: &[u8]) -> (r: bool)
    ensures
        r == (a@ == b@),
{
    if a.len() != b.len() {
        return false;
    }
    let mut i: usize = 0;
    while i < a.len()
        invariant
            a@.len() == b@.len(),
            i <= a@.len(),
            forall|k: int| 0 <= k < i ==> a@[k] == b@[k],
        decreases a.len() - i,
    {
        if a[i] != b[i] {
            return false;
        }
        i = i + 1;
    }
    assert(a@ =~= b@);
    true
}

/// Whether no two fields share a name.
fn distinct_names(fields: &Vec<HeaderField>) -> (r: bool)
    ensures
        r == names_distinct(fields_view(fields@)),
{
    let ghost v = fields_view(fields@);
    let mut j: usize = 0;
    while j < fields.len()
        invariant
            v == fields_view(fields@),
            j <= fields@.len(),
            forall|a: int, b: int| 0 <= a < b < j ==> v[a].0 != v[b].0,
        decreases fields.len() - j,
    {
        let mut i: usize = 0;
        while i < j
            invariant
                v == fields_view(fields@),
                i <= j < fields@.len(),
                forall|a: int| 0 <= a < i ==> v[a].0 != v[j as int].0,
                forall|a: int, b: int| 0 <= a < b < j ==> v[a].0 != v[b].0,
            decreases j - i,
        {
            assert(v[i as int].0 == fields@[i as int].name@);
            if bytes_equal(fields[i].name.as_slice(), fields[j].name.as_slice()) {
                assert(v[j as int].0 == fields@[j as int].name@);
                return false;
            }
            i = i + 1;
        }
        j = j + 1;
    }
    true
}

/// The content length stated by a record's header fields.
fn content_length(fields: &Vec<HeaderField>) -> (r: Option<usize>)
    ensures
        match r {
            Some(n) => content_length_from(fields_view(fields@), 0) == Some(n as int),
            None => content_length_from(fields_view(fields@), 0) is None,
        },
{
    let ghost v = fields_view(fields@);
    let mut i: usize = 0;
    while i < fields.len()
        invariant
            v == fields_view(fields@),
            i <= fields@.len(),
            content_length_from(v, 0) == content_length_from(v, i as int),
        decreases fields.len() - i,
    {
        if name_is_content_length(fields[i].name.as_slice()) {
            return parse_decimal(fields[i].value.as_slice());
        }
        i = i + 1;
    }
    Some(0)
}

/// The bytes `WARC/` that open a record.
pub open spec fn version_prefix() -> Seq<u8> {
    seq![87u8, 65, 82, 67, 47]
}

pub const VERSION_PREFIX: [u8; 5] = [87, 65, 82, 67, 47];

/// The record that starts at `p`, and where the next one starts; `None` at
/// the end of the data.
pub open spec fn record_at(s: Seq<u8>, p: int) -> Option<Result<(RecordView, int), ParseError>> {
    if p < 0 || p >= s.len() {
        None
    } else {
        Some(
            match line_end(s, p) {
                None => Err(ParseError::MalformedHeader),
                Some(e) => if e < p + 5 || s.subrange(p, p + 5) != version_prefix() {
                    Err(ParseError::MalformedHeader)
                } else {
                    match header_fields(s, e + 2, Seq::empty()) {
                        None => Err(ParseError::MalformedHeader),
                        Some((fields, q)) => if fields.len() == 0 || !names_distinct(fields) {
                            Err(ParseError::MalformedHeader)
                        } else {
                            match content_length_from(fields, 0) {
                                None => Err(ParseError::MalformedHeader),
                                Some(n) => if q + n + 4 > s.len() {
                                    Err(ParseError::TruncatedBody)
                                } else if !is_crlf_at(s, q + n) || !is_crlf_at(s, q + n + 2) {
                                    Err(ParseError::MalformedHeader)
                                } else {
                                    Ok(
                                        (
                                            RecordView {
                                                version: s.subrange(p + 5, e),
                                                headers: fields,
                                                body: s.subrange(q, q + n),
                                            },
                                            q + n + 4,
                                        ),
                                    )
                                },
                            }
                        },
                    }
                },
            },
        )
    }
}

/// Parses the record that starts at `pos`. Gives `None` at the end of the
/// data, else the record and where the next one starts, or why it could not
/// be parsed.
pub fn parse_record(s: &[u8], pos: usize) -> (r: Option<Result<(ArchiveRecord, usize), ParseError>>)
    requires
        pos <= s@.len(),
    ensures
        match (r, record_at(s@, pos as int)) {
            (None, None) => true,
            (Some(Ok((rec, next))), Some(Ok((v, n)))) => rec@ == v && next as int == n,
            (Some(Err(e)), Some(Err(f))) => e == f,
            _ => false,
        },
        r matches Some(Ok((_, next))) ==> pos < next <= s@.len(),
{
    if pos >= s.len() {
        return None;
    }
    let e = match find_line_end(s, pos) {
        None => return Some(Err(ParseError::MalformedHeader)),
        Some(e) => e,
    };
    if e - pos < 5 || s[pos] != VERSION_PREFIX[0] || s[pos + 1] != VERSION_PREFIX[1] || s[pos + 2]
        != VERSION_PREFIX[2] || s[pos + 3] != VERSION_PREFIX[3] || s[pos + 4] != VERSION_PREFIX[4] {
        proof {
            if e >= pos + 5 && s@.subrange(pos as int, pos + 5) == version_prefix() {
                assert(s@.subrange(pos as int, pos + 5)[0] == s@[pos as int]);
                assert(s@.subrange(pos as int, pos + 5)[1] == s@[pos + 1]);
                assert(s@.subrange(pos as int, pos + 5)[2] == s@[pos + 2]);
                assert(s@.subrange(pos as int, pos + 5)[3] == s@[pos + 3]);
                assert(s@.subrange(pos as int, pos + 5)[4] == s@[pos + 4]);
            }
        }
        return Some(Err(ParseError::MalformedHeader));
    }
    assert(s@.subrange(pos as int, pos + 5) =~= version_prefix());
    let (fields, q) = match read_header_fields(s, e + 2) {
        None => return Some(Err(ParseError::MalformedHeader)),
        Some(r) => r,
    };
    if fields.len() == 0 || !distinct_names(&fields) {
        return Some(Err(ParseError::MalformedHeader));
    }
    let n = match content_length(&fields) {
        None => return Some(Err(ParseError::MalformedHeader)),
        Some(n) => n,
    };
    if s.len() - q < n || s.len() - q - n < 4 {
        return Some(Err(ParseError::TruncatedBody));
    }
    let b = q + n;
    if s[b] != 13 || s[b + 1] != 10 || s[b + 2] != 13 || s[b + 3] != 10 {
        return Some(Err(ParseError::MalformedHeader));
    }
    let rec = ArchiveRecord {
        version: copy_range(s, pos + 5, e),
        headers: fields,
        body: copy_range(s, q, b),
    };
    Some(Ok((rec, b + 4)))
}

} // verus!

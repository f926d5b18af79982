//! A forward-only stream of records over decoded archive bytes, with the
//! counters of one pass.
use vstd::prelude::*;
use crate::record::{ArchiveRecord, ParseError, RecordView, header_value, parse_record, record_at};

verus! {

/// The header name `WARC-Target-URI`.
pub open spec fn target_uri_name() -> Seq<u8> {
    seq![87u8, 65, 82, 67, 45, 84, 97, 114, 103, 101, 116, 45, 85, 82, 73]
}

pub const TARGET_URI: [u8; 15] = [87, 65, 82, 67, 45, 84, 97, 114, 103, 101, 116, 45, 85, 82, 73];

/// The text fields that the index takes from a record.
pub struct IndexFields {
    /// The record's target URI.
    pub title: Vec<u8>,
    pub body: Vec<u8>,
}

/// What the index takes from a record: its target URI as title and its body;
/// `None` for a record with no target URI, which is not indexed.
pub open spec fn index_fields_of(v: RecordView) -> Option<(Seq<u8>, Seq<u8>)> {
    match header_value(v.headers, target_uri_name()) {
        Some(t) => Some((t, v.body)),
        None => None,
    }
}

/// Takes the index fields from a record: its target URI and its body.
pub fn index_fields(record: &ArchiveRecord) -> (r: Option<IndexFields>)
    ensures
        match r {
            Some(f) => index_fields_of(record@) == Some((f.title@, f.body@)),
            None => index_fields_of(record@) is None,
        },
{
    let name = TARGET_URI.as_slice();
    assert(name@ =~= target_uri_name());
    match record.header(name) {
        Some(title) => Some(IndexFields { title, body: record.body.clone() }),
        None => None,
    }
}

/// One pull of a stream that had not ended: the record at its position is
/// given, or the failure there (which ends the pass), or nothing at the end of
/// the data.
pub open spec fn pulled(
    pre: RecordStream,
    post: RecordStream,
    r: Option<Result<ArchiveRecord, ParseError>>,
) -> bool {
    match record_at(pre.data(), pre.position()) {
        None => {
            &&& r is None
            &&& post.is_done()
            &&& post.seen() == pre.seen()
            &&& post.parsed_count() == pre.parsed_count()
        },
        Some(Ok((v, next))) => {
            &&& r matches Some(Ok(rec)) && rec@ == v
            &&& post.position() == next
            &&& !post.is_done()
            &&& post.seen() == pre.seen() + 1
            &&& post.parsed_count() == pre.parsed_count() + 1
            &&& post.failure_count() == pre.failure_count()
        },
        Some(Err(e)) => {
            &&& r == Some(Err::<ArchiveRecord, ParseError>(e))
            &&& post.is_done()
            &&& post.seen() == pre.seen() + 1
            &&& post.parsed_count() == pre.parsed_count()
            &&& post.failure_count() == 1
        },
    }
}

/// Records read one at a time, in order, from decoded archive bytes, with
/// the counters of the pass: records attempted, records parsed, parse
/// failures (at most one: a failure ends the pass) and records skipped.
pub struct RecordStream {
    data: Vec<u8>,
    pos: usize,
    total_seen: usize,
    parsed: usize,
    failures: usize,
    skipped: usize,
    done: bool,
    closed: bool,
}

impl RecordStream {
    /// The decoded archive bytes.
    pub closed spec fn data(&self) -> Seq<u8> {
        self.data@
    }

    /// Where the next record starts.
    pub closed spec fn position(&self) -> int {
        self.pos as int
    }

    pub closed spec fn seen(&self) -> int {
        self.total_seen as int
    }

    pub closed spec fn parsed_count(&self) -> int {
        self.parsed as int
    }

    pub closed spec fn failure_count(&self) -> int {
        self.failures as int
    }

    pub closed spec fn skipped_count(&self) -> int {
        self.skipped as int
    }

    /// Whether the pass has ended, at the end of the data or at a failure.
    pub closed spec fn is_done(&self) -> bool {
        self.done
    }

    /// Whether all the data has been handed in.
    pub closed spec fn is_closed(&self) -> bool {
        self.closed
    }

    pub closed spec fn wf(&self) -> bool {
        &&& self.pos <= self.data@.len()
        &&& self.total_seen == self.parsed + self.failures
        &&& self.failures <= 1
        &&& self.failures == 1 ==> self.done
        &&& self.skipped <= self.parsed
    }

    /// The counters of a well-formed stream agree: every record attempted was
    /// either parsed or failed, at most one failed, and no more were skipped
    /// than were parsed.
    pub proof fn lemma_counters(&self)
        requires
            self.wf(),
        ensures
            self.seen() == self.parsed_count() + self.failure_count(),
            0 <= self.failure_count() <= 1,
            self.failure_count() == 1 ==> self.is_done(),
            0 <= self.skipped_count() <= self.parsed_count() <= self.seen(),
    {
    }

    /// Starts a pass over all of the decoded archive bytes, with every
    /// counter at zero.
    pub fn new(data: Vec<u8>) -> (r: RecordStream)
        ensures
            r.wf(),
            r.data() == data@,
            r.position() == 0,
            !r.is_done(),
            r.is_closed(),
            r.seen() == 0 && r.parsed_count() == 0 && r.failure_count() == 0 && r.skipped_count()
                == 0,
    {
        RecordStream {
            data,
            pos: 0,
            total_seen: 0,
            parsed: 0,
            failures: 0,
            skipped: 0,
            done: false,
            closed: true,
        }
    }

    /// Starts a pass whose decoded bytes are handed in chunk by chunk.
    pub fn incremental() -> (r: RecordStream)
        ensures
            r.wf(),
            r.data() == Seq::<u8>::empty(),
            r.position() == 0,
            !r.is_done(),
            !r.is_closed(),
            r.seen() == 0 && r.parsed_count() == 0 && r.failure_count() == 0 && r.skipped_count()
                == 0,
    {
        RecordStream {
            data: Vec::new(),
            pos: 0,
            total_seen: 0,
            parsed: 0,
            failures: 0,
            skipped: 0,
            done: false,
            closed: false,
        }
    }

    /// Hands in the next decoded bytes. The bytes of records already given
    /// out are dropped, so only the unread part is held.
    pub fn feed(&mut self, bytes: &[u8])
        requires
            old(self).wf(),
            !old(self).is_closed(),
            old(self).data().len() - old(self).position() + bytes@.len() <= usize::MAX,
        ensures
            final(self).wf(),
            final(self).data() == old(self).data().skip(old(self).position()) + bytes@,
            final(self).position() == 0,
            !final(self).is_closed(),
            final(self).is_done() == old(self).is_done(),
            final(self).seen() == old(self).seen(),
            final(self).parsed_count() == old(self).parsed_count(),
            final(self).failure_count() == old(self).failure_count(),
            final(self).skipped_count() == old(self).skipped_count(),
    {
        let mut rest: Vec<u8> = Vec::new();
        let mut i: usize = self.pos;
        while i < self.data.len()
            invariant
                self.pos <= i <= self.data@.len(),
                rest@ == self.data@.subrange(self.pos as int, i as int),
            decreases self.data.len() - i,
        {
            rest.push(self.data[i]);
            i = i + 1;
        }
        rest.extend_from_slice(bytes);
        assert(rest@ =~= self.data@.skip(self.pos as int) + bytes@);
        self.data = rest;
        self.pos = 0;
    }

    /// Marks the data as complete: what is left must parse as whole records.
    pub fn close(&mut self)
        requires
            old(self).wf(),
        ensures
            final(self).wf(),
            final(self).is_closed(),
            final(self).data() == old(self).data(),
            final(self).position() == old(self).position(),
            final(self).is_done() == old(self).is_done(),
            final(self).seen() == old(self).seen(),
            final(self).parsed_count() == old(self).parsed_count(),
            final(self).failure_count() == old(self).failure_count(),
            final(self).skipped_count() == old(self).skipped_count(),
    {
        self.closed = true;
    }

    /// Records attempted so far, parsed or not.
    pub fn total_seen(&self) -> (r: usize)
        ensures
            r == self.seen(),
    {
        self.total_seen
    }

    /// Records parsed so far.
    pub fn successfully_parsed(&self) -> (r: usize)
        ensures
            r == self.parsed_count(),
    {
        self.parsed
    }

    /// Records that failed to parse; one at most.
    pub fn parse_failures(&self) -> (r: usize)
        ensures
            r == self.failure_count(),
    {
        self.failures
    }

    /// Records parsed and then left out of the index.
    pub fn skipped(&self) -> (r: usize)
        ensures
            r == self.skipped_count(),
    {
        self.skipped
    }

    /// Whether the pass has ended.
    pub fn finished(&self) -> (r: bool)
        ensures
            r == self.is_done(),
    {
        self.done
    }

    /// Counts one parsed record as left out of the index.
    pub fn mark_skipped(&mut self)
        requires
            old(self).wf(),
            old(self).skipped_count() < old(self).parsed_count(),
        ensures
            final(self).wf(),
            final(self).skipped_count() == old(self).skipped_count() + 1,
            final(self).data() == old(self).data(),
            final(self).position() == old(self).position(),
            final(self).seen() == old(self).seen(),
            final(self).parsed_count() == old(self).parsed_count(),
            final(self).failure_count() == old(self).failure_count(),
            final(self).is_done() == old(self).is_done(),
            final(self).is_closed() == old(self).is_closed(),
    {
        self.skipped = self.skipped + 1;
    }

    /// Pulls the next record. Once all the data is in, gives `None` when it
    /// is used up or after a failure; a failure is given once and ends the
    /// pass. Before that, gives only whole records, and `None` while the next
    /// one is not whole yet.
    pub fn next_record(&mut self) -> (r: Option<Result<ArchiveRecord, ParseError>>)
        requires
            old(self).wf(),
            old(self).seen() < usize::MAX,
        ensures
            final(self).wf(),
            final(self).data() == old(self).data(),
            final(self).skipped_count() == old(self).skipped_count(),
            final(self).is_closed() == old(self).is_closed(),
            old(self).is_done() ==> r is None && *final(self) == *old(self),
            !old(self).is_done() && old(self).is_closed() ==> pulled(*old(self), *final(self), r),
            !old(self).is_done() && !old(self).is_closed() ==> if record_at(
                old(self).data(),
                old(self).position(),
            ) is Some && record_at(old(self).data(), old(self).position())->Some_0 is Ok {
                pulled(*old(self), *final(self), r)
            } else {
                r is None && *final(self) == *old(self)
            },
    {
        if self.done {
            return None;
        }
        if !self.closed {
            match parse_record(self.data.as_slice(), self.pos) {
                Some(Ok((rec, next))) => {
                    self.pos = next;
                    self.parsed = self.parsed + 1;
                    self.total_seen = self.total_seen + 1;
                    return Some(Ok(rec));
                },
                _ => {
                    return None;
                },
            }
        }
        match parse_record(self.data.as_slice(), self.pos) {
            None => {
                self.done = true;
                None
            },
            Some(Ok((rec, next))) => {
                self.pos = next;
                self.parsed = self.parsed + 1;
                self.total_seen = self.total_seen + 1;
                Some(Ok(rec))
            },
            Some(Err(e)) => {
                self.failures = self.failures + 1;
                self.total_seen = self.total_seen + 1;
                self.done = true;
                Some(Err(e))
            },
        }
    }
}

} // verus!

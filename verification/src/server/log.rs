//! The executable log.

use vstd::prelude::*;
use crate::server::model::{
    empty_log, log_after_append, next_offset, out_of_range_message, record_at, RecordView,
};

verus! {

/// One entry of a log: a payload and the offset it is stored under.
///
/// The offset of a record handed to [`Log::append`] is ignored; the offset of
/// a record returned by [`Log::read`] is the one it was read at.
pub struct Record {
    pub value: Vec<u8>,
    pub offset: u64,
}

impl View for Record {
    type V = RecordView;

    open spec fn view(&self) -> RecordView {
        RecordView { value: self.value@, offset: self.offset as nat }
    }
}

impl Clone for Record {
    /// An independent copy: same bytes, same offset, separate storage.
    fn clone(&self) -> (copy: Self)
        ensures
            copy@ == self@,
    {
        Record { value: self.value.clone(), offset: self.offset }
    }
}

/// An append-only sequence of records, addressed by position.
///
/// The storage is private: a log changes only through [`Log::append`], so the
/// record stored at position `i` always carries offset `i`.
pub struct Log {
    records: Vec<Record>,
}

impl View for Log {
    type V = Seq<Seq<u8>>;

    /// The payloads held, in the order they were appended.
    closed spec fn view(&self) -> Seq<Seq<u8>> {
        Seq::new(self.records@.len(), |i: int| self.records@[i].value@)
    }
}

impl Log {
    /// Offsets are dense: the record at each position is labelled with it.
    #[verifier::type_invariant]
    spec fn offsets_are_positions(&self) -> bool {
        forall|i: int| 0 <= i < self.records@.len() ==> (#[trigger] self.records@[i]).offset == i
    }

    /// An empty log. Its first append is assigned offset 0.
    pub fn new_log() -> (log: Self)
        ensures
            log@ == empty_log(),
    {
        let log = Self { records: Vec::new() };
        assert(log@ =~= empty_log());
        log
    }

    /// The number of records held, which is the offset that the next append
    /// assigns.
    pub fn len(&self) -> (n: u64)
        ensures
            n == next_offset(self@),
    {
        self.records.len() as u64
    }

    /// Stores `record.value` at the end of the log and returns the offset
    /// assigned to it. The offset that `record` came with is discarded.
    /// Never fails.
    pub fn append(&mut self, record: Record) -> (assigned: Result<u64, String>)
        ensures
            final(self)@ == log_after_append(old(self)@, record.value@),
            assigned is Ok,
            assigned->Ok_0 == next_offset(old(self)@),
    {
        proof {
            use_type_invariant(&*self);
        }
        let mut record = record;
        let offset: u64 = self.records.len() as u64;
        record.offset = offset;
        // The storage is grown outside the log and put back whole, so the
        // log holds a dense sequence at every moment.
        let mut records: Vec<Record> = Vec::new();
        core::mem::swap(&mut self.records, &mut records);
        records.push(record);
        core::mem::swap(&mut self.records, &mut records);
        assert(self@ =~= log_after_append(old(self)@, record.value@));
        Ok(offset)
    }

    /// Returns an independent copy of the record stored at `offset`, or the
    /// out-of-range error when `offset` is not below the length. The log is
    /// left as it was.
    pub fn read(&self, offset: u64) -> (found: Result<Record, String>)
        ensures
            is_read_result(self@, offset, found),
    {
        proof {
            use_type_invariant(self);
        }
        let max_size: u64 = self.records.len() as u64;
        if offset >= max_size {
            return Err("Offset exceeded length of Log".to_owned());
        }
        Ok(self.records[offset as usize].clone())
    }
}

/// Whether `found` is what a read of `offset` owes on a log holding `log`:
/// the record of the model on success, the out-of-range description when the
/// model has no record there.
pub open spec fn is_read_result(log: Seq<Seq<u8>>, offset: u64, found: Result<Record, String>) -> bool {
    match record_at(log, offset as nat) {
        Some(record) => found is Ok && found->Ok_0@ == record,
        None => found is Err && found->Err_0@ == out_of_range_message(),
    }
}

/// Reading is repeatable: two reads of one offset on one log end alike, and
/// where they succeed they return records with equal bytes and equal offsets.
pub proof fn lemma_read_is_repeatable(
    log: Log,
    offset: u64,
    first: Result<Record, String>,
    second: Result<Record, String>,
)
    requires
        is_read_result(log@, offset, first),
        is_read_result(log@, offset, second),
    ensures
        first is Ok <==> second is Ok,
        first is Ok ==> first->Ok_0@ == second->Ok_0@,
        first is Err ==> first->Err_0@ == second->Err_0@,
{
}

/// A record that a read returned is the caller's own: whatever the caller
/// turns it into, a later read of the same offset still returns the bytes and
/// the offset that the first read returned, and so shows nothing of the
/// change.
pub proof fn lemma_read_ignores_returned_records(
    log: Log,
    offset: u64,
    returned: Record,
    altered: Record,
    later: Result<Record, String>,
)
    requires
        is_read_result(log@, offset, Ok(returned)),
        is_read_result(log@, offset, later),
    ensures
        later is Ok,
        later->Ok_0@ == returned@,
        altered@ != returned@ ==> later->Ok_0@ != altered@,
{
}

} // verus!

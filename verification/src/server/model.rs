//! The abstract log: a sequence of payloads, each addressed by its position.

use vstd::prelude::*;

verus! {

/// What a record is worth to a reader: the bytes it carries and the offset it
/// is stored under.
pub struct RecordView {
    pub value: Seq<u8>,
    pub offset: nat,
}

/// The description carried by the error that a read past the end returns.
pub open spec fn out_of_range_message() -> Seq<char> {
    "Offset exceeded length of Log"@
}

/// The log that holds nothing.
pub open spec fn empty_log() -> Seq<Seq<u8>> {
    Seq::empty()
}

/// The offset that the next append to `log` assigns: the number of payloads
/// already stored.
pub open spec fn next_offset(log: Seq<Seq<u8>>) -> nat {
    log.len()
}

/// `log` after one append of `payload`.
pub open spec fn log_after_append(log: Seq<Seq<u8>>, payload: Seq<u8>) -> Seq<Seq<u8>> {
    log.push(payload)
}

/// What a read of `offset` finds in `log`: the payload stored there, labelled
/// with the offset asked for, or nothing when `offset` is not below the length.
pub open spec fn record_at(log: Seq<Seq<u8>>, offset: nat) -> Option<RecordView> {
    if offset < log.len() {
        Some(RecordView { value: log[offset as int], offset })
    } else {
        None
    }
}

/// `log` after appending each of `payloads` in turn, first to last.
pub open spec fn log_after_appends(log: Seq<Seq<u8>>, payloads: Seq<Seq<u8>>) -> Seq<Seq<u8>>
    decreases payloads.len(),
{
    if payloads.len() == 0 {
        log
    } else {
        log_after_append(log_after_appends(log, payloads.drop_last()), payloads.last())
    }
}

/// The offset assigned to the append of `payloads[i]` when `payloads` are
/// appended to `log` in turn: the next offset of the log that the appends
/// before it have left.
pub open spec fn offset_assigned(log: Seq<Seq<u8>>, payloads: Seq<Seq<u8>>, i: int) -> nat {
    next_offset(log_after_appends(log, payloads.take(i)))
}

/// Appending payloads one after another stores them, in order, behind what
/// the log already held. Nothing already stored is moved, dropped or altered.
pub proof fn lemma_appends_extend_the_log(log: Seq<Seq<u8>>, payloads: Seq<Seq<u8>>)
    ensures
        log_after_appends(log, payloads) == log + payloads,
    decreases payloads.len(),
{
    if payloads.len() == 0 {
        assert(log + payloads =~= log);
    } else {
        lemma_appends_extend_the_log(log, payloads.drop_last());
        assert((log + payloads.drop_last()).push(payloads.last()) =~= log + payloads);
    }
}

/// On a log that starts empty, the append of the `i`-th payload is assigned
/// offset `i`.
pub proof fn lemma_fresh_log_assigns_positions(payloads: Seq<Seq<u8>>, i: int)
    requires
        0 <= i < payloads.len(),
    ensures
        offset_assigned(empty_log(), payloads, i) == i,
{
    lemma_appends_extend_the_log(empty_log(), payloads.take(i));
}

/// After payloads were appended to a log that started empty, every offset
/// below the length reads back the payload appended at that position,
/// labelled with that offset.
pub proof fn lemma_read_returns_what_was_appended(payloads: Seq<Seq<u8>>, i: int)
    requires
        0 <= i < payloads.len(),
    ensures
        next_offset(log_after_appends(empty_log(), payloads)) == payloads.len(),
        record_at(log_after_appends(empty_log(), payloads), i as nat) == Some(
            RecordView { value: payloads[i], offset: i as nat },
        ),
{
    lemma_appends_extend_the_log(empty_log(), payloads);
}

/// Later appends leave earlier records alone: a record that can be read
/// before further appends reads back the same after them.
pub proof fn lemma_appends_keep_earlier_records(
    log: Seq<Seq<u8>>,
    payloads: Seq<Seq<u8>>,
    offset: nat,
)
    requires
        offset < next_offset(log),
    ensures
        record_at(log_after_appends(log, payloads), offset) == record_at(log, offset),
{
    lemma_appends_extend_the_log(log, payloads);
}

/// A read finds nothing exactly at the offsets that are not below the length.
pub proof fn lemma_read_fails_from_length_on(log: Seq<Seq<u8>>, offset: nat)
    ensures
        record_at(log, offset) is None <==> offset >= next_offset(log),
{
}

/// Of two appends in a run, the earlier is assigned the strictly smaller
/// offset, whatever the log held before the run.
pub proof fn lemma_append_offsets_increase(
    log: Seq<Seq<u8>>,
    payloads: Seq<Seq<u8>>,
    earlier: int,
    later: int,
)
    requires
        0 <= earlier < later < payloads.len(),
    ensures
        offset_assigned(log, payloads, earlier) < offset_assigned(log, payloads, later),
{
    lemma_appends_extend_the_log(log, payloads.take(earlier));
    lemma_appends_extend_the_log(log, payloads.take(later));
}

/// Two appends with none between them are assigned offsets that differ by
/// exactly one.
pub proof fn lemma_consecutive_appends_differ_by_one(
    log: Seq<Seq<u8>>,
    payloads: Seq<Seq<u8>>,
    i: int,
)
    requires
        0 <= i,
        i + 1 < payloads.len(),
    ensures
        offset_assigned(log, payloads, i + 1) == offset_assigned(log, payloads, i) + 1,
{
    lemma_appends_extend_the_log(log, payloads.take(i));
    lemma_appends_extend_the_log(log, payloads.take(i + 1));
}

} // verus!

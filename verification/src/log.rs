//! What a log means.
//!
//! A log is a run of records, each starting where the one before it ends.
//! Read in order, with the last write to a key winning and a removal
//! deleting, the records give the key-value mapping that the log stands for;
//! the same reading gives, for each key that is left, the record that holds
//! its value.

use crate::codec::{decode_command, spec_decode};
use crate::command::{Command, CommandView};
use crate::error::KvStoreError;
use crate::frame::{find_frame_end, frame_end, lemma_frame_end_bounds, lemma_frame_end_local};
use crate::index::{index_clear, index_entries, index_insert, index_remove};
use crossbeam_skiplist::SkipMap;
use vstd::prelude::*;
use vstd::slice::slice_subrange;

verus! {

/// One record of a log: the bytes from `start` on, `len` of them, and the
/// command they hold.
pub struct Record {
    pub start: int,
    pub len: int,
    pub cmd: CommandView,
}

impl Record {
    /// The position just behind the record.
    pub open spec fn end(self) -> int {
        self.start + self.len
    }

    /// The span that the index keeps for the record.
    pub open spec fn span(self) -> (u64, u64) {
        (self.start as u64, self.len as u64)
    }

    /// The value that the record gives its key; empty for a removal.
    pub open spec fn value(self) -> Seq<char> {
        match self.cmd {
            CommandView::Put { value, .. } => value,
            CommandView::Rm { .. } => Seq::empty(),
        }
    }
}

/// The records of `log` from `pos` to its end, or `None` if the bytes from
/// `pos` on are not a run of whole records.
pub open spec fn records_from(log: Seq<u8>, pos: int) -> Option<Seq<Record>>
    decreases log.len() - pos,
{
    if pos < 0 || pos > log.len() {
        None
    } else if pos == log.len() {
        Some(Seq::empty())
    } else {
        match frame_end(log, pos) {
            Some(end) => if pos < end && end <= log.len() {
                match (spec_decode(log.subrange(pos, end)), records_from(log, end)) {
                    (Some(cmd), Some(rest)) => Some(
                        seq![Record { start: pos, len: end - pos, cmd }] + rest,
                    ),
                    _ => None,
                }
            } else {
                None
            },
            None => None,
        }
    }
}

/// The records of a whole log.
pub open spec fn records(log: Seq<u8>) -> Option<Seq<Record>> {
    records_from(log, 0)
}

/// The mapping after one more command.
pub open spec fn apply_command(m: Map<Seq<char>, Seq<char>>, c: CommandView) -> Map<Seq<char>, Seq<char>> {
    match c {
        CommandView::Put { key, value } => m.insert(key, value),
        CommandView::Rm { key } => m.remove(key),
    }
}

/// The mapping that a run of records leaves: the last write to a key wins,
/// a removal deletes.
pub open spec fn replay(recs: Seq<Record>) -> Map<Seq<char>, Seq<char>>
    decreases recs.len(),
{
    if recs.len() == 0 {
        Map::empty()
    } else {
        apply_command(replay(recs.drop_last()), recs.last().cmd)
    }
}

/// The live records after one more record.
pub open spec fn apply_record(live: Map<Seq<char>, Record>, r: Record) -> Map<Seq<char>, Record> {
    match r.cmd {
        CommandView::Put { key, .. } => live.insert(key, r),
        CommandView::Rm { key } => live.remove(key),
    }
}

/// For each key that a run of records leaves, the record that holds its
/// value: the last write to the key, if no removal follows it.
pub open spec fn live_of(recs: Seq<Record>) -> Map<Seq<char>, Record>
    decreases recs.len(),
{
    if recs.len() == 0 {
        Map::empty()
    } else {
        apply_record(live_of(recs.drop_last()), recs.last())
    }
}

/// The spans of the live records, as the index holds them.
pub open spec fn spans(live: Map<Seq<char>, Record>) -> Map<Seq<char>, (u64, u64)> {
    live.map_values(|r: Record| r.span())
}

/// The index that a log determines: for each key that the log leaves, the
/// span of the record with its value; empty if the bytes are no log.
pub open spec fn index_of(log: Seq<u8>) -> Map<Seq<char>, (u64, u64)> {
    match records(log) {
        Some(recs) => spans(live_of(recs)),
        None => Map::empty(),
    }
}

/// The mapping that a log stands for; empty if the bytes are no log.
pub open spec fn contents_of(log: Seq<u8>) -> Map<Seq<char>, Seq<char>> {
    match records(log) {
        Some(recs) => replay(recs),
        None => Map::empty(),
    }
}

/// One more record changes the mapping as its command says, and the live
/// records likewise.
pub proof fn lemma_replay_step(recs: Seq<Record>, added: Record)
    ensures
        replay(recs.push(added)) == apply_command(replay(recs), added.cmd),
        live_of(recs.push(added)) == apply_record(live_of(recs), added),
{
    assert(recs.push(added).drop_last() =~= recs);
}

/// The values of the live records are the mapping that the records leave.
pub proof fn lemma_live_values(recs: Seq<Record>)
    ensures
        live_of(recs).map_values(|r: Record| r.value()) == replay(recs),
        live_of(recs).dom() == replay(recs).dom(),
    decreases recs.len(),
{
    if recs.len() > 0 {
        lemma_live_values(recs.drop_last());
    }
}

/// Whether `r` is a record of `log`: it lies inside the log, ends where a
/// record that starts at its start ends, and holds the command that its
/// bytes decode to.
pub open spec fn record_in(log: Seq<u8>, r: Record) -> bool {
    &&& 0 <= r.start < r.end() <= log.len()
    &&& frame_end(log, r.start) == Some(r.end())
    &&& spec_decode(log.subrange(r.start, r.end())) == Some(r.cmd)
}

/// Whether `recs` lie one behind the other and fill the bytes from `from` to
/// `to`.
pub open spec fn contiguous(recs: Seq<Record>, from: int, to: int) -> bool {
    &&& recs.len() == 0 ==> from == to
    &&& recs.len() > 0 ==> recs[0].start == from && recs.last().end() == to
    &&& forall|i: int| 0 <= i < recs.len() - 1 ==> (#[trigger] recs[i]).end() == recs[i + 1].start
}

/// The records read from `pos` on are records of the log, lie one behind
/// the other and reach from `pos` to the end of the log.
pub proof fn lemma_records_shape(log: Seq<u8>, pos: int)
    requires
        records_from(log, pos) is Some,
    ensures
        0 <= pos <= log.len(),
        contiguous(records_from(log, pos).unwrap(), pos, log.len() as int),
        forall|i: int|
            0 <= i < records_from(log, pos).unwrap().len() ==> record_in(
                log,
                #[trigger] records_from(log, pos).unwrap()[i],
            ),
    decreases log.len() - pos,
{
    if pos < log.len() {
        let end = frame_end(log, pos).unwrap();
        lemma_records_shape(log, end);
    }
}

/// Records that lie one behind the other start at different places, the
/// later one behind the end of the earlier.
pub proof fn lemma_contiguous_order(log: Seq<u8>, recs: Seq<Record>, from: int, to: int, i: int, j: int)
    requires
        contiguous(recs, from, to),
        forall|k: int| 0 <= k < recs.len() ==> record_in(log, #[trigger] recs[k]),
        0 <= i < j < recs.len(),
    ensures
        from <= recs[i].start,
        recs[i].end() <= recs[j].start,
        recs[j].end() <= to,
    decreases j - i,
{
    lemma_contiguous_bounds(log, recs, from, to, i);
    lemma_contiguous_bounds(log, recs, from, to, j);
    if i + 1 < j {
        lemma_contiguous_order(log, recs, from, to, i + 1, j);
    }
}

/// Records that lie one behind the other from `from` to `to` all lie
/// between the two.
pub proof fn lemma_contiguous_bounds(log: Seq<u8>, recs: Seq<Record>, from: int, to: int, i: int)
    requires
        contiguous(recs, from, to),
        forall|k: int| 0 <= k < recs.len() ==> record_in(log, #[trigger] recs[k]),
        0 <= i < recs.len(),
    ensures
        from <= recs[i].start,
        recs[i].end() <= to,
{
    lemma_contiguous_from(log, recs, from, to, i);
    lemma_contiguous_to(log, recs, from, to, i);
}

proof fn lemma_contiguous_from(log: Seq<u8>, recs: Seq<Record>, from: int, to: int, i: int)
    requires
        contiguous(recs, from, to),
        forall|k: int| 0 <= k < recs.len() ==> record_in(log, #[trigger] recs[k]),
        0 <= i < recs.len(),
    ensures
        from <= recs[i].start,
    decreases i,
{
    if i > 0 {
        lemma_contiguous_from(log, recs, from, to, i - 1);
    }
}

proof fn lemma_contiguous_to(log: Seq<u8>, recs: Seq<Record>, from: int, to: int, i: int)
    requires
        contiguous(recs, from, to),
        forall|k: int| 0 <= k < recs.len() ==> record_in(log, #[trigger] recs[k]),
        0 <= i < recs.len(),
    ensures
        recs[i].end() <= to,
    decreases recs.len() - i,
{
    if i + 1 < recs.len() {
        lemma_contiguous_to(log, recs, from, to, i + 1);
    }
}

/// Writing one more record behind a log adds that record to its records and
/// leaves the others as they were.
pub proof fn lemma_records_append(log: Seq<u8>, pos: int, bytes: Seq<u8>, cmd: CommandView)
    requires
        records_from(log, pos) is Some,
        frame_end(bytes, 0) == Some(bytes.len() as int),
        spec_decode(bytes) == Some(cmd),
    ensures
        records_from(log + bytes, pos) == Some(
            records_from(log, pos).unwrap().push(
                Record { start: log.len() as int, len: bytes.len() as int, cmd },
            ),
        ),
    decreases log.len() - pos,
{
    let longer = log + bytes;
    lemma_frame_end_bounds(bytes, 0);
    if pos == log.len() {
        lemma_frame_end_local(bytes, 0, longer, pos);
        assert(longer.subrange(pos, longer.len() as int) =~= bytes);
        assert(records_from(longer, longer.len() as int) == Some(Seq::<Record>::empty()));
    } else {
        let end = frame_end(log, pos).unwrap();
        lemma_frame_end_local(log, pos, longer, pos);
        assert(longer.subrange(pos, end) =~= log.subrange(pos, end));
        lemma_records_append(log, end, bytes, cmd);
    }
}

/// The record that is live for a key is one of the records, and it is a
/// write to that key.
pub proof fn lemma_live_is_record(recs: Seq<Record>, key: Seq<char>)
    requires
        live_of(recs).contains_key(key),
    ensures
        exists|i: int| 0 <= i < recs.len() && recs[i] == live_of(recs)[key],
        live_of(recs)[key].cmd is Put,
        live_of(recs)[key].cmd.key() == key,
    decreases recs.len(),
{
    if recs.len() > 0 {
        let before = recs.drop_last();
        let last = recs.last();
        if last.cmd is Put && last.cmd.key() == key {
            assert(recs[recs.len() - 1] == live_of(recs)[key]);
        } else {
            lemma_live_is_record(before, key);
            let i = choose|i: int| 0 <= i < before.len() && before[i] == live_of(before)[key];
            assert(recs[i] == live_of(recs)[key]);
        }
    }
}

/// The record that is live for a key lies inside the log, and its bytes
/// decode to a write of the key's current value to that key.
pub proof fn lemma_live_holds_value(log: Seq<u8>, key: Seq<char>)
    requires
        records(log) is Some,
        live_of(records(log).unwrap()).contains_key(key),
    ensures
        record_in(log, live_of(records(log).unwrap())[key]),
        contents_of(log).contains_key(key),
        live_of(records(log).unwrap())[key].cmd == (CommandView::Put {
            key,
            value: contents_of(log)[key],
        }),
{
    let recs = records(log).unwrap();
    lemma_records_shape(log, 0);
    lemma_live_is_record(recs, key);
    lemma_live_values(recs);
}

/// Reads a log from its start and rebuilds the index from it: afterwards the
/// index holds, for each key that the log leaves, the span of the record
/// with its value. Returns the length of the log. Fails with
/// `RebuildIndexError` exactly if the bytes are not a run of whole records.
pub fn rebuild_index(log: &[u8], index: &mut SkipMap<String, (u64, u64)>) -> (out: Result<
    u64,
    KvStoreError,
>)
    ensures
        match out {
            Ok(offset) => {
                &&& records(log@) is Some
                &&& index_entries(*final(index)) == spans(live_of(records(log@).unwrap()))
                &&& offset == log@.len()
            },
            Err(e) => records(log@).is_none() && e == KvStoreError::RebuildIndexError,
        },
{
    index_clear(index);
    let n: usize = log.len();
    let mut pos: usize = 0;
    let ghost mut done: Seq<Record> = Seq::empty();
    while pos < n
        invariant
            n == log@.len(),
            pos <= n,
            records(log@) == match records_from(log@, pos as int) {
                Some(rest) => Some(done + rest),
                None => None,
            },
            index_entries(*index) == spans(live_of(done)),
        decreases n - pos,
    {
        let end: usize = match find_frame_end(log, pos) {
            Some(end) => end,
            None => {
                return Err(KvStoreError::RebuildIndexError);
            },
        };
        let cmd: Command = match decode_command(slice_subrange(log, pos, end)) {
            Ok(cmd) => cmd,
            Err(_) => {
                return Err(KvStoreError::RebuildIndexError);
            },
        };
        let ghost rec = Record { start: pos as int, len: end - pos, cmd: cmd@ };
        proof {
            assert(done.push(rec).drop_last() =~= done);
        }
        match cmd {
            Command::Put { key, .. } => {
                index_insert(index, key, (pos as u64, (end - pos) as u64));
            },
            Command::Rm { key } => {
                index_remove(index, &key);
            },
        }
        proof {
            done = done.push(rec);
        }
        pos = end;
    }
    Ok(pos as u64)
}

} // verus!

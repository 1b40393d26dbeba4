//! What compaction writes, and why that keeps the meaning of the log.
//!
//! Compaction reads the log from its start and writes again, in their order,
//! the records that are still live: the writes that the index points at.
//! Overwritten writes and all removals are left out.

use crate::codec::{round_trips, spec_encode};
use crate::command::CommandView;
use crate::frame::{lemma_frame_end_local, same_bytes};
use crate::log::{
    contents_of, lemma_contiguous_order, lemma_live_is_record, lemma_live_values,
    lemma_records_append, lemma_records_shape, live_of, record_in, records, replay, Record,
};
use vstd::prelude::*;

verus! {

/// Whether the record that holds `cmd` and starts at `start` is the one
/// that `live` keeps for its key.
pub open spec fn is_live_at(cmd: CommandView, start: int, live: Map<Seq<char>, Record>) -> bool {
    &&& cmd is Put
    &&& live.contains_key(cmd.key())
    &&& live[cmd.key()].start == start
}

/// Whether `r` is the record that `live` keeps for its key.
pub open spec fn is_live(r: Record, live: Map<Seq<char>, Record>) -> bool {
    &&& r.cmd is Put
    &&& live.contains_key(r.cmd.key())
    &&& live[r.cmd.key()].start == r.start
}

/// The bytes that a command is written as; empty where the encoder refuses.
pub open spec fn encoding(c: CommandView) -> Seq<u8> {
    match spec_encode(c) {
        Some(bytes) => bytes,
        None => Seq::empty(),
    }
}

/// The live records among `recs`, written anew one behind the other.
pub open spec fn kept_bytes(recs: Seq<Record>, live: Map<Seq<char>, Record>) -> Seq<u8>
    decreases recs.len(),
{
    if recs.len() == 0 {
        Seq::empty()
    } else if is_live(recs.last(), live) {
        kept_bytes(recs.drop_last(), live) + encoding(recs.last().cmd)
    } else {
        kept_bytes(recs.drop_last(), live)
    }
}

/// The records of `kept_bytes`: the live records among `recs`, each where
/// it lies after being written anew.
pub open spec fn kept_records(recs: Seq<Record>, live: Map<Seq<char>, Record>) -> Seq<Record>
    decreases recs.len(),
{
    if recs.len() == 0 {
        Seq::empty()
    } else if is_live(recs.last(), live) {
        kept_records(recs.drop_last(), live).push(
            Record {
                start: kept_bytes(recs.drop_last(), live).len() as int,
                len: encoding(recs.last().cmd).len() as int,
                cmd: recs.last().cmd,
            },
        )
    } else {
        kept_records(recs.drop_last(), live)
    }
}

/// Whether every live record among `recs` can be written anew.
pub open spec fn kept_round_trip(recs: Seq<Record>, live: Map<Seq<char>, Record>) -> bool {
    forall|i: int| 0 <= i < recs.len() && is_live(#[trigger] recs[i], live) ==> round_trips(recs[i].cmd)
}

/// Whether some record among `recs` is not live: an overwritten write or a
/// removal.
pub open spec fn has_dead(recs: Seq<Record>, live: Map<Seq<char>, Record>) -> bool {
    exists|i: int| 0 <= i < recs.len() && !is_live(#[trigger] recs[i], live)
}

/// Whether a log can be compacted: it is a run of records, and each live
/// one can be written anew.
pub open spec fn can_compact(log: Seq<u8>) -> bool {
    &&& records(log) is Some
    &&& kept_round_trip(records(log).unwrap(), live_of(records(log).unwrap()))
}

/// The log that compaction writes in place of `log`.
pub open spec fn compacted(log: Seq<u8>) -> Seq<u8> {
    match records(log) {
        Some(recs) => kept_bytes(recs, live_of(recs)),
        None => log,
    }
}

/// Whether a log is a run of records of which each is written exactly as
/// the encoder writes its command.
pub open spec fn is_canonical(log: Seq<u8>) -> bool {
    &&& records(log) is Some
    &&& forall|i: int|
        0 <= i < records(log).unwrap().len() ==> spec_encode(
            (#[trigger] records(log).unwrap()[i]).cmd,
        ) == Some(log.subrange(records(log).unwrap()[i].start, records(log).unwrap()[i].end()))
}

/// Whether a log holds a record that compaction leaves out.
pub open spec fn has_garbage(log: Seq<u8>) -> bool {
    records(log) is Some && has_dead(records(log).unwrap(), live_of(records(log).unwrap()))
}

/// The empty log is canonical.
pub proof fn lemma_empty_is_canonical()
    ensures
        is_canonical(Seq::<u8>::empty()),
{
}

/// A canonical log stays canonical when the encoder's bytes for a command
/// that round-trips are written behind it.
pub proof fn lemma_canonical_append(log: Seq<u8>, cmd: CommandView)
    requires
        is_canonical(log),
        round_trips(cmd),
    ensures
        is_canonical(log + encoding(cmd)),
{
    let bytes = encoding(cmd);
    let longer = log + bytes;
    let recs = records(log).unwrap();
    lemma_records_append(log, 0, bytes, cmd);
    lemma_records_shape(log, 0);
    let more = records(longer).unwrap();
    assert forall|i: int| 0 <= i < more.len() implies spec_encode((#[trigger] more[i]).cmd) == Some(
        longer.subrange(more[i].start, more[i].end()),
    ) by {
        if i < recs.len() {
            assert(longer.subrange(recs[i].start, recs[i].end()) =~= log.subrange(
                recs[i].start,
                recs[i].end(),
            ));
        } else {
            assert(longer.subrange(log.len() as int, longer.len() as int) =~= bytes);
        }
    }
}

/// What compaction writes is a canonical log whose records are the live
/// records, provided each of them can be written anew.
pub proof fn lemma_kept_records(recs: Seq<Record>, live: Map<Seq<char>, Record>)
    requires
        kept_round_trip(recs, live),
    ensures
        records(kept_bytes(recs, live)) == Some(kept_records(recs, live)),
        is_canonical(kept_bytes(recs, live)),
    decreases recs.len(),
{
    if recs.len() > 0 {
        let before = recs.drop_last();
        let last = recs.last();
        assert forall|i: int| 0 <= i < before.len() && is_live(#[trigger] before[i], live) implies round_trips(
            before[i].cmd,
        ) by {
            assert(before[i] == recs[i]);
        }
        lemma_kept_records(before, live);
        if is_live(last, live) {
            lemma_records_append(kept_bytes(before, live), 0, encoding(last.cmd), last.cmd);
            lemma_canonical_append(kept_bytes(before, live), last.cmd);
        }
    }
}

/// The mapping that holds, of the keys that `live` keeps, those whose record
/// is among the first `n` of `recs`, each with its value.
pub open spec fn seen(recs: Seq<Record>, live: Map<Seq<char>, Record>, n: int) -> Map<Seq<char>, Seq<char>> {
    Map::new(
        |k: Seq<char>| live.contains_key(k) && exists|j: int| 0 <= j < n && #[trigger] recs[j] == live[k],
        |k: Seq<char>| live[k].value(),
    )
}

proof fn lemma_kept_replay_prefix(recs: Seq<Record>, n: int)
    requires
        0 <= n <= recs.len(),
        forall|i: int, j: int| 0 <= i < j < recs.len() ==> recs[i].start != recs[j].start,
    ensures
        replay(kept_records(recs.take(n), live_of(recs))) == seen(recs, live_of(recs), n),
    decreases n,
{
    let live = live_of(recs);
    if n == 0 {
        assert(replay(kept_records(recs.take(0), live)) =~= seen(recs, live, 0));
    } else {
        lemma_kept_replay_prefix(recs, n - 1);
        let part = recs.take(n);
        let r = recs[n - 1];
        assert(part.drop_last() =~= recs.take(n - 1));
        assert(part.last() == r);
        let kept = kept_records(recs.take(n - 1), live);
        if is_live(r, live) {
            let k0 = r.cmd.key();
            lemma_live_is_record(recs, k0);
            let j0 = choose|j: int| 0 <= j < recs.len() && recs[j] == live[k0];
            assert(j0 == n - 1);
            let added = Record {
                start: kept_bytes(recs.take(n - 1), live).len() as int,
                len: encoding(r.cmd).len() as int,
                cmd: r.cmd,
            };
            assert(kept_records(part, live) == kept.push(added));
            assert(kept.push(added).drop_last() =~= kept);
            assert(seen(recs, live, n) =~= seen(recs, live, n - 1).insert(k0, r.value())) by {
                assert forall|k: Seq<char>| seen(recs, live, n).contains_key(k) implies #[trigger] seen(
                    recs,
                    live,
                    n - 1,
                ).insert(k0, r.value()).contains_key(k) by {
                    if k != k0 {
                        lemma_live_is_record(recs, k);
                        let j = choose|j: int| 0 <= j < n && recs[j] == live[k];
                        assert(j != n - 1);
                    }
                }
                assert(recs[n - 1] == live[k0]);
            }
        } else {
            assert(kept_records(part, live) == kept);
            assert(seen(recs, live, n) =~= seen(recs, live, n - 1)) by {
                assert forall|k: Seq<char>| seen(recs, live, n).contains_key(k) implies #[trigger] seen(
                    recs,
                    live,
                    n - 1,
                ).contains_key(k) by {
                    lemma_live_is_record(recs, k);
                    let j = choose|j: int| 0 <= j < n && recs[j] == live[k];
                    assert(j != n - 1);
                }
            }
        }
    }
}

/// The live records of a log, read as a log of their own, leave the same
/// mapping as the whole log.
pub proof fn lemma_kept_replay(log: Seq<u8>)
    requires
        records(log) is Some,
    ensures
        replay(kept_records(records(log).unwrap(), live_of(records(log).unwrap()))) == replay(
            records(log).unwrap(),
        ),
{
    let recs = records(log).unwrap();
    let live = live_of(recs);
    lemma_records_shape(log, 0);
    assert forall|i: int, j: int| 0 <= i < j < recs.len() implies recs[i].start != recs[j].start by {
        lemma_contiguous_order(log, recs, 0, log.len() as int, i, j);
        assert(record_in(log, recs[i]));
    }
    lemma_kept_replay_prefix(recs, recs.len() as int);
    assert(recs.take(recs.len() as int) =~= recs);
    lemma_live_values(recs);
    assert(seen(recs, live, recs.len() as int) =~= live.map_values(|r: Record| r.value())) by {
        assert forall|k: Seq<char>| live.contains_key(k) implies #[trigger] seen(
            recs,
            live,
            recs.len() as int,
        ).contains_key(k) by {
            lemma_live_is_record(recs, k);
        }
    }
}

/// Compaction keeps what the log means: where a log can be compacted, what
/// is written is again a log, a canonical one, and stands for the same
/// mapping.
pub proof fn lemma_compaction_keeps_contents(log: Seq<u8>)
    requires
        can_compact(log),
    ensures
        records(compacted(log)) is Some,
        is_canonical(compacted(log)),
        contents_of(compacted(log)) == contents_of(log),
{
    let recs = records(log).unwrap();
    lemma_kept_records(recs, live_of(recs));
    lemma_kept_replay(log);
}

/// In a canonical log every record can be written anew, so the log can be
/// compacted.
pub proof fn lemma_canonical_can_compact(log: Seq<u8>)
    requires
        is_canonical(log),
    ensures
        can_compact(log),
{
    let recs = records(log).unwrap();
    lemma_records_shape(log, 0);
    assert forall|i: int| 0 <= i < recs.len() implies round_trips((#[trigger] recs[i]).cmd) by {
        let r = recs[i];
        let bytes = log.subrange(r.start, r.end());
        assert(record_in(log, r));
        assert(same_bytes(log, r.start, bytes, 0, r.len));
        lemma_frame_end_local(log, r.start, bytes, 0);
    }
}

proof fn lemma_kept_size_prefix(log: Seq<u8>, n: int)
    requires
        is_canonical(log),
        0 <= n <= records(log).unwrap().len(),
    ensures
        kept_bytes(records(log).unwrap().take(n), live_of(records(log).unwrap())).len() <= (if n
            == 0 {
            0
        } else {
            records(log).unwrap()[n - 1].end()
        }),
        has_dead(records(log).unwrap().take(n), live_of(records(log).unwrap())) ==> kept_bytes(
            records(log).unwrap().take(n),
            live_of(records(log).unwrap()),
        ).len() < records(log).unwrap()[n - 1].end(),
    decreases n,
{
    let recs = records(log).unwrap();
    let live = live_of(recs);
    lemma_records_shape(log, 0);
    if n > 0 {
        lemma_kept_size_prefix(log, n - 1);
        let part = recs.take(n);
        let r = recs[n - 1];
        assert(part.drop_last() =~= recs.take(n - 1));
        assert(part.last() == r);
        assert(record_in(log, r));
        if n > 1 {
            assert(recs[n - 2].end() == recs[n - 2 + 1].start);
        }
        if has_dead(part, live) {
            let i = choose|i: int| 0 <= i < part.len() && !is_live(#[trigger] part[i], live);
            if i < n - 1 {
                assert(recs.take(n - 1)[i] == part[i]);
                assert(has_dead(recs.take(n - 1), live));
            }
        }
    }
}

/// Compaction does not make a canonical log longer, and makes it shorter
/// where it holds a record that is left out.
pub proof fn lemma_compaction_shrinks(log: Seq<u8>)
    requires
        is_canonical(log),
    ensures
        compacted(log).len() <= log.len(),
        has_garbage(log) ==> compacted(log).len() < log.len(),
{
    let recs = records(log).unwrap();
    lemma_records_shape(log, 0);
    lemma_kept_size_prefix(log, recs.len() as int);
    assert(recs.take(recs.len() as int) =~= recs);
}

} // verus!

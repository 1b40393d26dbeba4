//! The log-structured storage engine.
//!
//! The engine owns the bytes of the log and an index that points, for each
//! key, at the record with its current value. Every write is one record
//! appended to the log. When the log outgrows a threshold it is compacted:
//! written anew with only the records that the index points at.
//!
//! The engine keeps the log in memory and leaves it to its owner to mirror
//! the bytes on disk: `log` hands them out, `generation` tells when they
//! were written anew as a whole.

use crate::codec::{decode_command, encode_checked, round_trips, spec_encode};
use crate::command::{Command, CommandView};
use crate::compaction::{
    can_compact, compacted, encoding, has_garbage, is_canonical, is_live, is_live_at, kept_bytes,
    kept_round_trip, lemma_canonical_append, lemma_canonical_can_compact,
    lemma_compaction_keeps_contents, lemma_compaction_shrinks, lemma_empty_is_canonical,
};
use crate::error::KvStoreError;
use crate::frame::find_frame_end;
use crate::index::{index_contains_key, index_entries, index_get, index_insert, index_new, index_remove};
use crate::kvengine::KvEngine;
use crate::log::{
    apply_command, contents_of, index_of, lemma_live_holds_value, lemma_live_values, lemma_records_append,
    lemma_replay_step, live_of, rebuild_index, records, records_from, spans, Record,
};
use crossbeam_skiplist::SkipMap;
use vstd::prelude::*;
use vstd::slice::slice_subrange;

verus! {

/// The log size, in bytes, beyond which a write triggers compaction.
pub const COMPACT_THRESHOLD: u64 = 1048576;

/// The generation that follows `generation`.
pub open spec fn bumped(generation: u64) -> u64 {
    if generation == u64::MAX {
        0
    } else {
        (generation + 1) as u64
    }
}

/// The log after the record of `cmd` has been written behind it.
pub open spec fn grown(log: Seq<u8>, cmd: CommandView) -> Seq<u8> {
    log + encoding(cmd)
}

/// Whether a log that has just grown to `log` is compacted: it is beyond
/// the threshold, and it can be.
pub open spec fn rewrites(log: Seq<u8>) -> bool {
    log.len() > COMPACT_THRESHOLD && can_compact(log)
}

/// Whether writing `cmd` behind `log` succeeds: the command round-trips,
/// and the log stays within the threshold or can be compacted.
pub open spec fn write_ok(log: Seq<u8>, cmd: CommandView) -> bool {
    round_trips(cmd) && (grown(log, cmd).len() <= COMPACT_THRESHOLD || can_compact(grown(log, cmd)))
}

/// The log after an attempt to write `cmd` behind `log`: unchanged if the
/// command does not round-trip; else grown by its record, and compacted if
/// that took it beyond the threshold.
pub open spec fn written(log: Seq<u8>, cmd: CommandView) -> Seq<u8> {
    if !round_trips(cmd) {
        log
    } else if rewrites(grown(log, cmd)) {
        compacted(grown(log, cmd))
    } else {
        grown(log, cmd)
    }
}

/// The generation after an attempt to write `cmd` behind `log`.
pub open spec fn written_generation(generation: u64, log: Seq<u8>, cmd: CommandView) -> u64 {
    if round_trips(cmd) && rewrites(grown(log, cmd)) {
        bumped(generation)
    } else {
        generation
    }
}

/// Whether `e` is the error that a failed write of `cmd` returns: `Serde`
/// if the encoder refused the command, `SerializeCmdError` otherwise.
pub open spec fn is_write_error(e: KvStoreError, cmd: CommandView) -> bool {
    if spec_encode(cmd) is Some {
        e == KvStoreError::SerializeCmdError
    } else {
        e is Serde
    }
}

/// Writing to a canonical log leaves a canonical log, and succeeds exactly
/// if the command round-trips.
pub proof fn lemma_canonical_write(log: Seq<u8>, cmd: CommandView)
    requires
        is_canonical(log),
    ensures
        is_canonical(written(log, cmd)),
        write_ok(log, cmd) == round_trips(cmd),
{
    if round_trips(cmd) {
        lemma_canonical_append(log, cmd);
        lemma_canonical_can_compact(grown(log, cmd));
        lemma_compaction_keeps_contents(grown(log, cmd));
    }
}

/// A write changes what the log stands for as its command says, if it
/// happens at all.
pub proof fn lemma_written_contents(log: Seq<u8>, cmd: CommandView)
    requires
        records(log) is Some,
    ensures
        records(written(log, cmd)) is Some,
        contents_of(written(log, cmd)) == (if round_trips(cmd) {
            apply_command(contents_of(log), cmd)
        } else {
            contents_of(log)
        }),
{
    if round_trips(cmd) {
        let recs = records(log).unwrap();
        let added = Record { start: log.len() as int, len: encoding(cmd).len() as int, cmd };
        lemma_records_append(log, 0, encoding(cmd), cmd);
        lemma_replay_step(recs, added);
        if rewrites(grown(log, cmd)) {
            lemma_compaction_keeps_contents(grown(log, cmd));
        }
    }
}

/// What a store holds: the log, the index over it, the append cursor and
/// the count of compactions.
struct Core {
    index: SkipMap<String, (u64, u64)>,
    log: Vec<u8>,
    offset: u64,
    generation: u64,
}

impl Core {
    /// The log is a run of whole records, the index holds exactly the
    /// spans of its live records, and the cursor stands at its end.
    spec fn wf(&self) -> bool {
        &&& records(self.log@) is Some
        &&& index_entries(self.index) == index_of(self.log@)
        &&& self.offset == self.log@.len()
    }

    /// A store over no log at all.
    fn empty() -> (out: Core)
        ensures
            out.wf(),
            out.log@ == Seq::<u8>::empty(),
            out.generation == 0,
    {
        let out = Core { index: index_new(), log: Vec::new(), offset: 0, generation: 0 };
        assert(index_entries(out.index) =~= index_of(out.log@));
        out
    }

    /// Appends the record of a command to the log and moves the cursor
    /// behind it. The index is left for the caller to update.
    fn append(&mut self, bytes: &Vec<u8>) -> (start: u64)
        requires
            old(self).offset == old(self).log@.len(),
        ensures
            final(self).log@ == old(self).log@ + bytes@,
            final(self).offset == final(self).log@.len(),
            final(self).index == old(self).index,
            final(self).generation == old(self).generation,
            start == old(self).log@.len(),
    {
        let start = self.offset;
        self.log.extend_from_slice(bytes.as_slice());
        self.offset = self.log.len() as u64;
        start
    }

    /// Whether the index points at the record that starts at `pos` and
    /// holds `cmd`: whether that record is live.
    fn points_at(&self, cmd: &Command, pos: usize) -> (out: bool)
        requires
            self.wf(),
            pos <= self.log@.len(),
        ensures
            out == is_live_at(cmd@, pos as int, live_of(records(self.log@).unwrap())),
    {
        match cmd {
            Command::Put { key, .. } => match index_get(&self.index, key) {
                Some(span) => {
                    proof {
                        lemma_live_holds_value(self.log@, key@);
                    }
                    span.0 == pos as u64
                },
                None => false,
            },
            Command::Rm { .. } => false,
        }
    }

    /// Compacts the log if it has outgrown the threshold.
    fn settle(&mut self) -> (out: Result<(), KvStoreError>)
        requires
            old(self).wf(),
        ensures
            final(self).wf(),
            out.is_ok() == (old(self).log@.len() <= COMPACT_THRESHOLD || can_compact(old(self).log@)),
            final(self).log@ == (if rewrites(old(self).log@) {
                compacted(old(self).log@)
            } else {
                old(self).log@
            }),
            final(self).generation == (if rewrites(old(self).log@) {
                bumped(old(self).generation)
            } else {
                old(self).generation
            }),
            out matches Err(e) ==> e == KvStoreError::SerializeCmdError,
    {
        if self.offset > COMPACT_THRESHOLD {
            self.compact()
        } else {
            Ok(())
        }
    }

    /// Writes the live records anew into a fresh log, in their order, and
    /// takes that log in place of the old one, with the index rebuilt from
    /// it. Leaves everything as it was if a record cannot be written.
    fn compact(&mut self) -> (out: Result<(), KvStoreError>)
        requires
            old(self).wf(),
        ensures
            final(self).wf(),
            out.is_ok() == can_compact(old(self).log@),
            final(self).log@ == (if can_compact(old(self).log@) {
                compacted(old(self).log@)
            } else {
                old(self).log@
            }),
            final(self).generation == (if can_compact(old(self).log@) {
                bumped(old(self).generation)
            } else {
                old(self).generation
            }),
            out matches Err(e) ==> e == KvStoreError::SerializeCmdError,
    {
        let ghost recs = records(self.log@).unwrap();
        let ghost live = live_of(recs);
        let n: usize = self.log.len();
        let mut fresh: Vec<u8> = Vec::new();
        let mut pos: usize = 0;
        let ghost mut done: int = 0;
        while pos < n
            invariant
                *self == *old(self),
                self.wf(),
                recs == records(self.log@).unwrap(),
                live == live_of(recs),
                n == self.log@.len(),
                0 <= done <= recs.len(),
                pos <= n,
                records_from(self.log@, pos as int) == Some(recs.skip(done)),
                fresh@ == kept_bytes(recs.take(done), live),
                kept_round_trip(recs.take(done), live),
            decreases n - pos,
        {
            let end: usize = match find_frame_end(self.log.as_slice(), pos) {
                Some(end) => end,
                None => {
                    return Err(KvStoreError::SerializeCmdError);
                },
            };
            let cmd: Command = match decode_command(slice_subrange(self.log.as_slice(), pos, end)) {
                Ok(cmd) => cmd,
                Err(_) => {
                    return Err(KvStoreError::SerializeCmdError);
                },
            };
            let ghost rec = Record { start: pos as int, len: end - pos, cmd: cmd@ };
            proof {
                let rest = records_from(self.log@, end as int).unwrap();
                assert(recs.skip(done) == seq![rec] + rest);
                assert(recs.skip(done)[0] == rec);
                assert((seq![rec] + rest).skip(1) =~= rest);
                assert(recs.take(done + 1).drop_last() =~= recs.take(done));
            }
            let keep: bool = self.points_at(&cmd, pos);
            if keep {
                let bytes: Vec<u8> = match encode_checked(&cmd) {
                    Ok(bytes) => bytes,
                    Err(_) => {
                        return Err(KvStoreError::SerializeCmdError);
                    },
                };
                fresh.extend_from_slice(bytes.as_slice());
            }
            proof {
                assert forall|i: int|
                    0 <= i < done + 1 && is_live(#[trigger] recs.take(done + 1)[i], live) implies round_trips(
                    recs.take(done + 1)[i].cmd,
                ) by {
                    if i < done {
                        assert(recs.take(done)[i] == recs.take(done + 1)[i]);
                    }
                }
                done = done + 1;
            }
            pos = end;
        }
        proof {
            assert(recs.take(done) =~= recs);
            lemma_compaction_keeps_contents(self.log@);
        }
        self.log = fresh;
        match rebuild_index(self.log.as_slice(), &mut self.index) {
            Ok(offset) => {
                self.offset = offset;
            },
            Err(_) => {
                return Err(KvStoreError::SerializeCmdError);
            },
        }
        self.generation = if self.generation == u64::MAX {
            0
        } else {
            self.generation + 1
        };
        Ok(())
    }

    /// Writes the record of `cmd` behind the log, once it is known to
    /// round-trip, brings the index up to it, and compacts the log if it
    /// has outgrown the threshold.
    fn write(&mut self, cmd: Command) -> (out: Result<(), KvStoreError>)
        requires
            old(self).wf(),
        ensures
            final(self).wf(),
            out.is_ok() == write_ok(old(self).log@, cmd@),
            final(self).log@ == written(old(self).log@, cmd@),
            final(self).generation == written_generation(old(self).generation, old(self).log@, cmd@),
            out matches Err(e) ==> is_write_error(e, cmd@),
    {
        let bytes = encode_checked(&cmd)?;
        let ghost before = self.log@;
        let ghost recs = records(before).unwrap();
        let ghost added = Record { start: before.len() as int, len: bytes@.len() as int, cmd: cmd@ };
        let start = self.append(&bytes);
        proof {
            lemma_records_append(before, 0, bytes@, cmd@);
            lemma_replay_step(recs, added);
        }
        match cmd {
            Command::Put { key, .. } => {
                index_insert(&mut self.index, key, (start, bytes.len() as u64));
            },
            Command::Rm { key } => {
                index_remove(&mut self.index, &key);
            },
        }
        assert(index_entries(self.index) =~= index_of(self.log@));
        self.settle()
    }

    /// Reads the value of `key` out of the record that the index points
    /// at, if the index holds the key.
    fn get(&self, key: String) -> (out: Result<Option<String>, KvStoreError>)
        requires
            self.wf(),
        ensures
            out matches Ok(found) && match found {
                Some(value) => contents_of(self.log@).contains_key(key@) && contents_of(self.log@)[key@]
                    == value@,
                None => !contents_of(self.log@).contains_key(key@),
            },
    {
        match index_get(&self.index, &key) {
            Some(span) => {
                let ghost rec = live_of(records(self.log@).unwrap())[key@];
                proof {
                    lemma_live_holds_value(self.log@, key@);
                    assert(rec.end() <= self.log.len());
                }
                let start: usize = span.0 as usize;
                let end: usize = start + span.1 as usize;
                match decode_command(slice_subrange(self.log.as_slice(), start, end)) {
                    Ok(Command::Put { value, .. }) => Ok(Some(value)),
                    Ok(Command::Rm { .. }) => Err(KvStoreError::GetNonExistValue),
                    Err(e) => Err(e),
                }
            },
            None => {
                proof {
                    lemma_live_values(records(self.log@).unwrap());
                }
                Ok(None)
            },
        }
    }

    /// Whether the store holds `key`.
    fn holds(&self, key: &String) -> (out: bool)
        requires
            self.wf(),
        ensures
            out == contents_of(self.log@).contains_key(key@),
    {
        proof {
            lemma_live_values(records(self.log@).unwrap());
        }
        index_contains_key(&self.index, key)
    }
}

/// A key-value store kept as a log of records with an index over it.
///
/// At all times the log of a store is a run of whole records, its index
/// holds exactly the spans of the live ones, and its append cursor stands
/// at the end of the log. So a store is known by its log: what it maps and
/// where its records lie follow from the bytes.
pub struct KvStore {
    core: Core,
}

impl KvStore {
    #[verifier::type_invariant]
    spec fn sound(self) -> bool {
        self.core.wf()
    }

    /// The bytes of the log.
    pub closed spec fn log_view(&self) -> Seq<u8> {
        self.core.log@
    }

    /// The number of compactions so far, counted round the range of `u64`.
    pub closed spec fn generation_view(&self) -> u64 {
        self.core.generation
    }

    /// Opens a store over the bytes of a log, replaying them to rebuild the
    /// index; an empty log gives an empty store, and is canonical. Fails
    /// with `RebuildIndexError` exactly if the bytes are not a run of whole
    /// records.
    pub fn open(log: Vec<u8>) -> (out: Result<KvStore, KvStoreError>)
        ensures
            out.is_ok() == records(log@).is_some(),
            match out {
                Ok(store) => store.log_view() == log@ && store.generation_view() == 0,
                Err(e) => e == KvStoreError::RebuildIndexError,
            },
            log@.len() == 0 ==> is_canonical(log@),
    {
        proof {
            if log@.len() == 0 {
                lemma_empty_is_canonical();
            }
        }
        let mut index = index_new();
        let offset = rebuild_index(log.as_slice(), &mut index)?;
        Ok(KvStore { core: Core { index, log, offset, generation: 0 } })
    }

    /// The bytes of the log, for the owner to mirror on disk.
    pub fn log(&self) -> (out: &[u8])
        ensures
            out@ == self.log_view(),
    {
        self.core.log.as_slice()
    }

    /// Where the record with the value of `key` lies in the log: its offset
    /// and its length, if the key is there.
    pub fn locate(&self, key: &String) -> (out: Option<(u64, u64)>)
        ensures
            out == if index_of(self.log_view()).contains_key(key@) {
                Some(index_of(self.log_view())[key@])
            } else {
                None
            },
    {
        proof {
            use_type_invariant(self);
        }
        index_get(&self.core.index, key)
    }

    /// The append cursor: the length of the log.
    pub fn offset(&self) -> (out: u64)
        ensures
            out == self.log_view().len(),
    {
        proof {
            use_type_invariant(self);
        }
        self.core.offset
    }

    /// The number of compactions so far, counted round the range of `u64`.
    /// While it stays the same the log has only grown at its end.
    pub fn generation(&self) -> (out: u64)
        ensures
            out == self.generation_view(),
    {
        self.core.generation
    }

    /// Rewrites the log with only its live records: the writes that the
    /// index points at, in their order. Overwritten writes and removals are
    /// dropped. The index is rebuilt from the new log, which stands for the
    /// same mapping as the old one.
    ///
    /// Each live record is written anew and checked; if one cannot be, the
    /// store is left as it was and the call fails with `SerializeCmdError`.
    /// That does not happen in a canonical log, and compaction makes the log
    /// canonical; such a log does not grow by it, and shrinks if it held a
    /// record that is dropped.
    pub fn compact(&mut self) -> (out: Result<(), KvStoreError>)
        ensures
            out.is_ok() == can_compact(old(self).log_view()),
            out is Ok ==> {
                &&& final(self).log_view() == compacted(old(self).log_view())
                &&& final(self).generation_view() == bumped(old(self).generation_view())
                &&& is_canonical(final(self).log_view())
            },
            out is Err ==> {
                &&& final(self).log_view() == old(self).log_view()
                &&& final(self).generation_view() == old(self).generation_view()
            },
            out matches Err(e) ==> e == KvStoreError::SerializeCmdError,
            contents_of(final(self).log_view()) == contents_of(old(self).log_view()),
            is_canonical(old(self).log_view()) ==> {
                &&& out is Ok
                &&& final(self).log_view().len() <= old(self).log_view().len()
                &&& has_garbage(old(self).log_view()) ==> final(self).log_view().len() < old(
                    self,
                ).log_view().len()
            },
    {
        proof {
            use_type_invariant(&*self);
            if can_compact(self.core.log@) {
                lemma_compaction_keeps_contents(self.core.log@);
            }
            if is_canonical(self.core.log@) {
                lemma_canonical_can_compact(self.core.log@);
                lemma_compaction_shrinks(self.core.log@);
            }
        }
        let mut core = Core::empty();
        std::mem::swap(&mut core, &mut self.core);
        let out = core.compact();
        self.core = core;
        out
    }
}

impl KvEngine for KvStore {
    /// Nothing is asked of a store: it is sound at all times.
    open spec fn inv(&self) -> bool {
        true
    }

    /// The mapping that the log stands for.
    open spec fn contents(&self) -> Map<Seq<char>, Seq<char>> {
        contents_of(self.log_view())
    }

    /// Appends a write of `value` to `key` to the log and points the index
    /// at it; then compacts the log if it has outgrown the threshold.
    ///
    /// The record is checked before it is written. If the command does not
    /// round-trip nothing changes and the error is returned. Otherwise the
    /// write happens, and the call fails only if the compaction that it
    /// triggered does.
    fn set(&mut self, key: String, value: String) -> (out: Result<(), KvStoreError>)
        ensures
            out.is_ok() == write_ok(old(self).log_view(), CommandView::Put { key: key@, value: value@ }),
            final(self).log_view() == written(
                old(self).log_view(),
                CommandView::Put { key: key@, value: value@ },
            ),
            final(self).generation_view() == written_generation(
                old(self).generation_view(),
                old(self).log_view(),
                CommandView::Put { key: key@, value: value@ },
            ),
            out matches Err(e) ==> is_write_error(e, CommandView::Put { key: key@, value: value@ }),
    {
        proof {
            use_type_invariant(&*self);
            lemma_written_contents(self.core.log@, CommandView::Put { key: key@, value: value@ });
        }
        let mut core = Core::empty();
        std::mem::swap(&mut core, &mut self.core);
        let out = core.write(Command::Put { key, value });
        self.core = core;
        out
    }

    /// Looks `key` up in the index and, if it is there, reads its value
    /// from the record that the index points at.
    fn get(&self, key: String) -> (out: Result<Option<String>, KvStoreError>)
        ensures
            out is Ok,
    {
        proof {
            use_type_invariant(self);
        }
        self.core.get(key)
    }

    /// Deletes `key`: if the index holds it, appends a removal to the log
    /// and drops the key from the index; then compacts the log if it has
    /// outgrown the threshold. Fails with `RemoveNonExistKey` if the key is
    /// not there.
    ///
    /// The record is checked before it is written. If the command does not
    /// round-trip nothing changes and the error is returned. Otherwise the
    /// removal happens, and the call fails only if the compaction that it
    /// triggered does.
    fn remove(&mut self, key: String) -> (out: Result<(), KvStoreError>)
        ensures
            old(self).contents().contains_key(key@) ==> {
                &&& out.is_ok() == write_ok(old(self).log_view(), CommandView::Rm { key: key@ })
                &&& final(self).log_view() == written(old(self).log_view(), CommandView::Rm { key: key@ })
                &&& final(self).generation_view() == written_generation(
                    old(self).generation_view(),
                    old(self).log_view(),
                    CommandView::Rm { key: key@ },
                )
                &&& out matches Err(e) ==> is_write_error(e, CommandView::Rm { key: key@ })
            },
            !old(self).contents().contains_key(key@) ==> {
                &&& final(self).log_view() == old(self).log_view()
                &&& final(self).generation_view() == old(self).generation_view()
            },
    {
        proof {
            use_type_invariant(&*self);
            lemma_written_contents(self.core.log@, CommandView::Rm { key: key@ });
        }
        if !self.core.holds(&key) {
            return Err(KvStoreError::RemoveNonExistKey);
        }
        let mut core = Core::empty();
        std::mem::swap(&mut core, &mut self.core);
        let out = core.write(Command::Rm { key });
        self.core = core;
        out
    }
}

} // verus!

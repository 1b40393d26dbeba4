//! What holds of every store, whatever was done to it.

use crate::command::CommandView;
use crate::kvengine::KvEngine;
use crate::kvstore::KvStore;
use crate::log::{
    apply_command, contents_of, index_of, lemma_live_values, records, replay, Record,
};
use vstd::prelude::*;

verus! {

/// The mapping after a run of commands, each applied to what the ones
/// before it left: a write sets its key, a removal deletes it.
pub open spec fn run(start: Map<Seq<char>, Seq<char>>, cmds: Seq<CommandView>) -> Map<Seq<char>, Seq<char>>
    decreases cmds.len(),
{
    if cmds.len() == 0 {
        start
    } else {
        apply_command(run(start, cmds.drop_last()), cmds.last())
    }
}

/// The last command of the run that is about `key`, if there is one.
pub open spec fn last_about(cmds: Seq<CommandView>, key: Seq<char>) -> Option<CommandView>
    decreases cmds.len(),
{
    if cmds.len() == 0 {
        None
    } else if cmds.last().key() == key {
        Some(cmds.last())
    } else {
        last_about(cmds.drop_last(), key)
    }
}

/// What a lookup of `key` gives in a mapping.
pub open spec fn lookup(m: Map<Seq<char>, Seq<char>>, key: Seq<char>) -> Option<Seq<char>> {
    if m.contains_key(key) {
        Some(m[key])
    } else {
        None
    }
}

/// The last write wins: after any run of writes and removals a key has the
/// value of the last write to it if no removal of it came later, no value
/// if its last command was a removal, and what it had before if the run did
/// not touch it.
pub proof fn lemma_last_write_wins(start: Map<Seq<char>, Seq<char>>, cmds: Seq<CommandView>, key: Seq<char>)
    ensures
        lookup(run(start, cmds), key) == match last_about(cmds, key) {
            Some(CommandView::Put { value, .. }) => Some(value),
            Some(CommandView::Rm { .. }) => None,
            None => lookup(start, key),
        },
    decreases cmds.len(),
{
    if cmds.len() > 0 {
        lemma_last_write_wins(start, cmds.drop_last(), key);
    }
}

/// A command that no later command of the run is about decides its key:
/// after the run the key has the written value, or none after a removal.
/// In particular writes to keys that differ from each other are all there
/// afterwards, in whatever order they were made, and of several writes to
/// one key exactly the last in the order is.
pub proof fn lemma_untouched_write_stays(
    start: Map<Seq<char>, Seq<char>>,
    cmds: Seq<CommandView>,
    at: int,
)
    requires
        0 <= at < cmds.len(),
        forall|j: int| at < j < cmds.len() ==> (#[trigger] cmds[j]).key() != cmds[at].key(),
    ensures
        lookup(run(start, cmds), cmds[at].key()) == match cmds[at] {
            CommandView::Put { value, .. } => Some(value),
            CommandView::Rm { .. } => None,
        },
    decreases cmds.len(),
{
    lemma_last_write_wins(start, cmds, cmds[at].key());
    lemma_last_about_is(cmds, at);
}

proof fn lemma_last_about_is(cmds: Seq<CommandView>, at: int)
    requires
        0 <= at < cmds.len(),
        forall|j: int| at < j < cmds.len() ==> (#[trigger] cmds[j]).key() != cmds[at].key(),
    ensures
        last_about(cmds, cmds[at].key()) == Some(cmds[at]),
    decreases cmds.len(),
{
    if at < cmds.len() - 1 {
        let before = cmds.drop_last();
        assert forall|j: int| at < j < before.len() implies (#[trigger] before[j]).key()
            != before[at].key() by {
            assert(before[j] == cmds[j]);
        }
        lemma_last_about_is(before, at);
    }
}

/// The commands of a run of records, in their order.
pub open spec fn commands(recs: Seq<Record>) -> Seq<CommandView> {
    recs.map_values(|r: Record| r.cmd)
}

/// What a log stands for is what its commands leave when run on nothing.
pub proof fn lemma_replay_is_run(recs: Seq<Record>)
    ensures
        replay(recs) == run(Map::empty(), commands(recs)),
    decreases recs.len(),
{
    if recs.len() > 0 {
        lemma_replay_is_run(recs.drop_last());
        assert(commands(recs).drop_last() =~= commands(recs.drop_last()));
    }
}

/// In the mapping that a log stands for, a key has the value of the last
/// write to it in the log if no removal of it follows, and no value
/// otherwise.
pub proof fn lemma_log_last_write_wins(log: Seq<u8>, key: Seq<char>)
    requires
        records(log) is Some,
    ensures
        lookup(contents_of(log), key) == match last_about(commands(records(log).unwrap()), key) {
            Some(CommandView::Put { value, .. }) => Some(value),
            _ => None,
        },
{
    lemma_replay_is_run(records(log).unwrap());
    lemma_last_write_wins(Map::empty(), commands(records(log).unwrap()), key);
}

/// Opening is idempotent: a store stands for what its log stands for, so
/// two stores over the same bytes, such as a store and the one opened later
/// on the log it left, hold the same mapping, and the same index, which is
/// what `locate` answers from.
pub proof fn lemma_same_log_same_store(a: KvStore, b: KvStore)
    requires
        a.log_view() == b.log_view(),
    ensures
        a.contents() == b.contents(),
        index_of(a.log_view()) == index_of(b.log_view()),
        index_of(a.log_view()).dom() == a.contents().dom(),
{
    if records(a.log_view()) is Some {
        lemma_live_values(records(a.log_view()).unwrap());
    }
    assert(index_of(a.log_view()).dom() =~= a.contents().dom());
}

} // verus!

//! The mutation records that make up the log.

use vstd::prelude::*;

verus! {

/// One mutation of the key space, as it is recorded in the log.
#[derive(Debug, PartialEq, Eq)]
pub enum Command {
    /// `key` now maps to `value`.
    Put { key: String, value: String },
    /// `key` has been deleted.
    Rm { key: String },
}

/// The mathematical content of a [`Command`].
pub enum CommandView {
    Put { key: Seq<char>, value: Seq<char> },
    Rm { key: Seq<char> },
}

impl CommandView {
    /// The key that the command is about.
    pub open spec fn key(self) -> Seq<char> {
        match self {
            CommandView::Put { key, .. } => key,
            CommandView::Rm { key } => key,
        }
    }
}

impl View for Command {
    type V = CommandView;

    open spec fn view(&self) -> CommandView {
        match self {
            Command::Put { key, value } => CommandView::Put { key: key@, value: value@ },
            Command::Rm { key } => CommandView::Rm { key: key@ },
        }
    }
}

} // verus!

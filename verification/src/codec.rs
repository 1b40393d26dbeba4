//! How a command is written to the log and read back.
//!
//! A command is written as pretty-printed JSON: an object with one member
//! named after the variant (`Set` or `Rm`), whose value is the object of the
//! variant's fields. The JSON itself is `serde_json`'s work; which document
//! stands for which command is decided here.

use crate::command::{Command, CommandView};
use crate::error::KvStoreError;
use crate::frame::{find_frame_end, frame_end};
use crate::json::{json_parse, json_pretty, spec_json_parse, spec_json_pretty};
use vstd::prelude::*;

verus! {

/// The name of the member that a command is written under.
pub open spec fn record_tag(c: CommandView) -> Seq<char> {
    match c {
        CommandView::Put { .. } => "Set"@,
        CommandView::Rm { .. } => "Rm"@,
    }
}

/// The fields that a command is written with, by name.
pub open spec fn record_fields(c: CommandView) -> Seq<(Seq<char>, Seq<char>)> {
    match c {
        CommandView::Put { key, value } => seq![("key"@, key), ("value"@, value)],
        CommandView::Rm { key } => seq![("key"@, key)],
    }
}

/// The bytes a command is written as, if the encoder accepts it.
pub open spec fn spec_encode(c: CommandView) -> Option<Seq<u8>> {
    spec_json_pretty(record_tag(c), record_fields(c))
}

/// The command that a document stands for, if it stands for one: it has one
/// member, named `Set` with exactly the fields `key` and `value`, or named
/// `Rm` with exactly the field `key`.
pub open spec fn command_of(doc: Seq<(Seq<char>, Seq<(Seq<char>, Seq<char>)>)>) -> Option<CommandView> {
    if doc.len() != 1 {
        None
    } else if doc[0].0 == "Set"@ && doc[0].1.len() == 2 && doc[0].1[0].0 == "key"@ && doc[0].1[1].0
        == "value"@ {
        Some(CommandView::Put { key: doc[0].1[0].1, value: doc[0].1[1].1 })
    } else if doc[0].0 == "Rm"@ && doc[0].1.len() == 1 && doc[0].1[0].0 == "key"@ {
        Some(CommandView::Rm { key: doc[0].1[0].1 })
    } else {
        None
    }
}

/// The command that `bytes` hold, if they are one record and nothing else.
pub open spec fn spec_decode(bytes: Seq<u8>) -> Option<CommandView> {
    match spec_json_parse(bytes) {
        Some(doc) => command_of(doc),
        None => None,
    }
}

/// Whether a command survives being written and read: the encoder accepts
/// it, and what it writes is one whole record that decodes to the command.
pub open spec fn round_trips(c: CommandView) -> bool {
    &&& spec_encode(c) is Some
    &&& frame_end(spec_encode(c).unwrap(), 0) == Some(spec_encode(c).unwrap().len() as int)
    &&& spec_decode(spec_encode(c).unwrap()) == Some(c)
}

/// The two variant names are different names.
pub proof fn lemma_tags_differ()
    ensures
        "Set"@ != "Rm"@,
{
    reveal_strlit("Set");
    reveal_strlit("Rm");
    assert("Rm"@.len() == 2);
}

/// Whether two commands are the same.
pub fn same_command(a: &Command, b: &Command) -> (out: bool)
    ensures
        out == (a@ == b@),
{
    match (a, b) {
        (Command::Put { key: ka, value: va }, Command::Put { key: kb, value: vb }) => {
            *ka == *kb && *va == *vb
        },
        (Command::Rm { key: ka }, Command::Rm { key: kb }) => *ka == *kb,
        _ => false,
    }
}

/// Reads the command that a decoded document stands for.
pub fn command_of_doc(doc: Vec<(String, Vec<(String, String)>)>) -> (out: Option<Command>)
    ensures
        out.is_some() == command_of(doc.deep_view()).is_some(),
        out matches Some(c) ==> command_of(doc.deep_view()) == Some(c@),
{
    let mut doc = doc;
    if doc.len() != 1 {
        return None;
    }
    let (tag, fields) = doc.pop().unwrap();
    let mut fields = fields;
    proof {
        lemma_tags_differ();
    }
    if tag == "Set".to_owned() {
        if fields.len() != 2 {
            return None;
        }
        let (value_name, value) = fields.pop().unwrap();
        let (key_name, key) = fields.pop().unwrap();
        if key_name == "key".to_owned() && value_name == "value".to_owned() {
            Some(Command::Put { key, value })
        } else {
            None
        }
    } else if tag == "Rm".to_owned() {
        if fields.len() != 1 {
            return None;
        }
        let (key_name, key) = fields.pop().unwrap();
        if key_name == "key".to_owned() {
            Some(Command::Rm { key })
        } else {
            None
        }
    } else {
        None
    }
}

/// Writes a command as the bytes of one record.
pub fn encode_command(cmd: &Command) -> (out: Result<Vec<u8>, KvStoreError>)
    ensures
        match out {
            Ok(bytes) => spec_encode(cmd@) == Some(bytes@),
            Err(e) => spec_encode(cmd@).is_none() && e is Serde,
        },
{
    let mut fields: Vec<(String, String)> = Vec::new();
    let written = match cmd {
        Command::Put { key, value } => {
            fields.push(("key".to_owned(), key.clone()));
            fields.push(("value".to_owned(), value.clone()));
            assert(fields.deep_view() =~= record_fields(cmd@));
            json_pretty("Set", &fields)
        },
        Command::Rm { key } => {
            fields.push(("key".to_owned(), key.clone()));
            assert(fields.deep_view() =~= record_fields(cmd@));
            json_pretty("Rm", &fields)
        },
    };
    match written {
        Ok(bytes) => Ok(bytes),
        Err(e) => Err(KvStoreError::Serde(e)),
    }
}

/// Reads the command that `bytes` hold. The bytes must be one record and
/// nothing else; a JSON failure comes back as `Serde`, a well-formed
/// document that is no record as `SerializeCmdError`.
pub fn decode_command(bytes: &[u8]) -> (out: Result<Command, KvStoreError>)
    ensures
        match out {
            Ok(cmd) => spec_decode(bytes@) == Some(cmd@),
            Err(e) => {
                &&& spec_decode(bytes@).is_none()
                &&& e is Serde <==> spec_json_parse(bytes@).is_none()
                &&& e is Serde || e == KvStoreError::SerializeCmdError
            },
        },
{
    match json_parse(bytes) {
        Ok(doc) => match command_of_doc(doc) {
            Some(cmd) => Ok(cmd),
            None => Err(KvStoreError::SerializeCmdError),
        },
        Err(e) => Err(KvStoreError::Serde(e)),
    }
}

/// Writes a command and checks what was written: the bytes are handed out
/// only if they are one whole record that reads back as the same command.
/// A refusal of the encoder comes back as `Serde`, a failed check as
/// `SerializeCmdError`.
pub fn encode_checked(cmd: &Command) -> (out: Result<Vec<u8>, KvStoreError>)
    ensures
        out.is_ok() == round_trips(cmd@),
        match out {
            Ok(bytes) => spec_encode(cmd@) == Some(bytes@),
            Err(e) => {
                &&& e is Serde <==> spec_encode(cmd@).is_none()
                &&& e is Serde || e == KvStoreError::SerializeCmdError
            },
        },
{
    let bytes = encode_command(cmd)?;
    let whole = match find_frame_end(bytes.as_slice(), 0) {
        Some(end) => end == bytes.len(),
        None => false,
    };
    if !whole {
        return Err(KvStoreError::SerializeCmdError);
    }
    match decode_command(bytes.as_slice()) {
        Ok(read) => {
            if same_command(&read, cmd) {
                Ok(bytes)
            } else {
                Err(KvStoreError::SerializeCmdError)
            }
        },
        Err(_) => Err(KvStoreError::SerializeCmdError),
    }
}

} // verus!

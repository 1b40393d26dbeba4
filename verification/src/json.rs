//! The JSON documents that records are written as, produced and read by
//! `serde_json`.
//!
//! A document here is an object whose members are objects of strings: one
//! member per variant name, holding that variant's fields by name. Nothing in
//! this module is proved: each function states what the outside call returns
//! by giving the result a name.

use std::collections::BTreeMap;
use vstd::prelude::*;

verus! {

/// The bytes `serde_json::to_vec_pretty` writes for the document
/// `{ tag: { name: text, .. } }` built from `fields` in their order (a later
/// field of the same name replaces an earlier one), or `None` where it
/// reports an error.
pub uninterp spec fn spec_json_pretty(tag: Seq<char>, fields: Seq<(Seq<char>, Seq<char>)>) -> Option<Seq<u8>>;

/// The members that `serde_json::from_slice` reads from `bytes` as an object
/// of objects of strings, each with its fields, in the order of the names, or
/// `None` where it reports an error.
pub uninterp spec fn spec_json_parse(bytes: Seq<u8>) -> Option<Seq<(Seq<char>, Seq<(Seq<char>, Seq<char>)>)>>;

/// Calls `serde_json::to_vec_pretty` on the document with the one member
/// `tag`, whose fields are `fields`. The contract only names the outcome:
/// the bytes written, or that the encoder refused.
#[verifier::external_body]
pub(crate) fn json_pretty(tag: &str, fields: &Vec<(String, String)>) -> (out: Result<
    Vec<u8>,
    serde_json::Error,
>)
    ensures
        match out {
            Ok(bytes) => spec_json_pretty(tag@, fields.deep_view()) == Some(bytes@),
            Err(_) => spec_json_pretty(tag@, fields.deep_view()).is_none(),
        },
{
    let inner: BTreeMap<&str, &str> = fields.iter().map(|f| (f.0.as_str(), f.1.as_str())).collect();
    let mut doc: BTreeMap<&str, BTreeMap<&str, &str>> = BTreeMap::new();
    doc.insert(tag, inner);
    serde_json::to_vec_pretty(&doc)
}

/// Calls `serde_json::from_slice` to read `bytes` as one document and hands
/// its members out as pairs. The contract only names the outcome: the
/// members read, or that the decoder refused.
#[verifier::external_body]
pub(crate) fn json_parse(bytes: &[u8]) -> (out: Result<
    Vec<(String, Vec<(String, String)>)>,
    serde_json::Error,
>)
    ensures
        match out {
            Ok(doc) => spec_json_parse(bytes@) == Some(doc.deep_view()),
            Err(_) => spec_json_parse(bytes@).is_none(),
        },
{
    let doc: BTreeMap<String, BTreeMap<String, String>> = serde_json::from_slice(bytes)?;
    Ok(doc.into_iter().map(|(tag, fields)| (tag, fields.into_iter().collect())).collect())
}

} // verus!

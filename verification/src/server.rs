//! What the server does with one request.
//!
//! A connection is served by reading requests one after the other and
//! answering each. A request that the engine refuses is answered with a
//! failure status; it does not end the connection.

use crate::common::{
    failure, key_not_found, lemma_status_texts_differ, success, Request, RequestView, Response,
    ResponseView,
};
use crate::error::KvStoreError;
use crate::kvengine::KvEngine;
use vstd::prelude::*;

verus! {

/// The answer to a write, given how the engine fared.
pub open spec fn put_answer(ok: bool) -> ResponseView {
    ResponseView::Put { result: if ok { success() } else { failure() } }
}

/// The answer to a lookup, given what the engine found, if it found out.
pub open spec fn get_answer(found: Option<Seq<char>>) -> ResponseView {
    match found {
        Some(value) => ResponseView::Get { value, result: success() },
        None => ResponseView::Get { value: key_not_found(), result: failure() },
    }
}

/// The answer to a removal, given how the engine fared.
pub open spec fn rm_answer(ok: bool) -> ResponseView {
    ResponseView::Rm { result: if ok { success() } else { key_not_found() } }
}

/// Answers a write: `Success` if the engine carried it out, `Failure` if
/// not.
pub fn put_response(outcome: Result<(), KvStoreError>) -> (out: Response)
    ensures
        out@ == put_answer(outcome is Ok),
{
    match outcome {
        Ok(_) => Response::Put { result: "Success".to_owned() },
        Err(_) => Response::Put { result: "Failure".to_owned() },
    }
}

/// Answers a lookup: the value with `Success` if the engine found one;
/// `Key not found` with `Failure` if the key is not there or the engine
/// failed.
pub fn get_response(outcome: Result<Option<String>, KvStoreError>) -> (out: Response)
    ensures
        out@ == get_answer(
            match outcome {
                Ok(Some(value)) => Some(value@),
                _ => None,
            },
        ),
{
    match outcome {
        Ok(Some(value)) => Response::Get { value, result: "Success".to_owned() },
        _ => Response::Get { value: "Key not found".to_owned(), result: "Failure".to_owned() },
    }
}

/// Answers a removal: `Success` if the engine carried it out, `Key not
/// found` if not.
pub fn rm_response(outcome: Result<(), KvStoreError>) -> (out: Response)
    ensures
        out@ == rm_answer(outcome is Ok),
{
    match outcome {
        Ok(_) => Response::Rm { result: "Success".to_owned() },
        Err(_) => Response::Rm { result: "Key not found".to_owned() },
    }
}

/// Whether `answer` and the mapping `after` are a way for a request to go,
/// on an engine that held `before`.
///
/// A write answered with `Success` has happened; answered with `Failure` it
/// has happened in full or not at all. A lookup changes nothing, and an
/// answer with a value is the value of the key. A removal answered with
/// `Success` has happened, and one of a key that is not there is answered
/// with `Key not found` and changes nothing.
pub open spec fn served(
    before: Map<Seq<char>, Seq<char>>,
    request: RequestView,
    after: Map<Seq<char>, Seq<char>>,
    answer: ResponseView,
) -> bool {
    match request {
        RequestView::Put { key, value } => {
            ||| answer == put_answer(true) && after == before.insert(key, value)
            ||| answer == put_answer(false) && (after == before || after == before.insert(key, value))
        },
        RequestView::Get { key } => {
            &&& after == before
            &&& answer == get_answer(None) || (before.contains_key(key) && answer == get_answer(
                Some(before[key]),
            ))
        },
        RequestView::Rm { key } => {
            ||| answer == rm_answer(true) && before.contains_key(key) && after == before.remove(key)
            ||| answer == rm_answer(false) && (after == before || (before.contains_key(key) && after
                == before.remove(key)))
        },
    }
}

/// An answer with the status `Success` tells the truth: the write or the
/// removal has happened, and the value sent is the value of the key.
pub proof fn lemma_success_is_done(
    before: Map<Seq<char>, Seq<char>>,
    request: RequestView,
    after: Map<Seq<char>, Seq<char>>,
    answer: ResponseView,
)
    requires
        served(before, request, after, answer),
    ensures
        answer == (ResponseView::Put { result: success() }) ==> request is Put && after
            == before.insert(request->Put_key, request->Put_value),
        answer is Get && answer->Get_result == success() ==> request is Get && before.contains_key(
            request->Get_key,
        ) && before[request->Get_key] == answer->value,
        answer == (ResponseView::Rm { result: success() }) ==> request is Rm && before.contains_key(
            request->Rm_key,
        ) && after == before.remove(request->Rm_key),
{
    lemma_status_texts_differ();
}

/// Carries out one request on the engine and answers it. An error of the
/// engine becomes a failure status in the answer.
pub fn handle_request<E: KvEngine>(engine: &mut E, request: Request) -> (out: Response)
    requires
        old(engine).inv(),
    ensures
        final(engine).inv(),
        served(old(engine).contents(), request@, final(engine).contents(), out@),
{
    match request {
        Request::Put { key, value } => {
            let outcome = engine.set(key, value);
            put_response(outcome)
        },
        Request::Get { key } => {
            let outcome = engine.get(key);
            get_response(outcome)
        },
        Request::Rm { key } => {
            let outcome = engine.remove(key);
            rm_response(outcome)
        },
    }
}

} // verus!

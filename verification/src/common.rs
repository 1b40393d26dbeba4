//! The requests a client sends and the responses it gets back.

use vstd::prelude::*;

verus! {

/// A request sent to the server.
#[derive(Debug, PartialEq, Eq)]
pub enum Request {
    /// Store `value` under `key`.
    Put { key: String, value: String },
    /// Look `key` up.
    Get { key: String },
    /// Delete `key`.
    Rm { key: String },
}

/// The server's answer to one request.
#[derive(Debug, PartialEq, Eq)]
pub enum Response {
    /// Answer to `Request::Put`; `result` is the status text.
    Put { result: String },
    /// Answer to `Request::Get`; `value` holds the value on success.
    Get { value: String, result: String },
    /// Answer to `Request::Rm`; `result` is the status text.
    Rm { result: String },
}

/// The mathematical content of a [`Request`].
pub enum RequestView {
    Put { key: Seq<char>, value: Seq<char> },
    Get { key: Seq<char> },
    Rm { key: Seq<char> },
}

/// The mathematical content of a [`Response`].
pub enum ResponseView {
    Put { result: Seq<char> },
    Get { value: Seq<char>, result: Seq<char> },
    Rm { result: Seq<char> },
}

impl View for Request {
    type V = RequestView;

    open spec fn view(&self) -> RequestView {
        match self {
            Request::Put { key, value } => RequestView::Put { key: key@, value: value@ },
            Request::Get { key } => RequestView::Get { key: key@ },
            Request::Rm { key } => RequestView::Rm { key: key@ },
        }
    }
}

impl View for Response {
    type V = ResponseView;

    open spec fn view(&self) -> ResponseView {
        match self {
            Response::Put { result } => ResponseView::Put { result: result@ },
            Response::Get { value, result } => ResponseView::Get { value: value@, result: result@ },
            Response::Rm { result } => ResponseView::Rm { result: result@ },
        }
    }
}

/// The status text of a request that was carried out.
pub open spec fn success() -> Seq<char> {
    "Success"@
}

/// The status text of a request that failed.
pub open spec fn failure() -> Seq<char> {
    "Failure"@
}

/// The text that stands in for the value of a key that is not there, and
/// the status text of a removal that failed.
pub open spec fn key_not_found() -> Seq<char> {
    "Key not found"@
}

/// The status texts are three different texts.
pub proof fn lemma_status_texts_differ()
    ensures
        success() != failure(),
        success() != key_not_found(),
        failure() != key_not_found(),
{
    reveal_strlit("Success");
    reveal_strlit("Failure");
    reveal_strlit("Key not found");
    assert("Failure"@[0] == 'F');
    assert("Success"@.len() == 7);
}

} // verus!

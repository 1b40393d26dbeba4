//! What a client makes of the server's answers.

use crate::common::{key_not_found, success, Response, ResponseView};
use crate::error::KvStoreError;
use vstd::prelude::*;

verus! {

/// What the answer to a write means: an answer to a write with a status
/// other than `Success` is a failure that carries the status text; any
/// other answer is taken for success.
pub fn put_outcome(response: Response) -> (out: Result<(), KvStoreError>)
    ensures
        match response@ {
            ResponseView::Put { result } if result != success() => out matches Err(
                KvStoreError::StringErr(text),
            ) && text@ == result,
            _ => out is Ok,
        },
{
    match response {
        Response::Put { result } => {
            if result == "Success".to_owned() {
                Ok(())
            } else {
                Err(KvStoreError::StringErr(result))
            }
        },
        _ => Ok(()),
    }
}

/// What the answer to a lookup means: the value if the status is
/// `Success`; otherwise a failure that carries the text sent in place of
/// the value. An answer of another kind is a failure with the text
/// `Key not found`.
pub fn get_outcome(response: Response) -> (out: Result<String, KvStoreError>)
    ensures
        match response@ {
            ResponseView::Get { value, result } => if result == success() {
                out matches Ok(found) && found@ == value
            } else {
                out matches Err(KvStoreError::StringErr(text)) && text@ == value
            },
            _ => out matches Err(KvStoreError::StringErr(text)) && text@ == key_not_found(),
        },
{
    match response {
        Response::Get { value, result } => {
            if result == "Success".to_owned() {
                Ok(value)
            } else {
                Err(KvStoreError::StringErr(value))
            }
        },
        _ => Err(KvStoreError::StringErr("Key not found".to_owned())),
    }
}

/// What the answer to a removal means: an answer to a removal with a
/// status other than `Success` is a failure that carries the status text;
/// any other answer is taken for success.
pub fn rm_outcome(response: Response) -> (out: Result<(), KvStoreError>)
    ensures
        match response@ {
            ResponseView::Rm { result } if result != success() => out matches Err(
                KvStoreError::StringErr(text),
            ) && text@ == result,
            _ => out is Ok,
        },
{
    match response {
        Response::Rm { result } => {
            if result == "Success".to_owned() {
                Ok(())
            } else {
                Err(KvStoreError::StringErr(result))
            }
        },
        _ => Ok(()),
    }
}

} // verus!

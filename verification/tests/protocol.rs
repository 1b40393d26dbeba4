use kvs::client::{get_outcome, put_outcome, rm_outcome};
use kvs::common::{Request, Response};
use kvs::engine::{select_engine, Engine};
use kvs::error::KvStoreError;
use kvs::kvstore::KvStore;
use kvs::server::{get_response, handle_request, put_response, rm_response};

fn text(s: &str) -> String {
    s.to_string()
}

#[test]
fn a_write_is_answered_with_success_or_failure() {
    assert_eq!(put_response(Ok(())), Response::Put { result: text("Success") });
    assert_eq!(
        put_response(Err(KvStoreError::SerializeCmdError)),
        Response::Put { result: text("Failure") }
    );
}

#[test]
fn a_lookup_is_answered_with_the_value_or_key_not_found() {
    assert_eq!(
        get_response(Ok(Some(text("v")))),
        Response::Get { value: text("v"), result: text("Success") }
    );
    let missing = Response::Get { value: text("Key not found"), result: text("Failure") };
    assert_eq!(get_response(Ok(None)), missing);
    assert_eq!(get_response(Err(KvStoreError::GetNonExistValue)), missing);
}

#[test]
fn a_removal_is_answered_with_success_or_key_not_found() {
    assert_eq!(rm_response(Ok(())), Response::Rm { result: text("Success") });
    assert_eq!(
        rm_response(Err(KvStoreError::RemoveNonExistKey)),
        Response::Rm { result: text("Key not found") }
    );
}

#[test]
fn requests_are_carried_out_on_the_engine_and_errors_become_answers() {
    let mut store = KvStore::open(Vec::new()).unwrap();
    let answer = handle_request(&mut store, Request::Get { key: text("a") });
    assert_eq!(answer, Response::Get { value: text("Key not found"), result: text("Failure") });
    let answer = handle_request(&mut store, Request::Rm { key: text("a") });
    assert_eq!(answer, Response::Rm { result: text("Key not found") });
    let answer = handle_request(&mut store, Request::Put { key: text("a"), value: text("1") });
    assert_eq!(answer, Response::Put { result: text("Success") });
    let answer = handle_request(&mut store, Request::Get { key: text("a") });
    assert_eq!(answer, Response::Get { value: text("1"), result: text("Success") });
    let answer = handle_request(&mut store, Request::Rm { key: text("a") });
    assert_eq!(answer, Response::Rm { result: text("Success") });
    let answer = handle_request(&mut store, Request::Get { key: text("a") });
    assert_eq!(answer, Response::Get { value: text("Key not found"), result: text("Failure") });
}

#[test]
fn the_client_takes_a_write_for_done_unless_told_otherwise() {
    assert!(put_outcome(Response::Put { result: text("Success") }).is_ok());
    let err = put_outcome(Response::Put { result: text("Failure") }).unwrap_err();
    assert!(matches!(err, KvStoreError::StringErr(t) if t == "Failure"));
    assert!(put_outcome(Response::Rm { result: text("Failure") }).is_ok());
    assert!(put_outcome(Response::Get { value: text("v"), result: text("Failure") }).is_ok());
}

#[test]
fn the_client_gets_the_value_or_the_text_sent_in_its_place() {
    let found = get_outcome(Response::Get { value: text("v"), result: text("Success") });
    assert_eq!(found.unwrap(), "v");
    let err = get_outcome(Response::Get { value: text("Key not found"), result: text("Failure") })
        .unwrap_err();
    assert!(matches!(err, KvStoreError::StringErr(t) if t == "Key not found"));
    let err = get_outcome(Response::Get { value: text("v"), result: text("success") }).unwrap_err();
    assert!(matches!(err, KvStoreError::StringErr(t) if t == "v"));
    let err = get_outcome(Response::Put { result: text("Success") }).unwrap_err();
    assert!(matches!(err, KvStoreError::StringErr(t) if t == "Key not found"));
}

#[test]
fn the_client_takes_a_removal_for_done_unless_told_otherwise() {
    assert!(rm_outcome(Response::Rm { result: text("Success") }).is_ok());
    let err = rm_outcome(Response::Rm { result: text("Key not found") }).unwrap_err();
    assert!(matches!(err, KvStoreError::StringErr(t) if t == "Key not found"));
    assert!(rm_outcome(Response::Put { result: text("Failure") }).is_ok());
}

#[test]
fn the_engine_chosen_first_stands() {
    assert_eq!(select_engine(None, None).unwrap(), Engine::Kvs);
    assert_eq!(select_engine(None, Some(Engine::Sled)).unwrap(), Engine::Sled);
    assert_eq!(select_engine(None, Some(Engine::Kvs)).unwrap(), Engine::Kvs);
    assert_eq!(select_engine(Some(Engine::Sled), None).unwrap(), Engine::Sled);
    assert_eq!(select_engine(Some(Engine::Kvs), Some(Engine::Kvs)).unwrap(), Engine::Kvs);
    assert_eq!(select_engine(Some(Engine::Sled), Some(Engine::Sled)).unwrap(), Engine::Sled);
}

#[test]
fn asking_for_another_engine_than_the_one_chosen_is_an_error() {
    let err = select_engine(Some(Engine::Kvs), Some(Engine::Sled)).unwrap_err();
    assert!(matches!(err, KvStoreError::WrongEngineError));
    let err = select_engine(Some(Engine::Sled), Some(Engine::Kvs)).unwrap_err();
    assert!(matches!(err, KvStoreError::WrongEngineError));
}

use crossbeam_skiplist::SkipMap;
use kvs::codec::{command_of_doc, decode_command, encode_checked, encode_command, same_command};
use kvs::command::Command;
use kvs::error::KvStoreError;
use kvs::frame::find_frame_end;
use kvs::log::rebuild_index;

fn put(key: &str, value: &str) -> Command {
    Command::Put { key: key.to_string(), value: value.to_string() }
}

fn rm(key: &str) -> Command {
    Command::Rm { key: key.to_string() }
}

const PUT_A_1: &str = "{\n  \"Set\": {\n    \"key\": \"a\",\n    \"value\": \"1\"\n  }\n}";
const RM_A: &str = "{\n  \"Rm\": {\n    \"key\": \"a\"\n  }\n}";

#[test]
fn a_write_is_encoded_as_pretty_json_under_its_variant_name() {
    let bytes = encode_command(&put("a", "1")).unwrap();
    assert_eq!(String::from_utf8(bytes).unwrap(), PUT_A_1);
}

#[test]
fn a_removal_is_encoded_as_pretty_json_under_its_variant_name() {
    let bytes = encode_command(&rm("a")).unwrap();
    assert_eq!(String::from_utf8(bytes).unwrap(), RM_A);
}

#[test]
fn encoding_escapes_what_json_escapes() {
    let bytes = encode_command(&put("q\"k", "a\\b\n{}")).unwrap();
    let text = String::from_utf8(bytes).unwrap();
    assert_eq!(text, "{\n  \"Set\": {\n    \"key\": \"q\\\"k\",\n    \"value\": \"a\\\\b\\n{}\"\n  }\n}");
}

#[test]
fn decoding_reads_back_what_encoding_wrote() {
    assert_eq!(decode_command(PUT_A_1.as_bytes()).unwrap(), put("a", "1"));
    assert_eq!(decode_command(RM_A.as_bytes()).unwrap(), rm("a"));
}

#[test]
fn decoding_does_not_depend_on_the_layout() {
    let compact = b"{\"Set\":{\"key\":\"k\",\"value\":\"v\"}}";
    assert_eq!(decode_command(compact).unwrap(), put("k", "v"));
    let reordered = b" {\"Set\" : {\"value\":\"v\", \"key\":\"k\"} } ";
    assert_eq!(decode_command(reordered).unwrap(), put("k", "v"));
}

#[test]
fn decoding_bytes_that_are_no_json_is_a_serde_error() {
    for bad in [&b"not json"[..], b"", b"{\"Set\":{\"key\":\"a\"", b"{\"Set\":{\"key\":1,\"value\":\"v\"}}", b"[]"] {
        assert!(matches!(decode_command(bad), Err(KvStoreError::Serde(_))));
    }
    let two = format!("{}{}", PUT_A_1, RM_A);
    assert!(matches!(decode_command(two.as_bytes()), Err(KvStoreError::Serde(_))));
}

#[test]
fn decoding_a_document_that_is_no_record_is_a_serialize_error() {
    let cases: [&[u8]; 7] = [
        b"{}",
        b"{\"Get\":{\"key\":\"a\"}}",
        b"{\"Set\":{\"key\":\"a\"}}",
        b"{\"Set\":{\"key\":\"a\",\"value\":\"1\",\"more\":\"x\"}}",
        b"{\"Rm\":{\"key\":\"a\",\"value\":\"1\"}}",
        b"{\"Rm\":{}}",
        b"{\"Rm\":{\"key\":\"a\"},\"Set\":{\"key\":\"a\",\"value\":\"1\"}}",
    ];
    for bad in cases {
        assert!(matches!(decode_command(bad), Err(KvStoreError::SerializeCmdError)));
    }
}

#[test]
fn a_document_stands_for_a_command_by_its_member_and_fields() {
    let pair = |a: &str, b: &str| (a.to_string(), b.to_string());
    let doc = vec![("Set".to_string(), vec![pair("key", "k"), pair("value", "v")])];
    assert_eq!(command_of_doc(doc), Some(put("k", "v")));
    let doc = vec![("Rm".to_string(), vec![pair("key", "k")])];
    assert_eq!(command_of_doc(doc), Some(rm("k")));
    let doc = vec![("Set".to_string(), vec![pair("value", "v"), pair("key", "k")])];
    assert_eq!(command_of_doc(doc), None);
    let doc = vec![("set".to_string(), vec![pair("key", "k"), pair("value", "v")])];
    assert_eq!(command_of_doc(doc), None);
    assert_eq!(command_of_doc(Vec::new()), None);
}

#[test]
fn checked_encoding_hands_out_the_encoders_bytes() {
    for cmd in [put("a", "1"), rm("a"), put("", ""), put("{\"", "}\\\""), put("k\u{e9}y", "\u{1F600}\u{0}\t")] {
        let checked = encode_checked(&cmd).unwrap();
        assert_eq!(checked, encode_command(&cmd).unwrap());
        assert_eq!(find_frame_end(&checked, 0), Some(checked.len()));
        assert_eq!(decode_command(&checked).unwrap(), cmd);
    }
}

#[test]
fn commands_are_the_same_if_variant_and_fields_are() {
    assert!(same_command(&put("a", "1"), &put("a", "1")));
    assert!(!same_command(&put("a", "1"), &put("a", "2")));
    assert!(!same_command(&put("a", "1"), &put("b", "1")));
    assert!(!same_command(&put("a", "1"), &rm("a")));
    assert!(same_command(&rm("a"), &rm("a")));
    assert!(!same_command(&rm("a"), &rm("b")));
}

#[test]
fn a_record_ends_with_the_brace_that_closes_it() {
    assert_eq!(find_frame_end(b"{}", 0), Some(2));
    assert_eq!(find_frame_end(b"{}{}", 0), Some(2));
    assert_eq!(find_frame_end(b"{}{}", 2), Some(4));
    assert_eq!(find_frame_end(b"{\"a\":{\"b\":{}}}rest", 0), Some(14));
    assert_eq!(find_frame_end(PUT_A_1.as_bytes(), 0), Some(PUT_A_1.len()));
}

#[test]
fn braces_inside_string_literals_do_not_count() {
    assert_eq!(find_frame_end(b"{\"}\":\"{\"}x", 0), Some(9));
    assert_eq!(find_frame_end(b"{\"a\\\"}\":1}x", 0), Some(10));
    assert_eq!(find_frame_end(b"{\"a\\\\\"}x", 0), Some(7));
}

#[test]
fn whitespace_before_a_record_belongs_to_it() {
    assert_eq!(find_frame_end(b" \n\t\r{}", 0), Some(6));
    assert_eq!(find_frame_end(b"{} {}", 2), Some(5));
}

#[test]
fn there_is_no_record_where_none_starts_or_none_ends() {
    assert_eq!(find_frame_end(b"", 0), None);
    assert_eq!(find_frame_end(b"{}", 2), None);
    assert_eq!(find_frame_end(b"   ", 0), None);
    assert_eq!(find_frame_end(b"x{}", 0), None);
    assert_eq!(find_frame_end(b"[{}]", 0), None);
    assert_eq!(find_frame_end(b"{\"a\":{}", 0), None);
    assert_eq!(find_frame_end(b"{\"a}", 0), None);
    assert_eq!(find_frame_end(b"{\"a\\\"}", 0), None);
}

#[test]
fn rebuilding_the_index_returns_the_length_of_the_log() {
    let log = format!("{}{}{}", PUT_A_1, RM_A, PUT_A_1);
    let mut index = SkipMap::new();
    index.insert("stale".to_string(), (7, 7));
    let offset = rebuild_index(log.as_bytes(), &mut index).unwrap();
    assert_eq!(offset, log.len() as u64);
    assert_eq!(index.len(), 1);
    let start = (PUT_A_1.len() + RM_A.len()) as u64;
    assert_eq!(*index.get("a").unwrap().value(), (start, PUT_A_1.len() as u64));
}

#[test]
fn rebuilding_the_index_fails_on_bytes_that_are_no_log() {
    for bad in ["x", "{\"Set\":{\"key\":\"a\"}}", "{\"Set\":{\"key\":\"a\",\"value\":\"1\"}} ", "{\"Rm\":{\"key\":\"a\"}"] {
        let mut index = SkipMap::new();
        let err = rebuild_index(bad.as_bytes(), &mut index).unwrap_err();
        assert!(matches!(err, KvStoreError::RebuildIndexError));
    }
}

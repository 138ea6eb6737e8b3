use neuromancer::checksum::{Checksummable, Hashable};
use neuromancer::message::{
    EncodeIntoBuffer, ExecutionCommand, Identifier, NeuromancerMessage, ReductionResult,
    RunIdentifiers,
};

fn id(s: &str) -> Identifier {
    Identifier { uuid: s.to_string() }
}

#[test]
fn identifier_is_one_string_field() {
    assert_eq!(id("ab").encode(), vec![0x0a, 0x02, b'a', b'b']);
    assert!(id("").encode().is_empty());
}

#[test]
fn long_field_length_takes_two_varint_bytes() {
    let long = "x".repeat(200);
    let bytes = id(&long).encode();
    assert_eq!(&bytes[0..3], &[0x0a, 0xc8, 0x01]);
    assert_eq!(bytes.len(), 203);
}

#[test]
fn absent_message_contributes_nothing() {
    let mut buffer = vec![9u8];
    let none: Option<Identifier> = None;
    none.encode_into_buffer(&mut buffer).unwrap();
    assert_eq!(buffer, vec![9]);
    Some(id("a")).encode_into_buffer(&mut buffer).unwrap();
    assert_eq!(buffer, vec![9, 0x0a, 0x01, b'a']);
}

#[test]
fn list_of_messages_concatenates_encodings() {
    let mut buffer = Vec::new();
    vec![id("a"), id(""), id("bc")].encode_into_buffer(&mut buffer).unwrap();
    assert_eq!(buffer, vec![0x0a, 0x01, b'a', 0x0a, 0x02, b'b', b'c']);
}

#[test]
fn run_identifiers_leave_their_checksum_out() {
    let a = RunIdentifiers { run_ids: vec![id("a")], checksum: vec![1, 2, 3] };
    let b = RunIdentifiers { run_ids: vec![id("a")], checksum: vec![] };
    assert_eq!(a.bytes().unwrap(), vec![0x0a, 0x01, b'a']);
    assert_eq!(a.checksum(5).unwrap(), b.checksum(5).unwrap());
}

#[test]
fn execution_command_bytes() {
    let c = ExecutionCommand { run_id: Some(id("r")), program: vec![7, 8] };
    assert_eq!(c.bytes().unwrap(), vec![0x0a, 0x01, b'r', 7, 8]);
    let c = ExecutionCommand { run_id: None, program: vec![7] };
    assert_eq!(c.bytes().unwrap(), vec![7]);
}

#[test]
fn reduction_result_bytes() {
    let r = ReductionResult { run_id: Some(id("r")), output: "out".to_string() };
    assert_eq!(r.bytes().unwrap(), vec![0x0a, 0x01, b'r', b'o', b'u', b't']);
}

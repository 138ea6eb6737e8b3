use neuromancer::checksum::{
    random_seed, Checksummable, Hashable, MapEntry, NeuromancerError, Reduction, RunProgression,
};

#[test]
fn checksum_is_stable_within_a_session() {
    let seed = random_seed();
    let x = vec!["foo".to_string(), "bar".to_string()];
    assert_eq!(x.checksum(seed).unwrap(), x.checksum(seed).unwrap());
    let y = vec!["foo".to_string(), "bar".to_string()];
    assert_eq!(x.checksum(seed).unwrap(), y.checksum(seed).unwrap());
}

#[test]
fn checksum_tells_payloads_apart() {
    let seed = 17;
    let payloads = vec![
        vec!["foo".to_string()],
        vec!["bar".to_string()],
        vec!["foo".to_string(), "bar".to_string()],
        vec![],
        vec!["".to_string()],
    ];
    let sums: Vec<u64> = payloads.iter().map(|p| p.checksum(seed).unwrap()).collect();
    for i in 0..sums.len() {
        for j in 0..sums.len() {
            let same_bytes = payloads[i].bytes().unwrap() == payloads[j].bytes().unwrap();
            if !same_bytes {
                assert_ne!(sums[i], sums[j]);
            }
        }
    }
}

#[test]
fn checksum_depends_on_the_seed() {
    let x = "payload".to_string();
    assert_ne!(x.checksum(1).unwrap(), x.checksum(2).unwrap());
}

#[test]
fn list_bytes_concatenate_items() {
    let list = vec!["ab".to_string(), "".to_string(), "cd".to_string()];
    assert_eq!(list.bytes().unwrap(), b"abcd".to_vec());
    let empty: Vec<String> = Vec::new();
    assert!(empty.bytes().unwrap().is_empty());
}

#[test]
fn string_bytes_are_utf8() {
    assert_eq!("é".to_string().bytes().unwrap(), vec![0xc3, 0xa9]);
}

#[test]
fn map_entry_bytes_are_key_then_value() {
    let m = MapEntry { key: "k".to_string(), value: "v1".to_string() };
    assert_eq!(m.bytes().unwrap(), b"kv1".to_vec());
}

#[test]
fn reduction_bytes_are_key_then_values() {
    let r = Reduction {
        key: "k".to_string(),
        values: vec!["a".to_string(), "bc".to_string()],
    };
    assert_eq!(r.bytes().unwrap(), b"kabc".to_vec());
}

#[test]
fn run_progression_bytes_are_little_endian() {
    let p = RunProgression { status: -2, time_taken: 0x0102_0304_0506_0708 };
    assert_eq!(
        p.bytes().unwrap(),
        vec![0xfe, 0xff, 0xff, 0xff, 8, 7, 6, 5, 4, 3, 2, 1]
    );
    assert!(p.checksum(3).is_ok());
}

#[test]
fn encoding_error_messages() {
    assert_eq!(
        NeuromancerError::ProtobufEncode.message(),
        "Error encoding protobuf message"
    );
    assert_eq!(
        NeuromancerError::ProtobufDecode.message(),
        "Error decoding protobuf message"
    );
}


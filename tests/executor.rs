use std::collections::HashSet;

use neuromancer::checksum::{decode_checksum, encode_checksum, Checksummable};
use neuromancer::executor::{Executor, MembershipChangeError};
use neuromancer::membership::Librarian;

const SEED: u64 = 0x5eed_1234_abcd_0001;

fn members(e: &Executor) -> HashSet<Librarian> {
    e.known_librarians().members_list().into_iter().collect()
}

fn names(list: &[&str]) -> HashSet<Librarian> {
    list.iter().map(|s| Librarian::new(s)).collect()
}

fn token(e: &Executor, list: &[String]) -> Vec<u8> {
    let list: Vec<String> = list.to_vec();
    encode_checksum(list.checksum(e.seed()).unwrap())
}

fn change(e: &mut Executor, list: &[&str]) -> Result<(), MembershipChangeError> {
    let list: Vec<String> = list.iter().map(|s| s.to_string()).collect();
    let checksum = token(e, &list);
    e.librarian_membership_change(list, checksum)
}

#[test]
fn returns_invalid_argument_on_checksum_mismatch() {
    let mut executor = Executor::new(SEED);
    let err = executor
        .librarian_membership_change(vec!["foo".into()], "12345678".as_bytes().into())
        .unwrap_err();

    assert_eq!(&err.message()[0..29], "checksum mismatch for payload");
    assert!(matches!(err, MembershipChangeError::InvalidArgument { .. }));
}

#[test]
fn returns_out_of_range_for_checksum_length_mismatch() {
    let mut executor = Executor::new(SEED);
    let err = executor
        .librarian_membership_change(vec!["foo".into()], "1234".as_bytes().into())
        .unwrap_err();

    assert_eq!(err.message(), "length mismatch for checksum");
    assert_eq!(err, MembershipChangeError::OutOfRange);
}

#[test]
fn correct_checksum_applies_the_membership() {
    let mut executor = Executor::new(SEED);
    assert_eq!(change(&mut executor, &["foo"]), Ok(()));
    assert_eq!(members(&executor), names(&["foo"]));
}

#[test]
fn mismatch_reports_both_values_and_leaves_membership() {
    let mut executor = Executor::new(SEED);
    change(&mut executor, &["A", "B"]).unwrap();
    let supplied = "12345678".as_bytes().to_vec();
    let computed = vec!["foo".to_string()].checksum(SEED).unwrap();
    let err = executor
        .librarian_membership_change(vec!["foo".into()], supplied.clone())
        .unwrap_err();
    let request = u64::from_be_bytes([b'1', b'2', b'3', b'4', b'5', b'6', b'7', b'8']);
    assert_eq!(err, MembershipChangeError::InvalidArgument { computed, request });
    assert_eq!(
        err.message(),
        format!("checksum mismatch for payload, computed: {} got: {}", computed, request)
    );
    assert_eq!(members(&executor), names(&["A", "B"]));
}

#[test]
fn wrong_length_leaves_membership_for_any_payload() {
    let mut executor = Executor::new(SEED);
    change(&mut executor, &["A", "B"]).unwrap();
    for len in [0usize, 1, 4, 7, 9, 16] {
        let err = executor
            .librarian_membership_change(vec!["C".into(), "D".into()], vec![0u8; len])
            .unwrap_err();
        assert_eq!(err, MembershipChangeError::OutOfRange);
        assert_eq!(members(&executor), names(&["A", "B"]));
    }
}

#[test]
fn removed_shard_identifiers_move_to_live_shards() {
    let mut executor = Executor::new(SEED);
    change(&mut executor, &["A", "B"]).unwrap();
    let b = Librarian::new("B");
    let ids: Vec<u128> = (1u128..=20).map(|i| i * 0x0123_4567_89ab_cdef_0011).collect();
    for id in &ids {
        executor.assign_identifier(&b, *id);
    }
    change(&mut executor, &["A", "C"]).unwrap();
    assert_eq!(members(&executor), names(&["A", "C"]));
    let a_ids = executor.identifiers_of(&Librarian::new("A"));
    let c_ids = executor.identifiers_of(&Librarian::new("C"));
    for id in &ids {
        assert!(a_ids.contains(id) || c_ids.contains(id));
    }
    assert_eq!(a_ids.len() + c_ids.len(), ids.len());
}

#[test]
fn rebalance_without_owned_identifiers_changes_nothing() {
    let mut executor = Executor::new(SEED);
    change(&mut executor, &["A", "B"]).unwrap();
    executor.assign_identifier(&Librarian::new("A"), 5);
    executor.rebalance(vec![Librarian::new("Z")]);
    assert_eq!(executor.identifiers_of(&Librarian::new("A")), vec![5]);
    assert!(executor.identifiers_of(&Librarian::new("B")).is_empty());
}

#[test]
fn rebalance_follows_the_ring() {
    let mut executor = Executor::new(SEED);
    change(&mut executor, &["A", "B"]).unwrap();
    let gone = Librarian::new("gone");
    executor.assign_identifier(&gone, 42);
    executor.assign_identifier(&gone, 43);
    executor.rebalance(vec![gone.clone()]);
    for id in [42u128, 43] {
        let owner = executor.known_librarians().mapping_for(id).unwrap();
        assert!(executor.identifiers_of(&owner).contains(&id));
    }
    assert_eq!(executor.identifiers_of(&gone), vec![42, 43]);
}

#[test]
fn checksum_field_is_big_endian() {
    assert_eq!(encode_checksum(0x0102_0304_0506_0708), vec![1, 2, 3, 4, 5, 6, 7, 8]);
    assert_eq!(decode_checksum(&[1, 2, 3, 4, 5, 6, 7, 8]), 0x0102_0304_0506_0708);
    assert_eq!(decode_checksum(&encode_checksum(u64::MAX)), u64::MAX);
}

#[test]
fn rebalance_places_a_twice_named_shard_identifiers_once() {
    let mut executor = Executor::new(SEED);
    change(&mut executor, &["A", "B"]).unwrap();
    let gone = Librarian::new("gone");
    executor.assign_identifier(&gone, 1);
    executor.assign_identifier(&gone, 2);
    executor.rebalance(vec![gone.clone(), gone.clone()]);
    let a_ids = executor.identifiers_of(&Librarian::new("A"));
    let b_ids = executor.identifiers_of(&Librarian::new("B"));
    for id in [1u128, 2] {
        let count = a_ids.iter().chain(b_ids.iter()).filter(|x| **x == id).count();
        assert_eq!(count, 1);
    }
}

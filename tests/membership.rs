use std::collections::HashSet;

use neuromancer::membership::{KnownLibrarians, Librarian, ToLibrarian};

fn as_set(v: Vec<Librarian>) -> HashSet<Librarian> {
    v.into_iter().collect()
}

#[test]
fn superset_modify_membership() {
    let input: Vec<Librarian> = ["foo", "bar"]
        .iter()
        .map(<_ as ToLibrarian>::to_librarian)
        .collect();
    let mut known = KnownLibrarians::new();

    let removed = known.modify_membership(&input);

    assert_eq!(removed, Vec::new());
    assert_eq!(as_set(known.members_list()), input.into_iter().collect());
    assert_eq!(known.ring_len(), 2);
}

#[test]
fn added_and_deleted_modify_membership() {
    let baseline: Vec<Librarian> = ["foo", "bar"]
        .iter()
        .map(<_ as ToLibrarian>::to_librarian)
        .collect();
    let request: Vec<Librarian> = ["foo", "baz"]
        .iter()
        .map(<_ as ToLibrarian>::to_librarian)
        .collect();
    let mut known = KnownLibrarians::new();

    let first_removed = known.modify_membership(&baseline);
    let removed = known.modify_membership(&request);

    let removed_predicate = vec![Librarian::new("bar")];
    assert_eq!(first_removed, Vec::new());
    assert_eq!(removed_predicate, removed);
    assert_eq!(as_set(known.members_list()), request.into_iter().collect());
    assert_eq!(known.ring_len(), 2);
}

#[test]
fn empty_ring_gains_two_members() {
    let mut known = KnownLibrarians::new();
    let removed = known.modify_membership(&[Librarian::new("A"), Librarian::new("B")]);
    assert!(removed.is_empty());
    assert_eq!(
        as_set(known.members_list()),
        as_set(vec![Librarian::new("A"), Librarian::new("B")])
    );
    assert_eq!(known.ring_len(), 2);
}

#[test]
fn applying_the_same_list_twice_removes_nothing() {
    let list = vec![Librarian::new("A"), Librarian::new("B"), Librarian::new("C")];
    let mut known = KnownLibrarians::new();
    let _ = known.modify_membership(&list);
    let removed = known.modify_membership(&list);
    assert!(removed.is_empty());
    assert_eq!(known.ring_len(), 3);
}

#[test]
fn duplicate_addresses_collapse_to_one_member() {
    let mut known = KnownLibrarians::new();
    let removed = known.modify_membership(&[
        Librarian::new("A"),
        Librarian::new("A"),
        Librarian::new("B"),
    ]);
    assert!(removed.is_empty());
    assert_eq!(known.members_list().len(), 2);
    assert_eq!(known.ring_len(), 2);
}

#[test]
fn empty_list_drains_the_ring() {
    let mut known = KnownLibrarians::new();
    let _ = known.modify_membership(&[Librarian::new("A"), Librarian::new("B")]);
    let removed = known.modify_membership(&[]);
    assert_eq!(
        as_set(removed),
        as_set(vec![Librarian::new("A"), Librarian::new("B")])
    );
    assert!(known.members_list().is_empty());
    assert_eq!(known.ring_len(), 0);
    assert_eq!(known.mapping_for(7), None);
}

#[test]
fn ring_lookup_reaches_only_members() {
    let mut known = KnownLibrarians::new();
    let _ = known.modify_membership(&[Librarian::new("A"), Librarian::new("B")]);
    let _ = known.modify_membership(&[Librarian::new("A"), Librarian::new("C")]);
    let members = as_set(known.members_list());
    let mut reached = HashSet::new();
    for id in 0u128..200 {
        let owner = known.mapping_for(id.wrapping_mul(0x9e37_79b9_7f4a_7c15)).unwrap();
        assert!(members.contains(&owner));
        reached.insert(owner);
    }
    assert_eq!(reached, members);
}

#[test]
fn ring_lookup_is_stable() {
    let mut known = KnownLibrarians::new();
    let _ = known.modify_membership(&[Librarian::new("A"), Librarian::new("B")]);
    for id in 0u128..50 {
        assert_eq!(known.mapping_for(id), known.mapping_for(id));
    }
}

#[test]
fn librarian_name_is_its_address() {
    let l = "10.0.0.1:7000".to_librarian();
    assert_eq!(l.name(), "10.0.0.1:7000".to_string());
    assert_eq!(String::from("x").to_librarian(), Librarian::new("x"));
    assert!(Librarian::new("a") < Librarian::new("b"));
}

#[test]
fn removal_keeps_surviving_owners() {
    let mut known = KnownLibrarians::new();
    let _ = known.modify_membership(&[Librarian::new("A"), Librarian::new("B"), Librarian::new("C")]);
    let before: Vec<(u128, Librarian)> = (0u128..100)
        .map(|i| {
            let id = i.wrapping_mul(0x9e37_79b9_7f4a_7c15_0123);
            (id, known.mapping_for(id).unwrap())
        })
        .collect();
    let removed = known.modify_membership(&[Librarian::new("A"), Librarian::new("B")]);
    assert_eq!(removed, vec![Librarian::new("C")]);
    for (id, owner) in before {
        if owner != Librarian::new("C") {
            assert_eq!(known.mapping_for(id), Some(owner));
        }
    }
}

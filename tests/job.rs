use neuromancer::checksum::{encode_checksum, Checksummable};
use neuromancer::job::{JobGraph, JobLookupError};
use neuromancer::message::{Identifier, RunIdentifiers};

const PARENT: u128 = 0x67e5_5044_10b1_426f_9247_bb68_0e5f_e0c8;
const CHILD_A: u128 = 0x0000_0000_0000_0000_0000_0000_0000_00ab;
const CHILD_B: u128 = 0xffff_ffff_ffff_ffff_ffff_ffff_ffff_ffff;

fn request(s: &str) -> Identifier {
    Identifier { uuid: s.to_string() }
}

fn graph() -> JobGraph {
    let mut g = JobGraph::new();
    g.add_dependency(PARENT, CHILD_A);
    g.add_dependency(PARENT, CHILD_B);
    g.add_dependency(PARENT, CHILD_A);
    g
}

#[test]
fn children_come_in_insertion_order_with_checksum() {
    let g = graph();
    let run = g.identifiers(&request("67e55044-10b1-426f-9247-bb680e5fe0c8"), 9).unwrap();
    let texts: Vec<String> = run.run_ids.iter().map(|i| i.uuid.clone()).collect();
    assert_eq!(
        texts,
        vec![
            "00000000-0000-0000-0000-0000000000ab".to_string(),
            "ffffffff-ffff-ffff-ffff-ffffffffffff".to_string(),
        ]
    );
    let unsigned = RunIdentifiers {
        run_ids: run
            .run_ids
            .iter()
            .map(|i| Identifier { uuid: i.uuid.clone() })
            .collect(),
        checksum: Vec::new(),
    };
    assert_eq!(run.checksum, encode_checksum(unsigned.checksum(9).unwrap()));
}

#[test]
fn simple_form_is_accepted() {
    let g = graph();
    let run = g.identifiers(&request("67e5504410b1426f9247bb680e5fe0c8"), 1).unwrap();
    assert_eq!(run.run_ids.len(), 2);
}

#[test]
fn childless_job_has_no_children() {
    let mut g = graph();
    g.add_job(7);
    let run = g.identifiers(&request("00000000-0000-0000-0000-000000000007"), 1).unwrap();
    assert!(run.run_ids.is_empty());
    assert_eq!(run.checksum.len(), 8);
}

#[test]
fn empty_identifier_is_refused() {
    let g = graph();
    assert!(matches!(g.identifiers(&request(""), 1), Err(JobLookupError::NoIdentifierProvided)));
}

#[test]
fn malformed_identifier_is_refused() {
    let g = graph();
    let err = g.identifiers(&request("not-a-uuid"), 1).err().unwrap();
    assert!(matches!(err, JobLookupError::InvalidIdentifier(_)));
    let message = err.message();
    assert!(message.starts_with("uuid encoding error: "));
    assert!(message.len() > "uuid encoding error: ".len());
}

#[test]
fn unknown_identifier_is_not_found() {
    let g = graph();
    assert!(matches!(
        g.identifiers(&request("00000000-0000-0000-0000-000000000001"), 1),
        Err(JobLookupError::IdentifierNotFound(1))
    ));
}

#[test]
fn lookup_takes_the_parsed_value() {
    let g = graph();
    match g.children_of(&request("x"), Err("bad length".to_string())) {
        Err(JobLookupError::InvalidIdentifier(detail)) => assert_eq!(detail, "bad length"),
        _ => panic!("expected an invalid identifier"),
    }
    let ids = g.children_of(&request("x"), Ok(PARENT)).unwrap();
    assert_eq!(ids.len(), 2);
    assert_eq!(g.children_of(&request("x"), Ok(CHILD_A)).unwrap().len(), 0);
    assert!(matches!(
        g.children_of(&request(""), Ok(PARENT)),
        Err(JobLookupError::NoIdentifierProvided)
    ));
}

#[test]
fn remap_answers_with_an_empty_identifier() {
    let g = graph();
    assert!(g.remap(&request("67e55044-10b1-426f-9247-bb680e5fe0c8")).uuid.is_empty());
}

#[test]
fn lookup_error_messages() {
    assert_eq!(JobLookupError::NoIdentifierProvided.message(), "no identifier provided");
    assert_eq!(
        JobLookupError::InvalidIdentifier("bad".to_string()).message(),
        "uuid encoding error: bad"
    );
    assert_eq!(
        JobLookupError::IdentifierNotFound(CHILD_A).message(),
        "no identifiers were found for 00000000-0000-0000-0000-0000000000ab"
    );
}

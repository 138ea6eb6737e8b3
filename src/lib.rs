//! Coordination core of a distributed job-execution fabric: a membership
//! ring of worker shards over consistent hashing, the rebalancing of job
//! identifiers that membership changes drive, the content checksums that
//! every mutating request is validated against, and a bounded retry policy
//! for acquiring shared-state locks.
pub mod checksum;
pub mod membership;
pub mod ownership;
pub mod executor;
pub mod job;
pub mod lock;
pub mod message;

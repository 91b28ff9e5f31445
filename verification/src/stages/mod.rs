//! Testing of captured functions.

pub mod basic;
pub mod checkpointed;
pub mod inspect;
pub mod mt_support;
pub mod test_coordinator;
pub mod test_jobs;
pub mod test_output;
pub mod test_protocol;
pub mod test_registry;
pub mod testing;

//! What is kept in the database, and the rules by which it changes.

pub mod archived_job;
pub mod job_output;
pub mod snapshot;

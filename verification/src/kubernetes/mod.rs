//! The resources of the cluster and what is done with them.

pub mod events;
pub mod job;
pub mod job_create;
pub mod job_output;
pub mod job_template;
pub mod pod_spec;
pub mod reconciler;
pub mod scheduler;

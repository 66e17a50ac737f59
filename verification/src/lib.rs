//! Jobfather: the logic of a Kubernetes job controller, with its behaviour
//! stated in contracts and proved.

pub mod text;
pub mod decimal;
pub mod order;
pub mod json;
pub mod calendar;
pub mod time;
pub mod dup;
pub mod sorted_map;
pub mod kubernetes;
pub mod db;
pub mod web;
pub mod snapshot;
pub mod metrics;

//! What the web pages and the programming interface show.

pub mod api;
pub mod job_detail;
pub mod job_output_api;
pub mod job_template_detail;
pub mod job_templates;
pub mod junit;
pub mod mcp;
pub mod run_modal;
pub mod snapshot_api;
pub mod test_report;

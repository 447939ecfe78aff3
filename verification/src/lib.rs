//! Resume Workbench: the decision logic behind job-post capture, ATS analysis handling,
//! evidence preflight, coverage scoring and resume-tailoring validation.

pub mod text;
pub mod tokens;
pub mod search;
pub mod json;
pub mod analysis;
pub mod evidence;
pub mod bank;
pub mod preflight;
pub mod ats;
pub mod tailoring;
pub mod edits;
pub mod artifacts;
pub mod checks_laws;
pub mod ledger_laws;
pub mod candidate_laws;
pub mod slug_laws;
pub mod recovery;
pub mod render;
pub mod run_laws;
pub mod prompt_laws;
pub mod category_laws;
pub mod prompt;
pub mod html;
pub mod job_import;
pub mod api_usage;
pub mod http;
pub mod pipeline;
pub mod config;
pub mod commands;
pub mod capture;

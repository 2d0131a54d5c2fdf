//! Verified core of the amont git hooks.

pub mod text;
pub mod ban_terms;
pub mod python_blank;
pub mod corpus;
pub mod json;
pub mod check;
pub mod finding;
pub mod secrets;
pub mod merge_conflict;
pub mod large_files;
pub mod content;
pub mod ledger;
pub mod bypass;
pub mod downgrade;
pub mod bypasses;
pub mod downgrades;
pub mod gate_evidence;
pub mod agents_md;
pub mod shim;
pub mod ui;
pub mod gates;
pub mod pushrefs;
pub mod branch_protect;
pub mod git;
pub mod run_tests;
pub mod audit;
pub mod paths;
pub mod rust_tools;
pub mod go_tools;
pub mod usual_name;
pub mod naming;
pub mod dispatch;
pub mod fleet_cli;
pub mod attest;
pub mod aval_hook;
pub mod gate_stamp;
pub mod listing;
pub mod check_list;
pub mod gates_report;
pub mod agents_md_drift;
pub mod manifest_trust;

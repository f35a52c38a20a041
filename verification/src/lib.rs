//! Change-impact analysis for Rust workspaces.
//!
//! Given the files that a change touches, the other files of the workspace and
//! what optional helper programs reported, [`analyze`] finds the tests, impl
//! blocks, `dyn` types, documents, routes, commands and foreign interfaces that
//! the change can affect, each with a severity, a confidence tier and evidence.
//! The library takes texts and gives back values and texts; reading files,
//! asking git and running helper programs is left to its caller.
//!
//! The analyses read Rust source through [`syntax`], which turns the trees of
//! `syn` into plain data. [`analysis`] puts the analyses together, [`powerset`]
//! compares feature sets, [`format`] renders reports, and [`mcp`] answers
//! JSON-RPC messages.
pub mod adapters;
pub mod analysis;
pub mod args;
pub mod cache;
pub mod cfg;
pub mod cli;
pub mod config;
pub mod dedup;
pub mod derive;
pub mod diff;
pub mod doc_drift;
pub mod dyn_dispatch;
pub mod features;
pub mod ffi;
pub mod finding;
pub mod format;
pub mod git;
pub mod ignore;
pub mod json;
pub mod log_miss;
pub mod macro_expand;
pub mod mcp;
pub mod names;
pub mod nextest;
pub mod order;
pub mod paths;
pub mod powerset;
pub mod pr_comment;
pub mod progress;
pub mod ranking;
pub mod ref_context;
pub mod report;
pub mod rust_analyzer;
pub mod sarif;
pub mod scan;
pub mod semver_checks;
pub mod summary;
pub mod symbols;
pub mod syntax;
pub mod syntax_tree;
pub mod tests_scan;
pub mod text;
pub mod textmap;
pub mod tiers;
pub mod tools;
pub mod trait_methods;
pub mod traits;

pub use analysis::{context_file_list, AnalysisReport};
pub use args::{FailOn, ImpactArgs};
pub use cli::run;
pub use finding::{Finding, FindingKind, Location, SeverityClass, Tier, TierSummary};
pub use format::{render as render_report, render_with_budget, Format};
pub use nextest::nextest_filter;
pub use powerset::analyze;
pub use progress::ProgressEvent;

//! Triage of image files by classifier scores: which files are candidates,
//! which are flagged, where a flagged file is copied to, and the report.
pub mod labels;
pub mod naming;
pub mod order;
pub mod paths;
pub mod report;
pub mod text;
pub mod triage;

pub use labels::{decide, from_pairs, Classifications, HashableMetric, SCORE_ONE};
pub use naming::{flat_destination, mirror_destination, DestinationResolver};
pub use order::{path_le, sort_by_path};
pub use paths::{filter_candidates, is_candidate, is_image_extension};
pub use report::{markdown_report, render_report};
pub use triage::{destination_for, summarize, FileResult, RunSummary, TriageOptions};

use vstd::prelude::*;

pub mod text;
pub mod float_bits;
pub mod field_rules;
pub mod field_checks;
pub mod module_definition;
pub mod lifecycle;
pub mod workflow;
pub mod resolution;
pub mod summaries;
pub mod pattern;
pub mod payload;
pub mod access;
pub mod module_package;
pub mod requests;
pub mod auth;
pub mod settings;
pub mod backups;
pub mod rbac;
pub mod relation;
pub mod dashboard;
pub mod observability;
pub mod report;
pub mod report_output;
pub mod report_rows;
pub mod records;
pub mod listing;
pub mod csv;
pub mod workbook;
pub mod import;
pub mod actions;
pub mod materialize;
pub mod sections;
pub mod delivery;
pub mod error;
pub mod metadata;
pub mod numbers;
pub mod formula;
pub mod json;
pub mod crypto;
pub mod security;
pub mod notification;
pub mod repository;

verus! {
} // verus!

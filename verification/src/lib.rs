//! Bulk search of delimited text files for rows that name a target address,
//! with the small text tools that accompany it.
//!
//! The search is decided here and driven from outside: [`search::Search`]
//! names the directory to list or the file to read next and takes the
//! answer in; [`coordinator::Coordinator`] keeps the progress of a run and
//! sees that each target is recorded once; [`record::MatchRecord`] gives
//! the line of the results file. Nothing in this crate touches the file
//! system.

pub mod coordinator;
pub mod csv_processing;
pub mod decode;
pub mod email_comparison;
pub mod email_search;
pub mod lines;
pub mod messages;
pub mod pattern;
pub mod phone_extraction;
pub mod record;
pub mod records;
pub mod row;
pub mod run;
pub mod scan;
pub mod search;
pub mod split;
pub mod targets;
pub mod text;
pub mod tree;
pub mod walker;

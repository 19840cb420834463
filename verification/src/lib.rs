//! Test results, their history and the reports made of them.

pub mod abbreviation;
pub mod balance;
pub mod binary;
pub mod collection;
pub mod commands;
pub mod config;
pub mod document;
pub mod error;
pub mod eta;
pub mod flakiness;
pub mod gather;
pub mod glob;
pub mod grouping;
pub mod junit;
pub mod machine;
pub mod natural;
pub mod ordering;
pub mod package;
pub mod partition;
pub mod pattern;
pub mod repository;
pub mod sort;
pub mod spans;
pub mod store;
pub mod text;
pub mod time;
pub mod totals;
pub mod ui;
pub mod union_find;

//! A schemaless record store: records are JSON documents, inspected and
//! combined through string-keyed map views, kept in named tables, gathered in
//! ordered collections and tracked by a before/after change log.

pub mod assoc;
pub mod collection;
pub mod errors;
pub mod fragment;
pub mod json;
pub mod logger;
pub mod relation;
pub mod tables;
pub mod text;

//! Layered configuration resolution for the bragi service.
//!
//! A configuration is assembled from an optional `default.toml`, a required
//! run-mode TOML file, two required Elasticsearch JSON files, and a list of
//! `key=value` overrides, in that order of precedence.  The merged document
//! is a flat map from dot-delimited paths to scalar leaves; it is then
//! extracted into the strongly typed [`settings::Settings`].

pub mod coerce;
pub mod parse;
pub mod plan;
pub mod settings;
pub mod tree;
pub mod value;

//! Query engine for the IANA Language Subtag Registry.
//!
//! The registry is a flat text file of `Name: value` lines grouped into
//! records by `%%` separator lines. This library assembles records from
//! lines, folds each record into a name-to-value mapping, and decides
//! whether a record satisfies a conjunctive field filter.

pub mod args;
pub mod fields;
pub mod matcher;
pub mod reader;
pub mod text;

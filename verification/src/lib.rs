//! An offline oracle for assertion logs.
//!
//! An instrumented program writes one JSON record per line: catalog entries
//! that declare its assertions, and observations of them at run time. This
//! library classifies the records, groups the assertion records by their
//! `id`, and settles for each `id` whether the assertion passed.

pub mod classify;
pub mod engine;
pub mod error;
pub mod group;
pub mod json;
pub mod parse;
pub mod record;
pub mod text;
pub mod verdict;

pub use classify::{classify, classify_entries, decode_tagged, narrow, ClassifyError};
pub use engine::{evaluate_groups, evaluate_log, evaluate_records};
pub use error::OracleError;
pub use group::{group_asserts, AssertGroup};
pub use parse::{parse_line, parse_lines};
pub use record::{AntithesisAssert, AntithesisSdk, AntithesisSetup, AssertType, Location, SDKInput};
pub use text::is_blank;
pub use verdict::EvaluatedAssertion;

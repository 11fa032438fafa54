//! Dead-store analysis and elimination for the statement trees of a
//! block-scoped circuit-description language.
//!
//! For each function or template body the pass finds assignments to plain
//! local variables whose stored value is never read on any path — either a
//! later assignment overwrites it first, or the variable leaves its scope
//! unread — deletes those assignments from the tree, and returns warning
//! records describing each deleted substitution.

#![verifier::loop_isolation(false)]

pub mod analyzer;
pub mod error_code;
pub mod ast;
pub mod info;
pub mod laws;
pub mod model;
pub mod pass;
pub mod report;
pub mod rewriter;
pub mod scanner;
pub mod state;

pub use pass::FunctionData;
pub use pass::TemplateData;
pub use pass::function_substitution_analysis;
pub use pass::template_substitution_analysis;
pub use error_code::ReportCode;
pub use report::Report;

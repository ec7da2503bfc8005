//! An S-expression calculator over booleans, wide integers and doubles,
//! evaluated against a table of named constants and built-in functions,
//! together with the value formatting and templates of the code generator
//! that drives it.

pub mod value;
mod text;
pub mod error;
pub mod scanner;
pub mod parser;
pub mod names;
pub mod functions;
pub mod eval;
pub mod format_value;
pub mod template;
pub mod constants;
pub mod options;

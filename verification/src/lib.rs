//! A small compiler core for a toy language whose only statements are the
//! output macros `print!` and `println!`.

pub mod fmt;
pub mod fmt_laws;
pub mod grammar;
pub mod report;
pub mod run;
pub mod run_laws;
pub mod syntax;
pub mod text;

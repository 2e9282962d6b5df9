//! Line-oriented substring search over text.
//!
//! The text is cut into lines, each line is tested for a query (exactly, or
//! after folding both to lower case), and the lines that match are reported
//! with their 1-based line numbers, in document order.

pub mod cli;
pub mod config;
pub mod decimal;
pub mod facts;
pub mod lines;
pub mod matcher;
pub mod pattern;
pub mod slicing;

pub use cli::Cli;
pub use config::Config;
pub use matcher::{
    find_matches, run, search, search_case_insensitive, search_case_insensitive_w_l_n,
    search_lines, search_w_l_n, Match,
};

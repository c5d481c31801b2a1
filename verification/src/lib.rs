//! Line-oriented substring search over in-memory text.
//!
//! The crate splits a text into lines, keeps the lines that contain a query
//! (exactly, or after lower-casing both sides), and renders each kept line
//! together with its one-based line number.

pub mod text;
pub mod search;
pub mod laws;
pub mod config;
pub mod output;

pub use crate::config::{Config, ConfigError};
pub use crate::output::{format_match, run};
pub use crate::search::{search, search_case_insensitive};

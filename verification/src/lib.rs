//! Line-oriented text search, together with a handful of small building
//! blocks that are useful on their own. Every function states what it
//! returns, and is verified against that statement.

pub mod adder;
pub mod age;
pub mod compass;
pub mod config;
pub mod cut;
pub mod encoding;
pub mod excerpt;
pub mod guess;
pub mod largest;
pub mod lines;
pub mod lowercase;
pub mod number;
pub mod pattern;
pub mod points;
pub mod search;
pub mod settings;
pub mod shirts;
pub mod shoes;
pub mod summary;
pub mod words;

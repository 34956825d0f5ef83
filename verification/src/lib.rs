//! Line-oriented text search.
//!
//! [`search`] gives the lines of a text that contain a query,
//! [`search_case_insensitive`] those that contain it once both are folded
//! to lower case, and [`run`] the one or the other as a [`Config`] says.
//!
//! What the searches agree on:
//!
//! - A line ends at a line feed or at the end of the text. A carriage
//!   return before the line feed is part of the line, and leaves it with
//!   the trimming.
//! - The query is looked for in the line as it stands, white space and
//!   all. The empty query is found in every line.
//! - A line that is found comes back without the white space at its two
//!   ends, as a slice of the text, and in the order of the text.
//!
//! A [`Config`] is built from the argument list of the program, which
//! starts with the program's name. The query and the file name have to
//! follow; whatever follows them is ignored.
//!
//! Every function states what it returns over the characters of its
//! arguments, and [`laws`] holds what follows for every search.

pub mod case;
pub mod config;
pub mod encoding;
pub mod laws;
pub mod lines;
pub mod pattern;
pub mod search;
pub mod whitespace;

pub use crate::config::{ArgumentError, Config, CASE_INSENSITIVE};
pub use crate::search::{run, search, search_case_insensitive};

//! A word tally.
//!
//! - [`counts`] is the mathematical model: a table as a map from word to
//!   count, what recording a word does to it, and the laws of recording.
//! - [`table`] is the table itself, [`WordCountTable`].
//! - [`aggregator`] is the owner of one table, [`WordCountAggregator`], which
//!   handles the requests [`AddWord`] and [`GetCounts`] one at a time.
//! - [`input`] reads one line of interactive input as a [`Command`].
//!
//! Every function is verified against its contract. One thing is believed
//! and not proved: that `char::is_whitespace` tells which characters are
//! whitespace.

pub mod aggregator;
pub mod counts;
pub mod input;
pub mod table;

pub use aggregator::{AddWord, GetCounts, WordCountAggregator};
pub use input::{parse_line, Command};
pub use table::WordCountTable;

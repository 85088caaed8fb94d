//! An incremental, lookahead-oriented byte buffer for parsing streams whose
//! total length is unknown or too large to hold in memory at once.
//!
//! A caller asks the reader to make at least a given number of bytes available
//! beyond its cursor (a "slurp"), inspects the buffered window with byte and
//! substring searches, and repositions the cursor as tokens are recognised.
//! Growth-retry operations enlarge the window step by step until a match is
//! found or the source runs out, carrying an overlap across window boundaries
//! so that no boundary-spanning match is missed.

mod grow;
mod pattern;
mod reader;
mod scan;
mod search;
mod source;

pub use pattern::{
    byte_matches_at, byte_occurs_from, first_byte_from, first_match_from, matches_at,
    multi_byte_cut_winner, multi_byte_winner, multi_cut_winner, multi_winner, no_byte_occurs,
    no_occurs, occurs_from, pattern_views,
};
pub use reader::{BlockWiseReader, Error, FindPos, PatternIdx};
pub use source::{ByteSource, SliceSource};

//! Converts integers into their English word form ("1234" becomes
//! "one thousand two hundred thirty-four").
//!
//! Numbers may be given as text of arbitrary length (`number_to_words`) or as
//! fixed-width integers (`signed_number_to_words`, `unsigned_number_to_words`).
//! The scale words ("thousand", "million", ...) may be supplied by the caller;
//! a default table covering every `u64` and `i64` is used otherwise.

pub mod model;
mod group;
mod convert;
pub mod laws;

pub use convert::number_to_words;
pub use convert::signed_number_to_words;
pub use convert::unsigned_number_to_words;
pub use group::group_number_to_words;
pub use group::multiple_of_ten_number_to_words;

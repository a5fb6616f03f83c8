//! Similarity of fuzzy hashes under inner-product functional encryption.
pub mod group;
pub mod fuzzy_hashes;
pub mod fe;
pub mod compressed;
pub mod traits;
pub mod comparator;
pub mod messages;
pub mod authority;
pub mod compute;
pub mod client;
pub mod natural;
pub mod ff_fe;

//! Resolution of UTC offsets over immutable, ordered tables of time spans.
pub mod binary_search;
pub mod timezone_impl;
pub mod timezones;

//! A lexical scanner for a small dynamically-typed scripting language.
//!
//! The scanner converts raw source text into an ordered sequence of
//! classified tokens in one forward pass, reporting malformed input
//! (unexpected characters, unterminated strings) without aborting the
//! scan.  Every public operation carries a contract that ties it to a
//! mathematical model of the scan (see `model`), and the central laws
//! of the scanner (EOF termination, source coverage, operator
//! round-trips) are proved in `laws`.

pub mod laws;
pub mod model;
pub mod scanner;
pub mod token;

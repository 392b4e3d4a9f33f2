//! The ways in which picking a fortune can fail.
use vstd::prelude::*;

verus! {

/// Why no fortune could be produced.
#[derive(Debug, Clone, Copy, PartialEq, Eq, Structural)]
pub enum FortuneError {
    /// The corpus holds no file to pick from.
    EmptyCorpus,
    /// The chosen file holds no quote.
    EmptyQuoteSet,
    /// No quote of the chosen file is short enough.
    NoMatchingQuote,
}

} // verus!

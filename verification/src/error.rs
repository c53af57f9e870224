//! Errors of the agent.

use vstd::prelude::*;

verus! {

/// What can go wrong when an agent is built, configured or asked to recover.
#[derive(Clone, Debug)]
pub enum PcError {
    /// A configuration or request was refused; the text says why.
    ConfigValidation(String),
    /// Two sizes that have to agree do not.
    DimensionMismatch {
        /// The size that was called for.
        expected: usize,
        /// The size that was found.
        got: usize,
        /// Which sizes these are.
        context: &'static str,
    },
}

impl PcError {
    /// The error is a refusal with exactly this text.
    pub open spec fn says(self, text: Seq<char>) -> bool {
        self matches PcError::ConfigValidation(m) && m@ == text
    }
}

} // verus!

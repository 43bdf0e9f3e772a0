//! The result of a conversion: one instant in two notations.

use vstd::prelude::*;

verus! {

/// One instant as a readable UTC text and as a Unix timestamp in decimal
/// notation. Where a token could not be converted, both fields hold the same
/// reserved word instead.
#[derive(Debug)]
pub struct Time {
    pub utc: String,
    pub unix: String,
}

/// What a [`Time`] holds, as two sequences of characters.
pub struct TimeView {
    pub utc: Seq<char>,
    pub unix: Seq<char>,
}

impl View for Time {
    type V = TimeView;

    open spec fn view(&self) -> TimeView {
        TimeView { utc: self.utc@, unix: self.unix@ }
    }
}

impl PartialEq for Time {
    /// Two values are equal when their fields are, one by one.
    fn eq(&self, other: &Time) -> (same: bool) {
        self.utc == other.utc && self.unix == other.unix
    }
}

impl vstd::std_specs::cmp::PartialEqSpecImpl for Time {
    open spec fn obeys_eq_spec() -> bool {
        true
    }

    open spec fn eq_spec(&self, other: &Time) -> bool {
        self.utc@ == other.utc@ && self.unix@ == other.unix@
    }
}

} // verus!

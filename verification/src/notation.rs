//! Small notation helpers shared with the display layer: clef symbols and
//! rounding of diatonic step counts.

use vstd::prelude::*;

verus! {

/// A staff clef.
#[derive(Copy, Clone, Eq, PartialEq, Debug, Structural)]
pub enum Clef {
    Treble,
    Bass,
}

impl Clef {
    /// The Unicode musical symbol for this clef.
    pub fn symbol(&self) -> (c: char)
        ensures
            c == self.symbol_spec(),
    {
        match self {
            Self::Treble => '\u{1d11e}',
            Self::Bass => '\u{1d122}',
        }
    }

    /// What `symbol` returns for each clef.
    pub open spec fn symbol_spec(&self) -> char {
        match self {
            Self::Treble => '\u{1d11e}',
            Self::Bass => '\u{1d122}',
        }
    }
}

/// Rounds a `(whole steps, leftover)` pair up: one more step if any leftover
/// remains.
pub fn round_up(steps_extra: (u8, u8)) -> (r: u8)
    requires
        steps_extra.1 > 0 ==> steps_extra.0 < 255,
    ensures
        r == if steps_extra.1 > 0 {
            steps_extra.0 + 1
        } else {
            steps_extra.0 as int
        },
{
    let (steps, extra) = steps_extra;
    if extra > 0 {
        steps + 1
    } else {
        steps
    }
}

} // verus!

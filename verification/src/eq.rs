//! Parametric EQ band labels.

use vstd::prelude::*;

verus! {

/// Filter shape of one EQ band.
#[derive(Clone, Copy, Debug, PartialEq, Eq, Structural)]
pub enum BandType {
    LowShelf,
    HighShelf,
    Peak,
}

/// The one-character label drawn on band `i`'s dot.
pub open spec fn band_short_label_spec(i: int, bt: BandType) -> Seq<char> {
    match bt {
        BandType::LowShelf => "L"@,
        BandType::HighShelf => "H"@,
        BandType::Peak => if i == 1 {
            "1"@
        } else if i == 2 {
            "2"@
        } else if i == 3 {
            "3"@
        } else if i == 4 {
            "4"@
        } else if i == 5 {
            "5"@
        } else {
            "6"@
        },
    }
}

/// Shelves are labelled `L` / `H`; peaks by their band index 1–5, and any
/// other peak band by `6`.
pub fn band_short_label(i: usize, bt: &BandType) -> (r: &'static str)
    ensures
        r@ == band_short_label_spec(i as int, *bt),
{
    match *bt {
        BandType::LowShelf => "L",
        BandType::HighShelf => "H",
        BandType::Peak => match i {
            1 => "1",
            2 => "2",
            3 => "3",
            4 => "4",
            5 => "5",
            _ => "6",
        },
    }
}

} // verus!

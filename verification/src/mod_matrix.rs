//! Modulation matrix panel: the names shown for a slot's source and
//! destination, and when its depth can be edited.

use vstd::prelude::*;

verus! {

/// Modulation sources, by index.
pub const MOD_SOURCES: [&'static str; 5] = ["Off", "LFO 1", "LFO 2", "Mod Wheel", "Aftertouch"];

/// Modulation destinations, by index.
pub const MOD_DESTS: [&'static str; 4] = ["Off", "Filter", "Amp", "Pitch"];

/// Name shown for source index `src` (an index past the end shows the last).
pub fn mod_source_label(src: usize) -> (r: &'static str)
    ensures
        r@ == MOD_SOURCES[if src < 4 { src as int } else { 4 }]@,
{
    let names = MOD_SOURCES;
    names[if src < 4 { src } else { 4 }]
}

/// Name shown for destination index `dst` (an index past the end shows the
/// last).
pub fn mod_dest_label(dst: usize) -> (r: &'static str)
    ensures
        r@ == MOD_DESTS[if dst < 3 { dst as int } else { 3 }]@,
{
    let names = MOD_DESTS;
    names[if dst < 3 { dst } else { 3 }]
}

/// A slot's depth can be edited when both its source and destination are
/// set.
pub fn mod_slot_active(src: usize, dst: usize) -> (r: bool)
    ensures
        r == (src != 0 && dst != 0),
{
    src != 0 && dst != 0
}

} // verus!

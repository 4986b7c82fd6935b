//! Pattern library windows: the category filter, which presets it lists,
//! and where a melody preset lands on the keyboard.

use vstd::prelude::*;
use crate::seq_controls::{clamp_int, TRANSPOSE_HIGH, TRANSPOSE_LOW};

verus! {

/// The category filter after a click on category `cat`: a click on the
/// active category shows all presets again, any other selects it.
pub open spec fn toggled(filter: Option<u32>, cat: u32) -> Option<u32> {
    if filter == Some(cat) { None } else { Some(cat) }
}

/// A click on a category chip.
pub fn toggle_category(filter: Option<u32>, cat: u32) -> (r: Option<u32>)
    ensures
        r == toggled(filter, cat),
{
    match filter {
        Some(c) => {
            if c == cat {
                None
            } else {
                Some(cat)
            }
        },
        None => Some(cat),
    }
}

/// Indices `i < n` of the presets the filter lets through, in order.
pub open spec fn listed(categories: Seq<u32>, filter: Option<u32>, n: int) -> Seq<usize>
    decreases n,
{
    if n <= 0 {
        Seq::<usize>::empty()
    } else {
        let prev = listed(categories, filter, n - 1);
        match filter {
            Some(c) => if categories[n - 1] == c { prev.push((n - 1) as usize) } else { prev },
            None => prev.push((n - 1) as usize),
        }
    }
}

/// The presets listed under the filter, given each preset's category: all
/// of them without a filter, else those of the chosen category, in order.
pub fn listed_presets(categories: &Vec<u32>, filter: Option<u32>) -> (r: Vec<usize>)
    ensures
        r@ == listed(categories@, filter, categories@.len() as int),
{
    let mut r: Vec<usize> = Vec::new();
    let mut i: usize = 0;
    while i < categories.len()
        invariant
            i <= categories.len(),
            r@ == listed(categories@, filter, i as int),
        decreases categories.len() - i,
    {
        let keep = match filter {
            Some(c) => categories[i] == c,
            None => true,
        };
        if keep {
            r.push(i);
        }
        i = i + 1;
    }
    r
}

/// The note a melody preset starts from: the C above the keyboard octave,
/// kept within A0–C8.
pub fn melody_base_note(octave: i32) -> (r: u8)
    ensures
        r == clamp_int(octave * 12 + 12, TRANSPOSE_LOW as int, TRANSPOSE_HIGH as int),
{
    let v: i64 = octave as i64 * 12 + 12;
    if v < TRANSPOSE_LOW as i64 {
        TRANSPOSE_LOW
    } else if v > TRANSPOSE_HIGH as i64 {
        TRANSPOSE_HIGH
    } else {
        v as u8
    }
}

/// The notes of a melody preset played from `base`: each offset added to
/// it, kept within A0–C8.
pub fn melody_notes(base: u8, offsets: &Vec<i32>) -> (r: Vec<u8>)
    ensures
        r.len() == offsets.len(),
        forall|i: int| 0 <= i < offsets.len() ==> #[trigger] r[i] == clamp_int(base + offsets[i], TRANSPOSE_LOW as int, TRANSPOSE_HIGH as int),
{
    let mut r: Vec<u8> = Vec::new();
    let mut i: usize = 0;
    while i < offsets.len()
        invariant
            i <= offsets.len(),
            r.len() == i,
            forall|k: int| 0 <= k < i ==> #[trigger] r[k] == clamp_int(base + offsets[k], TRANSPOSE_LOW as int, TRANSPOSE_HIGH as int),
        decreases offsets.len() - i,
    {
        let v: i64 = base as i64 + offsets[i] as i64;
        let c: u8 = if v < TRANSPOSE_LOW as i64 {
            TRANSPOSE_LOW
        } else if v > TRANSPOSE_HIGH as i64 {
            TRANSPOSE_HIGH
        } else {
            v as u8
        };
        r.push(c);
        i = i + 1;
    }
    r
}

/// Two clicks on the same category chip: from that category the filter
/// comes back to it, from anything else it ends cleared.
pub proof fn lemma_two_clicks(filter: Option<u32>, cat: u32)
    ensures
        toggled(toggled(filter, cat), cat) == if filter == Some(cat) { Some(cat) } else { None::<u32> },
{
}

/// Without a filter every preset is listed, in order.
pub proof fn lemma_no_filter_lists_all(categories: Seq<u32>, n: int)
    requires
        0 <= n <= categories.len(),
        categories.len() <= usize::MAX,
    ensures
        listed(categories, None, n).len() == n,
        forall|i: int| 0 <= i < n ==> #[trigger] listed(categories, None, n)[i] == i,
    decreases n,
{
    if n > 0 {
        lemma_no_filter_lists_all(categories, n - 1);
        let prev = listed(categories, None, n - 1);
        assert forall|i: int| 0 <= i < n implies #[trigger] listed(categories, None, n)[i] == i by {
            if i < n - 1 {
                assert(listed(categories, None, n)[i] == prev[i]);
            } else {
                assert(listed(categories, None, n)[i] == (n - 1) as usize);
            }
        }
    }
}

} // verus!

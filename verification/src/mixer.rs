//! Track mixer and MIDI panel decisions: which tracks are silenced by
//! mute and solo, and what the MIDI port selector shows.

use vstd::prelude::*;

verus! {

/// Some track is soloed.
pub open spec fn any_solo(soloed: Seq<bool>) -> bool {
    exists|t: int| 0 <= t < soloed.len() && #[trigger] soloed[t]
}

/// Track `t` is muted, or another track is soloed while it is not.
pub open spec fn silenced(muted: Seq<bool>, soloed: Seq<bool>, t: int) -> bool {
    muted[t] || (any_solo(soloed) && !soloed[t])
}

/// Whether track `t` is silent in the mix: muted, or another track is
/// soloed while it is not. Its level meter then shows nothing.
pub fn track_silenced(muted: &Vec<bool>, soloed: &Vec<bool>, t: usize) -> (r: bool)
    requires
        t < muted.len(),
        t < soloed.len(),
    ensures
        r == silenced(muted@, soloed@, t as int),
{
    let mut some_solo = false;
    let mut i: usize = 0;
    while i < soloed.len()
        invariant
            i <= soloed.len(),
            some_solo == exists|k: int| 0 <= k < i && #[trigger] soloed[k],
        decreases soloed.len() - i,
    {
        if soloed[i] {
            some_solo = true;
        }
        i = i + 1;
    }
    muted[t] || (some_solo && !soloed[t])
}

/// With no track soloed, a track is silent exactly when it is muted; a
/// soloed track that is not muted always sounds.
pub proof fn lemma_track_solo_and_mute(muted: Seq<bool>, soloed: Seq<bool>, t: int)
    requires
        0 <= t < muted.len(),
        0 <= t < soloed.len(),
    ensures
        !any_solo(soloed) ==> (silenced(muted, soloed, t) == muted[t]),
        soloed[t] && !muted[t] ==> !silenced(muted, soloed, t),
{
}

/// The MIDI port selector's caption: the connected port's name, or
/// "— disconnected —" when no port (or no listed port) is connected.
pub fn port_label(names: &Vec<String>, connected: Option<usize>) -> (r: String)
    ensures
        r@ == match connected {
            Some(i) if i < names.len() => names[i as int]@,
            _ => "— disconnected —"@,
        },
{
    match connected {
        Some(i) => {
            if i < names.len() {
                names[i].clone()
            } else {
                String::from_str("— disconnected —")
            }
        },
        None => String::from_str("— disconnected —"),
    }
}

} // verus!

//! Oscillator unison: which of the engine's unison voices sound, and where
//! each one sits in the detune spread. The engine calls and the floating
//! point detune/volume values are computed by the application from this plan.

use vstd::prelude::*;

verus! {

/// Unison voices the engine offers per oscillator.
pub const UNISON_VOICES: usize = 5;

/// Setting of one unison voice.
#[derive(Clone, Copy, Debug, PartialEq, Eq, Structural)]
pub enum UnisonVoice {
    /// No detune, full volume: the single voice of a plain oscillator.
    Solo,
    /// No detune, silent.
    Silent,
    /// Voice `index` of `count` spread voices: detuned to position
    /// `index / (count - 1)` across the spread, at volume `1 / count`.
    Spread { index: usize, count: usize },
}

/// Setting of voice `c` for an oscillator with unison `enabled` and `count` voices.
pub open spec fn unison_voice_spec(enabled: bool, count: usize, c: int) -> UnisonVoice {
    if !enabled || count <= 1 {
        if c == 0 { UnisonVoice::Solo } else { UnisonVoice::Silent }
    } else if c < count {
        UnisonVoice::Spread { index: c as usize, count }
    } else {
        UnisonVoice::Silent
    }
}

/// Settings of all `UNISON_VOICES` voices: with unison off (or a count of at
/// most one) only voice 0 sounds, undetuned; otherwise the first `count`
/// voices are spread evenly and the rest are silenced.
pub fn unison_plan(enabled: bool, count: usize) -> (plan: Vec<UnisonVoice>)
    ensures
        plan.len() == UNISON_VOICES,
        forall|c: int| 0 <= c < UNISON_VOICES ==> plan[c] == unison_voice_spec(enabled, count, c),
{
    let mut plan: Vec<UnisonVoice> = Vec::new();
    if !enabled || count <= 1 {
        let mut c: usize = 0;
        while c < UNISON_VOICES
            invariant
                c <= UNISON_VOICES,
                !enabled || count <= 1,
                plan.len() == c,
                forall|k: int| 0 <= k < c ==> plan[k] == unison_voice_spec(enabled, count, k),
            decreases UNISON_VOICES - c,
        {
            if c == 0 {
                plan.push(UnisonVoice::Solo);
            } else {
                plan.push(UnisonVoice::Silent);
            }
            c = c + 1;
        }
        return plan;
    }
    let mut c: usize = 0;
    while c < UNISON_VOICES
        invariant
            c <= UNISON_VOICES,
            enabled && count > 1,
            plan.len() == c,
            forall|k: int| 0 <= k < c ==> plan[k] == unison_voice_spec(enabled, count, k),
        decreases UNISON_VOICES - c,
    {
        if c < count {
            plan.push(UnisonVoice::Spread { index: c, count });
        } else {
            plan.push(UnisonVoice::Silent);
        }
        c = c + 1;
    }
    plan
}

} // verus!

//! Piano keyboard model: which MIDI notes are white keys, how many white
//! keys a range holds, and which theme color a key is filled with.

use vstd::prelude::*;
use vstd::arithmetic::div_mod::lemma_add_mod_noop;

verus! {

/// White-key height variants. Black keys are always 60 % of the white height.
#[derive(Clone, Copy, Debug, PartialEq, Eq, Structural)]
pub enum PianoSize {
    /// 64 px white keys — full interactive piano.
    Full,
    /// 36 px white keys — compact chord-KB preview strip.
    Preview,
}

/// The key colors of a theme (the `key_*` tokens), as RGB triples.
#[derive(Clone, Copy, Debug, PartialEq, Eq)]
pub struct KeyPalette {
    pub key_white_pressed: [u8; 3],
    pub key_black_pressed: [u8; 3],
    pub key_white_default: [u8; 3],
    pub key_black_default: [u8; 3],
    pub key_white_range: [u8; 3],
    pub key_black_range: [u8; 3],
    pub key_scale_root: [u8; 3],
    pub key_scale_root_dark: [u8; 3],
    pub key_scale_in: [u8; 3],
    pub key_scale_in_dark: [u8; 3],
    pub key_stroke: [u8; 3],
    pub key_label: [u8; 3],
}

/// Visual state for a single MIDI note, returned by the `key_state` callback.
/// Default gives a plain unlit key.
#[derive(Clone, Copy, Debug, Default, PartialEq, Eq, Structural)]
pub struct KeyVisualState {
    /// Note is currently depressed (sounding).
    pub pressed: bool,
    /// Note falls within the computer-keyboard mapped range.
    pub in_kb_range: bool,
    /// Note's pitch class is the scale root.
    pub is_scale_root: bool,
    /// Note's pitch class is in the highlighted scale.
    pub in_scale: bool,
}

impl KeyVisualState {
    /// Theme-driven fill color for a white key: pressed, then scale root,
    /// then in scale, then keyboard range, then the plain key.
    pub fn white_fill(self, keys: &KeyPalette) -> (c: [u8; 3])
        ensures
            c == (if self.pressed {
                keys.key_white_pressed
            } else if self.is_scale_root {
                keys.key_scale_root
            } else if self.in_scale {
                keys.key_scale_in
            } else if self.in_kb_range {
                keys.key_white_range
            } else {
                keys.key_white_default
            }),
    {
        if self.pressed {
            keys.key_white_pressed
        } else if self.is_scale_root {
            keys.key_scale_root
        } else if self.in_scale {
            keys.key_scale_in
        } else if self.in_kb_range {
            keys.key_white_range
        } else {
            keys.key_white_default
        }
    }

    /// Theme-driven fill color for a black key, with the same priorities as
    /// `white_fill` and the dark variants of the highlight colors.
    pub fn black_fill(self, keys: &KeyPalette) -> (c: [u8; 3])
        ensures
            c == (if self.pressed {
                keys.key_black_pressed
            } else if self.is_scale_root {
                keys.key_scale_root_dark
            } else if self.in_scale {
                keys.key_scale_in_dark
            } else if self.in_kb_range {
                keys.key_black_range
            } else {
                keys.key_black_default
            }),
    {
        if self.pressed {
            keys.key_black_pressed
        } else if self.is_scale_root {
            keys.key_scale_root_dark
        } else if self.in_scale {
            keys.key_scale_in_dark
        } else if self.in_kb_range {
            keys.key_black_range
        } else {
            keys.key_black_default
        }
    }
}

/// Configuration for a piano render.
#[derive(Clone, Copy, Debug, PartialEq, Eq)]
pub struct PianoConfig {
    /// First MIDI note (inclusive).
    pub first_midi: u8,
    /// Last MIDI note (inclusive).
    pub last_midi: u8,
    /// Key size — drives the white-key height.
    pub size: PianoSize,
    /// Respond to clicks and drags.
    pub interactive: bool,
    /// Show "C4" octave labels at the bottom of each C key.
    pub show_labels: bool,
    /// Draw a colored accent bar at the top spanning `(start, end_exclusive)`.
    pub range_bar: Option<(u8, u8)>,
}

/// A pitch class is a white key when it is one of C D E F G A B.
pub open spec fn is_white_pitch(midi: int) -> bool {
    let pc = midi % 12;
    pc == 0 || pc == 2 || pc == 4 || pc == 5 || pc == 7 || pc == 9 || pc == 11
}

/// Number of white keys among the notes `lo, lo + 1, .., hi - 1`.
pub open spec fn white_keys_between(lo: int, hi: int) -> nat
    decreases hi - lo,
{
    if hi <= lo {
        0
    } else {
        white_keys_between(lo, hi - 1) + if is_white_pitch(hi - 1) { 1nat } else { 0nat }
    }
}

/// Returns `true` if `midi` maps to a white key.
pub fn is_white_key(midi: u8) -> (r: bool)
    ensures
        r == is_white_pitch(midi as int),
{
    let pc = midi % 12;
    pc == 0 || pc == 2 || pc == 4 || pc == 5 || pc == 7 || pc == 9 || pc == 11
}

/// Count the white keys in `[first, last]` (inclusive).
pub fn count_white_keys_in(first: u8, last: u8) -> (n: usize)
    ensures
        n == white_keys_between(first as int, last as int + 1),
{
    let mut n: usize = 0;
    let mut m: u16 = first as u16;
    let end: u16 = last as u16 + 1;
    while m < end
        invariant
            first <= m,
            end == last + 1,
            first <= end ==> m <= end,
            first > end ==> m == first,
            n == white_keys_between(first as int, m as int),
            n <= m - first,
        decreases end - m,
    {
        if is_white_key(m as u8) {
            n = n + 1;
        }
        m = m + 1;
    }
    proof {
        if first as int > last as int + 1 {
            assert(white_keys_between(first as int, last as int + 1) == 0);
            assert(m == first);
            assert(white_keys_between(first as int, m as int) == 0);
        } else {
            assert(m == end);
        }
    }
    n
}


/// Shifting a note by an octave keeps its key color.
pub proof fn lemma_white_key_octave(midi: int)
    ensures
        is_white_pitch(midi + 12) == is_white_pitch(midi),
{
    lemma_add_mod_noop(midi, 12, 12);
    assert(12int % 12 == 0);
    assert((midi % 12) % 12 == midi % 12) by {
        vstd::arithmetic::div_mod::lemma_mod_twice(midi, 12);
    }
}

/// Any twelve consecutive notes hold exactly seven white keys.
pub proof fn lemma_octave_has_seven_white_keys(first: int)
    ensures
        white_keys_between(first, first + 12) == 7,
{
    let r = first % 12;
    assert forall|k: int| 0 <= k < 12 implies #[trigger] ((first + k) % 12) == (r + k) % 12 by {
        lemma_add_mod_noop(first, k, 12);
        vstd::arithmetic::div_mod::lemma_small_mod(k as nat, 12);
    }
    assert(0 <= r < 12);
    reveal_with_fuel(white_keys_between, 13);
    assert((first + 0) % 12 == (r + 0) % 12);
    assert((first + 1) % 12 == (r + 1) % 12);
    assert((first + 2) % 12 == (r + 2) % 12);
    assert((first + 3) % 12 == (r + 3) % 12);
    assert((first + 4) % 12 == (r + 4) % 12);
    assert((first + 5) % 12 == (r + 5) % 12);
    assert((first + 6) % 12 == (r + 6) % 12);
    assert((first + 7) % 12 == (r + 7) % 12);
    assert((first + 8) % 12 == (r + 8) % 12);
    assert((first + 9) % 12 == (r + 9) % 12);
    assert((first + 10) % 12 == (r + 10) % 12);
    assert((first + 11) % 12 == (r + 11) % 12);
}

} // verus!

//! Sequencer panel controls: what the transport, record, length, transpose,
//! randomize and euclid buttons and the step editors do to the sequencer
//! state. Drawing the panel and driving the clock are the application's job.

use vstd::prelude::*;
use vstd::arithmetic::div_mod::{lemma_fundamental_div_mod, lemma_mod_multiples_vanish, lemma_mod_self_0, lemma_small_mod};

verus! {

/// `x` limited to `lo ..= hi`.
pub open spec fn clamp_int(x: int, lo: int, hi: int) -> int {
    if x < lo {
        lo
    } else if x > hi {
        hi
    } else {
        x
    }
}

/// What pressing the play button did.
#[derive(Clone, Copy, Debug, PartialEq, Eq, Structural)]
pub enum TransportPress {
    /// The sequencer was playing or waiting for a bar: it stops.
    Stop,
    /// Bar-quantize is on: the sequencer waits for the next bar boundary.
    Arm,
    /// The sequencer starts now (the clock and generators restart).
    Start,
}

/// Transport state of the sequencer.
#[derive(Clone, Copy, Debug, PartialEq, Eq, Structural)]
pub struct Transport {
    pub playing: bool,
    /// Waiting for the next bar boundary to start.
    pub pending_start: bool,
    pub current_step: usize,
}

/// Transport and outcome after pressing play: a playing or waiting
/// sequencer stops, else it waits for the next bar when bar-quantize is on,
/// else it starts; every press rewinds to step 0.
pub open spec fn after_press(t: Transport, bar_quantize: bool) -> (Transport, TransportPress) {
    if t.playing || t.pending_start {
        (Transport { playing: false, pending_start: false, current_step: 0 }, TransportPress::Stop)
    } else if bar_quantize {
        (Transport { playing: false, pending_start: true, current_step: 0 }, TransportPress::Arm)
    } else {
        (Transport { playing: true, pending_start: false, current_step: 0 }, TransportPress::Start)
    }
}

impl Transport {
    /// The play / stop button.
    pub fn press_play(&mut self, bar_quantize: bool) -> (r: TransportPress)
        ensures
            (*final(self), r) == after_press(*old(self), bar_quantize),
    {
        self.current_step = 0;
        if self.playing || self.pending_start {
            self.playing = false;
            self.pending_start = false;
            TransportPress::Stop
        } else if bar_quantize {
            self.pending_start = true;
            TransportPress::Arm
        } else {
            self.playing = true;
            TransportPress::Start
        }
    }

    /// A new pattern length: the playhead goes back to step 0 when it would
    /// lie past the end.
    pub fn resize(&mut self, len: usize)
        ensures
            final(self).playing == old(self).playing,
            final(self).pending_start == old(self).pending_start,
            final(self).current_step == if old(self).current_step >= len { 0 } else { old(self).current_step },
    {
        if self.current_step >= len {
            self.current_step = 0;
        }
    }
}

/// The sequencer's modes: the note and chord sequencers have a tab in the
/// panel; the chord keyboard plays from the keyboard strip.
#[derive(Clone, Copy, Debug, PartialEq, Eq, Structural)]
pub enum SeqMode {
    NoteSeq,
    ChordSeq,
    ChordKb,
}

/// Transport and mode after a click on the tab of `new_mode`: another mode
/// stops the sequencer, rewinds it and is selected; the active tab changes
/// nothing.
pub open spec fn after_mode_tab(t: Transport, mode: SeqMode, new_mode: SeqMode) -> (Transport, SeqMode) {
    if mode == new_mode {
        (t, mode)
    } else {
        (Transport { playing: false, current_step: 0, ..t }, new_mode)
    }
}

/// Transport after the pattern gets `len` steps: a playhead past the end
/// goes back to step 0.
pub open spec fn after_length(t: Transport, len: usize) -> Transport {
    Transport { current_step: if t.current_step >= len { 0 } else { t.current_step }, ..t }
}

impl Transport {
    /// A click on a mode tab.
    pub fn switch_mode(&mut self, mode: &mut SeqMode, new_mode: SeqMode)
        ensures
            (*final(self), *final(mode)) == after_mode_tab(*old(self), *old(mode), new_mode),
    {
        if *mode != new_mode {
            self.playing = false;
            self.current_step = 0;
            *mode = new_mode;
        }
    }

    /// A step-length button (8, 16 or 24): the active pattern gets `len`
    /// steps and the playhead follows.
    pub fn set_length(&mut self, length: &mut usize, len: usize)
        ensures
            *final(length) == len,
            *final(self) == after_length(*old(self), len),
    {
        *length = len;
        self.resize(len);
    }
}

/// The record button: toggles recording; starting it while stopped (step
/// entry) puts the record cursor on step 0. Returns the new recording flag
/// and record cursor.
pub fn toggle_recording(recording: bool, playing: bool, rec_step: usize) -> (r: (bool, usize))
    ensures
        r.0 == !recording,
        r.1 == if !recording && !playing { 0 } else { rec_step },
{
    let next = !recording;
    if next && !playing {
        (next, 0)
    } else {
        (next, rec_step)
    }
}

/// Lowest note the note sequencer transposes to (A0).
pub const TRANSPOSE_LOW: u8 = 21;

/// Highest note the note sequencer transposes to (C8).
pub const TRANSPOSE_HIGH: u8 = 108;

/// A note transposed by `semitones`, kept within A0–C8.
pub open spec fn transposed_note(note: int, semitones: int) -> int {
    clamp_int(note + semitones, TRANSPOSE_LOW as int, TRANSPOSE_HIGH as int)
}

/// Transpose the first `len` notes of the note sequencer by `semitones`,
/// keeping each within A0–C8; the notes after them stay.
pub fn transpose_notes(notes: &mut Vec<u8>, len: usize, semitones: i32)
    requires
        len <= old(notes).len(),
    ensures
        final(notes).len() == old(notes).len(),
        forall|i: int| 0 <= i < len ==> #[trigger] final(notes)[i] == transposed_note(old(notes)[i] as int, semitones as int),
        forall|i: int| len <= i < old(notes).len() ==> #[trigger] final(notes)[i] == old(notes)[i],
{
    let mut i: usize = 0;
    while i < len
        invariant
            i <= len,
            len <= notes.len(),
            notes.len() == old(notes).len(),
            forall|k: int| 0 <= k < i ==> #[trigger] notes[k] == transposed_note(old(notes)[k] as int, semitones as int),
            forall|k: int| i <= k < old(notes).len() ==> #[trigger] notes[k] == old(notes)[k],
        decreases len - i,
    {
        let v: i64 = notes[i] as i64 + semitones as i64;
        let c: i64 = if v < TRANSPOSE_LOW as i64 {
            TRANSPOSE_LOW as i64
        } else if v > TRANSPOSE_HIGH as i64 {
            TRANSPOSE_HIGH as i64
        } else {
            v
        };
        notes.set(i, c as u8);
        i = i + 1;
    }
}

/// Transpose the chord sequencer's key: by an octave (±12) the octave moves
/// within 1–7, otherwise the root moves around the twelve pitch classes.
/// Returns the new root and octave.
pub fn transpose_key(root: u8, octave: i32, semitones: i32) -> (r: (u8, i32))
    ensures
        semitones == 12 || semitones == -12 ==> r.0 == root && r.1 == clamp_int(octave + semitones / 12, 1, 7),
        semitones != 12 && semitones != -12 ==> r.1 == octave && r.0 == (root + semitones) % 12,
{
    if semitones == 12 || semitones == -12 {
        let o: i64 = octave as i64 + (semitones / 12) as i64;
        let c: i64 = if o < 1 {
            1
        } else if o > 7 {
            7
        } else {
            o
        };
        (root, c as i32)
    } else {
        // Adding 12 * 2^28 keeps the sum non-negative without changing it
        // modulo 12.
        let w: u64 = (root as i64 + semitones as i64 + 3221225472i64) as u64;
        let e: u64 = w % 12;
        proof {
            lemma_mod_multiples_vanish(268435456, root + semitones, 12);
        }
        (e as u8, octave)
    }
}

/// Bits of the randomize seed that step `i` reads, starting at bit
/// `i * stride` counted around the 64 bits of the seed.
pub open spec fn seed_bits(seed: u64, i: int, stride: int) -> u64 {
    seed >> (((i * stride) % 64) as u64)
}

/// The randomize button's on/off steps: step `i` is on when bit `i` (counted
/// around the 64 bits) of `seed` is set.
pub fn random_steps(seed: u64, len: usize) -> (r: Vec<bool>)
    ensures
        r.len() == len,
        forall|i: int| 0 <= i < len ==> #[trigger] r[i] == (seed_bits(seed, i, 1) & 1 == 1),
{
    let mut r: Vec<bool> = Vec::new();
    let mut i: usize = 0;
    while i < len
        invariant
            i <= len,
            r.len() == i,
            forall|k: int| 0 <= k < i ==> #[trigger] r[k] == (seed_bits(seed, k, 1) & 1 == 1),
        decreases len - i,
    {
        let sh: u64 = (i % 64) as u64;
        r.push((seed >> sh) & 1 == 1);
        i = i + 1;
    }
    r
}

/// The randomize button's chord degrees: step `i` takes the byte of `seed`
/// at bit `4 * i` (counted around the 64 bits), modulo the seven degrees.
pub fn random_degrees(seed: u64, len: usize) -> (r: Vec<usize>)
    ensures
        r.len() == len,
        forall|i: int| 0 <= i < len ==> #[trigger] r[i] == (seed_bits(seed, i, 4) & 0xff) % 7,
{
    let mut r: Vec<usize> = Vec::new();
    let mut i: usize = 0;
    while i < len
        invariant
            i <= len,
            r.len() == i,
            forall|k: int| 0 <= k < i ==> #[trigger] r[k] == (seed_bits(seed, k, 4) & 0xff) % 7,
        decreases len - i,
    {
        let sh: u64 = ((i % 64) * 4 % 64) as u64;
        assert((i % 64) * 4 % 64 == (i * 4) % 64) by (nonlinear_arith);
        let b: u64 = (seed >> sh) & 0xff;
        r.push((b % 7) as usize);
        i = i + 1;
    }
    r
}

/// The randomize button's notes: step `i` takes the byte of `seed` at bit
/// `3 * i` (counted around the 64 bits), as an index into `scale`.
pub fn random_notes(seed: u64, len: usize, scale: &Vec<u8>) -> (r: Vec<u8>)
    requires
        scale.len() > 0,
    ensures
        r.len() == len,
        forall|i: int| 0 <= i < len ==> #[trigger] r[i] == scale[((seed_bits(seed, i, 3) & 0xff) % (scale.len() as u64)) as int],
{
    let mut r: Vec<u8> = Vec::new();
    let mut i: usize = 0;
    while i < len
        invariant
            i <= len,
            r.len() == i,
            scale.len() > 0,
            forall|k: int| 0 <= k < i ==> #[trigger] r[k] == scale[((seed_bits(seed, k, 3) & 0xff) % (scale.len() as u64)) as int],
        decreases len - i,
    {
        let sh: u64 = ((i % 64) * 3 % 64) as u64;
        assert((i % 64) * 3 % 64 == (i * 3) % 64) by (nonlinear_arith);
        let b: u64 = (seed >> sh) & 0xff;
        let k: usize = (b % (scale.len() as u64)) as usize;
        r.push(scale[k]);
        i = i + 1;
    }
    r
}

/// Distance between two notes in semitones.
pub open spec fn note_distance(a: u8, b: u8) -> int {
    if a >= b { a - b } else { b - a }
}

/// The note of `scale` nearest to `note`, the first one on a tie; `note`
/// itself when the scale is empty. Dragged note-sequencer steps snap to it.
pub fn nearest_note(scale: &Vec<u8>, note: u8) -> (r: u8)
    ensures
        scale.len() == 0 ==> r == note,
        scale.len() > 0 ==> exists|k: int|
            0 <= k < scale.len() && r == scale[k] && (forall|j: int|
                0 <= j < scale.len() ==> note_distance(#[trigger] scale[j], note) >= note_distance(scale[k], note))
                && (forall|j: int| 0 <= j < k ==> note_distance(#[trigger] scale[j], note) > note_distance(scale[k], note)),
{
    if scale.len() == 0 {
        return note;
    }
    let mut best: usize = 0;
    let mut i: usize = 1;
    while i < scale.len()
        invariant
            1 <= i <= scale.len(),
            best < i,
            forall|j: int| 0 <= j < i ==> note_distance(#[trigger] scale[j], note) >= note_distance(scale[best as int], note),
            forall|j: int| 0 <= j < best ==> note_distance(#[trigger] scale[j], note) > note_distance(scale[best as int], note),
        decreases scale.len() - i,
    {
        let d: u8 = if scale[i] >= note { scale[i] - note } else { note - scale[i] };
        let bd: u8 = if scale[best] >= note { scale[best] - note } else { note - scale[best] };
        if d < bd {
            best = i;
        }
        i = i + 1;
    }
    scale[best]
}

/// Chord degree after dragging or scrolling a chord step by `delta`,
/// within the seven degrees 0–6.
pub fn nudge_degree(degree: usize, delta: i32) -> (r: usize)
    requires
        degree <= 6,
    ensures
        r == clamp_int(degree + delta, 0, 6),
{
    let v: i64 = degree as i64 + delta as i64;
    if v < 0 {
        0
    } else if v > 6 {
        6
    } else {
        v as usize
    }
}

/// Octave offset of a chord step after a click on its right (`up`) or left
/// half, within -2–2.
pub fn nudge_octave_offset(offset: i32, up: bool) -> (r: i32)
    ensures
        up ==> r == if offset + 1 < 2 { offset + 1 } else { 2 },
        !up ==> r == if offset - 1 > -2 { offset - 1 } else { -2 },
{
    if up {
        if offset < 1 { offset + 1 } else { 2 }
    } else {
        if offset > -1 { offset - 1 } else { -2 }
    }
}

/// Euclid generator settings shown for a pattern of `len` steps: at least
/// one and at most `len` hits, an offset below `len`. Returns the hits and
/// the offset.
pub fn euclid_settings(hits: usize, offset: usize, len: usize) -> (r: (usize, usize))
    requires
        len >= 1,
    ensures
        r.0 == clamp_int(hits as int, 1, len as int),
        r.1 == offset % len,
{
    let h = if hits < 1 {
        1
    } else if hits > len {
        len
    } else {
        hits
    };
    (h, offset % len)
}

/// Pressing play twice brings a stopped sequencer back to stopped at step
/// 0, whether it started at once or waited for the bar.
pub proof fn lemma_play_then_stop(t: Transport, bar_quantize: bool)
    requires
        !t.playing,
        !t.pending_start,
    ensures
        after_press(after_press(t, bar_quantize).0, bar_quantize).0 == (Transport {
            playing: false,
            pending_start: false,
            current_step: 0,
        }),
        after_press(after_press(t, bar_quantize).0, bar_quantize).1 == TransportPress::Stop,
{
}

/// Transposing a note and back gives the note again when neither step hits
/// the A0–C8 limits.
pub proof fn lemma_transpose_back(note: int, semitones: int)
    requires
        21 <= note <= 108,
        21 <= note + semitones <= 108,
    ensures
        transposed_note(transposed_note(note, semitones), -semitones) == note,
{
}

/// Moving the chord key's root by some semitones and back gives the root
/// again.
pub proof fn lemma_key_transpose_back(root: int, semitones: int)
    requires
        0 <= root < 12,
    ensures
        ((root + semitones) % 12 + (-semitones)) % 12 == root,
{
    let m = (root + semitones) % 12;
    let q = (root + semitones) / 12;
    lemma_fundamental_div_mod(root + semitones, 12);
    assert(m - semitones == root - 12 * q);
    lemma_mod_multiples_vanish(-q, root, 12);
    lemma_small_mod(root as nat, 12);
}

/// The next chord type after the one at index `cur` of the `count` types,
/// wrapping around; an index outside the list counts as the first type.
pub open spec fn next_chord_type(cur: usize, count: usize) -> usize {
    ((if cur < count { cur } else { 0 }) + 1) as usize % count
}

/// The chord sequencer's steps: on/off, scale degree (0–6), chord type (an
/// index into the list of chord types) and octave offset (-2–2) of each
/// step; the first `length` steps are played.
pub struct ChordSteps {
    pub length: usize,
    pub steps: Vec<bool>,
    pub degrees: Vec<usize>,
    pub chord_types: Vec<usize>,
    pub octave_offsets: Vec<i32>,
}

impl ChordSteps {
    /// Every played step has its fields, a degree within 0–6 and an octave
    /// offset within -2–2.
    pub open spec fn wf(&self) -> bool {
        &&& self.length <= self.steps.len()
        &&& self.length <= self.degrees.len()
        &&& self.length <= self.chord_types.len()
        &&& self.length <= self.octave_offsets.len()
        &&& forall|i: int| 0 <= i < self.length ==> #[trigger] self.degrees[i] <= 6
        &&& forall|i: int| 0 <= i < self.length ==> -2 <= #[trigger] self.octave_offsets[i] <= 2
    }

    /// A click on the pad of step `i`: the step turns on or off.
    pub fn toggle_step(&mut self, i: usize)
        requires
            old(self).wf(),
            i < old(self).length,
        ensures
            final(self).wf(),
            final(self).steps@ == old(self).steps@.update(i as int, !old(self).steps@[i as int]),
            final(self).length == old(self).length,
            final(self).degrees@ == old(self).degrees@,
            final(self).chord_types@ == old(self).chord_types@,
            final(self).octave_offsets@ == old(self).octave_offsets@,
    {
        let on = self.steps[i];
        self.steps.set(i, !on);
    }

    /// A right-click on step `i`: its chord type becomes the next of the
    /// `type_count` types, wrapping around.
    pub fn cycle_chord_type(&mut self, i: usize, type_count: usize)
        requires
            old(self).wf(),
            i < old(self).length,
            type_count > 0,
        ensures
            final(self).wf(),
            final(self).chord_types@ == old(self).chord_types@.update(
                i as int,
                next_chord_type(old(self).chord_types@[i as int], type_count),
            ),
            final(self).length == old(self).length,
            final(self).steps@ == old(self).steps@,
            final(self).degrees@ == old(self).degrees@,
            final(self).octave_offsets@ == old(self).octave_offsets@,
    {
        let cur = self.chord_types[i];
        let pos: usize = if cur < type_count { cur } else { 0 };
        self.chord_types.set(i, (pos + 1) % type_count);
    }

    /// Dragging or scrolling the degree bar of step `i` by `delta` degrees.
    pub fn nudge_step_degree(&mut self, i: usize, delta: i32)
        requires
            old(self).wf(),
            i < old(self).length,
        ensures
            final(self).wf(),
            final(self).degrees@ == old(self).degrees@.update(
                i as int,
                clamp_int(old(self).degrees@[i as int] + delta, 0, 6) as usize,
            ),
            final(self).length == old(self).length,
            final(self).steps@ == old(self).steps@,
            final(self).chord_types@ == old(self).chord_types@,
            final(self).octave_offsets@ == old(self).octave_offsets@,
    {
        let d = nudge_degree(self.degrees[i], delta);
        self.degrees.set(i, d);
    }

    /// A click on the right (`up`) or left half of step `i`'s octave bar.
    pub fn nudge_step_octave(&mut self, i: usize, up: bool)
        requires
            old(self).wf(),
            i < old(self).length,
        ensures
            final(self).wf(),
            final(self).octave_offsets@ == old(self).octave_offsets@.update(
                i as int,
                if up {
                    if old(self).octave_offsets@[i as int] + 1 < 2 { old(self).octave_offsets@[i as int] + 1 } else { 2 }
                } else {
                    if old(self).octave_offsets@[i as int] - 1 > -2 { old(self).octave_offsets@[i as int] - 1 } else { -2 }
                } as i32,
            ),
            final(self).length == old(self).length,
            final(self).steps@ == old(self).steps@,
            final(self).degrees@ == old(self).degrees@,
            final(self).chord_types@ == old(self).chord_types@,
    {
        let o = nudge_octave_offset(self.octave_offsets[i], up);
        self.octave_offsets.set(i, o);
    }
}

/// Cycling a chord type stays within the list and wraps from the last type
/// to the first.
pub proof fn lemma_chord_type_cycle(cur: usize, count: usize)
    requires
        count > 0,
    ensures
        next_chord_type(cur, count) < count,
        cur + 1 == count ==> next_chord_type(cur, count) == 0,
        cur + 1 < count ==> next_chord_type(cur, count) == cur + 1,
{
    if cur + 1 < count {
        lemma_small_mod((cur + 1) as nat, count as nat);
    }
    if cur + 1 == count {
        lemma_mod_self_0(count as int);
    }
}

/// Switching to another mode leaves the sequencer stopped at step 0, so
/// the next play starts the new mode from its first step (or waits for the
/// bar with it rewound).
pub proof fn lemma_switch_then_play(t: Transport, mode: SeqMode, new_mode: SeqMode, bar_quantize: bool)
    requires
        mode != new_mode,
        !t.pending_start,
    ensures
        !after_mode_tab(t, mode, new_mode).0.playing,
        after_mode_tab(t, mode, new_mode).0.current_step == 0,
        after_press(after_mode_tab(t, mode, new_mode).0, bar_quantize).1 == if bar_quantize {
            TransportPress::Arm
        } else {
            TransportPress::Start
        },
        after_press(after_mode_tab(t, mode, new_mode).0, bar_quantize).0.current_step == 0,
{
}

/// A new pattern length never leaves the playhead past the end.
pub proof fn lemma_length_keeps_playhead_inside(t: Transport, len: usize)
    requires
        len > 0,
    ensures
        after_length(t, len).current_step < len,
{
}

/// Pressing play while the sequencer plays or waits for the bar always
/// stops it at step 0, with or without bar-quantize; pressing it while
/// stopped never answers Stop.
pub proof fn lemma_play_button_stops_a_running_sequencer(t: Transport, bar_quantize: bool)
    ensures
        t.playing || t.pending_start ==> after_press(t, bar_quantize) == (Transport {
            playing: false,
            pending_start: false,
            current_step: 0,
        }, TransportPress::Stop),
        !t.playing && !t.pending_start ==> after_press(t, bar_quantize).1 != TransportPress::Stop,
        after_press(t, bar_quantize).0.current_step == 0,
{
}

} // verus!

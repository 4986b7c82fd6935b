//! Computer-keyboard playing: what one frame of key input does to the
//! played notes (piano mode) or chord pads (chord-keyboard mode), the
//! octave, velocity, pitch bend, mod wheel and freeze, and which note and
//! controller messages it sends. Reading the keys, voicing the chords and
//! talking to the engine are the application's job.

use vstd::prelude::*;
use crate::piano::KeyVisualState;

verus! {

/// A message for the engine.
#[derive(Clone, Copy, Debug, PartialEq, Eq, Structural)]
pub enum PianoAction {
    NoteOn(u8),
    NoteOff(u8),
    /// Pitch bend in semitones (-2, 0 or 2).
    PitchBend(i8),
    /// Mod wheel level 0–5 (0 %, 20 %, … 100 %).
    ModWheel(u8),
}

/// Keys read this frame.
pub struct PianoKeyInput {
    /// Z pressed: octave down.
    pub octave_down: bool,
    /// X pressed: octave up.
    pub octave_up: bool,
    /// C pressed: velocity down.
    pub velocity_down: bool,
    /// V pressed: velocity up.
    pub velocity_up: bool,
    /// 1 held: bend down.
    pub bend_down: bool,
    /// 2 held: bend up.
    pub bend_up: bool,
    /// Keys 3–8 pressed: mod wheel levels 0–5.
    pub mod_pressed: [bool; 6],
    /// Semitone offsets (0–17, from A W S E D … ') of the note keys held down.
    pub semitones_down: Vec<i32>,
}

/// Piano-mode keyboard state.
pub struct PianoKeys {
    /// Octave of the A key (1–7).
    pub octave: i32,
    pub velocity: u8,
    pub pitch_bend: i8,
    pub mod_wheel: u8,
    /// Notes currently held through the keyboard.
    pub held: Vec<u8>,
    /// Freeze: released notes keep sounding until the next new note.
    pub freeze: bool,
    /// Notes kept sounding by freeze.
    pub frozen: Vec<u8>,
    /// Chord-keyboard pads currently held through the keyboard (row * 7 +
    /// column).
    pub held_pads: Vec<u8>,
    /// Chord pad held down with the mouse, if any.
    pub mouse_pad: Option<u8>,
    /// Piano key held down with the mouse, if any.
    pub mouse_note: Option<u8>,
}

/// No element occurs twice.
pub open spec fn distinct_notes(s: Seq<u8>) -> bool {
    forall|i: int, j: int| 0 <= i < s.len() && 0 <= j < s.len() && i != j ==> #[trigger] s[i] != #[trigger] s[j]
}

/// `s` without repeated elements, keeping first occurrences in order.
pub open spec fn dedup(s: Seq<u8>) -> Seq<u8>
    decreases s.len(),
{
    if s.len() == 0 {
        Seq::<u8>::empty()
    } else {
        let p = dedup(s.drop_last());
        if p.contains(s.last()) {
            p
        } else {
            p.push(s.last())
        }
    }
}

/// Elements of `s` that are not in `excl`, in order.
pub open spec fn not_in(s: Seq<u8>, excl: Seq<u8>) -> Seq<u8>
    decreases s.len(),
{
    if s.len() == 0 {
        Seq::<u8>::empty()
    } else {
        let p = not_in(s.drop_last(), excl);
        if excl.contains(s.last()) {
            p
        } else {
            p.push(s.last())
        }
    }
}

/// MIDI note of a semitone key in an octave.
pub open spec fn key_note(octave: i32, semitone: i32) -> u8 {
    (octave * 12 + semitone) as u8
}

/// The notes held this frame, without repeats, in key order.
pub open spec fn current_notes(octave: i32, semis: Seq<i32>) -> Seq<u8> {
    dedup(semis.map_values(|x: i32| key_note(octave, x)))
}

/// Note-on messages for `s`, in order.
pub open spec fn note_ons(s: Seq<u8>) -> Seq<PianoAction> {
    s.map_values(|n: u8| PianoAction::NoteOn(n))
}

/// Note-off messages for `s`, in order.
pub open spec fn note_offs(s: Seq<u8>) -> Seq<PianoAction> {
    s.map_values(|n: u8| PianoAction::NoteOff(n))
}

/// Octave after the Z and X keys.
pub open spec fn next_octave(o: i32, down: bool, up: bool) -> i32 {
    let a: int = if down && o > 1 { o - 1 } else { o as int };
    (if up && a < 7 { a + 1 } else { a }) as i32
}

/// Velocity after the C and V keys: steps of 10 within 10–127.
pub open spec fn next_velocity(v: u8, down: bool, up: bool) -> u8 {
    let a: int = if down {
        let d: int = if v >= 10 { v - 10 } else { 0 };
        if d < 10 { 10 } else { d }
    } else {
        v as int
    };
    let b: int = if up {
        let u: int = if a + 10 > 255 { 255 } else { a + 10 };
        if u > 127 { 127 } else { u }
    } else {
        a
    };
    b as u8
}

/// Pitch bend while 1 / 2 are held: down, up, or none when both or neither.
pub open spec fn bend_of(down: bool, up: bool) -> i8 {
    if down && !up {
        -2i8
    } else if up && !down {
        2i8
    } else {
        0i8
    }
}

/// Mod wheel level after keys 3–8: the highest level pressed, else unchanged.
pub open spec fn mod_level_of(m: u8, pressed: Seq<bool>, n: int) -> u8
    decreases n,
{
    if n <= 0 {
        m
    } else if pressed[n - 1] {
        (n - 1) as u8
    } else {
        mod_level_of(m, pressed, n - 1)
    }
}

impl PianoKeys {
    /// Octave in range, no repeated notes.
    pub open spec fn wf(&self) -> bool {
        &&& 1 <= self.octave <= 7
        &&& distinct_notes(self.held@)
        &&& distinct_notes(self.frozen@)
        &&& distinct_notes(self.held_pads@)
    }
}

/// Whether `s` holds `n`.
fn has_note(s: &Vec<u8>, n: u8) -> (r: bool)
    ensures
        r == s@.contains(n),
{
    let mut i: usize = 0;
    while i < s.len()
        invariant
            i <= s.len(),
            forall|k: int| 0 <= k < i ==> s@[k] != n,
        decreases s.len() - i,
    {
        if s[i] == n {
            return true;
        }
        i = i + 1;
    }
    false
}


/// `dedup` of a sequence without repeats is the sequence itself, and
/// `dedup` never repeats.
proof fn lemma_dedup_distinct(s: Seq<u8>)
    ensures
        distinct_notes(dedup(s)),
        forall|x: u8| dedup(s).contains(x) <==> s.contains(x),
    decreases s.len(),
{
    if s.len() > 0 {
        lemma_dedup_distinct(s.drop_last());
        let p = dedup(s.drop_last());
        assert forall|x: u8| dedup(s).contains(x) <==> s.contains(x) by {
            if s.contains(x) && !s.drop_last().contains(x) {
                assert(x == s.last()) by {
                    let k = choose|k: int| 0 <= k < s.len() && s[k] == x;
                    if k < s.len() - 1 {
                        assert(s.drop_last()[k] == x);
                    }
                }
            }
            if s.drop_last().contains(x) {
                let k = choose|k: int| 0 <= k < s.drop_last().len() && s.drop_last()[k] == x;
                assert(s[k] == x);
            }
            if !p.contains(s.last()) && x == s.last() {
                assert(p.push(s.last())[p.len() as int] == x);
            }
            if dedup(s).contains(x) && !p.contains(x) {
                assert(x == s.last());
                assert(s[s.len() - 1] == x);
            }
            if p.contains(x) && !p.contains(s.last()) {
                let k = choose|k: int| 0 <= k < p.len() && p[k] == x;
                assert(p.push(s.last())[k] == x);
            }
        }
    }
}

/// Elements of `not_in(s, excl)` are exactly those of `s` outside `excl`,
/// and it has no repeats when `s` has none.
proof fn lemma_not_in(s: Seq<u8>, excl: Seq<u8>)
    ensures
        forall|x: u8| not_in(s, excl).contains(x) <==> (s.contains(x) && !excl.contains(x)),
        distinct_notes(s) ==> distinct_notes(not_in(s, excl)),
    decreases s.len(),
{
    if s.len() > 0 {
        lemma_not_in(s.drop_last(), excl);
        let p = not_in(s.drop_last(), excl);
        assert forall|x: u8| not_in(s, excl).contains(x) <==> (s.contains(x) && !excl.contains(x)) by {
            if s.drop_last().contains(x) {
                let k = choose|k: int| 0 <= k < s.drop_last().len() && s.drop_last()[k] == x;
                assert(s[k] == x);
            }
            if s.contains(x) && !s.drop_last().contains(x) {
                let k = choose|k: int| 0 <= k < s.len() && s[k] == x;
                if k < s.len() - 1 {
                    assert(s.drop_last()[k] == x);
                }
                assert(x == s.last());
            }
            if !excl.contains(s.last()) {
                if x == s.last() {
                    assert(p.push(s.last())[p.len() as int] == x);
                }
                if p.contains(x) {
                    let k = choose|k: int| 0 <= k < p.len() && p[k] == x;
                    assert(p.push(s.last())[k] == x);
                }
                if p.push(s.last()).contains(x) && x != s.last() {
                    let k = choose|k: int| 0 <= k < p.len() + 1 && p.push(s.last())[k] == x;
                    assert(k < p.len());
                    assert(p[k] == x);
                }
            }
            if s.contains(x) && x == s.last() {
                assert(s[s.len() - 1] == x);
            }
        }
        if distinct_notes(s) {
            assert(distinct_notes(s.drop_last())) by {
                assert forall|i: int, j: int|
                    0 <= i < s.drop_last().len() && 0 <= j < s.drop_last().len() && i != j implies #[trigger] s.drop_last()[i]
                    != #[trigger] s.drop_last()[j] by {
                    assert(s.drop_last()[i] == s[i] && s.drop_last()[j] == s[j]);
                }
            }
            if !excl.contains(s.last()) {
                assert(!p.contains(s.last())) by {
                    if p.contains(s.last()) {
                        assert(s.drop_last().contains(s.last()));
                        let k = choose|k: int| 0 <= k < s.drop_last().len() && s.drop_last()[k] == s.last();
                        assert(s[k] == s[s.len() - 1]);
                    }
                }
                let q = p.push(s.last());
                assert forall|i: int, j: int| 0 <= i < q.len() && 0 <= j < q.len() && i != j implies #[trigger] q[i]
                    != #[trigger] q[j] by {
                    if i < p.len() && j < p.len() {
                        assert(q[i] == p[i] && q[j] == p[j]);
                    } else if i < p.len() {
                        assert(q[i] == p[i]);
                    } else {
                        assert(q[j] == p[j]);
                    }
                }
            }
        }
    }
}

/// The notes held this frame.
fn current_from_keys(octave: i32, semis: &Vec<i32>) -> (r: Vec<u8>)
    requires
        1 <= octave <= 7,
        forall|k: int| 0 <= k < semis.len() ==> #[trigger] semis[k] <= i32::MAX - 84,
    ensures
        r@ == current_notes(octave, semis@),
{
    let mut r: Vec<u8> = Vec::new();
    let mut k: usize = 0;
    while k < semis.len()
        invariant
            k <= semis.len(),
            1 <= octave <= 7,
            forall|m: int| 0 <= m < semis.len() ==> #[trigger] semis[m] <= i32::MAX - 84,
            r@ == dedup(semis@.subrange(0, k as int).map_values(|x: i32| key_note(octave, x))),
        decreases semis.len() - k,
    {
        let note = (octave * 12 + semis[k]) as u8;
        let ghost prefix = semis@.subrange(0, k + 1).map_values(|x: i32| key_note(octave, x));
        assert(prefix.drop_last() =~= semis@.subrange(0, k as int).map_values(|x: i32| key_note(octave, x)));
        assert(prefix.last() == note);
        if !has_note(&r, note) {
            r.push(note);
        }
        k = k + 1;
    }
    assert(semis@.subrange(0, k as int) =~= semis@);
    r
}

/// Elements of `s` not in `excl`, in order.
fn notes_not_in(s: &Vec<u8>, excl: &Vec<u8>) -> (r: Vec<u8>)
    ensures
        r@ == not_in(s@, excl@),
{
    let mut r: Vec<u8> = Vec::new();
    let mut k: usize = 0;
    while k < s.len()
        invariant
            k <= s.len(),
            r@ == not_in(s@.subrange(0, k as int), excl@),
        decreases s.len() - k,
    {
        assert(s@.subrange(0, k + 1).drop_last() =~= s@.subrange(0, k as int));
        if !has_note(excl, s[k]) {
            r.push(s[k]);
        }
        k = k + 1;
    }
    assert(s@.subrange(0, k as int) =~= s@);
    r
}

/// Append a message for each note.
fn push_all(actions: &mut Vec<PianoAction>, notes: &Vec<u8>, on: bool)
    ensures
        final(actions)@ == old(actions)@ + if on { note_ons(notes@) } else { note_offs(notes@) },
{
    let mut k: usize = 0;
    while k < notes.len()
        invariant
            k <= notes.len(),
            actions@ == old(actions)@ + if on {
                note_ons(notes@.subrange(0, k as int))
            } else {
                note_offs(notes@.subrange(0, k as int))
            },
        decreases notes.len() - k,
    {
        let ghost before = actions@;
        if on {
            actions.push(PianoAction::NoteOn(notes[k]));
            assert(note_ons(notes@.subrange(0, k + 1)) =~= note_ons(notes@.subrange(0, k as int)).push(
                PianoAction::NoteOn(notes@[k as int]),
            ));
        } else {
            actions.push(PianoAction::NoteOff(notes[k]));
            assert(note_offs(notes@.subrange(0, k + 1)) =~= note_offs(notes@.subrange(0, k as int)).push(
                PianoAction::NoteOff(notes@[k as int]),
            ));
        }
        k = k + 1;
    }
    assert(notes@.subrange(0, k as int) =~= notes@);
}

/// Mod wheel level after keys 3–8.
fn mod_level(m: u8, pressed: &[bool; 6]) -> (r: u8)
    ensures
        r == mod_level_of(m, pressed@, 6),
{
    let mut r: u8 = m;
    let mut level: usize = 0;
    while level < 6
        invariant
            level <= 6,
            r == mod_level_of(m, pressed@, level as int),
        decreases 6 - level,
    {
        if pressed[level] {
            r = level as u8;
        }
        level = level + 1;
    }
    r
}

/// Append `src` to `dst`.
fn append_notes(dst: &mut Vec<u8>, src: &Vec<u8>)
    ensures
        final(dst)@ == old(dst)@ + src@,
{
    let mut k: usize = 0;
    while k < src.len()
        invariant
            k <= src.len(),
            dst@ == old(dst)@ + src@.subrange(0, k as int),
        decreases src.len() - k,
    {
        dst.push(src[k]);
        assert(old(dst)@ + src@.subrange(0, k + 1) =~= (old(dst)@ + src@.subrange(0, k as int)).push(src@[k as int]));
        k = k + 1;
    }
    assert(src@.subrange(0, k as int) =~= src@);
}

/// Controller messages of a frame: the new pitch bend and the new mod wheel
/// level, each only when it changed.
pub open spec fn control_actions(old_bend: i8, old_mod: u8, bend: i8, mw: u8) -> Seq<PianoAction> {
    (if bend != old_bend {
        seq![PianoAction::PitchBend(bend)]
    } else {
        Seq::<PianoAction>::empty()
    }) + (if mw != old_mod {
        seq![PianoAction::ModWheel(mw)]
    } else {
        Seq::<PianoAction>::empty()
    })
}

/// Note messages of a frame going from `held` to `cur`: with freeze on and a
/// new note, the frozen notes stop first; then each new note starts; without
/// freeze, each released note stops.
pub open spec fn note_actions(freeze: bool, frozen: Seq<u8>, held: Seq<u8>, cur: Seq<u8>) -> Seq<PianoAction> {
    let new = not_in(cur, held);
    (if freeze && new.len() > 0 {
        note_offs(frozen)
    } else {
        Seq::<PianoAction>::empty()
    }) + note_ons(new) + (if freeze {
        Seq::<PianoAction>::empty()
    } else {
        note_offs(not_in(held, cur))
    })
}

/// Frozen notes after a frame going from `held` to `cur`: with freeze on, a
/// new note clears them, and released notes join them once each.
pub open spec fn frozen_after(freeze: bool, frozen: Seq<u8>, held: Seq<u8>, cur: Seq<u8>) -> Seq<u8> {
    if freeze {
        let base = if not_in(cur, held).len() > 0 { Seq::<u8>::empty() } else { frozen };
        base + not_in(not_in(held, cur), base)
    } else {
        frozen
    }
}

/// Two sequences without repeats and without a common element concatenate
/// to one without repeats.
proof fn lemma_concat_distinct(f: Seq<u8>, e: Seq<u8>)
    requires
        distinct_notes(f),
        distinct_notes(e),
        forall|x: u8| e.contains(x) ==> !f.contains(x),
    ensures
        distinct_notes(f + e),
{
    let q = f + e;
    assert forall|i: int, j: int| 0 <= i < q.len() && 0 <= j < q.len() && i != j implies #[trigger] q[i]
        != #[trigger] q[j] by {
        if i < f.len() && j < f.len() {
            assert(q[i] == f[i] && q[j] == f[j]);
        } else if i >= f.len() && j >= f.len() {
            assert(q[i] == e[i - f.len()] && q[j] == e[j - f.len()]);
        } else if i < f.len() {
            assert(q[i] == f[i] && q[j] == e[j - f.len()]);
            assert(e.contains(q[j]));
            assert(f.contains(q[i]));
        } else {
            assert(q[j] == f[j] && q[i] == e[i - f.len()]);
            assert(e.contains(q[i]));
            assert(f.contains(q[j]));
        }
    }
}

impl PianoKeys {
    /// The control keys of a frame: Z / X shift the octave (1–7), C / V the
    /// velocity (10–127, steps of 10), 1 / 2 bend the pitch while held, 3–8
    /// set the mod wheel. Returns the controller messages.
    fn control_frame(&mut self, input: &PianoKeyInput) -> (actions: Vec<PianoAction>)
        requires
            old(self).wf(),
        ensures
            final(self).wf(),
            final(self).octave == next_octave(old(self).octave, input.octave_down, input.octave_up),
            final(self).velocity == next_velocity(old(self).velocity, input.velocity_down, input.velocity_up),
            final(self).pitch_bend == bend_of(input.bend_down, input.bend_up),
            final(self).mod_wheel == mod_level_of(old(self).mod_wheel, input.mod_pressed@, 6),
            final(self).freeze == old(self).freeze,
            final(self).held_pads@ == old(self).held_pads@,
            final(self).mouse_pad == old(self).mouse_pad,
            final(self).mouse_note == old(self).mouse_note,
            final(self).held@ == old(self).held@,
            final(self).frozen@ == old(self).frozen@,
            actions@ == control_actions(old(self).pitch_bend, old(self).mod_wheel, final(self).pitch_bend, final(self).mod_wheel),
    {
        let mut actions: Vec<PianoAction> = Vec::new();
        let prev_bend = self.pitch_bend;
        let prev_mod = self.mod_wheel;
        if input.octave_down && self.octave > 1 {
            self.octave = self.octave - 1;
        }
        if input.octave_up && self.octave < 7 {
            self.octave = self.octave + 1;
        }
        if input.velocity_down {
            let v = self.velocity.saturating_sub(10);
            self.velocity = if v < 10 { 10 } else { v };
        }
        if input.velocity_up {
            let v = self.velocity.saturating_add(10);
            self.velocity = if v > 127 { 127 } else { v };
        }
        self.pitch_bend = if input.bend_down && !input.bend_up {
            -2
        } else if input.bend_up && !input.bend_down {
            2
        } else {
            0
        };
        self.mod_wheel = mod_level(prev_mod, &input.mod_pressed);
        if self.pitch_bend != prev_bend {
            actions.push(PianoAction::PitchBend(self.pitch_bend));
        }
        if self.mod_wheel != prev_mod {
            actions.push(PianoAction::ModWheel(self.mod_wheel));
        }
        assert(actions@ =~= control_actions(prev_bend, prev_mod, self.pitch_bend, self.mod_wheel));
        actions
    }

    /// The note keys of a frame: new notes sound, released notes stop or
    /// are kept by freeze. Appends the note messages to `actions`.
    fn note_frame(&mut self, input: &PianoKeyInput, actions: &mut Vec<PianoAction>)
        requires
            old(self).wf(),
            forall|k: int| 0 <= k < input.semitones_down.len() ==> #[trigger] input.semitones_down[k] <= i32::MAX - 84,
        ensures
            final(self).wf(),
            final(self).octave == old(self).octave,
            final(self).velocity == old(self).velocity,
            final(self).pitch_bend == old(self).pitch_bend,
            final(self).mod_wheel == old(self).mod_wheel,
            final(self).freeze == old(self).freeze,
            final(self).held_pads@ == old(self).held_pads@,
            final(self).mouse_pad == old(self).mouse_pad,
            final(self).mouse_note == old(self).mouse_note,
            final(self).held@ == current_notes(old(self).octave, input.semitones_down@),
            final(self).frozen@ == frozen_after(old(self).freeze, old(self).frozen@, old(self).held@, final(self).held@),
            final(actions)@ == old(actions)@ + note_actions(old(self).freeze, old(self).frozen@, old(self).held@, final(self).held@),
    {
        let current = current_from_keys(self.octave, &input.semitones_down);
        let new_notes = notes_not_in(&current, &self.held);
        let released = notes_not_in(&self.held, &current);
        proof {
            lemma_dedup_distinct(input.semitones_down@.map_values(|x: i32| key_note(self.octave, x)));
            lemma_not_in(self.held@, current@);
        }
        if self.freeze && new_notes.len() > 0 {
            push_all(actions, &self.frozen, false);
            self.frozen = Vec::new();
        }
        push_all(actions, &new_notes, true);
        if self.freeze {
            let extra = notes_not_in(&released, &self.frozen);
            proof {
                lemma_not_in(released@, self.frozen@);
                lemma_concat_distinct(self.frozen@, extra@);
            }
            append_notes(&mut self.frozen, &extra);
        } else {
            push_all(actions, &released, false);
        }
        self.held = current;
        assert(actions@ =~= old(actions)@ + note_actions(old(self).freeze, old(self).frozen@, old(self).held@, self.held@));
    }

    /// One frame of piano-mode key input while no text field has focus:
    /// Z / X shift the octave (1–7), C / V the velocity (10–127, steps of
    /// 10), 1 / 2 bend the pitch while held, 3–8 set the mod wheel; then
    /// new notes sound (with freeze on, a new note first silences the frozen
    /// ones) and released notes stop, or are kept by freeze.
    pub fn piano_frame(&mut self, input: &PianoKeyInput) -> (actions: Vec<PianoAction>)
        requires
            old(self).wf(),
            forall|k: int| 0 <= k < input.semitones_down.len() ==> #[trigger] input.semitones_down[k] <= i32::MAX - 84,
        ensures
            final(self).wf(),
            final(self).octave == next_octave(old(self).octave, input.octave_down, input.octave_up),
            final(self).velocity == next_velocity(old(self).velocity, input.velocity_down, input.velocity_up),
            final(self).pitch_bend == bend_of(input.bend_down, input.bend_up),
            final(self).mod_wheel == mod_level_of(old(self).mod_wheel, input.mod_pressed@, 6),
            final(self).freeze == old(self).freeze,
            final(self).held_pads@ == old(self).held_pads@,
            final(self).mouse_pad == old(self).mouse_pad,
            final(self).mouse_note == old(self).mouse_note,
            final(self).held@ == current_notes(final(self).octave, input.semitones_down@),
            final(self).frozen@ == frozen_after(old(self).freeze, old(self).frozen@, old(self).held@, final(self).held@),
            actions@ == control_actions(old(self).pitch_bend, old(self).mod_wheel, final(self).pitch_bend, final(self).mod_wheel)
                + note_actions(old(self).freeze, old(self).frozen@, old(self).held@, final(self).held@),
    {
        let mut actions = self.control_frame(input);
        self.note_frame(input, &mut actions);
        actions
    }
}

impl PianoKeys {
    /// Space bar: toggles freeze; turning it off stops every frozen note.
    pub fn toggle_freeze(&mut self) -> (actions: Vec<PianoAction>)
        requires
            old(self).wf(),
        ensures
            final(self).wf(),
            final(self).freeze == !old(self).freeze,
            final(self).held_pads@ == old(self).held_pads@,
            final(self).mouse_pad == old(self).mouse_pad,
            final(self).mouse_note == old(self).mouse_note,
            final(self).octave == old(self).octave,
            final(self).velocity == old(self).velocity,
            final(self).pitch_bend == old(self).pitch_bend,
            final(self).mod_wheel == old(self).mod_wheel,
            final(self).held@ == old(self).held@,
            final(self).frozen@ == if old(self).freeze { Seq::<u8>::empty() } else { old(self).frozen@ },
            actions@ == if old(self).freeze { note_offs(old(self).frozen@) } else { Seq::<PianoAction>::empty() },
    {
        let mut actions: Vec<PianoAction> = Vec::new();
        self.freeze = !self.freeze;
        if !self.freeze {
            push_all(&mut actions, &self.frozen, false);
            self.frozen = Vec::new();
        }
        actions
    }

    /// A text field took focus: the held notes are let go; with freeze on
    /// they join the frozen notes, otherwise they stop.
    pub fn release_for_focus(&mut self) -> (actions: Vec<PianoAction>)
        requires
            old(self).wf(),
        ensures
            final(self).wf(),
            final(self).freeze == old(self).freeze,
            final(self).held_pads@ == old(self).held_pads@,
            final(self).mouse_pad == old(self).mouse_pad,
            final(self).mouse_note == old(self).mouse_note,
            final(self).octave == old(self).octave,
            final(self).velocity == old(self).velocity,
            final(self).pitch_bend == old(self).pitch_bend,
            final(self).mod_wheel == old(self).mod_wheel,
            final(self).held@ == Seq::<u8>::empty(),
            final(self).frozen@ == if old(self).freeze {
                old(self).frozen@ + not_in(old(self).held@, old(self).frozen@)
            } else {
                old(self).frozen@
            },
            actions@ == if old(self).freeze { Seq::<PianoAction>::empty() } else { note_offs(old(self).held@) },
    {
        let mut actions: Vec<PianoAction> = Vec::new();
        if self.freeze {
            let extra = notes_not_in(&self.held, &self.frozen);
            proof {
                lemma_not_in(self.held@, self.frozen@);
                lemma_concat_distinct(self.frozen@, extra@);
            }
            append_notes(&mut self.frozen, &extra);
        } else {
            push_all(&mut actions, &self.held, false);
        }
        self.held = Vec::new();
        actions
    }
}

impl PianoKeys {
    /// The octave − / + buttons of the keyboard strip: one octave down or up
    /// within 1–7, as Z / X do.
    pub fn step_octave(&mut self, up: bool)
        requires
            old(self).wf(),
        ensures
            final(self).wf(),
            *final(self) == (PianoKeys { octave: next_octave(old(self).octave, !up, up), ..*old(self) }),
    {
        if up {
            if self.octave < 7 {
                self.octave = self.octave + 1;
            }
        } else {
            if self.octave > 1 {
                self.octave = self.octave - 1;
            }
        }
    }

    /// The velocity − / + buttons of the keyboard strip: ten down or up
    /// within 10–127, as C / V do.
    pub fn step_velocity(&mut self, up: bool)
        ensures
            *final(self) == (PianoKeys { velocity: next_velocity(old(self).velocity, !up, up), ..*old(self) }),
    {
        if up {
            let v = self.velocity.saturating_add(10);
            self.velocity = if v > 127 { 127 } else { v };
        } else {
            let v = self.velocity.saturating_sub(10);
            self.velocity = if v < 10 { 10 } else { v };
        }
    }
}

/// Caption of the bend indicator.
pub fn bend_caption(bend: i8) -> (r: &'static str)
    ensures
        r@ == if bend == -2 { "Bend ▼"@ } else if bend == 2 { "Bend ▲"@ } else { "Bend"@ },
{
    if bend == -2 {
        "Bend ▼"
    } else if bend == 2 {
        "Bend ▲"
    } else {
        "Bend"
    }
}

/// Bar glyphs of the mod wheel caption, for levels 1–5.
pub const MOD_BARS: [&'static str; 5] = ["▁", "▃", "▅", "▆", "█"];

/// Caption of the mod wheel indicator: "Mod: off" at level 0, else "Mod: "
/// and the bar glyph of the level (the tallest from level 5 on).
pub fn mod_caption(level: u8) -> (r: String)
    ensures
        level == 0 ==> r@ == "Mod: off"@,
        level > 0 ==> r@ == "Mod: "@ + MOD_BARS[if level - 1 < 4 { level - 1 } else { 4 }]@,
{
    if level == 0 {
        String::from_str("Mod: off")
    } else {
        let k: usize = if (level as usize) - 1 < 4 { (level as usize) - 1 } else { 4 };
        let bars = MOD_BARS;
        String::from_str("Mod: ").concat(bars[k])
    }
}

/// The voiced notes of each pad of `pads`, one pad after the other.
pub open spec fn pad_notes_of(pads: Seq<u8>, pad_notes: Seq<Vec<u8>>) -> Seq<u8>
    decreases pads.len(),
{
    if pads.len() == 0 {
        Seq::<u8>::empty()
    } else {
        pad_notes_of(pads.drop_last(), pad_notes) + pad_notes[pads.last() as int]@
    }
}

/// Every pad of `pads` has its notes in `pad_notes`.
pub open spec fn pads_known(pads: Seq<u8>, n: nat) -> bool {
    forall|k: int| 0 <= k < pads.len() ==> (#[trigger] pads[k] as nat) < n
}

/// Pads drawn from known pads are known.
proof fn lemma_known_within(a: Seq<u8>, b: Seq<u8>, n: nat)
    requires
        pads_known(b, n),
        forall|x: u8| a.contains(x) ==> b.contains(x),
    ensures
        pads_known(a, n),
{
    assert forall|k: int| 0 <= k < a.len() implies (#[trigger] a[k] as nat) < n by {
        assert(a.contains(a[k]));
        let j = choose|j: int| 0 <= j < b.len() && b[j] == a[k];
        assert((b[j] as nat) < n);
    }
}

/// Note messages of a chord-keyboard frame going from pads `held` to pads
/// `cur`: with freeze on and a new pad, the frozen notes stop first; then
/// the notes of each new pad start; without freeze, the notes of each
/// released pad stop.
pub open spec fn chord_actions(
    freeze: bool,
    frozen: Seq<u8>,
    held: Seq<u8>,
    cur: Seq<u8>,
    pad_notes: Seq<Vec<u8>>,
) -> Seq<PianoAction> {
    let new = not_in(cur, held);
    (if freeze && new.len() > 0 {
        note_offs(frozen)
    } else {
        Seq::<PianoAction>::empty()
    }) + note_ons(pad_notes_of(new, pad_notes)) + (if freeze {
        Seq::<PianoAction>::empty()
    } else {
        note_offs(pad_notes_of(not_in(held, cur), pad_notes))
    })
}

/// Frozen notes after a chord-keyboard frame: with freeze on, a new pad
/// clears them, and the notes of released pads join them once each.
pub open spec fn chord_frozen_after(
    freeze: bool,
    frozen: Seq<u8>,
    held: Seq<u8>,
    cur: Seq<u8>,
    pad_notes: Seq<Vec<u8>>,
) -> Seq<u8> {
    if freeze {
        let base = if not_in(cur, held).len() > 0 { Seq::<u8>::empty() } else { frozen };
        base + not_in(dedup(pad_notes_of(not_in(held, cur), pad_notes)), base)
    } else {
        frozen
    }
}

/// The pads of `pads`, without repeats, in order.
fn dedup_pads(pads: &Vec<u8>) -> (r: Vec<u8>)
    ensures
        r@ == dedup(pads@),
{
    let mut r: Vec<u8> = Vec::new();
    let mut k: usize = 0;
    while k < pads.len()
        invariant
            k <= pads.len(),
            r@ == dedup(pads@.subrange(0, k as int)),
        decreases pads.len() - k,
    {
        assert(pads@.subrange(0, k + 1).drop_last() =~= pads@.subrange(0, k as int));
        if !has_note(&r, pads[k]) {
            r.push(pads[k]);
        }
        k = k + 1;
    }
    assert(pads@.subrange(0, k as int) =~= pads@);
    r
}

/// The notes of each pad of `pads`, one pad after the other.
fn notes_of_pads(pads: &Vec<u8>, pad_notes: &Vec<Vec<u8>>) -> (r: Vec<u8>)
    requires
        pads_known(pads@, pad_notes.len() as nat),
    ensures
        r@ == pad_notes_of(pads@, pad_notes@),
{
    let mut r: Vec<u8> = Vec::new();
    let mut k: usize = 0;
    while k < pads.len()
        invariant
            k <= pads.len(),
            pads_known(pads@, pad_notes.len() as nat),
            r@ == pad_notes_of(pads@.subrange(0, k as int), pad_notes@),
        decreases pads.len() - k,
    {
        assert(pads@.subrange(0, k + 1).drop_last() =~= pads@.subrange(0, k as int));
        assert((pads[k as int] as nat) < pad_notes.len());
        append_notes(&mut r, &pad_notes[pads[k] as usize]);
        k = k + 1;
    }
    assert(pads@.subrange(0, k as int) =~= pads@);
    r
}

impl PianoKeys {
    /// One frame of chord-keyboard input: `pads_down` are the pads whose
    /// keys are down (Q–U, A–J, Z–M rows) and `pad_notes` the voiced notes
    /// of every pad. New pads sound (with freeze on, a new pad first
    /// silences the frozen notes), released pads stop or are kept by
    /// freeze, and notes still held from piano mode stop. Returns the
    /// messages and the new pads, which the sequencer may record.
    pub fn chord_frame(&mut self, pads_down: &Vec<u8>, pad_notes: &Vec<Vec<u8>>) -> (r: (Vec<PianoAction>, Vec<u8>))
        requires
            old(self).wf(),
            pads_known(pads_down@, pad_notes.len() as nat),
            pads_known(old(self).held_pads@, pad_notes.len() as nat),
        ensures
            final(self).wf(),
            final(self).octave == old(self).octave,
            final(self).velocity == old(self).velocity,
            final(self).pitch_bend == old(self).pitch_bend,
            final(self).mod_wheel == old(self).mod_wheel,
            final(self).freeze == old(self).freeze,
            final(self).held_pads@ == dedup(pads_down@),
            final(self).mouse_pad == old(self).mouse_pad,
            final(self).mouse_note == old(self).mouse_note,
            final(self).held@ == Seq::<u8>::empty(),
            final(self).frozen@ == chord_frozen_after(
                old(self).freeze,
                old(self).frozen@,
                old(self).held_pads@,
                final(self).held_pads@,
                pad_notes@,
            ),
            r.0@ == chord_actions(
                old(self).freeze,
                old(self).frozen@,
                old(self).held_pads@,
                final(self).held_pads@,
                pad_notes@,
            ) + note_offs(old(self).held@),
            r.1@ == not_in(final(self).held_pads@, old(self).held_pads@),
    {
        let mut actions: Vec<PianoAction> = Vec::new();
        let current = dedup_pads(pads_down);
        let new_pads = notes_not_in(&current, &self.held_pads);
        let released = notes_not_in(&self.held_pads, &current);
        proof {
            lemma_dedup_distinct(pads_down@);
            lemma_not_in(current@, self.held_pads@);
            lemma_not_in(self.held_pads@, current@);
            lemma_known_within(current@, pads_down@, pad_notes.len() as nat);
            lemma_known_within(new_pads@, current@, pad_notes.len() as nat);
            lemma_known_within(released@, self.held_pads@, pad_notes.len() as nat);
        }
        if self.freeze && new_pads.len() > 0 {
            push_all(&mut actions, &self.frozen, false);
            self.frozen = Vec::new();
        }
        let new_notes = notes_of_pads(&new_pads, pad_notes);
        push_all(&mut actions, &new_notes, true);
        let released_notes = notes_of_pads(&released, pad_notes);
        if self.freeze {
            let once = dedup_pads(&released_notes);
            let extra = notes_not_in(&once, &self.frozen);
            proof {
                lemma_dedup_distinct(released_notes@);
                lemma_not_in(once@, self.frozen@);
                lemma_concat_distinct(self.frozen@, extra@);
            }
            append_notes(&mut self.frozen, &extra);
        } else {
            push_all(&mut actions, &released_notes, false);
        }
        push_all(&mut actions, &self.held, false);
        self.held = Vec::new();
        self.held_pads = current;
        assert(actions@ =~= chord_actions(
            old(self).freeze,
            old(self).frozen@,
            old(self).held_pads@,
            self.held_pads@,
            pad_notes@,
        ) + note_offs(old(self).held@));
        (actions, new_pads)
    }

    /// Leaving the chord keyboard for piano mode: the notes of the held pads
    /// stop (freeze or not) and no pad stays held.
    pub fn release_chord_pads(&mut self, pad_notes: &Vec<Vec<u8>>) -> (actions: Vec<PianoAction>)
        requires
            old(self).wf(),
            pads_known(old(self).held_pads@, pad_notes.len() as nat),
        ensures
            final(self).wf(),
            *final(self) == (PianoKeys { held_pads: final(self).held_pads, ..*old(self) }),
            final(self).held_pads@ == Seq::<u8>::empty(),
            actions@ == note_offs(pad_notes_of(old(self).held_pads@, pad_notes@)),
    {
        let mut actions: Vec<PianoAction> = Vec::new();
        let notes = notes_of_pads(&self.held_pads, pad_notes);
        push_all(&mut actions, &notes, false);
        self.held_pads = Vec::new();
        actions
    }
}

/// Notes of the pad `pad`, or none.
pub open spec fn opt_pad_notes(pad: Option<u8>, pad_notes: Seq<Vec<u8>>) -> Seq<u8> {
    match pad {
        Some(p) => pad_notes[p as int]@,
        None => Seq::<u8>::empty(),
    }
}

impl PianoKeys {
    /// The mouse goes down on chord pad `pad`: the pad held before lets go
    /// (its notes stop, or with freeze on the frozen notes stop and its
    /// notes become the frozen ones), then the new pad's notes start.
    /// Pressing the pad already held does nothing.
    pub fn press_mouse_pad(&mut self, pad: u8, pad_notes: &Vec<Vec<u8>>) -> (actions: Vec<PianoAction>)
        requires
            old(self).wf(),
            (pad as nat) < pad_notes.len(),
            old(self).mouse_pad matches Some(p) ==> (p as nat) < pad_notes.len(),
        ensures
            final(self).wf(),
            old(self).mouse_pad == Some(pad) ==> *final(self) == *old(self) && actions@ == Seq::<PianoAction>::empty(),
            old(self).mouse_pad != Some(pad) ==> {
                let prev = opt_pad_notes(old(self).mouse_pad, pad_notes@);
                &&& *final(self) == (PianoKeys { mouse_pad: Some(pad), frozen: final(self).frozen, ..*old(self) })
                &&& final(self).frozen@ == if old(self).freeze { dedup(prev) } else { old(self).frozen@ }
                &&& actions@ == (if old(self).freeze { note_offs(old(self).frozen@) } else { note_offs(prev) })
                    + note_ons(pad_notes@[pad as int]@)
            },
    {
        let mut actions: Vec<PianoAction> = Vec::new();
        if self.mouse_pad == Some(pad) {
            return actions;
        }
        let prev: Vec<u8> = match self.mouse_pad {
            Some(p) => pad_notes[p as usize].clone(),
            None => Vec::new(),
        };
        if self.freeze {
            push_all(&mut actions, &self.frozen, false);
            let once = dedup_pads(&prev);
            proof {
                lemma_dedup_distinct(prev@);
            }
            self.frozen = once;
        } else {
            push_all(&mut actions, &prev, false);
        }
        push_all(&mut actions, &pad_notes[pad as usize], true);
        self.mouse_pad = Some(pad);
        actions
    }

    /// The mouse lets go of its pad: the pad's notes stop, or with freeze
    /// on join the frozen notes once each.
    pub fn release_mouse_pad(&mut self, pad_notes: &Vec<Vec<u8>>) -> (actions: Vec<PianoAction>)
        requires
            old(self).wf(),
            old(self).mouse_pad matches Some(p) ==> (p as nat) < pad_notes.len(),
        ensures
            final(self).wf(),
            *final(self) == (PianoKeys { mouse_pad: None, frozen: final(self).frozen, ..*old(self) }),
            ({
                let notes = opt_pad_notes(old(self).mouse_pad, pad_notes@);
                &&& final(self).frozen@ == if old(self).freeze {
                    old(self).frozen@ + not_in(dedup(notes), old(self).frozen@)
                } else {
                    old(self).frozen@
                }
                &&& actions@ == if old(self).freeze { Seq::<PianoAction>::empty() } else { note_offs(notes) }
            }),
    {
        let mut actions: Vec<PianoAction> = Vec::new();
        let notes: Vec<u8> = match self.mouse_pad {
            Some(p) => pad_notes[p as usize].clone(),
            None => Vec::new(),
        };
        if self.freeze {
            let once = dedup_pads(&notes);
            let extra = notes_not_in(&once, &self.frozen);
            proof {
                lemma_dedup_distinct(notes@);
                lemma_not_in(once@, self.frozen@);
                lemma_concat_distinct(self.frozen@, extra@);
            }
            append_notes(&mut self.frozen, &extra);
        } else {
            push_all(&mut actions, &notes, false);
        }
        self.mouse_pad = None;
        actions
    }
}

/// Highest semitone offset of the note keys (the `'` key).
pub const TOP_KEY_SEMITONE: u8 = 17;

/// The notes the computer keyboard reaches in an octave: from the octave's
/// C up to and including its top key, as a half-open range.
pub fn keyboard_range(octave: i32) -> (r: (u8, u8))
    requires
        1 <= octave <= 7,
    ensures
        r.0 == octave * 12,
        r.1 == octave * 12 + TOP_KEY_SEMITONE + 1,
{
    let start = (octave * 12) as u8;
    (start, start + TOP_KEY_SEMITONE + 1)
}

impl PianoKeys {
    /// How the 88-key piano shows note `midi`: pressed when held through
    /// the keyboard or the mouse, in range when the keyboard reaches it,
    /// and, when a scale is highlighted (its pitch classes), whether it is
    /// the scale's root or in the scale.
    pub fn key_state(&self, midi: u8, scale: Option<[bool; 12]>, scale_root: u8) -> (k: KeyVisualState)
        requires
            self.wf(),
        ensures
            k.pressed == (self.held@.contains(midi) || self.mouse_note == Some(midi)),
            k.in_kb_range == (self.octave * 12 <= midi < self.octave * 12 + TOP_KEY_SEMITONE + 1),
            k.is_scale_root == (scale is Some && midi % 12 == scale_root),
            k.in_scale == match scale {
                Some(pcs) => pcs[(midi % 12) as int],
                None => false,
            },
    {
        let (start, end) = keyboard_range(self.octave);
        let pc = midi % 12;
        KeyVisualState {
            pressed: has_note(&self.held, midi) || self.mouse_note == Some(midi),
            in_kb_range: midi >= start && midi < end,
            is_scale_root: scale.is_some() && pc == scale_root,
            in_scale: match scale {
                Some(pcs) => pcs[pc as usize],
                None => false,
            },
        }
    }

    /// The mouse is down on piano key `midi`: when it moved there from
    /// another key, that key stops and this one starts.
    pub fn press_mouse_key(&mut self, midi: u8) -> (actions: Vec<PianoAction>)
        ensures
            *final(self) == (PianoKeys { mouse_note: Some(midi), ..*old(self) }),
            actions@ == if old(self).mouse_note == Some(midi) {
                Seq::<PianoAction>::empty()
            } else {
                match old(self).mouse_note {
                    Some(prev) => seq![PianoAction::NoteOff(prev), PianoAction::NoteOn(midi)],
                    None => seq![PianoAction::NoteOn(midi)],
                }
            },
    {
        let mut actions: Vec<PianoAction> = Vec::new();
        if self.mouse_note != Some(midi) {
            if let Some(prev) = self.mouse_note {
                actions.push(PianoAction::NoteOff(prev));
            }
            self.mouse_note = Some(midi);
            actions.push(PianoAction::NoteOn(midi));
        }
        actions
    }

    /// The mouse is up: the key it held stops.
    pub fn release_mouse_key(&mut self) -> (actions: Vec<PianoAction>)
        ensures
            *final(self) == (PianoKeys { mouse_note: None, ..*old(self) }),
            actions@ == match old(self).mouse_note {
                Some(prev) => seq![PianoAction::NoteOff(prev)],
                None => Seq::<PianoAction>::empty(),
            },
    {
        let mut actions: Vec<PianoAction> = Vec::new();
        if let Some(prev) = self.mouse_note {
            actions.push(PianoAction::NoteOff(prev));
        }
        self.mouse_note = None;
        actions
    }

    /// Whether the chord-keyboard preview shows note `midi` pressed: it is
    /// frozen, or a note of the mouse pad or of a held pad.
    pub fn chord_preview_pressed(&self, midi: u8, pad_notes: &Vec<Vec<u8>>) -> (r: bool)
        requires
            pads_known(self.held_pads@, pad_notes.len() as nat),
            self.mouse_pad matches Some(p) ==> (p as nat) < pad_notes.len(),
        ensures
            r == (self.frozen@.contains(midi) || opt_pad_notes(self.mouse_pad, pad_notes@).contains(midi)
                || pad_notes_of(self.held_pads@, pad_notes@).contains(midi)),
    {
        if has_note(&self.frozen, midi) {
            return true;
        }
        let in_mouse_pad = match self.mouse_pad {
            Some(p) => has_note(&pad_notes[p as usize], midi),
            None => false,
        };
        if in_mouse_pad {
            return true;
        }
        let held = notes_of_pads(&self.held_pads, pad_notes);
        has_note(&held, midi)
    }
}

/// Without freeze, a frame in which no note key is down stops every held
/// note, in the order they were held, and starts none.
pub proof fn lemma_letting_go_stops_all(frozen: Seq<u8>, held: Seq<u8>)
    ensures
        note_actions(false, frozen, held, Seq::<u8>::empty()) == note_offs(held),
        frozen_after(false, frozen, held, Seq::<u8>::empty()) == frozen,
{
    lemma_not_in_nothing(held);
    assert(note_ons(Seq::<u8>::empty()) =~= Seq::<PianoAction>::empty());
    assert(note_actions(false, frozen, held, Seq::<u8>::empty()) =~= note_offs(held));
}

/// Leaving out nothing keeps the sequence.
proof fn lemma_not_in_nothing(s: Seq<u8>)
    ensures
        not_in(s, Seq::<u8>::empty()) == s,
    decreases s.len(),
{
    if s.len() > 0 {
        lemma_not_in_nothing(s.drop_last());
        assert(s.drop_last().push(s.last()) =~= s);
    }
}

/// A sequence leaves nothing outside itself.
proof fn lemma_not_in_self(s: Seq<u8>, excl: Seq<u8>)
    requires
        forall|x: u8| s.contains(x) ==> excl.contains(x),
    ensures
        not_in(s, excl) == Seq::<u8>::empty(),
    decreases s.len(),
{
    if s.len() > 0 {
        assert forall|x: u8| s.drop_last().contains(x) implies excl.contains(x) by {
            let k = choose|k: int| 0 <= k < s.drop_last().len() && s.drop_last()[k] == x;
            assert(s[k] == x);
        }
        lemma_not_in_self(s.drop_last(), excl);
        assert(s.contains(s[s.len() - 1]));
    }
}

/// A frame whose note keys are those already held sends no note message
/// and leaves the frozen notes as they were, with or without freeze.
pub proof fn lemma_steady_keys_send_nothing(freeze: bool, frozen: Seq<u8>, held: Seq<u8>)
    ensures
        note_actions(freeze, frozen, held, held) == Seq::<PianoAction>::empty(),
        frozen_after(freeze, frozen, held, held) == frozen,
{
    lemma_not_in_self(held, held);
    lemma_not_in_self(Seq::<u8>::empty(), frozen);
    assert(note_ons(Seq::<u8>::empty()) =~= Seq::<PianoAction>::empty());
    assert(note_offs(Seq::<u8>::empty()) =~= Seq::<PianoAction>::empty());
    assert(note_actions(freeze, frozen, held, held) =~= Seq::<PianoAction>::empty());
    assert(frozen + Seq::<u8>::empty() =~= frozen);
}

/// A chord-keyboard frame whose pads are those already held sends no note
/// message and leaves the frozen notes as they were, with or without
/// freeze.
pub proof fn lemma_steady_pads_send_nothing(freeze: bool, frozen: Seq<u8>, held: Seq<u8>, pad_notes: Seq<Vec<u8>>)
    ensures
        chord_actions(freeze, frozen, held, held, pad_notes) == Seq::<PianoAction>::empty(),
        chord_frozen_after(freeze, frozen, held, held, pad_notes) == frozen,
{
    lemma_not_in_self(held, held);
    lemma_not_in_self(Seq::<u8>::empty(), frozen);
    assert(pad_notes_of(Seq::<u8>::empty(), pad_notes) =~= Seq::<u8>::empty());
    assert(dedup(Seq::<u8>::empty()) =~= Seq::<u8>::empty());
    assert(note_ons(Seq::<u8>::empty()) =~= Seq::<PianoAction>::empty());
    assert(note_offs(Seq::<u8>::empty()) =~= Seq::<PianoAction>::empty());
    assert(chord_actions(freeze, frozen, held, held, pad_notes) =~= Seq::<PianoAction>::empty());
    assert(frozen + Seq::<u8>::empty() =~= frozen);
}

/// The held chord pads followed by the mouse pad, if any.
pub open spec fn sounding_pads(held: Seq<u8>, mouse: Option<u8>) -> Seq<u8> {
    match mouse {
        Some(p) => held.push(p),
        None => held,
    }
}

/// For each pad of `pads` in turn: its notes in the old voicing stop, then
/// its notes in the new voicing start.
pub open spec fn retrigger_actions(pads: Seq<u8>, old_notes: Seq<Vec<u8>>, new_notes: Seq<Vec<u8>>) -> Seq<PianoAction>
    decreases pads.len(),
{
    if pads.len() == 0 {
        Seq::<PianoAction>::empty()
    } else {
        retrigger_actions(pads.drop_last(), old_notes, new_notes) + note_offs(old_notes[pads.last() as int]@)
            + note_ons(new_notes[pads.last() as int]@)
    }
}

/// The first pad, from pad `j` on, whose old voicing holds note `n`.
pub open spec fn first_pad_with(old_notes: Seq<Vec<u8>>, n: u8, j: int) -> Option<int>
    decreases old_notes.len() - j,
{
    if j < 0 || j >= old_notes.len() {
        None
    } else if old_notes[j]@.contains(n) {
        Some(j)
    } else {
        first_pad_with(old_notes, n, j + 1)
    }
}

/// Stopping frozen note `n` and starting each note of `ms` in its place,
/// one pair of messages per note.
pub open spec fn swap_actions(n: u8, ms: Seq<u8>) -> Seq<PianoAction>
    decreases ms.len(),
{
    if ms.len() == 0 {
        Seq::<PianoAction>::empty()
    } else {
        swap_actions(n, ms.drop_last()) + seq![PianoAction::NoteOff(n), PianoAction::NoteOn(ms.last())]
    }
}

/// `s` with `x` added at the end unless it holds it already.
pub open spec fn set_insert(s: Seq<u8>, x: u8) -> Seq<u8> {
    if s.contains(x) { s } else { s.push(x) }
}

/// `s` with each element of `xs` added in turn, as a set.
pub open spec fn set_insert_all(s: Seq<u8>, xs: Seq<u8>) -> Seq<u8>
    decreases xs.len(),
{
    if xs.len() == 0 {
        s
    } else {
        set_insert(set_insert_all(s, xs.drop_last()), xs.last())
    }
}

/// Messages and new frozen notes when the voicing changes: each frozen note
/// that some pad's old voicing holds (the first such pad, row by row) is
/// replaced by that pad's notes in the new voicing, one stop-and-start pair
/// per new note; other frozen notes stay.
pub open spec fn remap_frozen(frozen: Seq<u8>, old_notes: Seq<Vec<u8>>, new_notes: Seq<Vec<u8>>) -> (Seq<PianoAction>, Seq<u8>)
    decreases frozen.len(),
{
    if frozen.len() == 0 {
        (Seq::<PianoAction>::empty(), Seq::<u8>::empty())
    } else {
        let prev = remap_frozen(frozen.drop_last(), old_notes, new_notes);
        let n = frozen.last();
        match first_pad_with(old_notes, n, 0) {
            Some(j) => (prev.0 + swap_actions(n, new_notes[j]@), set_insert_all(prev.1, new_notes[j]@)),
            None => (prev.0, set_insert(prev.1, n)),
        }
    }
}

/// Adding an element as a set keeps a sequence free of repeats.
proof fn lemma_set_insert_distinct(s: Seq<u8>, x: u8)
    requires
        distinct_notes(s),
    ensures
        distinct_notes(set_insert(s, x)),
{
    if !s.contains(x) {
        let q = s.push(x);
        assert forall|i: int, j: int| 0 <= i < q.len() && 0 <= j < q.len() && i != j implies #[trigger] q[i]
            != #[trigger] q[j] by {
            if i < s.len() && j < s.len() {
                assert(q[i] == s[i] && q[j] == s[j]);
            } else if i < s.len() {
                assert(q[i] == s[i]);
                assert(s.contains(s[i]));
            } else {
                assert(q[j] == s[j]);
                assert(s.contains(s[j]));
            }
        }
    }
}

/// Add `x` to `v` as a set.
fn insert_note(v: &mut Vec<u8>, x: u8)
    requires
        distinct_notes(old(v)@),
    ensures
        final(v)@ == set_insert(old(v)@, x),
        distinct_notes(final(v)@),
{
    proof {
        lemma_set_insert_distinct(v@, x);
    }
    if !has_note(v, x) {
        v.push(x);
    }
}

/// Add each of `xs` to `v` as a set.
fn insert_notes(v: &mut Vec<u8>, xs: &Vec<u8>)
    requires
        distinct_notes(old(v)@),
    ensures
        final(v)@ == set_insert_all(old(v)@, xs@),
        distinct_notes(final(v)@),
{
    let mut k: usize = 0;
    while k < xs.len()
        invariant
            k <= xs.len(),
            v@ == set_insert_all(old(v)@, xs@.subrange(0, k as int)),
            distinct_notes(v@),
        decreases xs.len() - k,
    {
        assert(xs@.subrange(0, k + 1).drop_last() =~= xs@.subrange(0, k as int));
        insert_note(v, xs[k]);
        k = k + 1;
    }
    assert(xs@.subrange(0, k as int) =~= xs@);
}

/// Append the stop-and-start pairs that replace `n` by each note of `ms`.
fn push_swaps(actions: &mut Vec<PianoAction>, n: u8, ms: &Vec<u8>)
    ensures
        final(actions)@ == old(actions)@ + swap_actions(n, ms@),
{
    let mut k: usize = 0;
    while k < ms.len()
        invariant
            k <= ms.len(),
            actions@ == old(actions)@ + swap_actions(n, ms@.subrange(0, k as int)),
        decreases ms.len() - k,
    {
        assert(ms@.subrange(0, k + 1).drop_last() =~= ms@.subrange(0, k as int));
        actions.push(PianoAction::NoteOff(n));
        actions.push(PianoAction::NoteOn(ms[k]));
        assert(actions@ =~= old(actions)@ + swap_actions(n, ms@.subrange(0, k + 1)));
        k = k + 1;
    }
    assert(ms@.subrange(0, k as int) =~= ms@);
}

/// The first pad whose notes hold `n`.
fn find_pad_with(old_notes: &Vec<Vec<u8>>, n: u8) -> (r: Option<usize>)
    ensures
        r matches Some(j) ==> j < old_notes.len() && first_pad_with(old_notes@, n, 0) == Some(j as int),
        r is None ==> first_pad_with(old_notes@, n, 0) is None,
{
    let mut j: usize = 0;
    while j < old_notes.len()
        invariant
            j <= old_notes.len(),
            first_pad_with(old_notes@, n, 0) == first_pad_with(old_notes@, n, j as int),
        decreases old_notes.len() - j,
    {
        if has_note(&old_notes[j], n) {
            return Some(j);
        }
        j = j + 1;
    }
    None
}

impl PianoKeys {
    /// The chord voicing changed: every sounding pad (held keys, then the
    /// mouse pad) stops its old notes and starts its new ones, and each
    /// frozen note is moved to the new voicing of the first pad whose old
    /// voicing holds it. `old_notes` and `new_notes` give every pad's notes
    /// in the old and the new voicing.
    pub fn revoice(&mut self, old_notes: &Vec<Vec<u8>>, new_notes: &Vec<Vec<u8>>) -> (actions: Vec<PianoAction>)
        requires
            old(self).wf(),
            old_notes.len() == new_notes.len(),
            pads_known(old(self).held_pads@, old_notes.len() as nat),
            old(self).mouse_pad matches Some(p) ==> (p as nat) < old_notes.len(),
        ensures
            final(self).wf(),
            *final(self) == (PianoKeys { frozen: final(self).frozen, ..*old(self) }),
            final(self).frozen@ == remap_frozen(old(self).frozen@, old_notes@, new_notes@).1,
            actions@ == retrigger_actions(sounding_pads(old(self).held_pads@, old(self).mouse_pad), old_notes@, new_notes@)
                + remap_frozen(old(self).frozen@, old_notes@, new_notes@).0,
    {
        let mut actions: Vec<PianoAction> = Vec::new();
        let mut pads: Vec<u8> = Vec::new();
        append_notes(&mut pads, &self.held_pads);
        if let Some(p) = self.mouse_pad {
            pads.push(p);
        }
        let ghost all_pads = sounding_pads(self.held_pads@, self.mouse_pad);
        assert(pads@ =~= all_pads);
        let mut k: usize = 0;
        while k < pads.len()
            invariant
                k <= pads.len(),
                pads@ == all_pads,
                old_notes.len() == new_notes.len(),
                pads_known(pads@, old_notes.len() as nat),
                actions@ == retrigger_actions(pads@.subrange(0, k as int), old_notes@, new_notes@),
            decreases pads.len() - k,
        {
            assert(pads@.subrange(0, k + 1).drop_last() =~= pads@.subrange(0, k as int));
            let p = pads[k] as usize;
            push_all(&mut actions, &old_notes[p], false);
            push_all(&mut actions, &new_notes[p], true);
            k = k + 1;
        }
        assert(pads@.subrange(0, k as int) =~= pads@);
        let ghost before = actions@;
        let mut frozen: Vec<u8> = Vec::new();
        let mut i: usize = 0;
        while i < self.frozen.len()
            invariant
                i <= self.frozen.len(),
                old_notes.len() == new_notes.len(),
                actions@ == before + remap_frozen(self.frozen@.subrange(0, i as int), old_notes@, new_notes@).0,
                frozen@ == remap_frozen(self.frozen@.subrange(0, i as int), old_notes@, new_notes@).1,
                distinct_notes(frozen@),
            decreases self.frozen.len() - i,
        {
            assert(self.frozen@.subrange(0, i + 1).drop_last() =~= self.frozen@.subrange(0, i as int));
            let n = self.frozen[i];
            match find_pad_with(old_notes, n) {
                Some(j) => {
                    push_swaps(&mut actions, n, &new_notes[j]);
                    insert_notes(&mut frozen, &new_notes[j]);
                },
                None => {
                    insert_note(&mut frozen, n);
                },
            }
            i = i + 1;
        }
        assert(self.frozen@.subrange(0, i as int) =~= self.frozen@);
        self.frozen = frozen;
        actions
    }
}

/// The octave keys keep the octave within 1–7 and the velocity keys keep
/// the velocity within 10–127: Z alone lowers the octave by one down to 1,
/// X alone raises it up to 7, C alone lowers the velocity by ten down to 10
/// and V alone raises it up to 127.
pub proof fn lemma_octave_velocity_bounds(octave: i32, velocity: u8, down: bool, up: bool)
    requires
        1 <= octave <= 7,
        10 <= velocity <= 127,
    ensures
        1 <= next_octave(octave, down, up) <= 7,
        10 <= next_velocity(velocity, down, up) <= 127,
        down && !up ==> next_octave(octave, down, up) == if octave > 1 { octave - 1 } else { 1 },
        up && !down ==> next_octave(octave, down, up) == if octave < 7 { octave + 1 } else { 7 },
        down && !up ==> next_velocity(velocity, down, up) == if velocity >= 20 { velocity - 10 } else { 10 },
        up && !down ==> next_velocity(velocity, down, up) == if velocity <= 117 { velocity + 10 } else { 127 },
{
}

impl PianoKeys {
    /// Piano keys while the chord sequencer plays: a key pressed this frame
    /// sets the chord sequencer's root to its pitch class (the last such
    /// key in key-map order wins), and the notes still held through the
    /// keyboard stop. Returns the root and the messages.
    pub fn live_transpose_frame(&mut self, pressed: &Vec<i32>, root: u8) -> (r: (u8, Vec<PianoAction>))
        requires
            old(self).wf(),
            forall|k: int| 0 <= k < pressed.len() ==> 0 <= #[trigger] pressed[k],
        ensures
            final(self).wf(),
            *final(self) == (PianoKeys { held: final(self).held, ..*old(self) }),
            final(self).held@ == Seq::<u8>::empty(),
            r.0 == if pressed.len() > 0 { (pressed@.last() % 12) as u8 } else { root },
            r.1@ == note_offs(old(self).held@),
    {
        let mut new_root = root;
        if pressed.len() > 0 {
            new_root = (pressed[pressed.len() - 1] % 12) as u8;
        }
        let mut actions: Vec<PianoAction> = Vec::new();
        push_all(&mut actions, &self.held, false);
        self.held = Vec::new();
        (new_root, actions)
    }
}

/// An element of `s` has its note-off message among `note_offs(s)`.
proof fn lemma_note_offs_contains(s: Seq<u8>, n: u8)
    requires
        s.contains(n),
    ensures
        note_offs(s).contains(PianoAction::NoteOff(n)),
{
    let k = choose|k: int| 0 <= k < s.len() && s[k] == n;
    assert(note_offs(s)[k] == PianoAction::NoteOff(n));
}

/// Every note of pad `p` is among the notes of pads `pads` that hold `p`.
proof fn lemma_pad_notes_of_contains(pads: Seq<u8>, pad_notes: Seq<Vec<u8>>, p: u8, m: u8)
    requires
        pads.contains(p),
        pad_notes[p as int]@.contains(m),
    ensures
        pad_notes_of(pads, pad_notes).contains(m),
    decreases pads.len(),
{
    let prev = pads.drop_last();
    let last = pad_notes[pads.last() as int]@;
    if pads.last() == p {
        let k = choose|k: int| 0 <= k < last.len() && last[k] == m;
        assert((pad_notes_of(prev, pad_notes) + last)[pad_notes_of(prev, pad_notes).len() + k] == m);
    } else {
        let j = choose|j: int| 0 <= j < pads.len() && pads[j] == p;
        assert(prev[j] == p);
        lemma_pad_notes_of_contains(prev, pad_notes, p, m);
        let k = choose|k: int| 0 <= k < pad_notes_of(prev, pad_notes).len() && pad_notes_of(prev, pad_notes)[k] == m;
        assert((pad_notes_of(prev, pad_notes) + last)[k] == m);
    }
}

/// Without freeze, every note held before a piano-mode frame and not held
/// after it is stopped by that frame, whatever other notes stay held.
pub proof fn lemma_released_note_stops(frozen: Seq<u8>, held: Seq<u8>, cur: Seq<u8>, n: u8)
    requires
        held.contains(n),
        !cur.contains(n),
    ensures
        note_actions(false, frozen, held, cur).contains(PianoAction::NoteOff(n)),
{
    lemma_not_in(held, cur);
    lemma_note_offs_contains(not_in(held, cur), n);
    let front = Seq::<PianoAction>::empty() + note_ons(not_in(cur, held));
    let offs = note_offs(not_in(held, cur));
    let k = choose|k: int| 0 <= k < offs.len() && offs[k] == PianoAction::NoteOff(n);
    assert((front + offs)[front.len() + k] == PianoAction::NoteOff(n));
    assert(note_actions(false, frozen, held, cur) == front + offs);
}

/// Without freeze, every note of every pad held before a chord-keyboard
/// frame and not held after it is stopped by that frame, whatever other
/// pads stay held.
pub proof fn lemma_released_pad_stops(frozen: Seq<u8>, held: Seq<u8>, cur: Seq<u8>, pad_notes: Seq<Vec<u8>>, p: u8, m: u8)
    requires
        held.contains(p),
        !cur.contains(p),
        pad_notes[p as int]@.contains(m),
    ensures
        chord_actions(false, frozen, held, cur, pad_notes).contains(PianoAction::NoteOff(m)),
{
    lemma_not_in(held, cur);
    lemma_pad_notes_of_contains(not_in(held, cur), pad_notes, p, m);
    let released = pad_notes_of(not_in(held, cur), pad_notes);
    lemma_note_offs_contains(released, m);
    let front = Seq::<PianoAction>::empty() + note_ons(pad_notes_of(not_in(cur, held), pad_notes));
    let offs = note_offs(released);
    let k = choose|k: int| 0 <= k < offs.len() && offs[k] == PianoAction::NoteOff(m);
    assert((front + offs)[front.len() + k] == PianoAction::NoteOff(m));
    assert(chord_actions(false, frozen, held, cur, pad_notes) == front + offs);
}

} // verus!

use forma::keyboard::{
    bend_caption, keyboard_range, mod_caption, PianoAction, PianoKeyInput, PianoKeys, MOD_BARS, TOP_KEY_SEMITONE,
};

fn keys(octave: i32) -> PianoKeys {
    PianoKeys {
        octave,
        velocity: 100,
        pitch_bend: 0,
        mod_wheel: 0,
        held: Vec::new(),
        freeze: false,
        frozen: Vec::new(),
        held_pads: Vec::new(),
        mouse_pad: None,
        mouse_note: None,
    }
}

fn notes(semitones: Vec<i32>) -> PianoKeyInput {
    PianoKeyInput {
        octave_down: false,
        octave_up: false,
        velocity_down: false,
        velocity_up: false,
        bend_down: false,
        bend_up: false,
        mod_pressed: [false; 6],
        semitones_down: semitones,
    }
}

#[test]
fn press_then_release_sends_on_then_off() {
    let mut k = keys(4);
    let a = k.piano_frame(&notes(vec![0]));
    assert_eq!(a, vec![PianoAction::NoteOn(48)]);
    assert_eq!(k.held, vec![48]);
    let a = k.piano_frame(&notes(vec![]));
    assert_eq!(a, vec![PianoAction::NoteOff(48)]);
    assert!(k.held.is_empty());
}

#[test]
fn holding_keys_sends_nothing_more() {
    let mut k = keys(4);
    k.piano_frame(&notes(vec![0, 4, 7]));
    assert_eq!(k.held, vec![48, 52, 55]);
    let a = k.piano_frame(&notes(vec![0, 4, 7]));
    assert!(a.is_empty());
    assert_eq!(k.held, vec![48, 52, 55]);
}

#[test]
fn a_key_listed_twice_sounds_once() {
    let mut k = keys(3);
    let a = k.piano_frame(&notes(vec![12, 12, 17]));
    assert_eq!(a, vec![PianoAction::NoteOn(48), PianoAction::NoteOn(53)]);
    assert_eq!(k.held, vec![48, 53]);
}

#[test]
fn octave_stays_within_one_to_seven() {
    let mut k = keys(1);
    let mut i = notes(vec![]);
    i.octave_down = true;
    k.piano_frame(&i);
    assert_eq!(k.octave, 1);
    let mut k = keys(7);
    let mut i = notes(vec![0]);
    i.octave_up = true;
    let a = k.piano_frame(&i);
    assert_eq!(k.octave, 7);
    assert_eq!(a, vec![PianoAction::NoteOn(84)]);
    let mut k = keys(4);
    let mut i = notes(vec![0]);
    i.octave_up = true;
    let a = k.piano_frame(&i);
    assert_eq!(k.octave, 5);
    assert_eq!(a, vec![PianoAction::NoteOn(60)]);
}

#[test]
fn velocity_steps_by_ten_between_ten_and_127() {
    let mut k = keys(4);
    let mut down = notes(vec![]);
    down.velocity_down = true;
    let mut up = notes(vec![]);
    up.velocity_up = true;
    k.piano_frame(&down);
    assert_eq!(k.velocity, 90);
    k.velocity = 15;
    k.piano_frame(&down);
    assert_eq!(k.velocity, 10);
    k.velocity = 120;
    k.piano_frame(&up);
    assert_eq!(k.velocity, 127);
    k.piano_frame(&up);
    assert_eq!(k.velocity, 127);
}

#[test]
fn bend_keys_send_a_bend_only_when_it_changes() {
    let mut k = keys(4);
    let mut i = notes(vec![]);
    i.bend_down = true;
    let a = k.piano_frame(&i);
    assert_eq!(a, vec![PianoAction::PitchBend(-2)]);
    let a = k.piano_frame(&i);
    assert!(a.is_empty());
    i.bend_up = true;
    let a = k.piano_frame(&i);
    assert_eq!(a, vec![PianoAction::PitchBend(0)]);
    i.bend_down = false;
    let a = k.piano_frame(&i);
    assert_eq!(a, vec![PianoAction::PitchBend(2)]);
    assert_eq!(k.pitch_bend, 2);
}

#[test]
fn highest_mod_key_wins() {
    let mut k = keys(4);
    let mut i = notes(vec![]);
    i.mod_pressed = [false, false, true, false, false, true];
    let a = k.piano_frame(&i);
    assert_eq!(k.mod_wheel, 5);
    assert_eq!(a, vec![PianoAction::ModWheel(5)]);
    let a = k.piano_frame(&notes(vec![]));
    assert_eq!(k.mod_wheel, 5);
    assert!(a.is_empty());
}

#[test]
fn controller_messages_come_before_notes() {
    let mut k = keys(4);
    let mut i = notes(vec![2]);
    i.bend_up = true;
    i.mod_pressed = [false, true, false, false, false, false];
    let a = k.piano_frame(&i);
    assert_eq!(
        a,
        vec![PianoAction::PitchBend(2), PianoAction::ModWheel(1), PianoAction::NoteOn(50)]
    );
}

#[test]
fn freeze_keeps_released_notes_until_a_new_one() {
    let mut k = keys(4);
    k.freeze = true;
    k.piano_frame(&notes(vec![0, 4]));
    let a = k.piano_frame(&notes(vec![]));
    assert!(a.is_empty());
    assert_eq!(k.frozen, vec![48, 52]);
    let a = k.piano_frame(&notes(vec![2]));
    assert_eq!(
        a,
        vec![PianoAction::NoteOff(48), PianoAction::NoteOff(52), PianoAction::NoteOn(50)]
    );
    assert!(k.frozen.is_empty());
    assert_eq!(k.held, vec![50]);
}

#[test]
fn turning_freeze_off_stops_frozen_notes() {
    let mut k = keys(4);
    let a = k.toggle_freeze();
    assert!(a.is_empty());
    assert!(k.freeze);
    k.piano_frame(&notes(vec![7]));
    k.piano_frame(&notes(vec![]));
    assert_eq!(k.frozen, vec![55]);
    let a = k.toggle_freeze();
    assert_eq!(a, vec![PianoAction::NoteOff(55)]);
    assert!(!k.freeze);
    assert!(k.frozen.is_empty());
}

#[test]
fn focus_lets_held_notes_go() {
    let mut k = keys(4);
    k.piano_frame(&notes(vec![0, 1]));
    let a = k.release_for_focus();
    assert_eq!(a, vec![PianoAction::NoteOff(48), PianoAction::NoteOff(49)]);
    assert!(k.held.is_empty());

    let mut k = keys(4);
    k.freeze = true;
    k.frozen = vec![49];
    k.held = vec![48, 49];
    let a = k.release_for_focus();
    assert!(a.is_empty());
    assert_eq!(k.frozen, vec![49, 48]);
    assert!(k.held.is_empty());
}

#[test]
fn strip_buttons_step_octave_and_velocity() {
    let mut k = keys(7);
    k.step_octave(true);
    assert_eq!(k.octave, 7);
    k.step_octave(false);
    assert_eq!(k.octave, 6);
    let mut k = keys(1);
    k.step_octave(false);
    assert_eq!(k.octave, 1);
    k.velocity = 125;
    k.step_velocity(true);
    assert_eq!(k.velocity, 127);
    k.velocity = 12;
    k.step_velocity(false);
    assert_eq!(k.velocity, 10);
    k.velocity = 60;
    k.step_velocity(false);
    assert_eq!(k.velocity, 50);
}

#[test]
fn strip_captions() {
    assert_eq!(bend_caption(-2), "Bend ▼");
    assert_eq!(bend_caption(2), "Bend ▲");
    assert_eq!(bend_caption(0), "Bend");
    assert_eq!(mod_caption(0), "Mod: off");
    assert_eq!(mod_caption(1), "Mod: ▁");
    assert_eq!(mod_caption(5), "Mod: █");
    assert_eq!(mod_caption(9), format!("Mod: {}", MOD_BARS[4]));
}

fn pad_notes() -> Vec<Vec<u8>> {
    // Pad p plays the triad on 48 + p.
    (0..21u8).map(|p| vec![48 + p, 52 + p, 55 + p]).collect()
}

#[test]
fn chord_pad_press_and_release() {
    let mut k = keys(4);
    let (a, new) = k.chord_frame(&vec![0], &pad_notes());
    assert_eq!(a, vec![PianoAction::NoteOn(48), PianoAction::NoteOn(52), PianoAction::NoteOn(55)]);
    assert_eq!(new, vec![0]);
    assert_eq!(k.held_pads, vec![0]);
    let (a, new) = k.chord_frame(&vec![0], &pad_notes());
    assert!(a.is_empty());
    assert!(new.is_empty());
    let (a, _) = k.chord_frame(&vec![], &pad_notes());
    assert_eq!(a, vec![PianoAction::NoteOff(48), PianoAction::NoteOff(52), PianoAction::NoteOff(55)]);
    assert!(k.held_pads.is_empty());
}

#[test]
fn chord_pads_freeze_like_notes() {
    let mut k = keys(4);
    k.freeze = true;
    k.chord_frame(&vec![0, 7], &pad_notes());
    let (a, _) = k.chord_frame(&vec![], &pad_notes());
    assert!(a.is_empty());
    // Pads 0 and 7 share note 55.
    assert_eq!(k.frozen, vec![48, 52, 55, 59, 62]);
    let (a, new) = k.chord_frame(&vec![2], &pad_notes());
    assert_eq!(new, vec![2]);
    assert_eq!(
        a,
        vec![
            PianoAction::NoteOff(48),
            PianoAction::NoteOff(52),
            PianoAction::NoteOff(55),
            PianoAction::NoteOff(59),
            PianoAction::NoteOff(62),
            PianoAction::NoteOn(50),
            PianoAction::NoteOn(54),
            PianoAction::NoteOn(57),
        ]
    );
    assert!(k.frozen.is_empty());
}

#[test]
fn switching_modes_lets_go_of_the_other_mode() {
    let mut k = keys(4);
    k.piano_frame(&notes(vec![0]));
    let (a, _) = k.chord_frame(&vec![1, 1], &pad_notes());
    assert_eq!(
        a,
        vec![
            PianoAction::NoteOn(49),
            PianoAction::NoteOn(53),
            PianoAction::NoteOn(56),
            PianoAction::NoteOff(48),
        ]
    );
    assert!(k.held.is_empty());
    assert_eq!(k.held_pads, vec![1]);
    let a = k.release_chord_pads(&pad_notes());
    assert_eq!(a, vec![PianoAction::NoteOff(49), PianoAction::NoteOff(53), PianoAction::NoteOff(56)]);
    assert!(k.held_pads.is_empty());
}

#[test]
fn mouse_pad_moves_from_pad_to_pad() {
    let mut k = keys(4);
    let a = k.press_mouse_pad(3, &pad_notes());
    assert_eq!(a, vec![PianoAction::NoteOn(51), PianoAction::NoteOn(55), PianoAction::NoteOn(58)]);
    assert_eq!(k.mouse_pad, Some(3));
    assert!(k.press_mouse_pad(3, &pad_notes()).is_empty());
    let a = k.press_mouse_pad(4, &pad_notes());
    assert_eq!(
        a,
        vec![
            PianoAction::NoteOff(51),
            PianoAction::NoteOff(55),
            PianoAction::NoteOff(58),
            PianoAction::NoteOn(52),
            PianoAction::NoteOn(56),
            PianoAction::NoteOn(59),
        ]
    );
    let a = k.release_mouse_pad(&pad_notes());
    assert_eq!(a, vec![PianoAction::NoteOff(52), PianoAction::NoteOff(56), PianoAction::NoteOff(59)]);
    assert_eq!(k.mouse_pad, None);
}

#[test]
fn mouse_pad_under_freeze() {
    let mut k = keys(4);
    k.freeze = true;
    k.frozen = vec![40];
    let a = k.press_mouse_pad(0, &pad_notes());
    assert_eq!(
        a,
        vec![PianoAction::NoteOff(40), PianoAction::NoteOn(48), PianoAction::NoteOn(52), PianoAction::NoteOn(55)]
    );
    assert!(k.frozen.is_empty());
    let a = k.press_mouse_pad(1, &pad_notes());
    assert_eq!(a, vec![PianoAction::NoteOn(49), PianoAction::NoteOn(53), PianoAction::NoteOn(56)]);
    assert_eq!(k.frozen, vec![48, 52, 55]);
    let a = k.release_mouse_pad(&pad_notes());
    assert!(a.is_empty());
    assert_eq!(k.frozen, vec![48, 52, 55, 49, 53, 56]);
}

#[test]
fn keyboard_reaches_eighteen_notes_from_the_octave() {
    assert_eq!(TOP_KEY_SEMITONE, 17);
    assert_eq!(keyboard_range(4), (48, 66));
    assert_eq!(keyboard_range(1), (12, 30));
    assert_eq!(keyboard_range(7), (84, 102));
}

#[test]
fn piano_key_highlights() {
    let mut k = keys(4);
    k.piano_frame(&notes(vec![4]));
    let major_c = Some([true, false, true, false, true, true, false, true, false, true, false, true]);
    let s = k.key_state(52, major_c, 0);
    assert!(s.pressed && s.in_kb_range && !s.is_scale_root && s.in_scale);
    let s = k.key_state(60, major_c, 0);
    assert!(!s.pressed && s.in_kb_range && s.is_scale_root && s.in_scale);
    let s = k.key_state(66, None, 0);
    assert!(!s.pressed && !s.in_kb_range && !s.is_scale_root && !s.in_scale);
    let s = k.key_state(61, major_c, 0);
    assert!(!s.in_scale && !s.is_scale_root);
    k.press_mouse_key(90);
    assert!(k.key_state(90, None, 0).pressed);
}

#[test]
fn mouse_plays_one_piano_key() {
    let mut k = keys(4);
    assert_eq!(k.press_mouse_key(60), vec![PianoAction::NoteOn(60)]);
    assert!(k.press_mouse_key(60).is_empty());
    assert_eq!(k.press_mouse_key(62), vec![PianoAction::NoteOff(60), PianoAction::NoteOn(62)]);
    assert_eq!(k.release_mouse_key(), vec![PianoAction::NoteOff(62)]);
    assert!(k.release_mouse_key().is_empty());
    assert_eq!(k.mouse_note, None);
}

#[test]
fn chord_preview_shows_frozen_and_held_pads() {
    let mut k = keys(4);
    k.frozen = vec![30];
    k.chord_frame(&vec![2], &pad_notes());
    k.press_mouse_pad(5, &pad_notes());
    assert!(k.chord_preview_pressed(30, &pad_notes()));
    assert!(k.chord_preview_pressed(54, &pad_notes()));
    assert!(k.chord_preview_pressed(53, &pad_notes()));
    assert!(k.chord_preview_pressed(60, &pad_notes()));
    assert!(!k.chord_preview_pressed(51, &pad_notes()));
}

#[test]
fn keys_transpose_a_playing_chord_sequencer() {
    let mut k = keys(4);
    k.piano_frame(&notes(vec![0, 4]));
    let (root, a) = k.live_transpose_frame(&vec![2, 16], 0);
    assert_eq!(root, 4);
    assert_eq!(a, vec![PianoAction::NoteOff(48), PianoAction::NoteOff(52)]);
    assert!(k.held.is_empty());
    let (root, a) = k.live_transpose_frame(&vec![], 7);
    assert_eq!(root, 7);
    assert!(a.is_empty());
    let (root, _) = k.live_transpose_frame(&vec![11], 7);
    assert_eq!(root, 11);
}

#[test]
fn voicing_change_retriggers_and_moves_frozen_notes() {
    let old_v = pad_notes();
    // New voicing: each pad's triad an octave up.
    let new_v: Vec<Vec<u8>> = old_v.iter().map(|n| n.iter().map(|m| m + 12).collect()).collect();
    let mut k = keys(4);
    k.chord_frame(&vec![0], &old_v);
    k.press_mouse_pad(2, &old_v);
    k.frozen = vec![52, 30];
    let a = k.revoice(&old_v, &new_v);
    assert_eq!(
        a,
        vec![
            PianoAction::NoteOff(48),
            PianoAction::NoteOff(52),
            PianoAction::NoteOff(55),
            PianoAction::NoteOn(60),
            PianoAction::NoteOn(64),
            PianoAction::NoteOn(67),
            PianoAction::NoteOff(50),
            PianoAction::NoteOff(54),
            PianoAction::NoteOff(57),
            PianoAction::NoteOn(62),
            PianoAction::NoteOn(66),
            PianoAction::NoteOn(69),
            // 52 is first held by pad 0 (48 52 55): it makes way for 60 64 67.
            PianoAction::NoteOff(52),
            PianoAction::NoteOn(60),
            PianoAction::NoteOff(52),
            PianoAction::NoteOn(64),
            PianoAction::NoteOff(52),
            PianoAction::NoteOn(67),
        ]
    );
    // 30 is in no pad and stays frozen.
    assert_eq!(k.frozen, vec![60, 64, 67, 30]);
    assert_eq!(k.held_pads, vec![0]);
    assert_eq!(k.mouse_pad, Some(2));
}

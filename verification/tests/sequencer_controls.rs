use forma::seq_controls::{
    euclid_settings, nearest_note, nudge_degree, nudge_octave_offset, random_degrees, random_notes, random_steps,
    toggle_recording, transpose_key, transpose_notes, ChordSteps, SeqMode, Transport, TransportPress, TRANSPOSE_HIGH,
    TRANSPOSE_LOW,
};

fn stopped(step: usize) -> Transport {
    Transport { playing: false, pending_start: false, current_step: step }
}

#[test]
fn play_starts_at_once_without_bar_quantize() {
    let mut t = stopped(5);
    assert_eq!(t.press_play(false), TransportPress::Start);
    assert_eq!(t, Transport { playing: true, pending_start: false, current_step: 0 });
    t.current_step = 9;
    assert_eq!(t.press_play(false), TransportPress::Stop);
    assert_eq!(t, stopped(0));
}

#[test]
fn play_waits_for_the_bar_with_bar_quantize() {
    let mut t = stopped(3);
    assert_eq!(t.press_play(true), TransportPress::Arm);
    assert_eq!(t, Transport { playing: false, pending_start: true, current_step: 0 });
    assert_eq!(t.press_play(true), TransportPress::Stop);
    assert_eq!(t, stopped(0));
}

#[test]
fn shorter_pattern_rewinds_a_playhead_past_its_end() {
    let mut t = Transport { playing: true, pending_start: false, current_step: 12 };
    t.resize(16);
    assert_eq!(t.current_step, 12);
    t.resize(8);
    assert_eq!(t.current_step, 0);
    assert!(t.playing);
}

#[test]
fn record_button_starts_step_entry_at_step_zero() {
    assert_eq!(toggle_recording(false, false, 7), (true, 0));
    assert_eq!(toggle_recording(false, true, 7), (true, 7));
    assert_eq!(toggle_recording(true, false, 7), (false, 7));
}

#[test]
fn transpose_keeps_notes_on_the_piano() {
    assert_eq!((TRANSPOSE_LOW, TRANSPOSE_HIGH), (21, 108));
    let mut notes = vec![60, 100, 22, 40, 50];
    transpose_notes(&mut notes, 3, 12);
    assert_eq!(notes, vec![72, 108, 34, 40, 50]);
    transpose_notes(&mut notes, 4, -12);
    assert_eq!(notes, vec![60, 96, 22, 28, 50]);
    transpose_notes(&mut notes, 5, -1);
    assert_eq!(notes, vec![59, 95, 21, 27, 49]);
    transpose_notes(&mut notes, 3, -1);
    assert_eq!(notes, vec![58, 94, 21, 27, 49]);
}

#[test]
fn key_transpose_moves_root_or_octave() {
    assert_eq!(transpose_key(0, 4, -1), (11, 4));
    assert_eq!(transpose_key(11, 4, 1), (0, 4));
    assert_eq!(transpose_key(5, 4, 12), (5, 5));
    assert_eq!(transpose_key(5, 7, 12), (5, 7));
    assert_eq!(transpose_key(5, 1, -12), (5, 1));
    assert_eq!(transpose_key(5, 3, -12), (5, 2));
    assert_eq!(transpose_key(3, 3, 25), (4, 3));
}

#[test]
fn randomize_reads_the_seed_bits() {
    let seed: u64 = 0b1011;
    assert_eq!(random_steps(seed, 6), vec![true, true, false, true, false, false]);
    // Bit 64 wraps around to bit 0.
    let steps = random_steps(1, 65);
    assert!(steps[0] && steps[64]);
    assert!(!steps[1]);
    let seed: u64 = 0x0000_0000_0000_3a09;
    // Byte at bit 0 is 0x09 (9 % 7 = 2), at bit 4 is 0xa0 (160 % 7 = 6).
    assert_eq!(random_degrees(seed, 2), vec![2, 6]);
    let scale: Vec<u8> = vec![60, 62, 64];
    // Bytes at bits 0 and 3: 0x09 % 3 = 0, 0x41 (65) % 3 = 2.
    assert_eq!(random_notes(seed, 2, &scale), vec![60, 64]);
}

#[test]
fn dragged_notes_snap_to_the_nearest_scale_note() {
    let scale: Vec<u8> = vec![60, 62, 64, 65, 67];
    assert_eq!(nearest_note(&scale, 63), 62);
    assert_eq!(nearest_note(&scale, 66), 65);
    assert_eq!(nearest_note(&scale, 90), 67);
    assert_eq!(nearest_note(&scale, 10), 60);
    assert_eq!(nearest_note(&scale, 64), 64);
    assert_eq!(nearest_note(&Vec::new(), 64), 64);
}

#[test]
fn step_editors_stay_in_range() {
    assert_eq!(nudge_degree(3, 2), 5);
    assert_eq!(nudge_degree(5, 4), 6);
    assert_eq!(nudge_degree(1, -3), 0);
    assert_eq!(nudge_octave_offset(0, true), 1);
    assert_eq!(nudge_octave_offset(2, true), 2);
    assert_eq!(nudge_octave_offset(-2, false), -2);
    assert_eq!(nudge_octave_offset(1, false), 0);
}

#[test]
fn euclid_settings_fit_the_pattern() {
    assert_eq!(euclid_settings(0, 3, 8), (1, 3));
    assert_eq!(euclid_settings(12, 9, 8), (8, 1));
    assert_eq!(euclid_settings(5, 23, 24), (5, 23));
}

#[test]
fn mode_tab_stops_and_rewinds() {
    let mut t = Transport { playing: true, pending_start: false, current_step: 5 };
    let mut mode = SeqMode::NoteSeq;
    t.switch_mode(&mut mode, SeqMode::NoteSeq);
    assert_eq!((t, mode), (Transport { playing: true, pending_start: false, current_step: 5 }, SeqMode::NoteSeq));
    t.switch_mode(&mut mode, SeqMode::ChordSeq);
    assert_eq!((t, mode), (Transport { playing: false, pending_start: false, current_step: 0 }, SeqMode::ChordSeq));
}

#[test]
fn length_buttons_set_the_length() {
    let mut t = Transport { playing: true, pending_start: false, current_step: 20 };
    let mut length = 24;
    t.set_length(&mut length, 16);
    assert_eq!(length, 16);
    assert_eq!(t.current_step, 0);
    t.current_step = 7;
    t.set_length(&mut length, 8);
    assert_eq!((length, t.current_step), (8, 7));
}

fn chord_steps() -> ChordSteps {
    ChordSteps {
        length: 4,
        steps: vec![true, false, true, false, true],
        degrees: vec![0, 6, 3, 1, 9],
        chord_types: vec![0, 4, 2, 1, 0],
        octave_offsets: vec![0, 2, -2, 1, 7],
    }
}

#[test]
fn chord_step_editor() {
    let mut c = chord_steps();
    c.toggle_step(1);
    assert_eq!(c.steps, vec![true, true, true, false, true]);
    c.cycle_chord_type(1, 5);
    assert_eq!(c.chord_types, vec![0, 0, 2, 1, 0]);
    c.cycle_chord_type(2, 5);
    assert_eq!(c.chord_types, vec![0, 0, 3, 1, 0]);
    c.nudge_step_degree(1, 3);
    c.nudge_step_degree(3, -4);
    assert_eq!(c.degrees, vec![0, 6, 3, 0, 9]);
    c.nudge_step_octave(1, true);
    c.nudge_step_octave(2, false);
    c.nudge_step_octave(0, true);
    assert_eq!(c.octave_offsets, vec![1, 2, -2, 1, 7]);
}

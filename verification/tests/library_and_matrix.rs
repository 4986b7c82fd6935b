use forma::mod_matrix::{mod_dest_label, mod_slot_active, mod_source_label, MOD_DESTS, MOD_SOURCES};
use forma::pattern_library::{listed_presets, melody_base_note, melody_notes, toggle_category};

#[test]
fn category_chips_toggle() {
    assert_eq!(toggle_category(None, 2), Some(2));
    assert_eq!(toggle_category(Some(2), 2), None);
    assert_eq!(toggle_category(Some(1), 2), Some(2));
}

#[test]
fn listed_presets_follow_the_filter() {
    let cats = vec![0, 1, 0, 2, 1];
    assert_eq!(listed_presets(&cats, None), vec![0, 1, 2, 3, 4]);
    assert_eq!(listed_presets(&cats, Some(1)), vec![1, 4]);
    assert_eq!(listed_presets(&cats, Some(7)), Vec::<usize>::new());
}

#[test]
fn melodies_start_above_the_keyboard_octave() {
    assert_eq!(melody_base_note(4), 60);
    assert_eq!(melody_base_note(1), 24);
    assert_eq!(melody_base_note(0), 21);
    assert_eq!(melody_base_note(9), 108);
    assert_eq!(melody_notes(60, &vec![0, 7, -12, 60, -60]), vec![60, 67, 48, 108, 21]);
}

#[test]
fn mod_matrix_captions() {
    assert_eq!(MOD_SOURCES.len(), 5);
    assert_eq!(MOD_DESTS.len(), 4);
    assert_eq!(mod_source_label(3), "Mod Wheel");
    assert_eq!(mod_source_label(9), "Aftertouch");
    assert_eq!(mod_dest_label(0), "Off");
    assert_eq!(mod_dest_label(7), "Pitch");
    assert!(mod_slot_active(1, 2));
    assert!(!mod_slot_active(0, 2));
    assert!(!mod_slot_active(1, 0));
}

use forma::layout::AppMode;
use forma::layout_store::layout_save_name;
use forma::mixer::{port_label, track_silenced};

#[test]
fn solo_silences_the_other_tracks() {
    let muted = vec![false, true, false, false];
    let none = vec![false; 4];
    assert!(!track_silenced(&muted, &none, 0));
    assert!(track_silenced(&muted, &none, 1));
    let solo = vec![false, false, true, false];
    assert!(track_silenced(&muted, &solo, 0));
    assert!(!track_silenced(&muted, &solo, 2));
    let muted_solo = vec![false, false, true, false];
    assert!(track_silenced(&muted_solo, &solo, 2));
}

#[test]
fn port_caption_names_the_connected_port() {
    let names = vec!["Keystep".to_string(), "Launchkey".to_string()];
    assert_eq!(port_label(&names, Some(1)), "Launchkey");
    assert_eq!(port_label(&names, None), "— disconnected —");
    assert_eq!(port_label(&names, Some(5)), "— disconnected —");
}

#[test]
fn picking_a_track_leaves_the_studio_view() {
    assert_eq!(AppMode::Studio.after_track_click(), AppMode::Live);
    assert_eq!(AppMode::DrumMachine.after_track_click(), AppMode::DrumMachine);
    assert_eq!(AppMode::Live.after_track_click(), AppMode::Live);
    assert_eq!(AppMode::Studio.after_track_key(), AppMode::Live);
    assert_eq!(AppMode::DrumMachine.after_track_key(), AppMode::Live);
    assert_eq!(AppMode::Live.after_track_key(), AppMode::Live);
}

#[test]
fn layout_names_are_trimmed_and_must_not_be_blank() {
    assert_eq!(layout_save_name("  My Set \t"), Some("My Set".to_string()));
    assert_eq!(layout_save_name("x"), Some("x".to_string()));
    assert_eq!(layout_save_name("   "), None);
    assert_eq!(layout_save_name(""), None);
}

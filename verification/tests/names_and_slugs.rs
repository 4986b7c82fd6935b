use forma::layout_store::{layout_name_of_file, sanitize, sorted_layout_names, user_layout_file_name};
use forma::midi_mapping_store::{device_mapping_file_name, device_slug, merge_device_layers, slugify};
use std::collections::HashMap;

#[test]
fn device_slug_doc_example() {
    assert_eq!(device_slug("Arturia KeyLab mkIII MIDI In"), "arturia-keylab-mkiii-midi-in");
}

#[test]
fn device_slug_collapses_and_trims_separators() {
    assert_eq!(device_slug("--Foo  Bar--"), "foo-bar");
    assert_eq!(device_slug("  "), "");
    assert_eq!(device_slug(""), "");
    assert_eq!(device_slug("IAC Driver Bus 1"), "iac-driver-bus-1");
    assert_eq!(device_slug("Ünïcode Dévice"), "ünïcode-dévice");
}

#[test]
fn slugify_keeps_case_it_is_given() {
    assert_eq!(slugify("a!!b"), "a-b");
    assert_eq!(slugify("Key Lab"), "Key-Lab");
    assert_eq!(slugify(slugify("x -- y!").as_str()), slugify("x -- y!"));
}

#[test]
fn mapping_file_names() {
    assert_eq!(device_mapping_file_name("KeyLab 61"), "keylab-61.json");
}

#[test]
fn sanitize_replaces_unsafe_characters() {
    assert_eq!(sanitize("My Layout/1"), "My Layout_1");
    assert_eq!(sanitize("  a.b  "), "a_b");
    assert_eq!(sanitize("../etc"), "___etc");
    assert_eq!(sanitize("keep-this_one 2"), "keep-this_one 2");
    assert_eq!(sanitize(""), "");
    assert_eq!(sanitize("   "), "");
    assert_eq!(sanitize("Café"), "Café");
}

#[test]
fn sanitize_is_idempotent() {
    for s in ["  x/y  ", "a b c", "???", " _lead", "trail_ "] {
        let once = sanitize(s);
        assert_eq!(sanitize(&once), once);
    }
}

#[test]
fn layout_file_names() {
    assert_eq!(user_layout_file_name("my/layout"), "my_layout.json");
    assert_eq!(user_layout_file_name(" Live Set "), "Live Set.json");
}

#[test]
fn layout_names_are_listed_in_order() {
    let stems = vec![
        "live".to_string(),
        "Studio".to_string(),
        "alpha".to_string(),
        "live".to_string(),
        "".to_string(),
        "ab".to_string(),
    ];
    assert_eq!(
        sorted_layout_names(stems),
        vec!["", "Studio", "ab", "alpha", "live", "live"]
    );
    assert!(sorted_layout_names(Vec::new()).is_empty());
}

#[test]
fn user_bindings_win_over_the_factory_preset() {
    let factory: HashMap<u8, u32> = [(1, 10), (7, 70), (74, 740)].into_iter().collect();
    let user: HashMap<u8, u32> = [(7, 71), (11, 110)].into_iter().collect();
    let merged = merge_device_layers(&factory, &user);
    let expected: HashMap<u8, u32> = [(1, 10), (7, 71), (74, 740), (11, 110)].into_iter().collect();
    assert_eq!(merged, expected);
    assert_eq!(merge_device_layers(&factory, &HashMap::new()), factory);
}

#[test]
fn only_json_files_are_layouts() {
    assert_eq!(layout_name_of_file("Live Set.json"), Some("Live Set".to_string()));
    assert_eq!(layout_name_of_file("a.b.json"), Some("a.b".to_string()));
    assert_eq!(layout_name_of_file("..json"), Some(".".to_string()));
    assert_eq!(layout_name_of_file(".json"), None);
    assert_eq!(layout_name_of_file("notes.txt"), None);
    assert_eq!(layout_name_of_file("set.JSON"), None);
    assert_eq!(layout_name_of_file("json"), None);
}

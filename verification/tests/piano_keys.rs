use forma::piano::{count_white_keys_in, is_white_key, KeyPalette, KeyVisualState, PianoConfig, PianoSize};
use forma::theme::{
    default_key_black_default, default_key_black_range, default_key_label, default_key_scale_in,
    default_key_scale_in_dark, default_key_scale_root, default_key_scale_root_dark,
    default_key_stroke, default_key_white_default, default_key_white_range,
};

fn palette() -> KeyPalette {
    KeyPalette {
        key_white_pressed: [100, 180, 255],
        key_black_pressed: [60, 120, 200],
        key_white_default: default_key_white_default(),
        key_black_default: default_key_black_default(),
        key_white_range: default_key_white_range(),
        key_black_range: default_key_black_range(),
        key_scale_root: default_key_scale_root(),
        key_scale_root_dark: default_key_scale_root_dark(),
        key_scale_in: default_key_scale_in(),
        key_scale_in_dark: default_key_scale_in_dark(),
        key_stroke: default_key_stroke(),
        key_label: default_key_label(),
    }
}

#[test]
fn white_keys_of_an_octave() {
    let whites: Vec<u8> = (60u8..72).filter(|&m| is_white_key(m)).collect();
    assert_eq!(whites, vec![60, 62, 64, 65, 67, 69, 71]);
    assert!(!is_white_key(61));
    assert!(is_white_key(0));
    assert!(is_white_key(127));
}

#[test]
fn white_key_counts() {
    // 88-key piano: A0 (21) to C8 (108) has 52 white keys.
    assert_eq!(count_white_keys_in(21, 108), 52);
    assert_eq!(count_white_keys_in(60, 71), 7);
    assert_eq!(count_white_keys_in(61, 72), 7);
    assert_eq!(count_white_keys_in(60, 60), 1);
    assert_eq!(count_white_keys_in(61, 61), 0);
    assert_eq!(count_white_keys_in(10, 5), 0);
    assert_eq!(count_white_keys_in(0, 255), 149);
}

#[test]
fn any_twelve_keys_hold_seven_white_keys() {
    for first in 0u8..=243 {
        assert_eq!(count_white_keys_in(first, first + 11), 7);
    }
}

#[test]
fn key_fill_priorities() {
    let p = palette();
    let plain = KeyVisualState::default();
    assert_eq!(plain.white_fill(&p), [245, 245, 245]);
    assert_eq!(plain.black_fill(&p), [25, 25, 25]);
    let everything = KeyVisualState { pressed: true, in_kb_range: true, is_scale_root: true, in_scale: true };
    assert_eq!(everything.white_fill(&p), [100, 180, 255]);
    assert_eq!(everything.black_fill(&p), [60, 120, 200]);
    let root = KeyVisualState { pressed: false, in_kb_range: true, is_scale_root: true, in_scale: true };
    assert_eq!(root.white_fill(&p), [255, 210, 80]);
    assert_eq!(root.black_fill(&p), [120, 80, 10]);
    let in_scale = KeyVisualState { pressed: false, in_kb_range: true, is_scale_root: false, in_scale: true };
    assert_eq!(in_scale.white_fill(&p), [200, 240, 210]);
    assert_eq!(in_scale.black_fill(&p), [30, 70, 40]);
    let range = KeyVisualState { pressed: false, in_kb_range: true, is_scale_root: false, in_scale: false };
    assert_eq!(range.white_fill(&p), [230, 240, 245]);
    assert_eq!(range.black_fill(&p), [40, 40, 50]);
}

#[test]
fn key_token_defaults() {
    assert_eq!(default_key_white_default(), [245, 245, 245]);
    assert_eq!(default_key_black_default(), [25, 25, 25]);
    assert_eq!(default_key_white_range(), [230, 240, 245]);
    assert_eq!(default_key_black_range(), [40, 40, 50]);
    assert_eq!(default_key_scale_root(), [255, 210, 80]);
    assert_eq!(default_key_scale_root_dark(), [120, 80, 10]);
    assert_eq!(default_key_scale_in(), [200, 240, 210]);
    assert_eq!(default_key_scale_in_dark(), [30, 70, 40]);
    assert_eq!(default_key_stroke(), [180, 180, 180]);
    assert_eq!(default_key_label(), [140, 140, 140]);
}

#[test]
fn piano_config_is_plain_data() {
    let cfg = PianoConfig {
        first_midi: 21,
        last_midi: 108,
        size: PianoSize::Full,
        interactive: true,
        show_labels: true,
        range_bar: Some((60, 72)),
    };
    let copy = cfg;
    assert_eq!(copy, cfg);
    assert_eq!(count_white_keys_in(cfg.first_midi, cfg.last_midi), 52);
}

#[test]
fn key_defaults_are_midnights_colors() {
    let m = forma::theme::midnight_keys();
    assert_eq!(m.key_white_pressed, [100, 180, 255]);
    assert_eq!(m.key_black_pressed, [60, 120, 200]);
    assert_eq!(default_key_white_default(), m.key_white_default);
    assert_eq!(default_key_black_default(), m.key_black_default);
    assert_eq!(default_key_white_range(), m.key_white_range);
    assert_eq!(default_key_black_range(), m.key_black_range);
    assert_eq!(default_key_scale_root(), m.key_scale_root);
    assert_eq!(default_key_scale_root_dark(), m.key_scale_root_dark);
    assert_eq!(default_key_scale_in(), m.key_scale_in);
    assert_eq!(default_key_scale_in_dark(), m.key_scale_in_dark);
    assert_eq!(default_key_stroke(), m.key_stroke);
    assert_eq!(default_key_label(), m.key_label);
    assert_eq!(default_key_white_default(), [245, 245, 245]);
}

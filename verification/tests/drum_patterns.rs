use forma::drum_machine::{
    euclidean_pattern, factory_kit_steps, FACTORY_KIT_NAMES, DrumGrid, CHANNEL_COUNT, CHANNEL_NAMES, PATTERN_COUNT, PATTERN_NAMES, STEP_COUNT,
};

fn hits_of(p: [bool; 16]) -> Vec<usize> {
    (0..16).filter(|&i| p[i]).collect()
}

#[test]
fn euclid_four_on_sixteen() {
    assert_eq!(hits_of(euclidean_pattern(4, 16, 0)), vec![0, 4, 8, 12]);
}

#[test]
fn euclid_three_on_eight_and_rotation() {
    assert_eq!(hits_of(euclidean_pattern(3, 8, 0)), vec![0, 3, 6]);
    assert_eq!(hits_of(euclidean_pattern(3, 8, 2)), vec![0, 2, 5]);
    assert_eq!(hits_of(euclidean_pattern(3, 8, 10)), vec![0, 2, 5]);
    assert_eq!(hits_of(euclidean_pattern(5, 8, 0)), vec![0, 2, 4, 5, 7]);
}

#[test]
fn euclid_degenerate_inputs() {
    assert!(hits_of(euclidean_pattern(0, 8, 0)).is_empty());
    assert!(hits_of(euclidean_pattern(3, 0, 0)).is_empty());
    // more hits than steps: every step of the lane is a hit
    assert_eq!(hits_of(euclidean_pattern(5, 3, 0)), vec![0, 1, 2]);
    // both clamped to the sixteen steps of a lane
    assert_eq!(hits_of(euclidean_pattern(20, 32, 0)).len(), 16);
    assert_eq!(hits_of(euclidean_pattern(7, 40, 3)).len(), 7);
}

#[test]
fn euclid_hit_count_matches_request() {
    for steps in 1..=20usize {
        for hits in 1..=20usize {
            for offset in 0..20usize {
                let p = euclidean_pattern(hits, steps, offset);
                let expect = hits.min(steps).min(16);
                assert_eq!(hits_of(p).len(), expect);
                assert!(hits_of(p).iter().all(|&i| i < steps.min(16)));
            }
        }
    }
}

#[test]
fn constants() {
    assert_eq!(STEP_COUNT, 16);
    assert_eq!(CHANNEL_COUNT, 8);
    assert_eq!(PATTERN_COUNT, 4);
    assert_eq!(CHANNEL_NAMES[0], "KICK");
    assert_eq!(CHANNEL_NAMES[7], "NOISE");
    assert_eq!(PATTERN_NAMES, ["A", "B", "C", "D"]);
}

#[test]
fn default_grid_has_basic_beat() {
    let g = DrumGrid::default();
    assert_eq!(hits_of(g.patterns[0][0]), vec![0, 4, 8, 12]);
    assert_eq!(hits_of(g.patterns[0][1]), vec![4, 12]);
    assert_eq!(hits_of(g.patterns[0][2]), vec![0, 2, 4, 6, 8, 10, 12, 14]);
    assert!(hits_of(g.patterns[0][3]).is_empty());
    assert!(hits_of(g.patterns[1][0]).is_empty());
    assert_eq!(g.step_vel[3][7][15], 100);
    assert_eq!(g.euclid_hits, [4; 8]);
    assert_eq!(g.euclid_steps, [16; 8]);
    assert_eq!(g.active_pattern, 0);
    assert!(!g.enabled);
}

#[test]
fn toggle_and_reverse_undo_themselves() {
    let g = DrumGrid::default();
    let mut h = g;
    h.toggle_step(3, 5);
    assert!(h.patterns[0][3][5]);
    h.toggle_step(3, 5);
    assert_eq!(h, g);
    h.step_vel[0][1][4] = 7;
    let before = h;
    h.reverse_lane(1);
    assert_eq!(hits_of(h.patterns[0][1]), vec![3, 11]);
    assert_eq!(h.step_vel[0][1][11], 7);
    h.reverse_lane(1);
    assert_eq!(h, before);
}

#[test]
fn copy_clear_paste() {
    let mut g = DrumGrid::default();
    let original = g.patterns[0];
    g.copy_pattern();
    g.clear_pattern();
    assert!(g.patterns[0].iter().all(|lane| lane.iter().all(|&s| !s)));
    g.paste_pattern();
    assert_eq!(g.patterns[0], original);
    // paste into another slot
    g.select_pattern(2);
    g.paste_pattern();
    assert_eq!(g.patterns[2], original);
    // empty clipboard: paste does nothing
    let mut e = DrumGrid::default();
    e.select_pattern(1);
    let before = e;
    e.paste_pattern();
    assert_eq!(e, before);
}

#[test]
fn mute_and_solo() {
    let mut g = DrumGrid::default();
    assert!(!g.effectively_muted(0));
    g.toggle_mute(0);
    assert!(g.effectively_muted(0));
    g.toggle_solo(2);
    assert!(g.effectively_muted(1));
    assert!(!g.effectively_muted(2));
    g.toggle_mute(2);
    assert!(g.effectively_muted(2));
    g.toggle_solo(2);
    assert!(!g.effectively_muted(1));
}

#[test]
fn euclid_settings_and_apply() {
    let mut g = DrumGrid::default();
    g.set_euclid_hits(4, 10);
    g.set_euclid_steps(4, 8);
    assert_eq!(g.euclid_hits[4], 8);
    g.set_euclid_hits(4, 3);
    g.set_euclid_offset(4, 2);
    g.toggle_euclid(4);
    g.apply_euclid();
    assert_eq!(hits_of(g.patterns[0][4]), vec![0, 2, 5]);
    // lanes with the generator off keep their steps
    assert_eq!(hits_of(g.patterns[0][0]), vec![0, 4, 8, 12]);
}

fn lcg_reference(nanos: u32, ch: u32) -> [bool; 16] {
    let mut rng = nanos.wrapping_add(ch.wrapping_mul(2891336453));
    let mut out = [false; 16];
    for s in 0..16 {
        rng = rng.wrapping_mul(1_664_525).wrapping_add(1_013_904_223);
        out[s] = (rng >> 31) != 0;
    }
    out
}

#[test]
fn randomize_lane_is_the_seeded_generator() {
    let mut g = DrumGrid::default();
    g.randomize_lane(5, 12345);
    assert_eq!(g.patterns[0][5], lcg_reference(12345, 5));
    g.randomize_lane(0, u32::MAX);
    assert_eq!(g.patterns[0][0], lcg_reference(u32::MAX, 0));
    // pattern B untouched
    assert!(hits_of(g.patterns[1][5]).is_empty());
}

#[test]
fn voice_editor_and_kits() {
    let mut g = DrumGrid::default();
    g.toggle_voice_editor(3);
    assert_eq!(g.expanded_channel, Some(3));
    g.toggle_voice_editor(4);
    assert_eq!(g.expanded_channel, Some(4));
    g.toggle_voice_editor(4);
    assert_eq!(g.expanded_channel, None);
    g.toggle_voice_editor(1);
    g.close_voice_editor();
    assert_eq!(g.expanded_channel, None);
    g.select_pattern(3);
    let pats = [[[true; 16]; 8]; 4];
    let vels = [[[64u8; 16]; 8]; 4];
    g.apply_kit_steps(pats, vels);
    assert_eq!(g.active_pattern, 0);
    assert_eq!(g.patterns, pats);
    assert_eq!(g.step_vel, vels);
}

#[test]
fn factory_kits_fill_pattern_a_only() {
    assert_eq!(FACTORY_KIT_NAMES, ["Four-on-Floor", "Breakbeat", "Minimal"]);
    let fresh = DrumGrid::default();
    let (four, vel) = factory_kit_steps(0);
    assert_eq!(four, fresh.patterns);
    assert!(vel.iter().flatten().flatten().all(|&v| v == 100));
    let (bb, _) = factory_kit_steps(1);
    let kicks: Vec<usize> = (0..16).filter(|&s| bb[0][0][s]).collect();
    assert_eq!(kicks, vec![0, 6, 9, 14]);
    let snares: Vec<usize> = (0..16).filter(|&s| bb[0][1][s]).collect();
    assert_eq!(snares, vec![4, 12, 14]);
    assert!(bb[0][2].iter().all(|&x| x));
    let claps: Vec<usize> = (0..16).filter(|&s| bb[0][3][s]).collect();
    assert_eq!(claps, vec![4, 12]);
    let (min, _) = factory_kit_steps(2);
    let hats: Vec<usize> = (0..16).filter(|&s| min[0][2][s]).collect();
    assert_eq!(hats, vec![2, 6, 10, 14]);
    let kicks: Vec<usize> = (0..16).filter(|&s| min[0][0][s]).collect();
    assert_eq!(kicks, vec![0, 8]);
    for kit in 0..3 {
        let (p, _) = factory_kit_steps(kit);
        for pat in 1..4 {
            assert!(p[pat].iter().flatten().all(|&x| !x));
        }
        for ch in 4..8 {
            assert!(p[0][ch].iter().all(|&x| !x));
        }
    }
}

#[test]
fn saved_kit_applied_back_restores_the_grid() {
    let mut g = DrumGrid::default();
    g.toggle_step(5, 3);
    g.select_pattern(2);
    g.toggle_step(1, 1);
    let (patterns, vel) = g.kit_steps();
    let mut other = DrumGrid::default();
    other.select_pattern(3);
    other.apply_kit_steps(patterns, vel);
    assert_eq!(other.patterns, g.patterns);
    assert_eq!(other.step_vel, g.step_vel);
    assert_eq!(other.active_pattern, 0);
}

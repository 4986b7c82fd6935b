use forma::chord_pad::{parse_quality, ChordPadState, ChordQuality};
use forma::design::{Category, Group, NoteSeqStepEvents};
use forma::dock::Tab;
use forma::eq::{band_short_label, BandType};
use forma::layout::{
    builtin_presets, preset_performance, preset_sequencer, preset_sound_design, AppMode, StudioTab,
};
use forma::unison::{unison_plan, UnisonVoice, UNISON_VOICES};

#[test]
fn chord_quality_suffixes() {
    assert_eq!(parse_quality(""), ChordQuality::Major);
    assert_eq!(parse_quality("m"), ChordQuality::Minor);
    assert_eq!(parse_quality("°"), ChordQuality::Diminished);
    assert_eq!(parse_quality("x"), ChordQuality::Major);
    assert_eq!(parse_quality("mm"), ChordQuality::Major);
    let state = ChordPadState {
        quality: parse_quality("m"),
        chord_name: "Am",
        degree: "vi",
        key_hint: "H",
        held: false,
        editing: false,
    };
    assert_eq!(state.quality, ChordQuality::Minor);
}

#[test]
fn tab_titles() {
    assert_eq!(Tab::Filter.title(), "Filter & Envelopes");
    assert_eq!(Tab::Scope.title(), "Oscilloscope");
    assert_eq!(Tab::Midi.title(), "MIDI & Latency");
    assert_eq!(Tab::ALL.len(), 10);
    let titles: Vec<&str> = Tab::ALL.iter().map(|t| t.title()).collect();
    for (i, a) in titles.iter().enumerate() {
        for b in &titles[i + 1..] {
            assert_ne!(a, b);
        }
    }
}

#[test]
fn studio_tabs() {
    assert_eq!(StudioTab::default(), StudioTab::Voice);
    assert_eq!(AppMode::default(), AppMode::Studio);
    let labels: Vec<&str> = StudioTab::ALL.iter().map(|t| t.label()).collect();
    assert_eq!(labels, vec!["VOICE", "SHAPE", "FX", "SEQ", "SETTINGS"]);
}

#[test]
fn gallery_and_editor_labels() {
    let cats: Vec<&str> = Category::ALL.iter().map(|c| c.label()).collect();
    assert_eq!(cats, vec!["Tokens", "Components", "Patterns", "Layouts", "Frames", "Examples"]);
    assert_eq!(Group::ALL.len(), 11);
    assert_eq!(Group::FxColors.label(), "FX Colors");
    assert_eq!(Group::PianoKeys.label(), "Piano Keys");
    assert_eq!(Group::Adsr.label(), "ADSR");
    let ev = NoteSeqStepEvents::default();
    assert!(!ev.pad_clicked && !ev.changed);
}

#[test]
fn eq_band_labels() {
    assert_eq!(band_short_label(0, &BandType::LowShelf), "L");
    assert_eq!(band_short_label(7, &BandType::HighShelf), "H");
    assert_eq!(band_short_label(1, &BandType::Peak), "1");
    assert_eq!(band_short_label(5, &BandType::Peak), "5");
    assert_eq!(band_short_label(6, &BandType::Peak), "6");
    assert_eq!(band_short_label(0, &BandType::Peak), "6");
}

#[test]
fn layout_presets() {
    let sd = preset_sound_design();
    assert_eq!(sd.name, "Sound Design");
    assert!(sd.panels.oscillators && sd.panels.midi && sd.panels.scope);
    let perf = preset_performance();
    assert_eq!(perf.description, "Keyboard + FX + Scope for live playing.");
    assert!(perf.panels.keyboard && perf.panels.fx_chain && perf.panels.scope);
    assert!(!perf.panels.oscillators && !perf.panels.sequencer && !perf.panels.midi);
    let seq = preset_sequencer();
    assert!(seq.panels.sequencer && seq.panels.arp_walker && seq.panels.scope && seq.panels.keyboard);
    assert!(!seq.panels.fx_chain);
    let all = builtin_presets();
    let names: Vec<&str> = all.iter().map(|p| p.name).collect();
    assert_eq!(names, vec!["Sound Design", "Performance", "Sequencer"]);
    assert!(all.iter().all(|p| p.panels.keyboard && p.panels.scope));
}

#[test]
fn unison_plans() {
    assert_eq!(UNISON_VOICES, 5);
    let off = unison_plan(false, 4);
    assert_eq!(off, vec![UnisonVoice::Solo, UnisonVoice::Silent, UnisonVoice::Silent, UnisonVoice::Silent, UnisonVoice::Silent]);
    assert_eq!(unison_plan(true, 1), off);
    assert_eq!(unison_plan(true, 0), off);
    let three = unison_plan(true, 3);
    assert_eq!(
        three,
        vec![
            UnisonVoice::Spread { index: 0, count: 3 },
            UnisonVoice::Spread { index: 1, count: 3 },
            UnisonVoice::Spread { index: 2, count: 3 },
            UnisonVoice::Silent,
            UnisonVoice::Silent,
        ]
    );
    let many = unison_plan(true, 9);
    assert!(many.iter().enumerate().all(|(i, v)| *v == UnisonVoice::Spread { index: i, count: 9 }));
}

#[test]
fn builtin_presets_are_the_three_presets() {
    let v = forma::layout::builtin_presets();
    let expected = [
        forma::layout::preset_sound_design(),
        forma::layout::preset_performance(),
        forma::layout::preset_sequencer(),
    ];
    assert_eq!(v.len(), 3);
    for (a, b) in v.iter().zip(expected.iter()) {
        assert_eq!(a.name, b.name);
        assert_eq!(a.description, b.description);
        assert_eq!(a.panels, b.panels);
    }
    assert_eq!(v[1].description, "Keyboard + FX + Scope for live playing.");
}

//! Application mode, studio tabs and the legacy panel-visibility presets.

use vstd::prelude::*;

verus! {

/// Top-level application mode — same patch data, three UI surfaces.
#[derive(Clone, Copy, Debug, PartialEq, Eq, Structural, Default)]
pub enum AppMode {
    #[default]
    Studio,
    DrumMachine,
    Live,
}

impl AppMode {
    /// Mode after a track is picked in the rig strip: the Studio view gives
    /// way to Live so the strip stays in sight; other modes stay.
    pub fn after_track_click(self) -> (m: AppMode)
        ensures
            m == if self == AppMode::Studio { AppMode::Live } else { self },
    {
        match self {
            AppMode::Studio => AppMode::Live,
            other => other,
        }
    }

    /// Mode after a track is picked with F1–F4: Live, from any mode.
    pub fn after_track_key(self) -> (m: AppMode)
        ensures
            m == AppMode::Live,
    {
        match self {
            AppMode::DrumMachine | AppMode::Studio => AppMode::Live,
            AppMode::Live => AppMode::Live,
        }
    }
}

/// Active tab in the Studio central editing area.
#[derive(Clone, Copy, Debug, PartialEq, Eq, Structural, Default)]
pub enum StudioTab {
    #[default]
    Voice,
    Shape,
    Fx,
    Sequencer,
    Settings,
}

impl StudioTab {
    pub const ALL: [StudioTab; 5] = [
        StudioTab::Voice,
        StudioTab::Shape,
        StudioTab::Fx,
        StudioTab::Sequencer,
        StudioTab::Settings,
    ];

    /// Upper-case tab caption.
    pub open spec fn label_spec(self) -> Seq<char> {
        match self {
            StudioTab::Voice => "VOICE"@,
            StudioTab::Shape => "SHAPE"@,
            StudioTab::Fx => "FX"@,
            StudioTab::Sequencer => "SEQ"@,
            StudioTab::Settings => "SETTINGS"@,
        }
    }

    /// Upper-case tab caption.
    pub fn label(self) -> (r: &'static str)
        ensures
            r@ == self.label_spec(),
    {
        match self {
            StudioTab::Voice => "VOICE",
            StudioTab::Shape => "SHAPE",
            StudioTab::Fx => "FX",
            StudioTab::Sequencer => "SEQ",
            StudioTab::Settings => "SETTINGS",
        }
    }
}

/// Which of the dockable panel groups are shown.
#[derive(Clone, Copy, Debug, PartialEq, Eq, Structural)]
pub struct PanelVisibilityState {
    pub oscillators: bool,
    pub modulation: bool,
    pub keyboard: bool,
    pub sequencer: bool,
    pub arp_walker: bool,
    pub fx_chain: bool,
    pub scope: bool,
    pub midi: bool,
}

/// A named panel-visibility preset.
pub struct LayoutPreset {
    pub name: &'static str,
    pub description: &'static str,
    pub panels: PanelVisibilityState,
}

/// Every panel visible.
pub open spec fn sound_design_panels() -> PanelVisibilityState {
    PanelVisibilityState {
        oscillators: true,
        modulation: true,
        keyboard: true,
        sequencer: true,
        arp_walker: true,
        fx_chain: true,
        scope: true,
        midi: true,
    }
}

/// Keyboard, FX chain and scope.
pub open spec fn performance_panels() -> PanelVisibilityState {
    PanelVisibilityState {
        oscillators: false,
        modulation: false,
        keyboard: true,
        sequencer: false,
        arp_walker: false,
        fx_chain: true,
        scope: true,
        midi: false,
    }
}

/// Keyboard, sequencer, arp/walker and scope.
pub open spec fn sequencer_panels() -> PanelVisibilityState {
    PanelVisibilityState {
        oscillators: false,
        modulation: false,
        keyboard: true,
        sequencer: true,
        arp_walker: true,
        fx_chain: false,
        scope: true,
        midi: false,
    }
}

/// "Sound Design": all panels visible for patch creation.
pub fn preset_sound_design() -> (p: LayoutPreset)
    ensures
        p.name@ == "Sound Design"@,
        p.description@ == "All panels visible for patch creation."@,
        p.panels == sound_design_panels(),
{
    LayoutPreset {
        name: "Sound Design",
        description: "All panels visible for patch creation.",
        panels: PanelVisibilityState {
            oscillators: true,
            modulation: true,
            keyboard: true,
            sequencer: true,
            arp_walker: true,
            fx_chain: true,
            scope: true,
            midi: true,
        },
    }
}

/// "Performance": keyboard, FX and scope for live playing.
pub fn preset_performance() -> (p: LayoutPreset)
    ensures
        p.name@ == "Performance"@,
        p.description@ == "Keyboard + FX + Scope for live playing."@,
        p.panels == performance_panels(),
{
    LayoutPreset {
        name: "Performance",
        description: "Keyboard + FX + Scope for live playing.",
        panels: PanelVisibilityState {
            oscillators: false,
            modulation: false,
            keyboard: true,
            sequencer: false,
            arp_walker: false,
            fx_chain: true,
            scope: true,
            midi: false,
        },
    }
}

/// "Sequencer": sequencer, arp/walker and scope for pattern work.
pub fn preset_sequencer() -> (p: LayoutPreset)
    ensures
        p.name@ == "Sequencer"@,
        p.description@ == "Sequencer + Arp/Walker + Scope for pattern work."@,
        p.panels == sequencer_panels(),
{
    LayoutPreset {
        name: "Sequencer",
        description: "Sequencer + Arp/Walker + Scope for pattern work.",
        panels: PanelVisibilityState {
            oscillators: false,
            modulation: false,
            keyboard: true,
            sequencer: true,
            arp_walker: true,
            fx_chain: false,
            scope: true,
            midi: false,
        },
    }
}

/// The three built-in presets, in menu order.
pub fn builtin_presets() -> (v: Vec<LayoutPreset>)
    ensures
        v.len() == 3,
        v[0].name@ == "Sound Design"@,
        v[0].description@ == "All panels visible for patch creation."@,
        v[0].panels == sound_design_panels(),
        v[1].name@ == "Performance"@,
        v[1].description@ == "Keyboard + FX + Scope for live playing."@,
        v[1].panels == performance_panels(),
        v[2].name@ == "Sequencer"@,
        v[2].description@ == "Sequencer + Arp/Walker + Scope for pattern work."@,
        v[2].panels == sequencer_panels(),
{
    let mut v: Vec<LayoutPreset> = Vec::new();
    v.push(preset_sound_design());
    v.push(preset_performance());
    v.push(preset_sequencer());
    v
}

} // verus!

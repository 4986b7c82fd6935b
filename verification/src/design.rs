//! Design-system enums: component tiers and size / orientation variants,
//! plus the category lists of the gallery and the theme editor.

use vstd::prelude::*;

verus! {

/// Musical-importance tier. Drives knob arc color, stroke width, and the
/// arc-color token selection on every interactive component.
#[derive(Clone, Copy, Debug, PartialEq, Eq, Structural)]
pub enum Tier {
    /// Performance controls — touched while music plays.
    Primary,
    /// Sound-design controls — adjusted between notes.
    Secondary,
    /// Configuration — set once per session/patch.
    Tertiary,
}

/// Knob size variant: 64 × 88 px (Large), 44 × 64 px (Standard) or
/// 32 × 48 px (Small) allocated rect.
#[derive(Clone, Copy, Debug, PartialEq, Eq, Structural)]
pub enum KnobSize {
    Large,
    Standard,
    Small,
}

/// Slide direction of a fader.
#[derive(Clone, Copy, Debug, PartialEq, Eq, Structural)]
pub enum FaderOrientation {
    Vertical,
    Horizontal,
}

/// Fader size: 120 px (Large), 80 px (Standard) or 48 px (Small) track.
#[derive(Clone, Copy, Debug, PartialEq, Eq, Structural)]
pub enum FaderSize {
    Large,
    Standard,
    Small,
}

/// Direction a level meter grows in.
#[derive(Clone, Copy, Debug, PartialEq, Eq, Structural)]
pub enum LevelMeterOrientation {
    Vertical,
    Horizontal,
}

/// Level meter length, paired with the fader sizes.
#[derive(Clone, Copy, Debug, PartialEq, Eq, Structural)]
pub enum LevelMeterSize {
    Large,
    Standard,
    Small,
}

/// Direction a mini bar grows in.
#[derive(Clone, Copy, Debug, PartialEq, Eq, Structural)]
pub enum MiniBarOrientation {
    /// Bar grows left→right.
    Horizontal,
    /// Bar grows bottom→top.
    Vertical,
}

/// Pad size. Drum machine uses Drum (26 × 24 px); note sequencer uses Note (20 × 20 px).
#[derive(Clone, Copy, Debug, PartialEq, Eq, Structural)]
pub enum StepPadSize {
    Drum,
    Note,
}

/// Rendered size class of a toggle button.
#[derive(Clone, Copy, Debug, PartialEq, Eq, Structural)]
pub enum ToggleSize {
    Large,
    Standard,
    Small,
}

/// What the user did on a note-sequencer step this frame.
#[derive(Clone, Copy, Debug, Default, PartialEq, Eq, Structural)]
pub struct NoteSeqStepEvents {
    /// User clicked the on/off pad.
    pub pad_clicked: bool,
    /// One of the step's bars changed a value this frame.
    pub changed: bool,
}

/// Sections of the design-system gallery.
#[derive(Clone, Copy, Debug, PartialEq, Eq, Structural)]
pub enum Category {
    Tokens,
    Components,
    Patterns,
    Layouts,
    Frames,
    Examples,
}

impl Category {
    pub const ALL: [Category; 6] = [
        Category::Tokens,
        Category::Components,
        Category::Patterns,
        Category::Layouts,
        Category::Frames,
        Category::Examples,
    ];

    /// Sidebar caption of the section.
    pub open spec fn label_spec(self) -> Seq<char> {
        match self {
            Category::Tokens => "Tokens"@,
            Category::Components => "Components"@,
            Category::Patterns => "Patterns"@,
            Category::Layouts => "Layouts"@,
            Category::Frames => "Frames"@,
            Category::Examples => "Examples"@,
        }
    }

    /// Sidebar caption of the section.
    pub fn label(self) -> (r: &'static str)
        ensures
            r@ == self.label_spec(),
    {
        match self {
            Category::Tokens => "Tokens",
            Category::Components => "Components",
            Category::Patterns => "Patterns",
            Category::Layouts => "Layouts",
            Category::Frames => "Frames",
            Category::Examples => "Examples",
        }
    }
}

/// Token groups of the theme editor.
#[derive(Clone, Copy, Debug, PartialEq, Eq, Structural)]
pub enum Group {
    Surfaces,
    Text,
    Accent,
    FxColors,
    Sequencer,
    PianoKeys,
    Scope,
    Meters,
    Adsr,
    Status,
    Geometry,
}

impl Group {
    pub const ALL: [Group; 11] = [
        Group::Surfaces,
        Group::Text,
        Group::Accent,
        Group::FxColors,
        Group::Sequencer,
        Group::PianoKeys,
        Group::Scope,
        Group::Meters,
        Group::Adsr,
        Group::Status,
        Group::Geometry,
    ];

    /// Heading of the group in the editor.
    pub open spec fn label_spec(self) -> Seq<char> {
        match self {
            Group::Surfaces => "Surfaces"@,
            Group::Text => "Text"@,
            Group::Accent => "Accent"@,
            Group::FxColors => "FX Colors"@,
            Group::Sequencer => "Sequencer"@,
            Group::PianoKeys => "Piano Keys"@,
            Group::Scope => "Scope"@,
            Group::Meters => "Meters"@,
            Group::Adsr => "ADSR"@,
            Group::Status => "Status"@,
            Group::Geometry => "Geometry"@,
        }
    }

    /// Heading of the group in the editor.
    pub fn label(self) -> (r: &'static str)
        ensures
            r@ == self.label_spec(),
    {
        match self {
            Group::Surfaces => "Surfaces",
            Group::Text => "Text",
            Group::Accent => "Accent",
            Group::FxColors => "FX Colors",
            Group::Sequencer => "Sequencer",
            Group::PianoKeys => "Piano Keys",
            Group::Scope => "Scope",
            Group::Meters => "Meters",
            Group::Adsr => "ADSR",
            Group::Status => "Status",
            Group::Geometry => "Geometry",
        }
    }
}

} // verus!

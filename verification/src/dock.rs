//! The dockable panels of the studio view.

use vstd::prelude::*;

verus! {

/// Each dockable panel.
#[derive(Debug, Clone, Copy, PartialEq, Eq, Hash, Structural)]
pub enum Tab {
    Oscillators,
    Mixer,
    Modulation,
    Filter,
    Sequencer,
    ArpWalker,
    FxChain,
    Equalizer,
    Scope,
    Midi,
}

impl Tab {
    /// Title shown on the panel's tab.
    pub open spec fn title_spec(self) -> Seq<char> {
        match self {
            Tab::Oscillators => "Oscillators"@,
            Tab::Mixer => "Mixer"@,
            Tab::Modulation => "Modulation"@,
            Tab::Filter => "Filter & Envelopes"@,
            Tab::Sequencer => "Sequencer"@,
            Tab::ArpWalker => "Arp & Walker"@,
            Tab::FxChain => "FX Chain"@,
            Tab::Equalizer => "Equalizer"@,
            Tab::Scope => "Oscilloscope"@,
            Tab::Midi => "MIDI & Latency"@,
        }
    }

    /// Title shown on the panel's tab.
    pub fn title(self) -> (r: &'static str)
        ensures
            r@ == self.title_spec(),
    {
        match self {
            Tab::Oscillators => "Oscillators",
            Tab::Mixer => "Mixer",
            Tab::Modulation => "Modulation",
            Tab::Filter => "Filter & Envelopes",
            Tab::Sequencer => "Sequencer",
            Tab::ArpWalker => "Arp & Walker",
            Tab::FxChain => "FX Chain",
            Tab::Equalizer => "Equalizer",
            Tab::Scope => "Oscilloscope",
            Tab::Midi => "MIDI & Latency",
        }
    }

    pub const ALL: [Tab; 10] = [
        Tab::Oscillators,
        Tab::Mixer,
        Tab::Modulation,
        Tab::Filter,
        Tab::Sequencer,
        Tab::ArpWalker,
        Tab::FxChain,
        Tab::Equalizer,
        Tab::Scope,
        Tab::Midi,
    ];
}

} // verus!

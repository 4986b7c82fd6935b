//! Chord pad model: chord quality and the per-pad visual state.

use vstd::prelude::*;

verus! {

/// Chord quality — drives the pad's border and fill color.
#[derive(Clone, Copy, Debug, PartialEq, Eq, Structural)]
pub enum ChordQuality {
    Major,
    Minor,
    Diminished,
}

/// Visual state borrowed for a single render call.
pub struct ChordPadState<'a> {
    pub quality: ChordQuality,
    pub chord_name: &'a str,
    pub degree: &'a str,
    pub key_hint: &'a str,
    pub held: bool,
    pub editing: bool,
}

/// The quality that a chord-quality suffix stands for.
pub open spec fn quality_of_suffix(s: Seq<char>) -> ChordQuality {
    if s == seq!['m'] {
        ChordQuality::Minor
    } else if s == seq!['\u{00B0}'] {
        ChordQuality::Diminished
    } else {
        ChordQuality::Major
    }
}

/// Map the suffix returned by `chord_quality()` to a `ChordQuality`.
/// `""` → Major · `"m"` → Minor · `"°"` → Diminished; anything else → Major.
pub fn parse_quality(s: &str) -> (q: ChordQuality)
    ensures
        q == quality_of_suffix(s@),
{
    if s.unicode_len() == 1 {
        let c = s.get_char(0);
        if c == 'm' {
            assert(s@ =~= seq!['m']);
            ChordQuality::Minor
        } else if c == '\u{00B0}' {
            assert(s@ =~= seq!['\u{00B0}']);
            ChordQuality::Diminished
        } else {
            assert(s@ != seq!['m'] && s@ != seq!['\u{00B0}']) by {
                if s@ == seq!['m'] {
                    assert(s@[0] == 'm');
                }
                if s@ == seq!['\u{00B0}'] {
                    assert(s@[0] == '\u{00B0}');
                }
            }
            ChordQuality::Major
        }
    } else {
        ChordQuality::Major
    }
}

} // verus!

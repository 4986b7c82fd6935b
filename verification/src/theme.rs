//! Theme token defaults for the piano key colors, used when a saved theme
//! predates these tokens: each is the Midnight theme's color for the token.

use vstd::prelude::*;
use crate::piano::KeyPalette;

verus! {

/// The key colors of the Midnight theme.
pub open spec fn midnight_keys_spec() -> KeyPalette {
    KeyPalette {
        key_white_pressed: [100u8, 180, 255],
        key_black_pressed: [60u8, 120, 200],
        key_white_default: [245u8, 245, 245],
        key_black_default: [25u8, 25, 25],
        key_white_range: [230u8, 240, 245],
        key_black_range: [40u8, 40, 50],
        key_scale_root: [255u8, 210, 80],
        key_scale_root_dark: [120u8, 80, 10],
        key_scale_in: [200u8, 240, 210],
        key_scale_in_dark: [30u8, 70, 40],
        key_stroke: [180u8, 180, 180],
        key_label: [140u8, 140, 140],
    }
}

/// The key colors of the Midnight theme.
pub fn midnight_keys() -> (p: KeyPalette)
    ensures
        p == midnight_keys_spec(),
{
    KeyPalette {
        key_white_pressed: [100, 180, 255],
        key_black_pressed: [60, 120, 200],
        key_white_default: [245, 245, 245],
        key_black_default: [25, 25, 25],
        key_white_range: [230, 240, 245],
        key_black_range: [40, 40, 50],
        key_scale_root: [255, 210, 80],
        key_scale_root_dark: [120, 80, 10],
        key_scale_in: [200, 240, 210],
        key_scale_in_dark: [30, 70, 40],
        key_stroke: [180, 180, 180],
        key_label: [140, 140, 140],
    }
}

/// Default (unlit) white key fill — natural ivory.
pub fn default_key_white_default() -> (c: [u8; 3])
    ensures
        c == midnight_keys_spec().key_white_default,
{
    [245, 245, 245]
}

/// Default (unlit) black key fill — natural ebony.
pub fn default_key_black_default() -> (c: [u8; 3])
    ensures
        c == midnight_keys_spec().key_black_default,
{
    [25, 25, 25]
}

/// White key within the computer-keyboard octave range (subtle tint).
pub fn default_key_white_range() -> (c: [u8; 3])
    ensures
        c == midnight_keys_spec().key_white_range,
{
    [230, 240, 245]
}

/// Black key within the computer-keyboard octave range (subtle tint).
pub fn default_key_black_range() -> (c: [u8; 3])
    ensures
        c == midnight_keys_spec().key_black_range,
{
    [40, 40, 50]
}

/// Root note highlight on a white key.
pub fn default_key_scale_root() -> (c: [u8; 3])
    ensures
        c == midnight_keys_spec().key_scale_root,
{
    [255, 210, 80]
}

/// Root note highlight on a black key.
pub fn default_key_scale_root_dark() -> (c: [u8; 3])
    ensures
        c == midnight_keys_spec().key_scale_root_dark,
{
    [120, 80, 10]
}

/// In-scale highlight on a white key.
pub fn default_key_scale_in() -> (c: [u8; 3])
    ensures
        c == midnight_keys_spec().key_scale_in,
{
    [200, 240, 210]
}

/// In-scale highlight on a black key.
pub fn default_key_scale_in_dark() -> (c: [u8; 3])
    ensures
        c == midnight_keys_spec().key_scale_in_dark,
{
    [30, 70, 40]
}

/// White key separator / outline stroke color.
pub fn default_key_stroke() -> (c: [u8; 3])
    ensures
        c == midnight_keys_spec().key_stroke,
{
    [180, 180, 180]
}

/// Octave label text (C3, C4, …) painted on white C keys.
pub fn default_key_label() -> (c: [u8; 3])
    ensures
        c == midnight_keys_spec().key_label,
{
    [140, 140, 140]
}

} // verus!

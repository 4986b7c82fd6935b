//! Verified core of the Forma synthesizer front end: the pure decisions and
//! data that the egui panels are built on.

pub mod arp;
pub mod chars;
pub mod chord_pad;
pub mod design;
pub mod dock;
pub mod drum_machine;
pub mod eq;
pub mod keyboard;
pub mod layout;
pub mod layout_store;
pub mod midi_mapping_store;
pub mod mixer;
pub mod mod_matrix;
pub mod patch_browser;
pub mod pattern_library;
pub mod piano;
pub mod seq_controls;
pub mod theme;
pub mod unison;

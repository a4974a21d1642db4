//! Verified core of the truce audio-plugin framework: the event model, MIDI
//! codecs, sample-accurate block chunking, state serialisation, format-wrapper
//! decisions and build-time metadata rendering.
use vstd::prelude::*;

pub mod aax;
pub mod au;
pub mod au_host;
pub mod buffer;
pub mod bus;
pub mod cast;
pub mod chunked_process;
pub mod clap;
pub mod clap_gui;
pub mod clap_host;
pub mod config;
pub mod custom_state;
pub mod dsp_state;
pub mod editor;
pub mod encoding;
pub mod events;
pub mod info;
pub mod lv2;
pub mod lv2_ttl;
pub mod manifest;
pub mod midi;
pub mod name_order;
pub mod params;
pub mod preset;
pub mod preset_discovery;
pub mod preset_library;
pub mod presets;
pub mod process;
pub mod queue;
pub mod rt;
pub mod screenshot;
pub mod snapshot;
pub mod state;
pub mod tasks;
pub mod text;
pub mod wrapper;

verus! {

} // verus!

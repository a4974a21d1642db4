//! Static plugin metadata.
use crate::text::str_eq;
use vstd::prelude::*;

verus! {

/// What kind of plugin this is.
#[derive(Clone, Copy, Debug, PartialEq, Eq, Structural)]
pub enum PluginCategory {
    Effect,
    Instrument,
    /// MIDI note effect (transpose, arpeggiator and the like).
    NoteEffect,
    Analyzer,
    Tool,
}

/// The MIDI dialect that a plugin asks for on one direction.
#[derive(Clone, Copy, Debug, PartialEq, Eq, Structural)]
pub enum MidiDialect {
    Midi1,
    Midi2,
}

/// Static metadata about a plugin.
#[derive(Clone, Debug)]
pub struct PluginInfo {
    pub name: &'static str,
    pub vendor: &'static str,
    pub url: &'static str,
    pub version: &'static str,
    pub category: PluginCategory,
    /// Short identifier that does not drift with the display name.
    pub bundle_id: &'static str,
    pub vst3_id: &'static str,
    pub clap_id: &'static str,
    pub fourcc: [u8; 4],
    pub au_type: [u8; 4],
    pub au_manufacturer: [u8; 4],
    pub aax_id: Option<&'static str>,
    /// AAX plugin category string, such as `EQ` or `Reverb`.
    pub aax_category: Option<&'static str>,
    /// Display-name overrides, one per format.
    pub vst3_name: Option<&'static str>,
    pub clap_name: Option<&'static str>,
    pub vst2_name: Option<&'static str>,
    pub au_name: Option<&'static str>,
    pub au3_name: Option<&'static str>,
    pub aax_name: Option<&'static str>,
    pub lv2_name: Option<&'static str>,
    /// For preview hosts alone; a format wrapper never reads it.
    pub mute_preview_output: bool,
    /// Whether the plugin takes MIDI in, and whether it sends MIDI out.
    pub accepts_midi_in: bool,
    pub emits_midi: bool,
    pub midi_input_ports: u8,
    pub midi_output_ports: u8,
    pub midi_input_dialect: MidiDialect,
    pub midi_output_dialect: MidiDialect,
    /// Smallest sub-block that automation may split a block into.
    pub min_subblock_samples: u32,
}

/// The display name that an override and a fallback come to.
pub open spec fn spec_name_override(
    override_value: Option<&'static str>,
    fallback: &'static str,
) -> &'static str {
    match override_value {
        Some(s) => if s@.len() > 0 {
            s
        } else {
            fallback
        },
        None => fallback,
    }
}

/// Resolves a format's display-name override. An override that is unset or
/// empty falls through to `fallback`.
#[must_use]
pub fn resolve_name_override(
    override_value: Option<&'static str>,
    fallback: &'static str,
) -> (r: &'static str)
    ensures
        r == spec_name_override(override_value, fallback),
{
    match override_value {
        Some(s) => if !s.is_empty() {
            s
        } else {
            fallback
        },
        None => fallback,
    }
}

/// The category that a `category` string of the configuration names; every
/// string without a meaning of its own is an effect.
pub open spec fn spec_category(s: Seq<char>) -> PluginCategory {
    if s == "Instrument"@ {
        PluginCategory::Instrument
    } else if s == "NoteEffect"@ {
        PluginCategory::NoteEffect
    } else if s == "Analyzer"@ {
        PluginCategory::Analyzer
    } else if s == "Tool"@ {
        PluginCategory::Tool
    } else {
        PluginCategory::Effect
    }
}

#[must_use]
pub fn category_from_str(s: &str) -> (r: PluginCategory)
    ensures
        r == spec_category(s@),
{
    if str_eq(s, "Instrument") {
        PluginCategory::Instrument
    } else if str_eq(s, "NoteEffect") {
        PluginCategory::NoteEffect
    } else if str_eq(s, "Analyzer") {
        PluginCategory::Analyzer
    } else if str_eq(s, "Tool") {
        PluginCategory::Tool
    } else {
        PluginCategory::Effect
    }
}

/// The four bytes of a four-character code.
#[must_use]
pub fn fourcc(s: &[u8]) -> (r: [u8; 4])
    requires
        s@.len() == 4,
    ensures
        r@ == s@,
{
    let r = [s[0], s[1], s[2], s[3]];
    proof {
        assert(r@ =~= s@);
    }
    r
}

/// An override that says something wins; one that is empty or missing does not.
pub proof fn law_override_wins_where_it_says_something(name: &'static str, fallback: &'static str)
    ensures
        name@.len() > 0 ==> spec_name_override(Some(name), fallback) == name,
        name@.len() == 0 ==> spec_name_override(Some(name), fallback) == fallback,
        spec_name_override(None, fallback) == fallback,
{
}

/// Each category goes by its own name, and by no other; what has no name of its own is an
/// effect.
pub proof fn law_categories_go_by_their_names(s: Seq<char>)
    ensures
        spec_category("Instrument"@) is Instrument,
        spec_category("NoteEffect"@) is NoteEffect,
        spec_category("Analyzer"@) is Analyzer,
        spec_category("Tool"@) is Tool,
        spec_category("Effect"@) is Effect,
        spec_category(s) is Instrument ==> s == "Instrument"@,
        spec_category(s) is NoteEffect ==> s == "NoteEffect"@,
        spec_category(s) is Analyzer ==> s == "Analyzer"@,
        spec_category(s) is Tool ==> s == "Tool"@,
{
    reveal_strlit("Instrument");
    reveal_strlit("NoteEffect");
    reveal_strlit("Analyzer");
    reveal_strlit("Tool");
    reveal_strlit("Effect");
    assert("Effect"@.len() == 6 && "Instrument"@.len() == 10 && "NoteEffect"@.len() == 10);
    assert("Instrument"@[0] == 'I' && "NoteEffect"@[0] == 'N');
    assert("Analyzer"@.len() == 8 && "Tool"@.len() == 4);
}

} // verus!

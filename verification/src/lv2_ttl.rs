//! The Turtle files of an LV2 bundle: `manifest.ttl`, `plugin.ttl`, and one file
//! for each factory preset.
//!
//! What stands in a file is spelled out as a text; a function that writes a part
//! of it says what that part adds behind the text before it.
use crate::encoding::{base64_encode, base64_text, encodable, escaped};
use crate::lv2::{
    category_as_lv2, category_text, escape_turtle, line, line3, line5, line_number, ln, lv2_unit,
    port_kind, preset_uri, resolve_param_symbols, symbols_of, unit_text, views, Layout, Lv2Bundle,
    Lv2Category, Lv2Param, Lv2Range, Lv2UiKind, Lv2Unit, PortKind,
};
use crate::text::{decimal, decimal_string, holds, joined};
use vstd::prelude::*;
use vstd::string::*;

verus! {

/// The range of a meter port.
pub const METER_PORT_RANGE: &'static str = "        lv2:minimum 0.0 ;
        lv2:maximum 1.0 ;
        lv2:default 0.0 ;
        lv2:portProperty pprop:notOnGUI ;
";

/// What a bypass port says of itself.
pub const BYPASS_COMMENT: &'static str = "        rdfs:comment \"truce IS_BYPASS - `1` is bypassed (inverse of lv2:enabled)\" ;";

/// The port that events come in on; every plugin has it as its control port.
pub const EVENTS_IN_PORT: &'static str = "        a lv2:InputPort, atom:AtomPort ;
        atom:bufferType atom:Sequence ;
        atom:supports midi:MidiEvent, time:Position, patch:Message ;
        lv2:designation lv2:control ;
";

/// The names of that port.
pub const EVENTS_IN_NAMES: &'static str = "        lv2:symbol \"midi_in\" ;
        lv2:name \"MIDI In\" ;
        rsz:minimumSize 4096 ;
";

/// The port that MIDI goes out on.
pub const MIDI_OUT_PORT: &'static str = "        a lv2:OutputPort, atom:AtomPort ;
        atom:bufferType atom:Sequence ;
        atom:supports midi:MidiEvent ;
";

/// The port that notifications go out on.
pub const NOTIFY_OUT_PORT: &'static str = "        a lv2:OutputPort, atom:AtomPort ;
        atom:bufferType atom:Sequence ;
        atom:supports time:Position ;
        lv2:designation lv2:control ;
";

/// The names of that port.
pub const NOTIFY_OUT_NAMES: &'static str = "        lv2:symbol \"notify_out\" ;
        lv2:name \"Notify Out\" ;
        rsz:minimumSize 4096 ;
";

/// The prefixes of a plugin's description.
pub const PLUGIN_PREFIXES: &'static str = "@prefix lv2:   <http://lv2plug.in/ns/lv2core#> .
@prefix rdfs:  <http://www.w3.org/2000/01/rdf-schema#> .
@prefix doap:  <http://usefulinc.com/ns/doap#> .
@prefix foaf:  <http://xmlns.com/foaf/0.1/> .
@prefix units: <http://lv2plug.in/ns/extensions/units#> .
@prefix atom:  <http://lv2plug.in/ns/ext/atom#> .
@prefix midi:  <http://lv2plug.in/ns/ext/midi#> .
@prefix time:  <http://lv2plug.in/ns/ext/time#> .
@prefix rsz:   <http://lv2plug.in/ns/ext/resize-port#> .
@prefix state: <http://lv2plug.in/ns/ext/state#> .
@prefix ui:    <http://lv2plug.in/ns/extensions/ui#> .
@prefix pprop: <http://lv2plug.in/ns/ext/port-props#> .
@prefix patch: <http://lv2plug.in/ns/ext/patch#> .

";

/// The prefixes of a manifest.
pub const MANIFEST_PREFIXES: &'static str = "@prefix lv2:  <http://lv2plug.in/ns/lv2core#> .
@prefix rdfs: <http://www.w3.org/2000/01/rdf-schema#> .
@prefix ui:   <http://lv2plug.in/ns/extensions/ui#> .
@prefix atom: <http://lv2plug.in/ns/ext/atom#> .

";

/// How an editor is notified.
pub const UI_NOTIFICATION: &'static str = "        lv2:symbol \"notify_out\" ;
        ui:protocol atom:eventTransfer ;
        ui:notifyType atom:Object
    ] ;
";

/// The prefixes of a preset.
pub const PRESET_PREFIXES: &'static str = "@prefix lv2:   <http://lv2plug.in/ns/lv2core#> .
@prefix pset:  <http://lv2plug.in/ns/ext/presets#> .
@prefix rdfs:  <http://www.w3.org/2000/01/rdf-schema#> .
@prefix state: <http://lv2plug.in/ns/ext/state#> .
@prefix xsd:   <http://www.w3.org/2001/XMLSchema#> .

";

/// Prefix block that the preset entries of a manifest need once.
pub const PRESET_MANIFEST_PREFIXES: &'static str = "\n@prefix pset: <http://lv2plug.in/ns/ext/presets#> .\n";

/// The body of a meter's port.
pub open spec fn with_meter_port(f: Seq<char>, index: u32, slot: nat, id: u32) -> Seq<char> {
    let f = ln(f, "        a lv2:OutputPort, lv2:ControlPort ;"@);
    let f = ln(f, "        lv2:index "@ + decimal(index as nat) + " ;"@);
    let f = ln(f, "        lv2:symbol \"meter_"@ + decimal(slot) + "\" ;"@);
    let f = ln(f, "        lv2:name \"Meter "@ + decimal(slot + 1) + "\" ;"@);
    let f = f + METER_PORT_RANGE@;
    let f = ln(f, "        rdfs:comment \"truce meter id "@ + decimal(id as nat) + "\" ;"@);
    f
}

/// Writes the body of a meter's port.
fn emit_meter_port(f: &mut String, index: u32, slot: u64, id: u32)
    requires
        slot < u64::MAX,
    ensures
        final(f)@ == with_meter_port(old(f)@, index, slot as nat, id),
{
    line(f, "        a lv2:OutputPort, lv2:ControlPort ;");
    line_number(f, "        lv2:index ", index as u64, " ;");
    line_number(f, "        lv2:symbol \"meter_", slot, "\" ;");
    line_number(f, "        lv2:name \"Meter ", slot + 1, "\" ;");
    f.append(METER_PORT_RANGE);
    line_number(f, "        rdfs:comment \"truce meter id ", id as u64, "\" ;");
}

/// The body of a parameter's port.
pub open spec fn with_control_port(f: Seq<char>, index: u32, p: Lv2Param, symbol: Seq<char>) -> Seq<char> {
    let f = ln(f, "        a lv2:InputPort, lv2:ControlPort ;"@);
    let f = ln(f, "        lv2:index "@ + decimal(index as nat) + " ;"@);
    let f = ln(f, "        lv2:symbol \""@ + symbol + "\" ;"@);
    let f = ln(f, "        lv2:name \""@ + escaped(p.name@) + "\" ;"@);
    let f = ln(f, "        lv2:minimum "@ + p.range.low() + " ;"@);
    let f = ln(f, "        lv2:maximum "@ + p.range.high() + " ;"@);
    let f = ln(f, "        lv2:default "@ + p.default_text@ + " ;"@);
    let f = match unit_text(p.unit) {
        Some(unit) => {
            let f = ln(f, "        units:unit units:"@ + unit + " ;"@);
            f
        },
        None => f,
    };
    let f = if p.range is Discrete {
        let f = ln(f, "        lv2:portProperty lv2:integer ;"@);
        f
    } else {
        f
    };
    let f = if p.range is Enum {
        let f = ln(f, "        lv2:portProperty lv2:integer, lv2:enumeration ;"@);
        f
    } else {
        f
    };
    let f = if p.range is Logarithmic {
        let f = ln(f, "        lv2:portProperty pprop:logarithmic ;"@);
        f
    } else {
        f
    };
    let f = if p.flags.is_bypass {
        let f = ln(f, "        lv2:designation lv2:enabled ;"@);
        let f = ln(f, BYPASS_COMMENT@);
        f
    } else {
        f
    };
    let f = if p.flags.readonly {
        let f = ln(f, "        lv2:portProperty pprop:notAutomatic ;"@);
        f
    } else {
        f
    };
    let f = if p.flags.hidden {
        let f = ln(f, "        lv2:portProperty pprop:notOnGUI ;"@);
        f
    } else {
        f
    };
    f
}

/// Writes the body of a parameter's port.
fn emit_control_port(f: &mut String, index: u32, p: &Lv2Param, symbol: &str)
    ensures
        final(f)@ == with_control_port(old(f)@, index, *p, symbol@),
{
    let name: String = escape_turtle(p.name.as_str());
    let min: String = p.range.min();
    let max: String = p.range.max();
    let discrete: bool = match p.range {
        Lv2Range::Discrete { .. } => true,
        _ => false,
    };
    let enumerated: bool = match p.range {
        Lv2Range::Enum { .. } => true,
        _ => false,
    };
    let logarithmic: bool = match p.range {
        Lv2Range::Logarithmic { .. } => true,
        _ => false,
    };
    line(f, "        a lv2:InputPort, lv2:ControlPort ;");
    line_number(f, "        lv2:index ", index as u64, " ;");
    line3(f, "        lv2:symbol \"", symbol, "\" ;");
    line3(f, "        lv2:name \"", name.as_str(), "\" ;");
    line3(f, "        lv2:minimum ", min.as_str(), " ;");
    line3(f, "        lv2:maximum ", max.as_str(), " ;");
    line3(f, "        lv2:default ", p.default_text.as_str(), " ;");
    if let Some(unit) = lv2_unit(p.unit) {
        line3(f, "        units:unit units:", unit, " ;");
    }
    if discrete {
        line(f, "        lv2:portProperty lv2:integer ;");
    }
    if enumerated {
        line(f, "        lv2:portProperty lv2:integer, lv2:enumeration ;");
    }
    if logarithmic {
        line(f, "        lv2:portProperty pprop:logarithmic ;");
    }
    if p.flags.is_bypass {
        line(f, "        lv2:designation lv2:enabled ;");
        line(f, BYPASS_COMMENT);
    }
    if p.flags.readonly {
        line(f, "        lv2:portProperty pprop:notAutomatic ;");
    }
    if p.flags.hidden {
        line(f, "        lv2:portProperty pprop:notOnGUI ;");
    }
}

/// The body of an audio input.
pub open spec fn with_audio_in(f: Seq<char>, index: u32, ch: nat) -> Seq<char> {
    let f = ln(f, "        a lv2:InputPort, lv2:AudioPort ;"@);
    let f = ln(f, "        lv2:index "@ + decimal(index as nat) + " ;"@);
    let f = ln(f, "        lv2:symbol \"in_"@ + decimal(ch) + "\" ;"@);
    let f = ln(f, "        lv2:name \"Audio In "@ + decimal(ch + 1) + "\" ;"@);
    f
}

/// Writes the body of an audio input.
fn emit_audio_in(f: &mut String, index: u32, ch: u64)
    requires
        ch < u64::MAX,
    ensures
        final(f)@ == with_audio_in(old(f)@, index, ch as nat),
{
    line(f, "        a lv2:InputPort, lv2:AudioPort ;");
    line_number(f, "        lv2:index ", index as u64, " ;");
    line_number(f, "        lv2:symbol \"in_", ch, "\" ;");
    line_number(f, "        lv2:name \"Audio In ", ch + 1, "\" ;");
}

/// The body of an audio output.
pub open spec fn with_audio_out(f: Seq<char>, index: u32, ch: nat) -> Seq<char> {
    let f = ln(f, "        a lv2:OutputPort, lv2:AudioPort ;"@);
    let f = ln(f, "        lv2:index "@ + decimal(index as nat) + " ;"@);
    let f = ln(f, "        lv2:symbol \"out_"@ + decimal(ch) + "\" ;"@);
    let f = ln(f, "        lv2:name \"Audio Out "@ + decimal(ch + 1) + "\" ;"@);
    f
}

/// Writes the body of an audio output.
fn emit_audio_out(f: &mut String, index: u32, ch: u64)
    requires
        ch < u64::MAX,
    ensures
        final(f)@ == with_audio_out(old(f)@, index, ch as nat),
{
    line(f, "        a lv2:OutputPort, lv2:AudioPort ;");
    line_number(f, "        lv2:index ", index as u64, " ;");
    line_number(f, "        lv2:symbol \"out_", ch, "\" ;");
    line_number(f, "        lv2:name \"Audio Out ", ch + 1, "\" ;");
}

/// The body of the port for incoming events. It is the plugin's control input,
/// whatever kind of plugin it is: hosts send MIDI, transport and parameter messages
/// to the port with that designation.
pub open spec fn with_events_in(f: Seq<char>, index: u32) -> Seq<char> {
    let f = f + EVENTS_IN_PORT@;
    let f = ln(f, "        lv2:index "@ + decimal(index as nat) + " ;"@);
    let f = f + EVENTS_IN_NAMES@;
    f
}

/// Writes the body of the port for incoming events.
fn emit_events_in(f: &mut String, index: u32)
    ensures
        final(f)@ == with_events_in(old(f)@, index),
{
    f.append(EVENTS_IN_PORT);
    line_number(f, "        lv2:index ", index as u64, " ;");
    f.append(EVENTS_IN_NAMES);
}

/// The body of the MIDI output.
pub open spec fn with_midi_out(f: Seq<char>, index: u32) -> Seq<char> {
    let f = f + MIDI_OUT_PORT@;
    let f = ln(f, "        lv2:index "@ + decimal(index as nat) + " ;"@);
    let f = f + "        lv2:symbol \"midi_out\" ;\n        lv2:name \"MIDI Out\" ;\n"@;
    f
}

/// Writes the body of the MIDI output.
fn emit_midi_out(f: &mut String, index: u32)
    ensures
        final(f)@ == with_midi_out(old(f)@, index),
{
    f.append(MIDI_OUT_PORT);
    line_number(f, "        lv2:index ", index as u64, " ;");
    f.append("        lv2:symbol \"midi_out\" ;\n        lv2:name \"MIDI Out\" ;\n");
}

/// The body of the port that notifies the editor.
pub open spec fn with_notify(f: Seq<char>, index: u32) -> Seq<char> {
    let f = f + NOTIFY_OUT_PORT@;
    let f = ln(f, "        lv2:index "@ + decimal(index as nat) + " ;"@);
    let f = f + NOTIFY_OUT_NAMES@;
    f
}

/// Writes the body of the port that notifies the editor.
fn emit_notify(f: &mut String, index: u32)
    ensures
        final(f)@ == with_notify(old(f)@, index),
{
    f.append(NOTIFY_OUT_PORT);
    line_number(f, "        lv2:index ", index as u64, " ;");
    f.append(NOTIFY_OUT_NAMES);
}

/// A layout is that of a bundle: it counts the bundle's parameters and meters.
pub open spec fn lays_out(layout: Layout, b: Lv2Bundle) -> bool {
    &&& layout.wf()
    &&& layout.audio_in == b.audio_in
    &&& layout.audio_out == b.audio_out
    &&& layout.num_params == b.params@.len()
    &&& layout.num_meters == b.meter_ids@.len()
    &&& layout.has_midi_out == b.has_midi_out
}

/// The body of the port with this number.
pub open spec fn with_port(
    f: Seq<char>,
    index: u32,
    b: Lv2Bundle,
    layout: Layout,
    symbols: Seq<Seq<char>>,
) -> Seq<char> {
    let f = ln(f, ""@);
    match port_kind(layout, index as int) {
        PortKind::AudioIn(ch) => with_audio_in(f, index, ch as nat),
        PortKind::AudioOut(ch) => with_audio_out(f, index, ch as nat),
        PortKind::Control(slot) => with_control_port(f, index, b.params@[slot], symbols[slot]),
        PortKind::Meter(slot) => with_meter_port(f, index, slot as nat, b.meter_ids@[slot]),
        PortKind::EventsIn => with_events_in(f, index),
        PortKind::MidiOut => with_midi_out(f, index),
        PortKind::Notify => with_notify(f, index),
    }
}

/// Writes the body of the port with this number.
fn emit_port(
    f: &mut String,
    index: u32,
    b: &Lv2Bundle,
    layout: &Layout,
    param_symbols: &Vec<String>,
)
    requires
        lays_out(*layout, *b),
        index < layout.ports(),
        param_symbols@.len() == b.params@.len(),
    ensures
        final(f)@ == with_port(old(f)@, index, *b, *layout, views(param_symbols@)),
{
    line(f, "");
    if index < layout.audio_out_start() {
        emit_audio_in(f, index, index as u64);
    } else if index < layout.control_start() {
        emit_audio_out(f, index, (index - layout.audio_out_start()) as u64);
    } else if index < layout.meter_start() {
        let slot: usize = (index - layout.control_start()) as usize;
        proof {
            assert(views(param_symbols@)[slot as int] == param_symbols@[slot as int]@);
        }
        emit_control_port(f, index, &b.params[slot], param_symbols[slot].as_str());
    } else if index < layout.atom_in_port() {
        let slot: usize = (index - layout.meter_start()) as usize;
        emit_meter_port(f, index, slot as u64, b.meter_ids[slot]);
    } else if index == layout.atom_in_port() {
        emit_events_in(f, index);
    } else if index < layout.notify_out_port() {
        emit_midi_out(f, index);
    } else {
        emit_notify(f, index);
    }
}

/// The first `n` ports, with their brackets and separators.
pub open spec fn with_ports(
    f: Seq<char>,
    n: int,
    b: Lv2Bundle,
    layout: Layout,
    symbols: Seq<Seq<char>>,
) -> Seq<char>
    decreases n,
{
    if n <= 0 {
        f
    } else {
        let f = with_ports(f, n - 1, b, layout, symbols);
        let f = f + if n == 1 {
            " ["@
        } else {
            ",\n        ["@
        };
        with_port(f, (n - 1) as u32, b, layout, symbols) + "    ]"@
    }
}

/// Announces each of the first `n` parameters as one that messages can set.
pub open spec fn with_writables(f: Seq<char>, uri: Seq<char>, params: Seq<Lv2Param>, n: int) -> Seq<
    char,
>
    decreases n,
{
    if n <= 0 {
        f
    } else {
        ln(
            with_writables(f, uri, params, n - 1),
            "    patch:writable <"@ + uri + "#p_"@ + decimal(params[n - 1].id as nat) + "> ;"@,
        )
    }
}

/// The block that declares a parameter, under the plugin's address.
pub open spec fn with_param_block(f: Seq<char>, uri: Seq<char>, p: Lv2Param) -> Seq<char> {
    let f = ln(f, ""@);
    let f = ln(f, "<"@ + uri + "#p_"@ + decimal(p.id as nat) + ">"@);
    let f = ln(f, "    a lv2:Parameter ;"@);
    let f = ln(f, "    rdfs:label \""@ + escaped(p.name@) + "\" ;"@);
    let f = ln(f, "    rdfs:range atom:Float ;"@);
    let f = ln(f, "    lv2:minimum "@ + p.range.low() + " ;"@);
    let f = ln(f, "    lv2:maximum "@ + p.range.high() + " ;"@);
    let f = ln(f, "    lv2:default "@ + p.default_text@ + " ;"@);
    let f = match unit_text(p.unit) {
        Some(unit) => {
            let f = ln(f, "    units:unit units:"@ + unit + " ;"@);
            f
        },
        None => f,
    };
    let f = if p.range is Discrete {
        let f = ln(f, "    lv2:portProperty lv2:integer ;"@);
        f
    } else {
        f
    };
    let f = if p.range is Enum {
        let f = ln(f, "    lv2:portProperty lv2:integer, lv2:enumeration ;"@);
        f
    } else {
        f
    };
    let f = ln(f, "    ."@);
    f
}

/// Writes the block that declares a parameter.
fn emit_param_block(f: &mut String, uri: &str, p: &Lv2Param)
    ensures
        final(f)@ == with_param_block(old(f)@, uri@, *p),
{
    let name: String = escape_turtle(p.name.as_str());
    let min: String = p.range.min();
    let max: String = p.range.max();
    let id: String = decimal_string(p.id as u64);
    let discrete: bool = match p.range {
        Lv2Range::Discrete { .. } => true,
        _ => false,
    };
    let enumerated: bool = match p.range {
        Lv2Range::Enum { .. } => true,
        _ => false,
    };
    line(f, "");
    line5(f, "<", uri, "#p_", id.as_str(), ">");
    line(f, "    a lv2:Parameter ;");
    line3(f, "    rdfs:label \"", name.as_str(), "\" ;");
    line(f, "    rdfs:range atom:Float ;");
    line3(f, "    lv2:minimum ", min.as_str(), " ;");
    line3(f, "    lv2:maximum ", max.as_str(), " ;");
    line3(f, "    lv2:default ", p.default_text.as_str(), " ;");
    if let Some(unit) = lv2_unit(p.unit) {
        line3(f, "    units:unit units:", unit, " ;");
    }
    if discrete {
        line(f, "    lv2:portProperty lv2:integer ;");
    }
    if enumerated {
        line(f, "    lv2:portProperty lv2:integer, lv2:enumeration ;");
    }
    line(f, "    .");
}

/// The blocks that declare the first `n` parameters.
pub open spec fn with_param_blocks(
    f: Seq<char>,
    uri: Seq<char>,
    params: Seq<Lv2Param>,
    n: int,
) -> Seq<char>
    decreases n,
{
    if n <= 0 {
        f
    } else {
        with_param_block(with_param_blocks(f, uri, params, n - 1), uri, params[n - 1])
    }
}

/// The head of `plugin.ttl`: the prefixes, and what the plugin is.
pub open spec fn with_plugin_head(f: Seq<char>, b: Lv2Bundle, so_name: Seq<char>) -> Seq<char> {
    let f = f + PLUGIN_PREFIXES@;
    let f = ln(f, "<"@ + b.uri@ + ">"@);
    let f = if b.category == Lv2Category::Effect {
        let f = ln(f, "    a lv2:Plugin ;"@);
        f
    } else {
        let f = ln(f, "    a lv2:Plugin, "@ + category_text(b.category) + " ;"@);
        f
    };
    let f = ln(f, "    doap:name \""@ + escaped(b.plugin_name@) + "\" ;"@);
    let f = ln(f, "    doap:maintainer ["@);
    let f = ln(f, "        a foaf:Person ; foaf:name \""@ + escaped(b.vendor@) + "\""@);
    let f = if b.url@.len() > 0 {
        let f = ln(f, "        ; foaf:homepage <"@ + b.url@ + ">"@);
        f
    } else {
        f
    };
    let f = ln(f, "    ] ;"@);
    let f = ln(f, "    lv2:binary <"@ + so_name + "> ;"@);
    let f = ln(f, "    lv2:extensionData state:interface ;"@);
    let f = if b.has_ui {
        let f = ln(f, "    ui:ui <"@ + b.ui_uri@ + "> ;"@);
        f
    } else {
        f
    };
    f
}

/// Writes the head of `plugin.ttl`.
fn emit_plugin_head(f: &mut String, b: &Lv2Bundle, so_name: &str)
    ensures
        final(f)@ == with_plugin_head(old(f)@, *b, so_name@),
{
    let name: String = escape_turtle(b.plugin_name.as_str());
    let vendor: String = escape_turtle(b.vendor.as_str());
    let plain: bool = match b.category {
        Lv2Category::Effect => true,
        _ => false,
    };
    f.append(PLUGIN_PREFIXES);
    line3(f, "<", b.uri.as_str(), ">");
    if plain {
        line(f, "    a lv2:Plugin ;");
    } else {
        line3(f, "    a lv2:Plugin, ", category_as_lv2(b.category), " ;");
    }
    line3(f, "    doap:name \"", name.as_str(), "\" ;");
    line(f, "    doap:maintainer [");
    line3(f, "        a foaf:Person ; foaf:name \"", vendor.as_str(), "\"");
    if !b.url.as_str().is_empty() {
        line3(f, "        ; foaf:homepage <", b.url.as_str(), ">");
    }
    line(f, "    ] ;");
    line3(f, "    lv2:binary <", so_name, "> ;");
    line(f, "    lv2:extensionData state:interface ;");
    if b.has_ui {
        line3(f, "    ui:ui <", b.ui_uri.as_str(), "> ;");
    }
}

/// The whole of `plugin.ttl`.
pub open spec fn plugin_ttl_text(b: Lv2Bundle, layout: Layout, so_name: Seq<char>) -> Seq<char> {
    let n = b.params@.len() as int;
    let f = with_plugin_head(Seq::empty(), b, so_name);
    let f = with_writables(f, b.uri@, b.params@, n);
    let f = f + "    lv2:port"@;
    let f = with_ports(f, layout.ports(), b, layout, symbols_of(b.params@, n));
    let f = ln(f, " ."@);
    with_param_blocks(f, b.uri@, b.params@, n)
}

/// Renders `plugin.ttl`: the plugin, its ports and its parameters.
pub fn render_plugin_ttl(b: &Lv2Bundle, layout: &Layout, so_name: &str) -> (r: String)
    requires
        lays_out(*layout, *b),
    ensures
        r@ == plugin_ttl_text(*b, *layout, so_name@),
{
    let symbols: Vec<String> = resolve_param_symbols(&b.params);
    let mut f: String = String::new();
    emit_plugin_head(&mut f, b, so_name);
    let ghost head = f@;
    let mut i: usize = 0;
    while i < b.params.len()
        invariant
            i <= b.params@.len(),
            f@ == with_writables(head, b.uri@, b.params@, i as int),
        decreases b.params@.len() - i,
    {
        let id: String = decimal_string(b.params[i].id as u64);
        line5(&mut f, "    patch:writable <", b.uri.as_str(), "#p_", id.as_str(), "> ;");
        i = i + 1;
    }
    f.append("    lv2:port");
    let ghost before_ports = f@;
    let total: u32 = layout.total();
    let mut port: u32 = 0;
    proof {
        assert(views(symbols@).len() == symbols@.len());
        crate::lv2::lemma_symbols_len(b.params@, b.params@.len() as int);
    }
    while port < total
        invariant
            port <= total,
            total == layout.ports(),
            lays_out(*layout, *b),
            symbols@.len() == b.params@.len(),
            f@ == with_ports(before_ports, port as int, *b, *layout, views(symbols@)),
        decreases total - port,
    {
        f.append(
            if port == 0 {
                " ["
            } else {
                ",\n        ["
            },
        );
        emit_port(&mut f, port, b, layout, &symbols);
        f.append("    ]");
        port = port + 1;
    }
    line(&mut f, " .");
    let ghost before_blocks = f@;
    let mut k: usize = 0;
    while k < b.params.len()
        invariant
            k <= b.params@.len(),
            f@ == with_param_blocks(before_blocks, b.uri@, b.params@, k as int),
        decreases b.params@.len() - k,
    {
        emit_param_block(&mut f, b.uri.as_str(), &b.params[k]);
        k = k + 1;
    }
    f
}

/// What the editor is told of the first `n` meters.
pub open spec fn with_meter_notes(f: Seq<char>, uri: Seq<char>, n: int) -> Seq<char>
    decreases n,
{
    if n <= 0 {
        f
    } else {
        let f = with_meter_notes(f, uri, n - 1);
        let f = ln(f, "    ui:portNotification ["@);
        let f = ln(f, "        ui:plugin <"@ + uri + "> ;"@);
        let f = ln(f, "        lv2:symbol \"meter_"@ + decimal((n - 1) as nat) + "\" ;"@);
        let f = ln(f, "        ui:protocol ui:floatProtocol"@);
        ln(f, "    ] ;"@)
    }
}

pub open spec fn ui_kind_text(kind: Lv2UiKind) -> Seq<char> {
    match kind {
        Lv2UiKind::Cocoa => "    a ui:CocoaUI ;"@,
        Lv2UiKind::Windows => "    a ui:WindowsUI ;"@,
        Lv2UiKind::X11 => "    a ui:X11UI ;"@,
    }
}

fn ui_kind_line(kind: Lv2UiKind) -> (r: &'static str)
    ensures
        r@ == ui_kind_text(kind),
{
    match kind {
        Lv2UiKind::Cocoa => "    a ui:CocoaUI ;",
        Lv2UiKind::Windows => "    a ui:WindowsUI ;",
        Lv2UiKind::X11 => "    a ui:X11UI ;",
    }
}

/// The head of `manifest.ttl`: where the plugin's files are.
pub open spec fn with_manifest_head(f: Seq<char>, uri: Seq<char>, so_name: Seq<char>, ttl: Seq<char>) -> Seq<char> {
    let f = f + MANIFEST_PREFIXES@;
    let f = ln(f, "<"@ + uri + ">"@);
    let f = ln(f, "    a lv2:Plugin ;"@);
    let f = ln(f, "    lv2:binary <"@ + so_name + "> ;"@);
    let f = ln(f, "    rdfs:seeAlso <"@ + ttl + "> ."@);
    f
}

/// Writes the head of `manifest.ttl`.
fn emit_manifest_head(f: &mut String, uri: &str, so_name: &str, ttl: &str)
    ensures
        final(f)@ == with_manifest_head(old(f)@, uri@, so_name@, ttl@),
{
    f.append(MANIFEST_PREFIXES);
    line3(f, "<", uri, ">");
    line(f, "    a lv2:Plugin ;");
    line3(f, "    lv2:binary <", so_name, "> ;");
    line3(f, "    rdfs:seeAlso <", ttl, "> .");
}

/// The opening of the editor's entry, with the notifications that it gets.
pub open spec fn with_manifest_ui(f: Seq<char>, b: Lv2Bundle, so_name: Seq<char>) -> Seq<char> {
    let f = ln(f, ""@);
    let f = ln(f, "<"@ + b.ui_uri@ + ">"@);
    let f = ln(f, ui_kind_text(b.ui_kind));
    let f = ln(f, "    ui:binary <"@ + so_name + "> ;"@);
    let f = ln(f, "    ui:portNotification ["@);
    let f = ln(f, "        ui:plugin <"@ + b.uri@ + "> ;"@);
    let f = f + UI_NOTIFICATION@;
    f
}

/// Writes the opening of the editor's entry.
fn emit_manifest_ui(f: &mut String, b: &Lv2Bundle, so_name: &str)
    ensures
        final(f)@ == with_manifest_ui(old(f)@, *b, so_name@),
{
    line(f, "");
    line3(f, "<", b.ui_uri.as_str(), ">");
    line(f, ui_kind_line(b.ui_kind));
    line3(f, "    ui:binary <", so_name, "> ;");
    line(f, "    ui:portNotification [");
    line3(f, "        ui:plugin <", b.uri.as_str(), "> ;");
    f.append(UI_NOTIFICATION);
}

/// The whole of `manifest.ttl`.
pub open spec fn manifest_ttl_text(
    b: Lv2Bundle,
    layout: Layout,
    ttl: Seq<char>,
    so_name: Seq<char>,
) -> Seq<char> {
    let f = with_manifest_head(Seq::empty(), b.uri@, so_name, ttl);
    if b.has_ui {
        let f = with_manifest_ui(f, b, so_name);
        let f = with_meter_notes(f, b.uri@, layout.num_meters as int);
        ln(f, "    ."@)
    } else {
        f
    }
}

/// Renders `manifest.ttl`: the plugin, and its editor where it has one.
pub fn render_manifest(b: &Lv2Bundle, layout: &Layout, ttl_basename: &str, so_name: &str) -> (r:
    String)
    ensures
        r@ == manifest_ttl_text(*b, *layout, ttl_basename@, so_name@),
{
    let mut f: String = String::new();
    emit_manifest_head(&mut f, b.uri.as_str(), so_name, ttl_basename);
    if b.has_ui {
        emit_manifest_ui(&mut f, b, so_name);
        let ghost start = f@;
        let mut slot: u32 = 0;
        while slot < layout.num_meters
            invariant
                slot <= layout.num_meters,
                f@ == with_meter_notes(start, b.uri@, slot as int),
            decreases layout.num_meters - slot,
        {
            line(&mut f, "    ui:portNotification [");
            line3(&mut f, "        ui:plugin <", b.uri.as_str(), "> ;");
            line_number(&mut f, "        lv2:symbol \"meter_", slot as u64, "\" ;");
            line(&mut f, "        ui:protocol ui:floatProtocol");
            line(&mut f, "    ] ;");
            slot = slot + 1;
        }
        line(&mut f, "    .");
    }
    f
}

/// The layout of a bundle's ports.
pub open spec fn layout_of(b: Lv2Bundle) -> Layout {
    Layout {
        audio_in: b.audio_in,
        audio_out: b.audio_out,
        num_params: b.params@.len() as u32,
        num_meters: b.meter_ids@.len() as u32,
        has_midi_out: b.has_midi_out,
    }
}

/// Renders `manifest.ttl` and `plugin.ttl` of a bundle whose binary is `so_name`.
#[must_use]
pub fn render_ttls(bundle: &Lv2Bundle, so_name: &str) -> (r: (String, String))
    requires
        lays_out(layout_of(*bundle), *bundle),
    ensures
        r.0@ == manifest_ttl_text(*bundle, layout_of(*bundle), "plugin.ttl"@, so_name@),
        r.1@ == plugin_ttl_text(*bundle, layout_of(*bundle), so_name@),
{
    let layout = Layout {
        audio_in: bundle.audio_in,
        audio_out: bundle.audio_out,
        num_params: bundle.params.len() as u32,
        num_meters: bundle.meter_ids.len() as u32,
        has_midi_out: bundle.has_midi_out,
    };
    let manifest: String = render_manifest(bundle, &layout, "plugin.ttl", so_name);
    let plugin: String = render_plugin_ttl(bundle, &layout, so_name);
    (manifest, plugin)
}

/// The manifest entry of one factory preset.
pub open spec fn with_preset_entry(f: Seq<char>, plugin_uri: Seq<char>, uuid: Seq<char>, ttl: Seq<char>) -> Seq<char> {
    let f = ln(f, ""@);
    let f = ln(f, "<"@ + (plugin_uri + "#preset-"@ + uuid) + ">"@);
    let f = ln(f, "    a pset:Preset ;"@);
    let f = ln(f, "    lv2:appliesTo <"@ + plugin_uri + "> ;"@);
    let f = ln(f, "    rdfs:seeAlso <"@ + ttl + "> ."@);
    f
}

/// Writes the manifest entry of one factory preset.
fn emit_preset_entry(f: &mut String, plugin_uri: &str, uuid: &str, ttl: &str)
    ensures
        final(f)@ == with_preset_entry(old(f)@, plugin_uri@, uuid@, ttl@),
{
    let uri: String = preset_uri(plugin_uri, uuid);
    line(f, "");
    line3(f, "<", uri.as_str(), ">");
    line(f, "    a pset:Preset ;");
    line3(f, "    lv2:appliesTo <", plugin_uri, "> ;");
    line3(f, "    rdfs:seeAlso <", ttl, "> .");
}

/// Renders the manifest entry of one factory preset.
#[must_use]
pub fn render_preset_manifest_entry(plugin_uri: &str, uuid: &str, ttl_rel_path: &str) -> (r: String)
    ensures
        r@ == with_preset_entry(Seq::empty(), plugin_uri@, uuid@, ttl_rel_path@),
{
    let mut f: String = String::new();
    emit_preset_entry(&mut f, plugin_uri, uuid, ttl_rel_path);
    f
}

/// The values of the first `n` ports that a preset sets, each by its symbol.
pub open spec fn with_port_values(f: Seq<char>, values: Seq<(String, String)>, n: int) -> Seq<char>
    decreases n,
{
    if n <= 0 {
        f
    } else {
        let f = with_port_values(f, values, n - 1);
        let f = ln(f, "    lv2:port ["@);
        let f = ln(f, "        lv2:symbol \""@ + escaped(values[n - 1].0@) + "\" ;"@);
        let f = ln(f, "        pset:value "@ + values[n - 1].1@ + ""@);
        ln(f, "    ] ;"@)
    }
}

/// The head of a preset's file: its prefixes, and what it is a preset of.
pub open spec fn with_preset_head(f: Seq<char>, plugin_uri: Seq<char>, uuid: Seq<char>, label: Seq<char>) -> Seq<char> {
    let f = f + PRESET_PREFIXES@;
    let f = ln(f, "<"@ + (plugin_uri + "#preset-"@ + uuid) + ">"@);
    let f = ln(f, "    a pset:Preset ;"@);
    let f = ln(f, "    lv2:appliesTo <"@ + plugin_uri + "> ;"@);
    let f = ln(f, "    rdfs:label \""@ + escaped(label) + "\" ;"@);
    f
}

/// Writes the head of a preset's file.
fn emit_preset_head(f: &mut String, plugin_uri: &str, uuid: &str, label: &str)
    ensures
        final(f)@ == with_preset_head(old(f)@, plugin_uri@, uuid@, label@),
{
    let uri: String = preset_uri(plugin_uri, uuid);
    let text: String = escape_turtle(label);
    f.append(PRESET_PREFIXES);
    line3(f, "<", uri.as_str(), ">");
    line(f, "    a pset:Preset ;");
    line3(f, "    lv2:appliesTo <", plugin_uri, "> ;");
    line3(f, "    rdfs:label \"", text.as_str(), "\" ;");
}

/// The whole of a preset's file, with the base64 text of its state.
pub open spec fn preset_ttl_text(
    plugin_uri: Seq<char>,
    uuid: Seq<char>,
    label: Seq<char>,
    state_text: Seq<char>,
    port_values: Seq<(String, String)>,
) -> Seq<char> {
    let f = with_preset_head(Seq::empty(), plugin_uri, uuid, label);
    let f = with_port_values(f, port_values, port_values.len() as int);
    let f = ln(f, "    state:state ["@);
    let f = ln(f, "        <urn:truce:state-blob> \""@ + state_text + "\"^^xsd:base64Binary"@);
    ln(f, "    ] ."@)
}

/// Renders a preset's file from the base64 text of its state.
pub fn render_preset_ttl_from(
    plugin_uri: &str,
    uuid: &str,
    label: &str,
    state_text: &str,
    port_values: &Vec<(String, String)>,
) -> (r: String)
    ensures
        r@ == preset_ttl_text(plugin_uri@, uuid@, label@, state_text@, port_values@),
{
    let mut f: String = String::new();
    emit_preset_head(&mut f, plugin_uri, uuid, label);
    let ghost start = f@;
    let mut i: usize = 0;
    while i < port_values.len()
        invariant
            i <= port_values@.len(),
            f@ == with_port_values(start, port_values@, i as int),
        decreases port_values@.len() - i,
    {
        let symbol: String = escape_turtle(port_values[i].0.as_str());
        line(&mut f, "    lv2:port [");
        line3(&mut f, "        lv2:symbol \"", symbol.as_str(), "\" ;");
        line3(&mut f, "        pset:value ", port_values[i].1.as_str(), "");
        line(&mut f, "    ] ;");
        i = i + 1;
    }
    line(&mut f, "    state:state [");
    line3(&mut f, "        <urn:truce:state-blob> \"", state_text, "\"^^xsd:base64Binary");
    line(&mut f, "    ] .");
    f
}

/// Renders a preset's file. It holds the values twice, since hosts apply presets
/// in two ways: as the saved state, and as values of ports, which are given as a
/// symbol and a number written out.
#[must_use]
pub fn render_preset_ttl(
    plugin_uri: &str,
    uuid: &str,
    label: &str,
    state_blob: &[u8],
    port_values: &Vec<(String, String)>,
) -> (r: String)
    requires
        encodable(state_blob@.len()),
    ensures
        r@ == preset_ttl_text(
            plugin_uri@,
            uuid@,
            label@,
            base64_text(state_blob@),
            port_values@,
        ),
{
    let state_text: String = base64_encode(state_blob);
    render_preset_ttl_from(plugin_uri, uuid, label, state_text.as_str(), port_values)
}

/// A text that starts another starts what that one is continued to.
proof fn lemma_fronts()
    ensures
        forall|a: Seq<char>, f: Seq<char>, s: Seq<char>|
            #![trigger a.is_prefix_of(f), ln(f, s)]
            a.is_prefix_of(f) ==> a.is_prefix_of(ln(f, s)),
        forall|a: Seq<char>, f: Seq<char>, s: Seq<char>|
            #![trigger a.is_prefix_of(f), f + s]
            a.is_prefix_of(f) ==> a.is_prefix_of(f + s),
        forall|a: Seq<char>| #[trigger] a.is_prefix_of(a),
{
    assert forall|a: Seq<char>, f: Seq<char>, s: Seq<char>|
        #![trigger a.is_prefix_of(f), ln(f, s)]
        a.is_prefix_of(f) implies a.is_prefix_of(ln(f, s)) by {
        assert(ln(f, s).subrange(0, a.len() as int) =~= f.subrange(0, a.len() as int));
    }
    assert forall|a: Seq<char>, f: Seq<char>, s: Seq<char>|
        #![trigger a.is_prefix_of(f), f + s]
        a.is_prefix_of(f) implies a.is_prefix_of(f + s) by {
        assert((f + s).subrange(0, a.len() as int) =~= f.subrange(0, a.len() as int));
    }
}

/// Lines behind a text.
proof fn lemma_line_joins(f: Seq<char>, lines: Seq<Seq<char>>, s: Seq<char>)
    ensures
        ln(f + joined(lines), s) == f + joined(lines.push(s)),
{
    assert(lines.push(s).drop_last() =~= lines);
    assert(ln(f + joined(lines), s) =~= f + joined(lines.push(s)));
}

proof fn lemma_front_holds(f: Seq<char>, part: Seq<char>, text: Seq<char>)
    requires
        (f + part).is_prefix_of(text),
    ensures
        holds(text, part),
{
    let n = (f + part).len() as int;
    assert(text =~= f + part + text.skip(n));
}

/// The two ends of a range, written out: the range's own, and zero and the last value for
/// an enumeration.
pub open spec fn written_ends(range: Lv2Range) -> (Seq<char>, Seq<char>) {
    match range {
        Lv2Range::Linear { min, max } => (min@, max@),
        Lv2Range::Logarithmic { min, max } => (min@, max@),
        Lv2Range::Discrete { min, max } => (min@, max@),
        Lv2Range::Enum { count } => (
            "0"@,
            decimal(
                if count > 0 {
                    (count - 1) as nat
                } else {
                    0
                },
            ),
        ),
    }
}

/// The lines that say what a parameter's port is.
pub open spec fn port_lines(index: nat, p: Lv2Param, symbol: Seq<char>) -> Seq<Seq<char>> {
    let (low, high) = written_ends(p.range);
    seq![
        "        a lv2:InputPort, lv2:ControlPort ;"@,
        "        lv2:index "@ + decimal(index) + " ;"@,
        "        lv2:symbol \""@ + symbol + "\" ;"@,
        "        lv2:name \""@ + escaped(p.name@) + "\" ;"@,
        "        lv2:minimum "@ + low + " ;"@,
        "        lv2:maximum "@ + high + " ;"@,
        "        lv2:default "@ + p.default_text@ + " ;"@,
    ]
}

/// The lines that say what a parameter's port is good for: its unit, how its values are
/// spaced, and what a host may do with it.
pub open spec fn use_lines(p: Lv2Param) -> Seq<Seq<char>> {
    let unit = match p.unit {
        Lv2Unit::Db => seq!["        units:unit units:"@ + "db"@ + " ;"@],
        Lv2Unit::Hz => seq!["        units:unit units:"@ + "hz"@ + " ;"@],
        Lv2Unit::Milliseconds => seq!["        units:unit units:"@ + "ms"@ + " ;"@],
        Lv2Unit::Seconds => seq!["        units:unit units:"@ + "s"@ + " ;"@],
        Lv2Unit::Percent => seq!["        units:unit units:"@ + "pc"@ + " ;"@],
        Lv2Unit::Semitones => seq!["        units:unit units:"@ + "semitone12TET"@ + " ;"@],
        _ => Seq::empty(),
    };
    let spacing = match p.range {
        Lv2Range::Discrete { .. } => seq!["        lv2:portProperty lv2:integer ;"@],
        Lv2Range::Enum { .. } => seq!["        lv2:portProperty lv2:integer, lv2:enumeration ;"@],
        Lv2Range::Logarithmic { .. } => seq!["        lv2:portProperty pprop:logarithmic ;"@],
        Lv2Range::Linear { .. } => Seq::empty(),
    };
    let bypass = if p.flags.is_bypass {
        seq!["        lv2:designation lv2:enabled ;"@, BYPASS_COMMENT@]
    } else {
        Seq::empty()
    };
    let readonly = if p.flags.readonly {
        seq!["        lv2:portProperty pprop:notAutomatic ;"@]
    } else {
        Seq::empty()
    };
    let hidden = if p.flags.hidden {
        seq!["        lv2:portProperty pprop:notOnGUI ;"@]
    } else {
        Seq::empty()
    };
    unit + spacing + bypass + readonly + hidden
}

proof fn lemma_more_lines(f: Seq<char>, lines: Seq<Seq<char>>, more: Seq<Seq<char>>)
    ensures
        more.len() == 0 ==> lines + more == lines,
        more.len() == 1 ==> ln(f + joined(lines), more[0]) == f + joined(lines + more),
        more.len() == 2 ==> ln(ln(f + joined(lines), more[0]), more[1]) == f + joined(lines + more),
{
    if more.len() == 0 {
        assert(lines + more =~= lines);
    } else {
        lemma_line_joins(f, lines, more[0]);
        if more.len() == 1 {
            assert(lines + more =~= lines.push(more[0]));
        } else if more.len() == 2 {
            lemma_line_joins(f, lines.push(more[0]), more[1]);
            assert(lines + more =~= lines.push(more[0]).push(more[1]));
        }
    }
}

#[verifier::spinoff_prover]
proof fn lemma_port_lines(f: Seq<char>, index: u32, p: Lv2Param, symbol: Seq<char>)
    ensures
        with_control_port(f, index, p, symbol) == f + joined(
            port_lines(index as nat, p, symbol) + use_lines(p),
        ),
{
    let (low, high) = written_ends(p.range);
    let l0 = Seq::<Seq<char>>::empty();
    assert(f + joined(l0) =~= f);
    let l1 = l0.push("        a lv2:InputPort, lv2:ControlPort ;"@);
    lemma_line_joins(f, l0, l1.last());
    let l2 = l1.push("        lv2:index "@ + decimal(index as nat) + " ;"@);
    lemma_line_joins(f, l1, l2.last());
    let l3 = l2.push("        lv2:symbol \""@ + symbol + "\" ;"@);
    lemma_line_joins(f, l2, l3.last());
    let l4 = l3.push("        lv2:name \""@ + escaped(p.name@) + "\" ;"@);
    lemma_line_joins(f, l3, l4.last());
    let l5 = l4.push("        lv2:minimum "@ + low + " ;"@);
    lemma_line_joins(f, l4, l5.last());
    let l6 = l5.push("        lv2:maximum "@ + high + " ;"@);
    lemma_line_joins(f, l5, l6.last());
    let l7 = l6.push("        lv2:default "@ + p.default_text@ + " ;"@);
    lemma_line_joins(f, l6, l7.last());
    assert(l7 =~= port_lines(index as nat, p, symbol));
    lemma_use_lines(f, l7, p);
}

proof fn lemma_assoc(a: Seq<Seq<char>>, b: Seq<Seq<char>>, c: Seq<Seq<char>>)
    ensures
        a + b + c == a + (b + c),
{
    assert(a + b + c =~= a + (b + c));
}

/// The end of a parameter's port, behind some text.
spec fn with_uses(f: Seq<char>, p: Lv2Param) -> Seq<char> {
    let f = match unit_text(p.unit) {
        Some(unit) => ln(f, "        units:unit units:"@ + unit + " ;"@),
        None => f,
    };
    let f = if p.range is Discrete {
        ln(f, "        lv2:portProperty lv2:integer ;"@)
    } else {
        f
    };
    let f = if p.range is Enum {
        ln(f, "        lv2:portProperty lv2:integer, lv2:enumeration ;"@)
    } else {
        f
    };
    let f = if p.range is Logarithmic {
        ln(f, "        lv2:portProperty pprop:logarithmic ;"@)
    } else {
        f
    };
    let f = if p.flags.is_bypass {
        ln(ln(f, "        lv2:designation lv2:enabled ;"@), BYPASS_COMMENT@)
    } else {
        f
    };
    let f = if p.flags.readonly {
        ln(f, "        lv2:portProperty pprop:notAutomatic ;"@)
    } else {
        f
    };
    if p.flags.hidden {
        ln(f, "        lv2:portProperty pprop:notOnGUI ;"@)
    } else {
        f
    }
}

#[verifier::spinoff_prover]
proof fn lemma_use_lines(f: Seq<char>, l7: Seq<Seq<char>>, p: Lv2Param)
    ensures
        with_uses(f + joined(l7), p) == f + joined(l7 + use_lines(p)),
{
    let unit: Seq<Seq<char>> = match unit_text(p.unit) {
        Some(unit) => seq!["        units:unit units:"@ + unit + " ;"@],
        None => Seq::empty(),
    };
    lemma_more_lines(f, l7, unit);
    let spacing: Seq<Seq<char>> = match p.range {
        Lv2Range::Discrete { .. } => seq!["        lv2:portProperty lv2:integer ;"@],
        Lv2Range::Enum { .. } => seq!["        lv2:portProperty lv2:integer, lv2:enumeration ;"@],
        Lv2Range::Logarithmic { .. } => seq!["        lv2:portProperty pprop:logarithmic ;"@],
        Lv2Range::Linear { .. } => Seq::empty(),
    };
    lemma_more_lines(f, l7 + unit, spacing);
    let bypass: Seq<Seq<char>> = if p.flags.is_bypass {
        seq!["        lv2:designation lv2:enabled ;"@, BYPASS_COMMENT@]
    } else {
        Seq::empty()
    };
    lemma_more_lines(f, l7 + unit + spacing, bypass);
    let readonly: Seq<Seq<char>> = if p.flags.readonly {
        seq!["        lv2:portProperty pprop:notAutomatic ;"@]
    } else {
        Seq::empty()
    };
    lemma_more_lines(f, l7 + unit + spacing + bypass, readonly);
    let hidden: Seq<Seq<char>> = if p.flags.hidden {
        seq!["        lv2:portProperty pprop:notOnGUI ;"@]
    } else {
        Seq::empty()
    };
    lemma_more_lines(f, l7 + unit + spacing + bypass + readonly, hidden);
    assert(use_lines(p) == unit + spacing + bypass + readonly + hidden);
    lemma_assoc(l7, unit, spacing);
    lemma_assoc(l7, unit + spacing, bypass);
    lemma_assoc(l7, unit + spacing + bypass, readonly);
    lemma_assoc(l7, unit + spacing + bypass + readonly, hidden);
}

#[verifier::spinoff_prover]
proof fn lemma_port_front(f: Seq<char>, index: u32, b: Lv2Bundle, layout: Layout, symbols: Seq<Seq<char>>)
    ensures
        f.is_prefix_of(with_port(f, index, b, layout, symbols)),
{
    lemma_fronts();
    assert(f.is_prefix_of(f));
    let f1 = ln(f, ""@);
    assert(f.is_prefix_of(f1));
    match port_kind(layout, index as int) {
        PortKind::Control(slot) => {
            lemma_port_lines(f1, index, b.params@[slot], symbols[slot]);
        },
        _ => {},
    }
}

proof fn lemma_ports_front(
    f: Seq<char>,
    m: int,
    n: int,
    b: Lv2Bundle,
    layout: Layout,
    symbols: Seq<Seq<char>>,
    front: Seq<char>,
)
    requires
        0 <= m <= n,
        front.is_prefix_of(with_ports(f, m, b, layout, symbols)),
    ensures
        front.is_prefix_of(with_ports(f, n, b, layout, symbols)),
    decreases n,
{
    if m < n {
        lemma_ports_front(f, m, n - 1, b, layout, symbols, front);
        lemma_fronts();
        let before = with_ports(f, n - 1, b, layout, symbols);
        let g = before + if n == 1 {
            " ["@
        } else {
            ",\n        ["@
        };
        assert(front.is_prefix_of(g));
        let h = with_port(g, (n - 1) as u32, b, layout, symbols);
        lemma_port_front(g, (n - 1) as u32, b, layout, symbols);
        assert(h.subrange(0, g.len() as int) == g);
        assert(h.subrange(0, front.len() as int) =~= g.subrange(0, front.len() as int));
        assert(front.is_prefix_of(h));
    }
}

proof fn lemma_blocks_front(
    f: Seq<char>,
    uri: Seq<char>,
    params: Seq<Lv2Param>,
    m: int,
    n: int,
    front: Seq<char>,
)
    requires
        0 <= m <= n,
        front.is_prefix_of(with_param_blocks(f, uri, params, m)),
    ensures
        front.is_prefix_of(with_param_blocks(f, uri, params, n)),
    decreases n,
{
    if m < n {
        lemma_blocks_front(f, uri, params, m, n - 1, front);
        lemma_fronts();
    }
}

proof fn lemma_ports_in_text(b: Lv2Bundle, layout: Layout, so_name: Seq<char>, n: int, front: Seq<char>)
    requires
        0 <= n <= layout.ports(),
        ({
            let count = b.params@.len() as int;
            let head = with_writables(
                with_plugin_head(Seq::empty(), b, so_name),
                b.uri@,
                b.params@,
                count,
            ) + "    lv2:port"@;
            front.is_prefix_of(with_ports(head, n, b, layout, symbols_of(b.params@, count)))
        }),
    ensures
        front.is_prefix_of(plugin_ttl_text(b, layout, so_name)),
{
    let count = b.params@.len() as int;
    let head = with_writables(
        with_plugin_head(Seq::empty(), b, so_name),
        b.uri@,
        b.params@,
        count,
    ) + "    lv2:port"@;
    let symbols = symbols_of(b.params@, count);
    lemma_ports_front(head, n, layout.ports(), b, layout, symbols, front);
    lemma_fronts();
    let all = ln(with_ports(head, layout.ports(), b, layout, symbols), " ."@);
    assert(front.is_prefix_of(all));
    lemma_blocks_front(all, b.uri@, b.params@, 0, count, front);
}

/// The description of a plugin has a port for each parameter: number by number behind the
/// audio ports, with the parameter's name and default, the lower end of its own range as
/// the minimum and the upper end as the maximum, and with what it is good for.
pub proof fn law_each_parameter_has_its_port(b: Lv2Bundle, so_name: Seq<char>, k: int)
    requires
        lays_out(layout_of(b), b),
        0 <= k < b.params@.len(),
    ensures
        holds(
            plugin_ttl_text(b, layout_of(b), so_name),
            joined(
                port_lines(
                    (b.audio_in + b.audio_out + k) as nat,
                    b.params@[k],
                    symbols_of(b.params@, b.params@.len() as int)[k],
                ) + use_lines(b.params@[k]),
            ) + "    ]"@,
        ),
{
    let layout = layout_of(b);
    let count = b.params@.len() as int;
    let symbols = symbols_of(b.params@, count);
    let index = b.audio_in + b.audio_out + k;
    let head = with_writables(
        with_plugin_head(Seq::empty(), b, so_name),
        b.uri@,
        b.params@,
        count,
    ) + "    lv2:port"@;
    let f = with_ports(head, index, b, layout, symbols) + if index == 0 {
        " ["@
    } else {
        ",\n        ["@
    };
    let g = ln(f, ""@);
    let part = joined(
        port_lines(index as nat, b.params@[k], symbols[k]) + use_lines(b.params@[k]),
    ) + "    ]"@;
    assert(port_kind(layout, index) == PortKind::Control(k));
    lemma_port_lines(g, index as u32, b.params@[k], symbols[k]);
    assert(with_ports(head, index + 1, b, layout, symbols) =~= g + part);
    lemma_fronts();
    lemma_ports_in_text(b, layout, so_name, index + 1, g + part);
    lemma_front_holds(g, part, plugin_ttl_text(b, layout, so_name));
}

/// The lines of a parameter's own block.
pub open spec fn block_lines(uri: Seq<char>, p: Lv2Param) -> Seq<Seq<char>> {
    let (low, high) = written_ends(p.range);
    seq![
        "<"@ + uri + "#p_"@ + decimal(p.id as nat) + ">"@,
        "    a lv2:Parameter ;"@,
        "    rdfs:label \""@ + escaped(p.name@) + "\" ;"@,
        "    rdfs:range atom:Float ;"@,
        "    lv2:minimum "@ + low + " ;"@,
        "    lv2:maximum "@ + high + " ;"@,
        "    lv2:default "@ + p.default_text@ + " ;"@,
    ]
}

/// The description of a plugin has a block for each parameter, with the same name, ends
/// and default as its port.
pub proof fn law_each_parameter_has_its_block(b: Lv2Bundle, so_name: Seq<char>, k: int)
    requires
        0 <= k < b.params@.len(),
    ensures
        holds(
            plugin_ttl_text(b, layout_of(b), so_name),
            joined(block_lines(b.uri@, b.params@[k])),
        ),
{
    let layout = layout_of(b);
    let count = b.params@.len() as int;
    let p = b.params@[k];
    let uri = b.uri@;
    let (low, high) = written_ends(p.range);
    let head = with_writables(with_plugin_head(Seq::empty(), b, so_name), uri, b.params@, count)
        + "    lv2:port"@;
    let start = ln(
        with_ports(head, layout.ports(), b, layout, symbols_of(b.params@, count)),
        " ."@,
    );
    let f = ln(with_param_blocks(start, uri, b.params@, k), ""@);
    let l0 = Seq::<Seq<char>>::empty();
    assert(f + joined(l0) =~= f);
    let l1 = l0.push("<"@ + uri + "#p_"@ + decimal(p.id as nat) + ">"@);
    lemma_line_joins(f, l0, l1.last());
    let l2 = l1.push("    a lv2:Parameter ;"@);
    lemma_line_joins(f, l1, l2.last());
    let l3 = l2.push("    rdfs:label \""@ + escaped(p.name@) + "\" ;"@);
    lemma_line_joins(f, l2, l3.last());
    let l4 = l3.push("    rdfs:range atom:Float ;"@);
    lemma_line_joins(f, l3, l4.last());
    let l5 = l4.push("    lv2:minimum "@ + low + " ;"@);
    lemma_line_joins(f, l4, l5.last());
    let l6 = l5.push("    lv2:maximum "@ + high + " ;"@);
    lemma_line_joins(f, l5, l6.last());
    let l7 = l6.push("    lv2:default "@ + p.default_text@ + " ;"@);
    lemma_line_joins(f, l6, l7.last());
    assert(l7 =~= block_lines(uri, p));
    let g = f + joined(l7);
    lemma_fronts();
    assert(g.is_prefix_of(g));
    assert(g.is_prefix_of(with_param_blocks(start, uri, b.params@, k + 1)));
    lemma_blocks_front(start, uri, b.params@, k + 1, count, g);
    lemma_front_holds(f, joined(l7), plugin_ttl_text(b, layout, so_name));
}

/// The description of a plugin has a port for each audio channel and each meter, under its
/// own number and symbol: inputs first, then outputs, and the meters behind the parameters.
pub proof fn law_each_channel_and_meter_has_its_port(b: Lv2Bundle, so_name: Seq<char>, k: int)
    requires
        lays_out(layout_of(b), b),
    ensures
        ({
            let text = plugin_ttl_text(b, layout_of(b), so_name);
            &&& 0 <= k < b.audio_in ==> holds(
                text,
                joined(
                    seq![
                        "        a lv2:InputPort, lv2:AudioPort ;"@,
                        "        lv2:index "@ + decimal(k as nat) + " ;"@,
                        "        lv2:symbol \"in_"@ + decimal(k as nat) + "\" ;"@,
                        "        lv2:name \"Audio In "@ + decimal((k + 1) as nat) + "\" ;"@,
                    ],
                ),
            )
            &&& 0 <= k < b.audio_out ==> holds(
                text,
                joined(
                    seq![
                        "        a lv2:OutputPort, lv2:AudioPort ;"@,
                        "        lv2:index "@ + decimal((b.audio_in + k) as nat) + " ;"@,
                        "        lv2:symbol \"out_"@ + decimal(k as nat) + "\" ;"@,
                        "        lv2:name \"Audio Out "@ + decimal((k + 1) as nat) + "\" ;"@,
                    ],
                ),
            )
            &&& 0 <= k < b.meter_ids@.len() ==> holds(
                text,
                joined(
                    seq![
                        "        a lv2:OutputPort, lv2:ControlPort ;"@,
                        "        lv2:index "@ + decimal(
                            (b.audio_in + b.audio_out + b.params@.len() + k) as nat,
                        ) + " ;"@,
                        "        lv2:symbol \"meter_"@ + decimal(k as nat) + "\" ;"@,
                        "        lv2:name \"Meter "@ + decimal((k + 1) as nat) + "\" ;"@,
                    ],
                ) + METER_PORT_RANGE@ + joined(
                    seq![
                        "        rdfs:comment \"truce meter id "@ + decimal(
                            b.meter_ids@[k] as nat,
                        ) + "\" ;"@,
                    ],
                ),
            )
        }),
{
    if 0 <= k < b.audio_in {
        lemma_simple_port(
            b,
            so_name,
            k,
            "        a lv2:InputPort, lv2:AudioPort ;"@,
            "        lv2:symbol \"in_"@ + decimal(k as nat) + "\" ;"@,
            "        lv2:name \"Audio In "@ + decimal((k + 1) as nat) + "\" ;"@,
        );
    }
    if 0 <= k < b.audio_out {
        lemma_simple_port(
            b,
            so_name,
            b.audio_in + k,
            "        a lv2:OutputPort, lv2:AudioPort ;"@,
            "        lv2:symbol \"out_"@ + decimal(k as nat) + "\" ;"@,
            "        lv2:name \"Audio Out "@ + decimal((k + 1) as nat) + "\" ;"@,
        );
    }
    if 0 <= k < b.meter_ids@.len() {
        lemma_meter_port(b, so_name, k);
    }
}

spec fn text_before_port(b: Lv2Bundle, so_name: Seq<char>, index: int) -> Seq<char> {
    let count = b.params@.len() as int;
    let head = with_writables(
        with_plugin_head(Seq::empty(), b, so_name),
        b.uri@,
        b.params@,
        count,
    ) + "    lv2:port"@;
    let f = with_ports(head, index, b, layout_of(b), symbols_of(b.params@, count)) + if index == 0 {
        " ["@
    } else {
        ",\n        ["@
    };
    ln(f, ""@)
}

proof fn lemma_simple_port(
    b: Lv2Bundle,
    so_name: Seq<char>,
    index: int,
    kind: Seq<char>,
    symbol: Seq<char>,
    name: Seq<char>,
)
    requires
        lays_out(layout_of(b), b),
        0 <= index < b.audio_in + b.audio_out,
        index < b.audio_in ==> kind == "        a lv2:InputPort, lv2:AudioPort ;"@ && symbol
            == "        lv2:symbol \"in_"@ + decimal(index as nat) + "\" ;"@ && name
            == "        lv2:name \"Audio In "@ + decimal((index + 1) as nat) + "\" ;"@,
        index >= b.audio_in ==> kind == "        a lv2:OutputPort, lv2:AudioPort ;"@ && symbol
            == "        lv2:symbol \"out_"@ + decimal((index - b.audio_in) as nat) + "\" ;"@ && name
            == "        lv2:name \"Audio Out "@ + decimal((index - b.audio_in + 1) as nat)
            + "\" ;"@,
    ensures
        holds(
            plugin_ttl_text(b, layout_of(b), so_name),
            joined(seq![kind, "        lv2:index "@ + decimal(index as nat) + " ;"@, symbol, name]),
        ),
{
    let layout = layout_of(b);
    let f = text_before_port(b, so_name, index);
    let l0 = Seq::<Seq<char>>::empty();
    assert(f + joined(l0) =~= f);
    let l1 = l0.push(kind);
    lemma_line_joins(f, l0, kind);
    let l2 = l1.push("        lv2:index "@ + decimal(index as nat) + " ;"@);
    lemma_line_joins(f, l1, l2.last());
    let l3 = l2.push(symbol);
    lemma_line_joins(f, l2, symbol);
    let l4 = l3.push(name);
    lemma_line_joins(f, l3, name);
    assert(l4 =~= seq![kind, "        lv2:index "@ + decimal(index as nat) + " ;"@, symbol, name]);
    let g = f + joined(l4);
    lemma_fronts();
    assert(g.is_prefix_of(g));
    lemma_ports_in_text(b, layout, so_name, index + 1, g);
    lemma_front_holds(f, joined(l4), plugin_ttl_text(b, layout, so_name));
}

proof fn lemma_meter_port(b: Lv2Bundle, so_name: Seq<char>, k: int)
    requires
        lays_out(layout_of(b), b),
        0 <= k < b.meter_ids@.len(),
    ensures
        holds(
            plugin_ttl_text(b, layout_of(b), so_name),
            joined(
                seq![
                    "        a lv2:OutputPort, lv2:ControlPort ;"@,
                    "        lv2:index "@ + decimal(
                        (b.audio_in + b.audio_out + b.params@.len() + k) as nat,
                    ) + " ;"@,
                    "        lv2:symbol \"meter_"@ + decimal(k as nat) + "\" ;"@,
                    "        lv2:name \"Meter "@ + decimal((k + 1) as nat) + "\" ;"@,
                ],
            ) + METER_PORT_RANGE@ + joined(
                seq![
                    "        rdfs:comment \"truce meter id "@ + decimal(b.meter_ids@[k] as nat)
                        + "\" ;"@,
                ],
            ),
        ),
{
    let layout = layout_of(b);
    let index = b.audio_in + b.audio_out + b.params@.len() + k;
    let f = text_before_port(b, so_name, index);
    let l0 = Seq::<Seq<char>>::empty();
    assert(f + joined(l0) =~= f);
    let l1 = l0.push("        a lv2:OutputPort, lv2:ControlPort ;"@);
    lemma_line_joins(f, l0, l1.last());
    let l2 = l1.push("        lv2:index "@ + decimal(index as nat) + " ;"@);
    lemma_line_joins(f, l1, l2.last());
    let l3 = l2.push("        lv2:symbol \"meter_"@ + decimal(k as nat) + "\" ;"@);
    lemma_line_joins(f, l2, l3.last());
    let l4 = l3.push("        lv2:name \"Meter "@ + decimal((k + 1) as nat) + "\" ;"@);
    lemma_line_joins(f, l3, l4.last());
    let note = "        rdfs:comment \"truce meter id "@ + decimal(b.meter_ids@[k] as nat) + "\" ;"@;
    let m1 = l0.push(note);
    let mid = f + joined(l4) + METER_PORT_RANGE@;
    assert(mid + joined(l0) =~= mid);
    lemma_line_joins(mid, l0, note);
    assert(m1 =~= seq![note]);
    let want = seq![
        "        a lv2:OutputPort, lv2:ControlPort ;"@,
        "        lv2:index "@ + decimal(
            (b.audio_in + b.audio_out + b.params@.len() + k) as nat,
        ) + " ;"@,
        "        lv2:symbol \"meter_"@ + decimal(k as nat) + "\" ;"@,
        "        lv2:name \"Meter "@ + decimal((k + 1) as nat) + "\" ;"@,
    ];
    assert(l4 =~= want);
    let part = joined(want) + METER_PORT_RANGE@ + joined(seq![note]);
    assert(port_kind(layout, index) == PortKind::Meter(k));
    assert(mid + joined(m1) =~= f + part);
    let g = f + part;
    lemma_fronts();
    assert(g.is_prefix_of(g));
    lemma_ports_in_text(b, layout, so_name, index + 1, g);
    lemma_front_holds(f, part, plugin_ttl_text(b, layout, so_name));
}

/// A preset's file gives each port its value, by the port's symbol.
pub proof fn law_presets_give_ports_their_values(
    plugin_uri: Seq<char>,
    uuid: Seq<char>,
    label: Seq<char>,
    state_text: Seq<char>,
    port_values: Seq<(String, String)>,
    k: int,
)
    ensures
        ({
            let text = preset_ttl_text(plugin_uri, uuid, label, state_text, port_values);
            &&& 0 <= k < port_values.len() ==> holds(
                text,
                joined(
                    seq![
                        "    lv2:port ["@,
                        "        lv2:symbol \""@ + escaped(port_values[k].0@) + "\" ;"@,
                        "        pset:value "@ + port_values[k].1@,
                        "    ] ;"@,
                    ],
                ),
            )
            &&& holds(
                text,
                joined(
                    seq![
                        "    state:state ["@,
                        "        <urn:truce:state-blob> \""@ + state_text
                            + "\"^^xsd:base64Binary"@,
                        "    ] ."@,
                    ],
                ),
            )
            &&& holds(
                text,
                joined(
                    seq![
                        "<"@ + plugin_uri + "#preset-"@ + uuid + ">"@,
                        "    a pset:Preset ;"@,
                        "    lv2:appliesTo <"@ + plugin_uri + "> ;"@,
                        "    rdfs:label \""@ + escaped(label) + "\" ;"@,
                    ],
                ),
            )
        }),
{
    let text = preset_ttl_text(plugin_uri, uuid, label, state_text, port_values);
    let n = port_values.len() as int;
    let head = with_preset_head(Seq::empty(), plugin_uri, uuid, label);
    let l0 = Seq::<Seq<char>>::empty();
    lemma_fronts();
    if 0 <= k < n {
        let f = with_port_values(head, port_values, k);
        assert(f + joined(l0) =~= f);
        let l1 = l0.push("    lv2:port ["@);
        lemma_line_joins(f, l0, l1.last());
        let l2 = l1.push("        lv2:symbol \""@ + escaped(port_values[k].0@) + "\" ;"@);
        lemma_line_joins(f, l1, l2.last());
        let value = "        pset:value "@ + port_values[k].1@;
        reveal_strlit("");
        assert(value + ""@ =~= value);
        let l3 = l2.push(value);
        lemma_line_joins(f, l2, value);
        let l4 = l3.push("    ] ;"@);
        lemma_line_joins(f, l3, l4.last());
        let g = f + joined(l4);
        assert(g == with_port_values(head, port_values, k + 1));
        assert(g.is_prefix_of(g));
        lemma_values_front(head, port_values, k + 1, n, g);
        assert(g.is_prefix_of(text));
        assert(l4 =~= seq![
            "    lv2:port ["@,
            "        lv2:symbol \""@ + escaped(port_values[k].0@) + "\" ;"@,
            "        pset:value "@ + port_values[k].1@,
            "    ] ;"@,
        ]);
        lemma_front_holds(f, joined(l4), text);
    }
    let f = with_port_values(head, port_values, n);
    assert(f + joined(l0) =~= f);
    let s1 = l0.push("    state:state ["@);
    lemma_line_joins(f, l0, s1.last());
    let s2 = s1.push("        <urn:truce:state-blob> \""@ + state_text + "\"^^xsd:base64Binary"@);
    lemma_line_joins(f, s1, s2.last());
    let s3 = s2.push("    ] ."@);
    lemma_line_joins(f, s2, s3.last());
    assert(s3 =~= seq![
        "    state:state ["@,
        "        <urn:truce:state-blob> \""@ + state_text + "\"^^xsd:base64Binary"@,
        "    ] ."@,
    ]);
    assert((f + joined(s3)).is_prefix_of(text));
    lemma_front_holds(f, joined(s3), text);
    let p = Seq::<char>::empty() + PRESET_PREFIXES@;
    assert(p + joined(l0) =~= p);
    let address = "<"@ + (plugin_uri + "#preset-"@ + uuid) + ">"@;
    assert(address =~= "<"@ + plugin_uri + "#preset-"@ + uuid + ">"@);
    let h1 = l0.push(address);
    lemma_line_joins(p, l0, address);
    let h2 = h1.push("    a pset:Preset ;"@);
    lemma_line_joins(p, h1, h2.last());
    let h3 = h2.push("    lv2:appliesTo <"@ + plugin_uri + "> ;"@);
    lemma_line_joins(p, h2, h3.last());
    let h4 = h3.push("    rdfs:label \""@ + escaped(label) + "\" ;"@);
    lemma_line_joins(p, h3, h4.last());
    assert(head == p + joined(h4));
    assert(h4 =~= seq![
        "<"@ + plugin_uri + "#preset-"@ + uuid + ">"@,
        "    a pset:Preset ;"@,
        "    lv2:appliesTo <"@ + plugin_uri + "> ;"@,
        "    rdfs:label \""@ + escaped(label) + "\" ;"@,
    ]);
    assert(head.is_prefix_of(head));
    lemma_values_front(head, port_values, 0, n, head);
    assert(head.is_prefix_of(text));
    lemma_front_holds(p, joined(h4), text);
}

proof fn lemma_values_front(
    f: Seq<char>,
    values: Seq<(String, String)>,
    m: int,
    n: int,
    front: Seq<char>,
)
    requires
        0 <= m <= n,
        front.is_prefix_of(with_port_values(f, values, m)),
    ensures
        front.is_prefix_of(with_port_values(f, values, n)),
    decreases n,
{
    if m < n {
        lemma_values_front(f, values, m, n - 1, front);
        lemma_fronts();
    }
}

/// The manifest names the plugin by its address, and says where its binary and its
/// description are; with an editor it names that too, and its binary.
pub proof fn law_manifest_names_the_files(b: Lv2Bundle, ttl: Seq<char>, so_name: Seq<char>)
    ensures
        ({
            let text = manifest_ttl_text(b, layout_of(b), ttl, so_name);
            &&& holds(
                text,
                joined(
                    seq![
                        "<"@ + b.uri@ + ">"@,
                        "    a lv2:Plugin ;"@,
                        "    lv2:binary <"@ + so_name + "> ;"@,
                        "    rdfs:seeAlso <"@ + ttl + "> ."@,
                    ],
                ),
            )
            &&& b.has_ui ==> holds(
                text,
                joined(
                    seq![
                        "<"@ + b.ui_uri@ + ">"@,
                        match b.ui_kind {
                            Lv2UiKind::Cocoa => "    a ui:CocoaUI ;"@,
                            Lv2UiKind::Windows => "    a ui:WindowsUI ;"@,
                            Lv2UiKind::X11 => "    a ui:X11UI ;"@,
                        },
                        "    ui:binary <"@ + so_name + "> ;"@,
                        "    ui:portNotification ["@,
                        "        ui:plugin <"@ + b.uri@ + "> ;"@,
                    ],
                ),
            )
        }),
{
    let text = manifest_ttl_text(b, layout_of(b), ttl, so_name);
    let l0 = Seq::<Seq<char>>::empty();
    lemma_fronts();
    let p = Seq::<char>::empty() + MANIFEST_PREFIXES@;
    assert(p + joined(l0) =~= p);
    let h1 = l0.push("<"@ + b.uri@ + ">"@);
    lemma_line_joins(p, l0, h1.last());
    let h2 = h1.push("    a lv2:Plugin ;"@);
    lemma_line_joins(p, h1, h2.last());
    let h3 = h2.push("    lv2:binary <"@ + so_name + "> ;"@);
    lemma_line_joins(p, h2, h3.last());
    let h4 = h3.push("    rdfs:seeAlso <"@ + ttl + "> ."@);
    lemma_line_joins(p, h3, h4.last());
    let head = with_manifest_head(Seq::empty(), b.uri@, so_name, ttl);
    assert(head == p + joined(h4));
    assert(h4 =~= seq![
        "<"@ + b.uri@ + ">"@,
        "    a lv2:Plugin ;"@,
        "    lv2:binary <"@ + so_name + "> ;"@,
        "    rdfs:seeAlso <"@ + ttl + "> ."@,
    ]);
    assert(head.is_prefix_of(head));
    if b.has_ui {
        let f = ln(head, ""@);
        assert(f + joined(l0) =~= f);
        let kind = match b.ui_kind {
            Lv2UiKind::Cocoa => "    a ui:CocoaUI ;"@,
            Lv2UiKind::Windows => "    a ui:WindowsUI ;"@,
            Lv2UiKind::X11 => "    a ui:X11UI ;"@,
        };
        let u1 = l0.push("<"@ + b.ui_uri@ + ">"@);
        lemma_line_joins(f, l0, u1.last());
        let u2 = u1.push(kind);
        lemma_line_joins(f, u1, kind);
        let u3 = u2.push("    ui:binary <"@ + so_name + "> ;"@);
        lemma_line_joins(f, u2, u3.last());
        let u4 = u3.push("    ui:portNotification ["@);
        lemma_line_joins(f, u3, u4.last());
        let u5 = u4.push("        ui:plugin <"@ + b.uri@ + "> ;"@);
        lemma_line_joins(f, u4, u5.last());
        let g = f + joined(u5);
        assert(g.is_prefix_of(g));
        let ui = with_manifest_ui(head, b, so_name);
        assert(g.is_prefix_of(ui));
        lemma_notes_front(ui, b.uri@, layout_of(b).num_meters as int, g);
        assert(head.is_prefix_of(ui));
        lemma_notes_front(ui, b.uri@, layout_of(b).num_meters as int, head);
        assert(g.is_prefix_of(text));
        assert(u5 =~= seq![
            "<"@ + b.ui_uri@ + ">"@,
            kind,
            "    ui:binary <"@ + so_name + "> ;"@,
            "    ui:portNotification ["@,
            "        ui:plugin <"@ + b.uri@ + "> ;"@,
        ]);
        lemma_front_holds(f, joined(u5), text);
    }
    assert(head.is_prefix_of(text));
    lemma_front_holds(p, joined(h4), text);
}

proof fn lemma_notes_front(f: Seq<char>, uri: Seq<char>, n: int, front: Seq<char>)
    requires
        front.is_prefix_of(f),
    ensures
        front.is_prefix_of(with_meter_notes(f, uri, n)),
    decreases n,
{
    if n > 0 {
        lemma_notes_front(f, uri, n - 1, front);
        lemma_fronts();
    }
}

proof fn lemma_writables_front(
    f: Seq<char>,
    uri: Seq<char>,
    params: Seq<Lv2Param>,
    m: int,
    n: int,
    front: Seq<char>,
)
    requires
        0 <= m <= n,
        front.is_prefix_of(with_writables(f, uri, params, m)),
    ensures
        front.is_prefix_of(with_writables(f, uri, params, n)),
    decreases n,
{
    if m < n {
        lemma_writables_front(f, uri, params, m, n - 1, front);
        lemma_fronts();
    }
}

proof fn lemma_head_in_text(b: Lv2Bundle, so_name: Seq<char>, m: int, front: Seq<char>)
    requires
        lays_out(layout_of(b), b),
        0 <= m <= b.params@.len(),
        front.is_prefix_of(
            with_writables(with_plugin_head(Seq::empty(), b, so_name), b.uri@, b.params@, m),
        ),
    ensures
        front.is_prefix_of(plugin_ttl_text(b, layout_of(b), so_name)),
{
    let head = with_plugin_head(Seq::empty(), b, so_name);
    let count = b.params@.len() as int;
    lemma_writables_front(head, b.uri@, b.params@, m, count, front);
    lemma_fronts();
    let all = with_writables(head, b.uri@, b.params@, count) + "    lv2:port"@;
    assert(front.is_prefix_of(all));
    assert(with_ports(all, 0, b, layout_of(b), symbols_of(b.params@, count)) == all);
    lemma_ports_in_text(b, layout_of(b), so_name, 0, front);
}

/// The description of a plugin names it: its address and its class, its name and its
/// maker's, the binary that it is in, and its editor where it has one. Each parameter is
/// announced as one that messages can set, by its own number.
pub proof fn law_description_names_the_plugin(b: Lv2Bundle, so_name: Seq<char>, k: int)
    requires
        lays_out(layout_of(b), b),
    ensures
        ({
            let text = plugin_ttl_text(b, layout_of(b), so_name);
            &&& holds(
                text,
                joined(
                    seq![
                        "<"@ + b.uri@ + ">"@,
                        match b.category {
                            Lv2Category::Effect => "    a lv2:Plugin ;"@,
                            Lv2Category::Instrument => "    a lv2:Plugin, "@
                                + "lv2:InstrumentPlugin"@ + " ;"@,
                            Lv2Category::NoteEffect => "    a lv2:Plugin, "@ + "lv2:MIDIPlugin"@
                                + " ;"@,
                            Lv2Category::Analyzer => "    a lv2:Plugin, "@ + "lv2:AnalyserPlugin"@
                                + " ;"@,
                            Lv2Category::Tool => "    a lv2:Plugin, "@ + "lv2:UtilityPlugin"@
                                + " ;"@,
                        },
                        "    doap:name \""@ + escaped(b.plugin_name@) + "\" ;"@,
                        "    doap:maintainer ["@,
                        "        a foaf:Person ; foaf:name \""@ + escaped(b.vendor@) + "\""@,
                    ] + (if b.url@.len() > 0 {
                        seq!["        ; foaf:homepage <"@ + b.url@ + ">"@]
                    } else {
                        Seq::empty()
                    }) + seq![
                        "    ] ;"@,
                        "    lv2:binary <"@ + so_name + "> ;"@,
                        "    lv2:extensionData state:interface ;"@,
                    ] + (if b.has_ui {
                        seq!["    ui:ui <"@ + b.ui_uri@ + "> ;"@]
                    } else {
                        Seq::empty()
                    }),
                ),
            )
            &&& 0 <= k < b.params@.len() ==> holds(
                text,
                joined(
                    seq![
                        "    patch:writable <"@ + b.uri@ + "#p_"@ + decimal(
                            b.params@[k].id as nat,
                        ) + "> ;"@,
                    ],
                ),
            )
        }),
{
    let text = plugin_ttl_text(b, layout_of(b), so_name);
    let p = Seq::<char>::empty() + PLUGIN_PREFIXES@;
    let class = match b.category {
        Lv2Category::Effect => "    a lv2:Plugin ;"@,
        Lv2Category::Instrument => "    a lv2:Plugin, "@ + "lv2:InstrumentPlugin"@ + " ;"@,
        Lv2Category::NoteEffect => "    a lv2:Plugin, "@ + "lv2:MIDIPlugin"@ + " ;"@,
        Lv2Category::Analyzer => "    a lv2:Plugin, "@ + "lv2:AnalyserPlugin"@ + " ;"@,
        Lv2Category::Tool => "    a lv2:Plugin, "@ + "lv2:UtilityPlugin"@ + " ;"@,
    };
    let l0 = Seq::<Seq<char>>::empty();
    assert(p + joined(l0) =~= p);
    let l1 = l0.push("<"@ + b.uri@ + ">"@);
    lemma_line_joins(p, l0, l1.last());
    let l2 = l1.push(class);
    lemma_line_joins(p, l1, class);
    let l3 = l2.push("    doap:name \""@ + escaped(b.plugin_name@) + "\" ;"@);
    lemma_line_joins(p, l2, l3.last());
    let l4 = l3.push("    doap:maintainer ["@);
    lemma_line_joins(p, l3, l4.last());
    let l5 = l4.push("        a foaf:Person ; foaf:name \""@ + escaped(b.vendor@) + "\""@);
    lemma_line_joins(p, l4, l5.last());
    let url: Seq<Seq<char>> = if b.url@.len() > 0 {
        seq!["        ; foaf:homepage <"@ + b.url@ + ">"@]
    } else {
        Seq::empty()
    };
    lemma_more_lines(p, l5, url);
    let l6 = l5 + url;
    let l7 = l6.push("    ] ;"@);
    lemma_line_joins(p, l6, l7.last());
    let l8 = l7.push("    lv2:binary <"@ + so_name + "> ;"@);
    lemma_line_joins(p, l7, l8.last());
    let l9 = l8.push("    lv2:extensionData state:interface ;"@);
    lemma_line_joins(p, l8, l9.last());
    let ui: Seq<Seq<char>> = if b.has_ui {
        seq!["    ui:ui <"@ + b.ui_uri@ + "> ;"@]
    } else {
        Seq::empty()
    };
    lemma_more_lines(p, l9, ui);
    let head = with_plugin_head(Seq::empty(), b, so_name);
    assert(head == p + joined(l9 + ui));
    let first = seq![
        "<"@ + b.uri@ + ">"@,
        class,
        "    doap:name \""@ + escaped(b.plugin_name@) + "\" ;"@,
        "    doap:maintainer ["@,
        "        a foaf:Person ; foaf:name \""@ + escaped(b.vendor@) + "\""@,
    ];
    let last = seq![
        "    ] ;"@,
        "    lv2:binary <"@ + so_name + "> ;"@,
        "    lv2:extensionData state:interface ;"@,
    ];
    assert(l5 =~= first);
    assert(l9 =~= first + url + last);
    lemma_fronts();
    assert(head.is_prefix_of(head));
    assert(with_writables(head, b.uri@, b.params@, 0) == head);
    lemma_head_in_text(b, so_name, 0, head);
    lemma_front_holds(p, joined(l9 + ui), text);
    if 0 <= k < b.params@.len() {
        let f = with_writables(head, b.uri@, b.params@, k);
        let line = "    patch:writable <"@ + b.uri@ + "#p_"@ + decimal(b.params@[k].id as nat)
            + "> ;"@;
        assert(f + joined(l0) =~= f);
        lemma_line_joins(f, l0, line);
        assert(l0.push(line) =~= seq![line]);
        let g = f + joined(seq![line]);
        assert(g == with_writables(head, b.uri@, b.params@, k + 1));
        assert(g.is_prefix_of(g));
        lemma_head_in_text(b, so_name, k + 1, g);
        lemma_front_holds(f, joined(seq![line]), text);
    }
}

/// The description of a plugin has one port for events, one for MIDI out where the plugin
/// sends MIDI, and one for notifications, behind all others and in this order.
pub proof fn law_event_ports_come_last(b: Lv2Bundle, so_name: Seq<char>)
    requires
        lays_out(layout_of(b), b),
    ensures
        ({
            let text = plugin_ttl_text(b, layout_of(b), so_name);
            let at = b.audio_in + b.audio_out + b.params@.len() + b.meter_ids@.len();
            &&& holds(
                text,
                EVENTS_IN_PORT@ + joined(seq!["        lv2:index "@ + decimal(at as nat) + " ;"@])
                    + EVENTS_IN_NAMES@,
            )
            &&& b.has_midi_out ==> holds(
                text,
                MIDI_OUT_PORT@ + joined(
                    seq!["        lv2:index "@ + decimal((at + 1) as nat) + " ;"@],
                ) + "        lv2:symbol \"midi_out\" ;\n        lv2:name \"MIDI Out\" ;\n"@,
            )
            &&& holds(
                text,
                NOTIFY_OUT_PORT@ + joined(
                    seq![
                        "        lv2:index "@ + decimal(
                            (at + if b.has_midi_out {
                                2int
                            } else {
                                1int
                            }) as nat,
                        ) + " ;"@,
                    ],
                ) + NOTIFY_OUT_NAMES@,
            )
        }),
{
    let at = b.audio_in + b.audio_out + b.params@.len() + b.meter_ids@.len();
    lemma_event_port(b, so_name, at, EVENTS_IN_PORT@, EVENTS_IN_NAMES@);
    if b.has_midi_out {
        lemma_event_port(
            b,
            so_name,
            at + 1,
            MIDI_OUT_PORT@,
            "        lv2:symbol \"midi_out\" ;\n        lv2:name \"MIDI Out\" ;\n"@,
        );
    }
    lemma_event_port(
        b,
        so_name,
        at + if b.has_midi_out {
            2int
        } else {
            1int
        },
        NOTIFY_OUT_PORT@,
        NOTIFY_OUT_NAMES@,
    );
}

proof fn lemma_event_port(
    b: Lv2Bundle,
    so_name: Seq<char>,
    index: int,
    port: Seq<char>,
    names: Seq<char>,
)
    requires
        lays_out(layout_of(b), b),
        0 <= index < layout_of(b).ports(),
        match port_kind(layout_of(b), index) {
            PortKind::EventsIn => port == EVENTS_IN_PORT@ && names == EVENTS_IN_NAMES@,
            PortKind::MidiOut => port == MIDI_OUT_PORT@ && names
                == "        lv2:symbol \"midi_out\" ;\n        lv2:name \"MIDI Out\" ;\n"@,
            PortKind::Notify => port == NOTIFY_OUT_PORT@ && names == NOTIFY_OUT_NAMES@,
            _ => false,
        },
    ensures
        holds(
            plugin_ttl_text(b, layout_of(b), so_name),
            port + joined(seq!["        lv2:index "@ + decimal(index as nat) + " ;"@]) + names,
        ),
{
    let f = text_before_port(b, so_name, index);
    let line = "        lv2:index "@ + decimal(index as nat) + " ;"@;
    let l0 = Seq::<Seq<char>>::empty();
    assert(f + port + joined(l0) =~= f + port);
    lemma_line_joins(f + port, l0, line);
    assert(l0.push(line) =~= seq![line]);
    let part = port + joined(seq![line]) + names;
    let g = f + part;
    assert(f + port + joined(seq![line]) + names =~= g);
    lemma_fronts();
    assert(g.is_prefix_of(g));
    lemma_ports_in_text(b, layout_of(b), so_name, index + 1, g);
    lemma_front_holds(f, part, plugin_ttl_text(b, layout_of(b), so_name));
}

/// The manifest entry of a preset names it by the plugin's address and its own identity,
/// and says which plugin it is for and where its file is.
pub proof fn law_preset_entries_name_the_plugin(
    plugin_uri: Seq<char>,
    uuid: Seq<char>,
    ttl: Seq<char>,
)
    ensures
        holds(
            with_preset_entry(Seq::empty(), plugin_uri, uuid, ttl),
            joined(
                seq![
                    "<"@ + plugin_uri + "#preset-"@ + uuid + ">"@,
                    "    a pset:Preset ;"@,
                    "    lv2:appliesTo <"@ + plugin_uri + "> ;"@,
                    "    rdfs:seeAlso <"@ + ttl + "> ."@,
                ],
            ),
        ),
{
    let f = ln(Seq::empty(), ""@);
    let l0 = Seq::<Seq<char>>::empty();
    assert(f + joined(l0) =~= f);
    let address = "<"@ + (plugin_uri + "#preset-"@ + uuid) + ">"@;
    assert(address =~= "<"@ + plugin_uri + "#preset-"@ + uuid + ">"@);
    let l1 = l0.push(address);
    lemma_line_joins(f, l0, address);
    let l2 = l1.push("    a pset:Preset ;"@);
    lemma_line_joins(f, l1, l2.last());
    let l3 = l2.push("    lv2:appliesTo <"@ + plugin_uri + "> ;"@);
    lemma_line_joins(f, l2, l3.last());
    let l4 = l3.push("    rdfs:seeAlso <"@ + ttl + "> ."@);
    lemma_line_joins(f, l3, l4.last());
    assert(l4 =~= seq![
        "<"@ + plugin_uri + "#preset-"@ + uuid + ">"@,
        "    a pset:Preset ;"@,
        "    lv2:appliesTo <"@ + plugin_uri + "> ;"@,
        "    rdfs:seeAlso <"@ + ttl + "> ."@,
    ]);
    lemma_fronts();
    let g = f + joined(l4);
    assert(g.is_prefix_of(g));
    lemma_front_holds(f, joined(l4), with_preset_entry(Seq::empty(), plugin_uri, uuid, ttl));
}

} // verus!

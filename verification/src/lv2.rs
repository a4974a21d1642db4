//! LV2 bundle metadata: identifiers, port layout, and the Turtle files that a
//! host reads.
//!
//! Numbers that are not whole arrive as the text that they are written as.
use crate::encoding::{escape_quoted, escaped};
use crate::text::{decimal, digit_char, from_chars, push_decimal, str_eq, to_chars};
use vstd::prelude::*;
use vstd::string::*;

verus! {

/// A text without the slashes at its end.
pub open spec fn trimmed(s: Seq<char>) -> Seq<char>
    decreases s.len(),
{
    if s.len() > 0 && s.last() == '/' {
        trimmed(s.drop_last())
    } else {
        s
    }
}

/// A plugin's LV2 identifier: below the vendor's address, or a name of its own
/// where there is none.
pub open spec fn uri_of(vendor_url: Seq<char>, bundle_id: Seq<char>) -> Seq<char> {
    if vendor_url.len() == 0 {
        "urn:truce:"@ + bundle_id
    } else {
        trimmed(vendor_url) + "/lv2/"@ + bundle_id
    }
}

/// The plugin's LV2 identifier, which hosts keep in saved sessions.
#[must_use]
pub fn plugin_uri(vendor_url: &str, bundle_id: &str) -> (r: String)
    ensures
        r@ == uri_of(vendor_url@, bundle_id@),
{
    if vendor_url.is_empty() {
        let mut r: String = "urn:truce:".to_owned();
        r.append(bundle_id);
        return r;
    }
    let mut chars: Vec<char> = to_chars(vendor_url);
    while chars.len() > 0 && chars[chars.len() - 1] == '/'
        invariant
            trimmed(chars@) == trimmed(vendor_url@),
        decreases chars@.len(),
    {
        let ghost before = chars@;
        let _ = chars.pop();
        proof {
            assert(chars@ =~= before.drop_last());
        }
    }
    let mut r: String = from_chars(&chars);
    r.append("/lv2/");
    r.append(bundle_id);
    r
}

/// The identifier of a plugin's editor.
#[must_use]
pub fn ui_uri(vendor_url: &str, bundle_id: &str) -> (r: String)
    ensures
        r@ == uri_of(vendor_url@, bundle_id@) + "#ui"@,
{
    let mut r: String = plugin_uri(vendor_url, bundle_id);
    r.append("#ui");
    r
}

/// The identifier of a factory preset, which goes with the preset's own identity
/// and not with where its file is.
#[must_use]
pub fn preset_uri(plugin_uri: &str, uuid: &str) -> (r: String)
    ensures
        r@ == plugin_uri@ + "#preset-"@ + uuid@,
{
    let mut r: String = plugin_uri.to_owned();
    r.append("#preset-");
    r.append(uuid);
    r
}

#[derive(Debug, Clone, Copy, PartialEq, Eq, Structural)]
pub enum Lv2Category {
    Instrument,
    Effect,
    NoteEffect,
    Analyzer,
    Tool,
}

#[derive(Debug, Clone, Copy, PartialEq, Eq, Structural)]
pub enum Lv2Unit {
    NoUnit,
    Db,
    Hz,
    Milliseconds,
    Seconds,
    Percent,
    Semitones,
    Pan,
}

#[derive(Debug, Clone, Copy, PartialEq, Eq, Structural)]
pub struct Lv2Flags {
    pub is_bypass: bool,
    pub readonly: bool,
    pub hidden: bool,
}

impl Default for Lv2Flags {
    fn default() -> (r: Self)
        ensures
            r == (Lv2Flags { is_bypass: false, readonly: false, hidden: false }),
    {
        Lv2Flags { is_bypass: false, readonly: false, hidden: false }
    }
}

/// A parameter's range, its ends written out.
#[derive(Debug)]
pub enum Lv2Range {
    Linear { min: String, max: String },
    Logarithmic { min: String, max: String },
    Discrete { min: String, max: String },
    Enum { count: u32 },
}

impl Lv2Range {
    /// The lower end, written out; an enumeration starts at zero.
    pub open spec fn low(&self) -> Seq<char> {
        match self {
            Lv2Range::Linear { min, .. } => min@,
            Lv2Range::Logarithmic { min, .. } => min@,
            Lv2Range::Discrete { min, .. } => min@,
            Lv2Range::Enum { .. } => "0"@,
        }
    }

    /// The upper end, written out; that of an enumeration is its last value.
    pub open spec fn high(&self) -> Seq<char> {
        match self {
            Lv2Range::Linear { max, .. } => max@,
            Lv2Range::Logarithmic { max, .. } => max@,
            Lv2Range::Discrete { max, .. } => max@,
            Lv2Range::Enum { count } => decimal(
                if *count > 0 {
                    (*count - 1) as nat
                } else {
                    0
                },
            ),
        }
    }

    pub fn min(&self) -> (r: String)
        ensures
            r@ == self.low(),
    {
        match self {
            Lv2Range::Linear { min, .. } => min.clone(),
            Lv2Range::Logarithmic { min, .. } => min.clone(),
            Lv2Range::Discrete { min, .. } => min.clone(),
            Lv2Range::Enum { .. } => "0".to_owned(),
        }
    }

    pub fn max(&self) -> (r: String)
        ensures
            r@ == self.high(),
    {
        match self {
            Lv2Range::Linear { max, .. } => max.clone(),
            Lv2Range::Logarithmic { max, .. } => max.clone(),
            Lv2Range::Discrete { max, .. } => max.clone(),
            Lv2Range::Enum { count } => {
                let mut r: String = String::new();
                push_decimal(
                    &mut r,
                    if *count > 0 {
                        (*count - 1) as u64
                    } else {
                        0
                    },
                );
                r
            },
        }
    }
}

/// A parameter of a bundle. The default is written out, held to the range.
#[derive(Debug)]
pub struct Lv2Param {
    pub id: u32,
    pub name: String,
    pub default_text: String,
    pub range: Lv2Range,
    pub unit: Lv2Unit,
    pub flags: Lv2Flags,
}

/// The window system of the machine that a bundle is built for.
#[derive(Debug, Clone, Copy, PartialEq, Eq, Structural)]
pub enum Lv2UiKind {
    Cocoa,
    Windows,
    X11,
}

/// Everything that a bundle's files are made of.
#[derive(Debug)]
pub struct Lv2Bundle {
    pub plugin_name: String,
    pub vendor: String,
    pub url: String,
    pub uri: String,
    pub ui_uri: String,
    pub category: Lv2Category,
    pub audio_in: u32,
    pub audio_out: u32,
    pub accepts_midi_in: bool,
    pub has_midi_out: bool,
    pub params: Vec<Lv2Param>,
    pub meter_ids: Vec<u32>,
    pub has_ui: bool,
    pub ui_kind: Lv2UiKind,
}

/// How many ports there are of each kind. Ports are numbered in this order:
/// audio in, audio out, controls, meters, events in, MIDI out where there is one,
/// and notifications out.
#[derive(Debug, Clone, Copy, PartialEq, Eq)]
pub struct Layout {
    pub audio_in: u32,
    pub audio_out: u32,
    pub num_params: u32,
    pub num_meters: u32,
    pub has_midi_out: bool,
}

impl Layout {
    pub open spec fn controls_at(&self) -> int {
        self.audio_in + self.audio_out
    }

    pub open spec fn meters_at(&self) -> int {
        self.controls_at() + self.num_params
    }

    pub open spec fn events_in_at(&self) -> int {
        self.meters_at() + self.num_meters
    }

    pub open spec fn notify_at(&self) -> int {
        self.events_in_at() + if self.has_midi_out {
            2int
        } else {
            1int
        }
    }

    /// How many ports there are.
    pub open spec fn ports(&self) -> int {
        self.notify_at() + 1
    }

    /// Every port has a number.
    pub open spec fn wf(&self) -> bool {
        self.ports() <= u32::MAX
    }

    pub fn audio_in_start() -> (r: u32)
        ensures
            r == 0,
    {
        0
    }

    pub fn audio_out_start(&self) -> (r: u32)
        ensures
            r == self.audio_in,
    {
        self.audio_in
    }

    pub fn control_start(&self) -> (r: u32)
        requires
            self.wf(),
        ensures
            r == self.controls_at(),
    {
        self.audio_in + self.audio_out
    }

    pub fn meter_start(&self) -> (r: u32)
        requires
            self.wf(),
        ensures
            r == self.meters_at(),
    {
        self.control_start() + self.num_params
    }

    pub fn atom_in_port(&self) -> (r: u32)
        requires
            self.wf(),
        ensures
            r == self.events_in_at(),
    {
        self.meter_start() + self.num_meters
    }

    pub fn midi_out_port(&self) -> (r: Option<u32>)
        requires
            self.wf(),
        ensures
            match r {
                Some(port) => self.has_midi_out && port == self.events_in_at() + 1,
                None => !self.has_midi_out,
            },
    {
        if self.has_midi_out {
            Some(self.atom_in_port() + 1)
        } else {
            None
        }
    }

    pub fn notify_out_port(&self) -> (r: u32)
        requires
            self.wf(),
        ensures
            r == self.notify_at(),
    {
        match self.midi_out_port() {
            Some(port) => port + 1,
            None => self.atom_in_port() + 1,
        }
    }

    pub fn total(&self) -> (r: u32)
        requires
            self.wf(),
        ensures
            r == self.ports(),
    {
        self.notify_out_port() + 1
    }
}

/// What a port is, by its number.
pub enum PortKind {
    AudioIn(int),
    AudioOut(int),
    Control(int),
    Meter(int),
    EventsIn,
    MidiOut,
    Notify,
}

/// The kind of the port with this number.
pub open spec fn port_kind(layout: Layout, index: int) -> PortKind {
    if index < layout.audio_in {
        PortKind::AudioIn(index)
    } else if index < layout.controls_at() {
        PortKind::AudioOut(index - layout.audio_in)
    } else if index < layout.meters_at() {
        PortKind::Control(index - layout.controls_at())
    } else if index < layout.events_in_at() {
        PortKind::Meter(index - layout.meters_at())
    } else if index == layout.events_in_at() {
        PortKind::EventsIn
    } else if index < layout.notify_at() {
        PortKind::MidiOut
    } else {
        PortKind::Notify
    }
}

/// Every port number below the total has one kind, and each port of a kind has a
/// number of its own.
pub proof fn law_ports_are_numbered_once(layout: Layout, a: int, b: int)
    requires
        0 <= a < layout.ports(),
        0 <= b < layout.ports(),
        port_kind(layout, a) == port_kind(layout, b),
    ensures
        a == b,
{
}

/// `f` with a line behind it.
pub open spec fn ln(f: Seq<char>, s: Seq<char>) -> Seq<char> {
    (f + s).push('\n')
}

pub(crate) fn line(f: &mut String, s: &str)
    ensures
        final(f)@ == ln(old(f)@, s@),
{
    f.append(s);
    f.push('\n');
}

/// A line made of three pieces.
pub(crate) fn line3(f: &mut String, a: &str, b: &str, c: &str)
    ensures
        final(f)@ == ln(old(f)@, a@ + b@ + c@),
{
    let ghost start = f@;
    f.append(a);
    f.append(b);
    f.append(c);
    f.push('\n');
    proof {
        assert(start + a@ + b@ + c@ =~= start + (a@ + b@ + c@));
    }
}

/// A line made of five pieces.
pub(crate) fn line5(f: &mut String, a: &str, b: &str, c: &str, d: &str, e: &str)
    ensures
        final(f)@ == ln(old(f)@, a@ + b@ + c@ + d@ + e@),
{
    let ghost start = f@;
    f.append(a);
    f.append(b);
    f.append(c);
    f.append(d);
    f.append(e);
    f.push('\n');
    proof {
        assert(start + a@ + b@ + c@ + d@ + e@ =~= start + (a@ + b@ + c@ + d@ + e@));
    }
}

/// A line with a number in it.
pub(crate) fn line_number(f: &mut String, a: &str, n: u64, c: &str)
    ensures
        final(f)@ == ln(old(f)@, a@ + decimal(n as nat) + c@),
{
    let ghost start = f@;
    f.append(a);
    push_decimal(f, n);
    f.append(c);
    f.push('\n');
    proof {
        assert(start + a@ + decimal(n as nat) + c@ =~= start + (a@ + decimal(n as nat) + c@));
    }
}

/// The class of a plugin, as hosts sort them.
pub open spec fn category_text(c: Lv2Category) -> Seq<char> {
    match c {
        Lv2Category::Instrument => "lv2:InstrumentPlugin"@,
        Lv2Category::Effect => "lv2:Plugin"@,
        Lv2Category::NoteEffect => "lv2:MIDIPlugin"@,
        Lv2Category::Analyzer => "lv2:AnalyserPlugin"@,
        Lv2Category::Tool => "lv2:UtilityPlugin"@,
    }
}

pub fn category_as_lv2(c: Lv2Category) -> (r: &'static str)
    ensures
        r@ == category_text(c),
{
    match c {
        Lv2Category::Instrument => "lv2:InstrumentPlugin",
        Lv2Category::Effect => "lv2:Plugin",
        Lv2Category::NoteEffect => "lv2:MIDIPlugin",
        Lv2Category::Analyzer => "lv2:AnalyserPlugin",
        Lv2Category::Tool => "lv2:UtilityPlugin",
    }
}

/// The name of a unit, where hosts have one for it.
pub open spec fn unit_text(u: Lv2Unit) -> Option<Seq<char>> {
    match u {
        Lv2Unit::Db => Some("db"@),
        Lv2Unit::Hz => Some("hz"@),
        Lv2Unit::Milliseconds => Some("ms"@),
        Lv2Unit::Seconds => Some("s"@),
        Lv2Unit::Percent => Some("pc"@),
        Lv2Unit::Semitones => Some("semitone12TET"@),
        Lv2Unit::Pan => None,
        Lv2Unit::NoUnit => None,
    }
}

pub fn lv2_unit(u: Lv2Unit) -> (r: Option<&'static str>)
    ensures
        match r {
            Some(s) => unit_text(u) == Some(s@),
            None => unit_text(u) is None,
        },
{
    match u {
        Lv2Unit::Db => Some("db"),
        Lv2Unit::Hz => Some("hz"),
        Lv2Unit::Milliseconds => Some("ms"),
        Lv2Unit::Seconds => Some("s"),
        Lv2Unit::Percent => Some("pc"),
        Lv2Unit::Semitones => Some("semitone12TET"),
        Lv2Unit::Pan => None,
        Lv2Unit::NoUnit => None,
    }
}

/// Escapes a text for a quoted Turtle string.
pub fn escape_turtle(s: &str) -> (r: String)
    ensures
        r@ == escaped(s@),
{
    escape_quoted(s)
}

pub open spec fn is_letter(c: char) -> bool {
    'a' <= c <= 'z' || 'A' <= c <= 'Z'
}

pub open spec fn is_alphanumeric(c: char) -> bool {
    is_letter(c) || '0' <= c <= '9'
}

/// What a character of a parameter's name becomes in its symbol: letters, digits
/// and underscores stay, spaces and dashes become underscores, the rest is
/// dropped.
pub open spec fn symbol_part(c: char) -> Seq<char> {
    if is_alphanumeric(c) || c == '_' {
        seq![c]
    } else if c == ' ' || c == '-' {
        seq!['_']
    } else {
        Seq::empty()
    }
}

pub open spec fn symbol_body(name: Seq<char>) -> Seq<char>
    decreases name.len(),
{
    if name.len() == 0 {
        Seq::empty()
    } else {
        symbol_body(name.drop_last()) + symbol_part(name.last())
    }
}

/// The symbol that goes by a parameter's number.
pub open spec fn numbered_symbol(id: u32) -> Seq<char> {
    "p_"@ + decimal(id as nat)
}

/// The symbol that a parameter's name suggests: what can stay of the name, behind
/// a `p` where it would not start like a symbol; by the number where there is no
/// name.
pub open spec fn suggested_symbol(id: u32, name: Seq<char>) -> Seq<char> {
    if name.len() == 0 {
        numbered_symbol(id)
    } else if is_letter(name[0]) || name[0] == '_' {
        symbol_body(name)
    } else {
        seq!['p'] + symbol_body(name)
    }
}

fn number_symbol(id: u32) -> (r: String)
    ensures
        r@ == numbered_symbol(id),
{
    let mut r: String = "p_".to_owned();
    push_decimal(&mut r, id as u64);
    r
}

/// Suggests a symbol for a parameter.
pub fn param_symbol_candidate(id: u32, name: &str) -> (r: String)
    ensures
        r@ == suggested_symbol(id, name@),
{
    let chars: Vec<char> = to_chars(name);
    if chars.len() == 0 {
        return number_symbol(id);
    }
    let mut s: String = String::new();
    let first: char = chars[0];
    let starts: bool = ('a' <= first && first <= 'z') || ('A' <= first && first <= 'Z') || first
        == '_';
    if !starts {
        s.push('p');
    }
    let ghost start = s@;
    let mut i: usize = 0;
    proof {
        assert(start + symbol_body(chars@.take(0)) =~= start);
    }
    while i < chars.len()
        invariant
            i <= chars@.len(),
            s@ == start + symbol_body(chars@.take(i as int)),
        decreases chars@.len() - i,
    {
        let c: char = chars[i];
        let ghost before = s@;
        proof {
            assert(chars@.take(i + 1).drop_last() =~= chars@.take(i as int));
        }
        if ('a' <= c && c <= 'z') || ('A' <= c && c <= 'Z') || ('0' <= c && c <= '9') || c == '_' {
            s.push(c);
        } else if c == ' ' || c == '-' {
            s.push('_');
        }
        proof {
            assert(s@ =~= before + symbol_part(c));
            assert(s@ =~= start + symbol_body(chars@.take(i + 1)));
        }
        i = i + 1;
    }
    proof {
        assert(chars@.take(i as int) =~= chars@);
        if starts {
            assert(start + symbol_body(chars@) =~= symbol_body(chars@));
        } else {
            assert(start =~= seq!['p']);
        }
    }
    s
}

/// A text that hosts take as a symbol: letters, digits and underscores, and no
/// digit at the start.
pub open spec fn is_symbol(s: Seq<char>) -> bool {
    &&& s.len() > 0
    &&& is_letter(s[0]) || s[0] == '_'
    &&& forall|i: int| 0 <= i < s.len() ==> is_alphanumeric(#[trigger] s[i]) || s[i] == '_'
}

proof fn lemma_symbol_body(name: Seq<char>)
    ensures
        forall|i: int|
            0 <= i < symbol_body(name).len() ==> is_alphanumeric(#[trigger] symbol_body(name)[i])
                || symbol_body(name)[i] == '_',
        name.len() > 0 && (is_letter(name[0]) || name[0] == '_') ==> symbol_body(name).len() > 0
            && symbol_body(name)[0] == name[0],
    decreases name.len(),
{
    if name.len() > 0 {
        let front = name.drop_last();
        lemma_symbol_body(front);
        let before = symbol_body(front);
        let part = symbol_part(name.last());
        let body = symbol_body(name);
        assert(body == before + part);
        assert forall|i: int| 0 <= i < body.len() implies is_alphanumeric(#[trigger] body[i])
            || body[i] == '_' by {
            if i < before.len() {
                assert(body[i] == before[i]);
            } else {
                assert(body[i] == part[i - before.len()]);
            }
        }
        if front.len() == 0 {
            assert(before.len() == 0);
            assert(name[0] == name.last());
            if is_letter(name[0]) || name[0] == '_' {
                assert(body[0] == part[0]);
            }
        } else {
            assert(front[0] == name[0]);
            if is_letter(name[0]) || name[0] == '_' {
                assert(body[0] == before[0]);
            }
        }
    }
}

proof fn lemma_decimal_digits(n: nat)
    ensures
        decimal(n).len() > 0,
        forall|i: int| 0 <= i < decimal(n).len() ==> is_alphanumeric(#[trigger] decimal(n)[i]),
    decreases n,
{
    if n >= 10 {
        lemma_decimal_digits(n / 10);
    }
}

/// Every symbol that a parameter can get is one that hosts take.
pub proof fn law_symbols_are_valid(id: u32, name: Seq<char>)
    ensures
        is_symbol(suggested_symbol(id, name)),
        is_symbol(numbered_symbol(id)),
{
    reveal_strlit("p_");
    lemma_decimal_digits(id as nat);
    lemma_symbol_body(name);
    let numbered = numbered_symbol(id);
    assert forall|i: int| 0 <= i < numbered.len() implies is_alphanumeric(#[trigger] numbered[i])
        || numbered[i] == '_' by {
        if i >= 2 {
            assert(numbered[i] == decimal(id as nat)[i - 2]);
        }
    }
    let s = suggested_symbol(id, name);
    if name.len() > 0 && !(is_letter(name[0]) || name[0] == '_') {
        assert forall|i: int| 0 <= i < s.len() implies is_alphanumeric(#[trigger] s[i]) || s[i]
            == '_' by {
            if i >= 1 {
                assert(s[i] == symbol_body(name)[i - 1]);
            }
        }
    }
}

/// The symbols of the first `n` parameters: the suggested one, or the numbered
/// one where an earlier parameter has that already.
pub open spec fn symbols_of(params: Seq<Lv2Param>, n: int) -> Seq<Seq<char>>
    decreases n,
{
    if n <= 0 {
        Seq::empty()
    } else {
        let before = symbols_of(params, n - 1);
        let p = params[n - 1];
        let suggested = suggested_symbol(p.id, p.name@);
        before.push(
            if before.contains(suggested) {
                numbered_symbol(p.id)
            } else {
                suggested
            },
        )
    }
}

pub open spec fn views(texts: Seq<String>) -> Seq<Seq<char>> {
    texts.map_values(|s: String| s@)
}

fn contains_text(texts: &Vec<String>, text: &str) -> (r: bool)
    ensures
        r == views(texts@).contains(text@),
{
    let mut i: usize = 0;
    while i < texts.len()
        invariant
            i <= texts@.len(),
            forall|k: int| 0 <= k < i ==> (#[trigger] texts@[k])@ != text@,
        decreases texts@.len() - i,
    {
        if str_eq(texts[i].as_str(), text) {
            proof {
                assert(views(texts@)[i as int] == text@);
            }
            return true;
        }
        i = i + 1;
    }
    proof {
        if views(texts@).contains(text@) {
            let k = choose|k: int| 0 <= k < views(texts@).len() && views(texts@)[k] == text@;
            assert(texts@[k]@ == text@);
        }
    }
    false
}

/// The symbol of each parameter's port.
pub fn resolve_param_symbols(params: &Vec<Lv2Param>) -> (r: Vec<String>)
    ensures
        views(r@) == symbols_of(params@, params@.len() as int),
{
    let mut out: Vec<String> = Vec::new();
    let mut i: usize = 0;
    proof {
        assert(views(out@) =~= Seq::empty());
    }
    while i < params.len()
        invariant
            i <= params@.len(),
            views(out@) == symbols_of(params@, i as int),
        decreases params@.len() - i,
    {
        let candidate: String = param_symbol_candidate(params[i].id, params[i].name.as_str());
        let ghost before = out@;
        let resolved: String = if contains_text(&out, candidate.as_str()) {
            number_symbol(params[i].id)
        } else {
            candidate
        };
        out.push(resolved);
        proof {
            assert(views(out@) =~= views(before).push(resolved@));
        }
        i = i + 1;
    }
    out
}

/// Each parameter's number with the symbol of its port, in the order of
/// declaration.
#[must_use]
pub fn resolved_param_symbols(params: &Vec<Lv2Param>) -> (r: Vec<(u32, String)>)
    ensures
        r@.len() == params@.len(),
        forall|i: int|
            0 <= i < params@.len() ==> (#[trigger] r@[i]).0 == params@[i].id && r@[i].1@
                == symbols_of(params@, params@.len() as int)[i],
{
    let symbols: Vec<String> = resolve_param_symbols(params);
    let ghost all = symbols_of(params@, params@.len() as int);
    proof {
        lemma_symbols_len(params@, params@.len() as int);
    }
    let mut r: Vec<(u32, String)> = Vec::new();
    let mut i: usize = 0;
    while i < params.len()
        invariant
            i <= params@.len(),
            views(symbols@) == all,
            all.len() == params@.len(),
            r@.len() == i,
            forall|k: int|
                0 <= k < i ==> (#[trigger] r@[k]).0 == params@[k].id && r@[k].1@ == all[k],
        decreases params@.len() - i,
    {
        proof {
            assert(views(symbols@)[i as int] == symbols@[i as int]@);
        }
        r.push((params[i].id, symbols[i].clone()));
        i = i + 1;
    }
    r
}

pub proof fn lemma_symbols_len(params: Seq<Lv2Param>, n: int)
    requires
        n >= 0,
    ensures
        symbols_of(params, n).len() == n,
    decreases n,
{
    if n > 0 {
        lemma_symbols_len(params, n - 1);
    }
}

proof fn lemma_decimal_injective(a: nat, b: nat)
    requires
        decimal(a) == decimal(b),
    ensures
        a == b,
    decreases a,
{
    lemma_decimal_digits(a);
    lemma_decimal_digits(b);
    if a < 10 && b < 10 {
        assert(decimal(a)[0] == digit_char(a));
        assert(decimal(b)[0] == digit_char(b));
    } else if a >= 10 && b >= 10 {
        assert(decimal(a).drop_last() =~= decimal(a / 10));
        assert(decimal(b).drop_last() =~= decimal(b / 10));
        assert(decimal(a).last() == digit_char(a % 10));
        assert(decimal(b).last() == digit_char(b % 10));
        assert(a % 10 == b % 10);
        lemma_decimal_injective(a / 10, b / 10);
    } else if a < 10 {
        lemma_decimal_digits(b / 10);
        assert(decimal(a).len() == 1);
        assert(decimal(b).len() > 1);
    } else {
        lemma_decimal_digits(a / 10);
        assert(decimal(b).len() == 1);
        assert(decimal(a).len() > 1);
    }
}

/// Each symbol among the first `n` is its parameter's numbered one, or its
/// suggested one.
proof fn lemma_symbol_origin(params: Seq<Lv2Param>, n: int, i: int)
    requires
        0 <= i < n <= params.len(),
    ensures
        symbols_of(params, n).len() == n,
        symbols_of(params, n)[i] == numbered_symbol(params[i].id) || symbols_of(params, n)[i]
            == suggested_symbol(params[i].id, params[i].name@),
    decreases n,
{
    lemma_symbols_len(params, n);
    lemma_symbols_len(params, n - 1);
    if i < n - 1 {
        lemma_symbol_origin(params, n - 1, i);
    }
}

/// No two ports have one symbol, where no two parameters have one number and no
/// parameter's name suggests the numbered symbol of another.
pub proof fn law_symbols_are_distinct(params: Seq<Lv2Param>, n: int, a: int, b: int)
    requires
        0 <= a < b < n <= params.len(),
        forall|i: int, j: int|
            0 <= i < j < params.len() ==> (#[trigger] params[i]).id != (#[trigger] params[j]).id,
        forall|i: int, j: int|
            #![trigger params[i], params[j]]
            0 <= i < params.len() && 0 <= j < params.len() && i != j ==> suggested_symbol(
                params[i].id,
                params[i].name@,
            ) != numbered_symbol(params[j].id),
    ensures
        symbols_of(params, n)[a] != symbols_of(params, n)[b],
    decreases n,
{
    lemma_symbols_len(params, n);
    lemma_symbols_len(params, n - 1);
    let before = symbols_of(params, n - 1);
    if b < n - 1 {
        law_symbols_are_distinct(params, n - 1, a, b);
    } else {
        lemma_symbol_origin(params, n - 1, a);
        let suggested = suggested_symbol(params[b].id, params[b].name@);
        assert(symbols_of(params, n)[a] == before[a]);
        if before.contains(suggested) {
            if before[a] == numbered_symbol(params[b].id) {
                if before[a] == numbered_symbol(params[a].id) {
                    let x = decimal(params[a].id as nat);
                    let y = decimal(params[b].id as nat);
                    assert(("p_"@ + x).skip("p_"@.len() as int) =~= x);
                    assert(("p_"@ + y).skip("p_"@.len() as int) =~= y);
                    lemma_decimal_injective(params[a].id as nat, params[b].id as nat);
                }
                assert(params[a].id != params[b].id);
            }
        } else {
            if before[a] == suggested {
                assert(before.contains(suggested));
            }
        }
    }
}

/// Ports are numbered by kind: audio inputs from zero on, audio outputs behind them, then
/// the parameters, the meters, one for events, one for MIDI out where there is one, and the
/// last for notifications.
pub proof fn law_ports_are_numbered_in_order(layout: Layout, k: int)
    requires
        k >= 0,
    ensures
        ({
            let outs = layout.audio_in as int;
            let controls = outs + layout.audio_out;
            let meters = controls + layout.num_params;
            let events = meters + layout.num_meters;
            &&& k < layout.audio_in ==> port_kind(layout, k) == PortKind::AudioIn(k)
            &&& k < layout.audio_out ==> port_kind(layout, outs + k) == PortKind::AudioOut(k)
            &&& k < layout.num_params ==> port_kind(layout, controls + k) == PortKind::Control(k)
            &&& k < layout.num_meters ==> port_kind(layout, meters + k) == PortKind::Meter(k)
            &&& port_kind(layout, events) == PortKind::EventsIn
            &&& layout.has_midi_out ==> port_kind(layout, events + 1) == PortKind::MidiOut
                && port_kind(layout, events + 2) == PortKind::Notify && layout.ports() == events + 3
            &&& !layout.has_midi_out ==> port_kind(layout, events + 1) == PortKind::Notify
                && layout.ports() == events + 2
        }),
{
}

/// A plugin's address lies below the vendor's, without the slashes at the end of that one,
/// and ends with the plugin's own name; without a vendor's address it is a name of its own.
pub proof fn law_address_lies_below_the_vendors(
    site: Seq<char>,
    slashes: nat,
    bundle_id: Seq<char>,
)
    requires
        site.len() > 0,
        site.last() != '/',
    ensures
        uri_of(site + Seq::new(slashes, |i: int| '/'), bundle_id) == site + "/lv2/"@ + bundle_id,
        uri_of(Seq::empty(), bundle_id) == "urn:truce:"@ + bundle_id,
    decreases slashes,
{
    let url = site + Seq::new(slashes, |i: int| '/');
    if slashes == 0 {
        assert(url =~= site);
    } else {
        law_address_lies_below_the_vendors(site, (slashes - 1) as nat, bundle_id);
        assert(url.drop_last() =~= site + Seq::new((slashes - 1) as nat, |i: int| '/'));
        assert(url.last() == '/');
    }
}

/// A name that is a symbol already is the parameter's symbol, unless an earlier parameter
/// has it: then the parameter goes by its number.
pub proof fn law_symbols_are_names(params: Seq<Lv2Param>, i: int)
    requires
        0 <= i < params.len(),
        is_symbol(params[i].name@),
    ensures
        ({
            let symbols = symbols_of(params, params.len() as int);
            &&& symbols.len() == params.len()
            &&& !symbols.take(i).contains(params[i].name@) ==> symbols[i] == params[i].name@
            &&& symbols.take(i).contains(params[i].name@) ==> symbols[i] == "p_"@ + decimal(
                params[i].id as nat,
            )
        }),
{
    lemma_name_is_its_symbol(params[i].name@);
    lemma_symbols_front(params, i, params.len() as int);
    lemma_symbols_front(params, i + 1, params.len() as int);
    lemma_symbols_len(params, params.len() as int);
    lemma_symbols_len(params, i);
    let symbols = symbols_of(params, params.len() as int);
    assert(symbols.take(i) == symbols_of(params, i));
    assert(symbols.take(i + 1) == symbols_of(params, i + 1));
    assert(symbols[i] == symbols.take(i + 1)[i]);
}

proof fn lemma_symbols_front(params: Seq<Lv2Param>, m: int, n: int)
    requires
        0 <= m <= n <= params.len(),
    ensures
        symbols_of(params, n).len() == n,
        symbols_of(params, n).take(m) == symbols_of(params, m),
    decreases n,
{
    lemma_symbols_len(params, n);
    lemma_symbols_len(params, m);
    if m < n {
        lemma_symbols_front(params, m, n - 1);
        lemma_symbols_len(params, n - 1);
        assert(symbols_of(params, n).take(m) =~= symbols_of(params, n - 1).take(m));
    } else {
        assert(symbols_of(params, n).take(m) =~= symbols_of(params, m));
    }
}

proof fn lemma_name_is_its_symbol(name: Seq<char>)
    requires
        forall|i: int| 0 <= i < name.len() ==> is_alphanumeric(#[trigger] name[i]) || name[i] == '_',
    ensures
        symbol_body(name) == name,
    decreases name.len(),
{
    if name.len() > 0 {
        let front = name.drop_last();
        assert forall|i: int| 0 <= i < front.len() implies is_alphanumeric(#[trigger] front[i])
            || front[i] == '_' by {
            assert(front[i] == name[i]);
        }
        lemma_name_is_its_symbol(front);
        assert(is_alphanumeric(name[name.len() - 1]) || name[name.len() - 1] == '_');
        assert(symbol_body(name) =~= name);
    } else {
        assert(symbol_body(name) =~= name);
    }
}

} // verus!

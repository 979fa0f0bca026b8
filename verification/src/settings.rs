//! Visualisation preferences and their configuration document.
//!
//! The document is a JSON object `{ "viz": "bars|wave|ring", "color":
//! "preset:0..5" | "#rrggbb" }`; reading and writing the file is left to the
//! caller, which hands this module the text.
use vstd::prelude::*;

use crate::text::{
    chars_of, decimal, has_prefix, hex_digit, hex_digit_char, hex_digit_value, hex_value,
    is_hex_digit, is_white_space, lemma_parse_decimal, lower_hex_digit, owned, parse_usize,
    parse_usize_spec, push_char, push_decimal, same_text, starts_with, string_of_range,
    strip_hashes, trim, trim_bounds, trim_end, trim_start,
};

verus! {

/// How the player draws the sound.
#[derive(Debug, Clone, Copy, PartialEq, Eq, Structural)]
pub enum VizKind {
    Bars,
    Wave,
    Ring,
}

impl VizKind {
    /// The name shown to the user.
    pub open spec fn label_text(self) -> Seq<char> {
        match self {
            VizKind::Bars => "频谱柱"@,
            VizKind::Wave => "波形"@,
            VizKind::Ring => "环形频谱"@,
        }
    }

    /// The kind that follows `self` in the cycle bars, wave, ring.
    pub open spec fn following(self) -> VizKind {
        match self {
            VizKind::Bars => VizKind::Wave,
            VizKind::Wave => VizKind::Ring,
            VizKind::Ring => VizKind::Bars,
        }
    }

    /// The key under which the kind is stored.
    pub open spec fn key_text(self) -> Seq<char> {
        match self {
            VizKind::Bars => "bars"@,
            VizKind::Wave => "wave"@,
            VizKind::Ring => "ring"@,
        }
    }

    /// The kind stored under `k`; an unknown key means bars.
    pub open spec fn of_key(k: Seq<char>) -> VizKind {
        if k == "wave"@ {
            VizKind::Wave
        } else if k == "ring"@ {
            VizKind::Ring
        } else {
            VizKind::Bars
        }
    }

    /// The name shown to the user.
    pub fn label(&self) -> (r: &'static str)
        ensures
            r@ == self.label_text(),
    {
        match self {
            VizKind::Bars => "频谱柱",
            VizKind::Wave => "波形",
            VizKind::Ring => "环形频谱",
        }
    }

    /// The next kind in the cycle.
    pub fn next(&self) -> (r: VizKind)
        ensures
            r == self.following(),
    {
        match self {
            VizKind::Bars => VizKind::Wave,
            VizKind::Wave => VizKind::Ring,
            VizKind::Ring => VizKind::Bars,
        }
    }

    /// The key under which the kind is stored.
    pub fn key(&self) -> (r: &'static str)
        ensures
            r@ == self.key_text(),
    {
        match self {
            VizKind::Bars => "bars",
            VizKind::Wave => "wave",
            VizKind::Ring => "ring",
        }
    }

    /// The kind stored under `k`.
    pub fn from_key(k: &str) -> (r: VizKind)
        ensures
            r == VizKind::of_key(k@),
    {
        if same_text(k, "wave") {
            VizKind::Wave
        } else if same_text(k, "ring") {
            VizKind::Ring
        } else {
            VizKind::Bars
        }
    }
}

/// Three steps of `next` come back to the kind one started from.
pub proof fn lemma_viz_cycle(v: VizKind)
    ensures
        v.following().following().following() == v,
        v.following() != v,
{
}

/// Reading back the key of a kind gives the kind.
pub proof fn lemma_viz_key_roundtrip(v: VizKind)
    ensures
        VizKind::of_key(v.key_text()) == v,
{
    reveal_strlit("wave");
    reveal_strlit("ring");
    reveal_strlit("bars");
    assert("bars"@ != "wave"@ && "bars"@ != "ring"@ && "wave"@ != "ring"@) by {
        assert("bars"@[0] != "wave"@[0]);
        assert("bars"@[0] != "ring"@[0]);
        assert("wave"@[0] != "ring"@[0]);
    }
}

/// The colour scheme.
#[derive(Debug, Clone, Copy, PartialEq, Eq, Structural)]
pub enum ColorPref {
    /// One of the built-in presets, by number.
    Preset(usize),
    /// A custom colour, used as the brightest end of a ramp.
    Custom { r: u8, g: u8, b: u8 },
}

/// The number of built-in colour presets.
pub const PRESET_COUNT: usize = 6;

/// The name of preset `i`; an unknown number names the first preset.
pub open spec fn preset_name_text(i: nat) -> Seq<char> {
    if i == 1 {
        "霓虹"@
    } else if i == 2 {
        "森绿"@
    } else if i == 3 {
        "火焰"@
    } else if i == 4 {
        "冰蓝"@
    } else if i == 5 {
        "云白"@
    } else {
        "光谱"@
    }
}

/// The name of preset `i`.
pub fn preset_name(i: usize) -> (r: &'static str)
    ensures
        r@ == preset_name_text(i as nat),
{
    if i == 1 {
        "霓虹"
    } else if i == 2 {
        "森绿"
    } else if i == 3 {
        "火焰"
    } else if i == 4 {
        "冰蓝"
    } else if i == 5 {
        "云白"
    } else {
        "光谱"
    }
}

/// The visualisation preferences.
#[derive(Debug, Clone, Copy, PartialEq, Eq, Structural)]
pub struct Settings {
    pub viz: VizKind,
    pub color: ColorPref,
}

/// Bars drawn in the first preset.
pub open spec fn default_settings() -> Settings {
    Settings { viz: VizKind::Bars, color: ColorPref::Preset(0) }
}

impl Default for Settings {
    fn default() -> (s: Self)
        ensures
            s == default_settings(),
    {
        Settings { viz: VizKind::Bars, color: ColorPref::Preset(0) }
    }
}

// ---------------------------------------------------------------------------
// Colours as text
// ---------------------------------------------------------------------------

/// What `parse_hex` accepts: after trimming white space and dropping leading
/// `'#'` characters, exactly six hexadecimal digits, read as three bytes.
pub open spec fn parse_hex_spec(s: Seq<char>) -> Option<(u8, u8, u8)> {
    let t = strip_hashes(trim(s));
    if t.len() == 6 && forall|i: int| 0 <= i < 6 ==> is_hex_digit(#[trigger] t[i]) {
        Some(
            (
                (hex_value(t[0]) * 16 + hex_value(t[1])) as u8,
                (hex_value(t[2]) * 16 + hex_value(t[3])) as u8,
                (hex_value(t[4]) * 16 + hex_value(t[5])) as u8,
            ),
        )
    } else {
        None
    }
}

/// Reads a colour written `#rrggbb` (the `'#'` is optional).
pub fn parse_hex(s: &str) -> (r: Option<(u8, u8, u8)>)
    ensures
        r == parse_hex_spec(s@),
{
    let cs = chars_of(s);
    let (lo, hi) = trim_bounds(&cs);
    let mut lo = lo;
    let ghost t0 = cs@.subrange(lo as int, hi as int);
    while lo < hi && cs[lo] == '#'
        invariant
            lo <= hi <= cs.len(),
            strip_hashes(t0) == strip_hashes(cs@.subrange(lo as int, hi as int)),
        decreases hi - lo,
    {
        assert(cs@.subrange(lo as int, hi as int).drop_first() == cs@.subrange(lo + 1, hi as int));
        lo = lo + 1;
    }
    let ghost t = cs@.subrange(lo as int, hi as int);
    assert(strip_hashes(trim(s@)) == t);
    if hi - lo != 6 {
        return None;
    }
    for k in 0..6
        invariant
            hi - lo == 6,
            lo <= hi <= cs.len(),
            t == cs@.subrange(lo as int, hi as int),
            strip_hashes(trim(s@)) == t,
            forall|j: int| 0 <= j < k ==> is_hex_digit(#[trigger] t[j]),
    {
        if !hex_digit(cs[lo + k]) {
            assert(t[k as int] == cs@[lo + k]);
            return None;
        }
    }
    let r = hex_digit_value(cs[lo]) * 16 + hex_digit_value(cs[lo + 1]);
    let g = hex_digit_value(cs[lo + 2]) * 16 + hex_digit_value(cs[lo + 3]);
    let b = hex_digit_value(cs[lo + 4]) * 16 + hex_digit_value(cs[lo + 5]);
    Some((r, g, b))
}

/// `#rrggbb` in lower-case hexadecimal.
pub open spec fn hex_text(r: u8, g: u8, b: u8) -> Seq<char> {
    seq![
        '#',
        lower_hex_digit((r / 16) as int),
        lower_hex_digit((r % 16) as int),
        lower_hex_digit((g / 16) as int),
        lower_hex_digit((g % 16) as int),
        lower_hex_digit((b / 16) as int),
        lower_hex_digit((b % 16) as int),
    ]
}

/// Writes a colour as `#rrggbb`.
pub fn hex_of(r: u8, g: u8, b: u8) -> (s: String)
    ensures
        s@ == hex_text(r, g, b),
{
    let mut s = String::new();
    push_char(&mut s, '#');
    push_char(&mut s, hex_digit_char(r / 16));
    push_char(&mut s, hex_digit_char(r % 16));
    push_char(&mut s, hex_digit_char(g / 16));
    push_char(&mut s, hex_digit_char(g % 16));
    push_char(&mut s, hex_digit_char(b / 16));
    push_char(&mut s, hex_digit_char(b % 16));
    s
}

/// Reading back a colour written by `hex_of` gives the colour.
pub proof fn lemma_hex_roundtrip(r: u8, g: u8, b: u8)
    ensures
        parse_hex_spec(hex_text(r, g, b)) == Some((r, g, b)),
{
    let s = hex_text(r, g, b);
    assert forall|i: int| 1 <= i < 7 implies is_hex_digit(#[trigger] s[i]) && !is_white_space(s[i])
        && s[i] != '#' by {}
    assert(!is_white_space(s[0]));
    assert(trim_start(s) == s);
    assert(trim_end(s) == s);
    assert(s.drop_first().len() == 6);
    assert(strip_hashes(s.drop_first()) == s.drop_first());
    assert(strip_hashes(s) == s.drop_first());
    let t = s.drop_first();
    assert(hex_value(t[0]) * 16 + hex_value(t[1]) == r);
    assert(hex_value(t[2]) * 16 + hex_value(t[3]) == g);
    assert(hex_value(t[4]) * 16 + hex_value(t[5]) == b);
}

/// How a colour preference is stored: `preset:<n>` or `#rrggbb`.
pub open spec fn color_setting_text(c: ColorPref) -> Seq<char> {
    match c {
        ColorPref::Preset(i) => "preset:"@ + decimal(i as nat),
        ColorPref::Custom { r, g, b } => hex_text(r, g, b),
    }
}

/// How a colour preference is stored.
pub fn color_setting(c: ColorPref) -> (s: String)
    ensures
        s@ == color_setting_text(c),
{
    match c {
        ColorPref::Preset(i) => {
            let mut s = owned("preset:");
            push_decimal(&mut s, i as u64);
            s
        },
        ColorPref::Custom { r, g, b } => hex_of(r, g, b),
    }
}

/// The name shown for a colour preference: the preset's name with its
/// place among the presets, or `#rrggbb`.
pub open spec fn color_label_text(c: ColorPref) -> Seq<char> {
    match c {
        ColorPref::Preset(i) => preset_name_text((i % 6) as nat) + " "@ + decimal(
            ((i % 6) + 1) as nat,
        ) + "/"@ + decimal(6),
        ColorPref::Custom { r, g, b } => hex_text(r, g, b),
    }
}

/// The name shown for a colour preference.
pub fn color_label(c: ColorPref) -> (s: String)
    ensures
        s@ == color_label_text(c),
{
    match c {
        ColorPref::Preset(i) => {
            let k = i % PRESET_COUNT;
            let mut s = owned(preset_name(k));
            s.append(" ");
            push_decimal(&mut s, (k + 1) as u64);
            s.append("/");
            push_decimal(&mut s, PRESET_COUNT as u64);
            s
        },
        ColorPref::Custom { r, g, b } => hex_of(r, g, b),
    }
}

/// The preset that follows the current colour: the next preset in the
/// cycle, or the first one after a custom colour.
pub open spec fn following_color(c: ColorPref) -> ColorPref {
    match c {
        ColorPref::Preset(i) => ColorPref::Preset(((i + 1) % 6) as usize),
        ColorPref::Custom { .. } => ColorPref::Preset(0),
    }
}

/// The next colour scheme in the cycle.
pub fn next_color(c: ColorPref) -> (r: ColorPref)
    ensures
        r == following_color(c),
{
    match c {
        ColorPref::Preset(i) => ColorPref::Preset((i % PRESET_COUNT + 1) % PRESET_COUNT),
        ColorPref::Custom { .. } => ColorPref::Preset(0),
    }
}

/// Six presses of the colour key come back to the preset one started from;
/// a custom colour gives way to the first preset.
pub proof fn lemma_color_cycle(c: ColorPref)
    ensures
        match c {
            ColorPref::Preset(i) => i < 6 ==> following_color(
                following_color(following_color(following_color(following_color(following_color(c))))),
            ) == c,
            ColorPref::Custom { .. } => following_color(c) == ColorPref::Preset(0),
        },
{
}

// ---------------------------------------------------------------------------
// The configuration document
// ---------------------------------------------------------------------------

/// The colour that a stored colour text selects, if it selects one: a
/// `preset:` text with a number below six, or a text that `parse_hex`
/// accepts.
pub open spec fn color_of_text(c: Seq<char>) -> Option<ColorPref> {
    if has_prefix(c, "preset:"@) {
        match parse_usize_spec(c.skip(7)) {
            Some(i) => if i < 6 {
                Some(ColorPref::Preset(i as usize))
            } else {
                None
            },
            None => None,
        }
    } else {
        match parse_hex_spec(c) {
            Some((r, g, b)) => Some(ColorPref::Custom { r, g, b }),
            None => None,
        }
    }
}

/// The settings that stored `viz` and `color` texts describe; what is
/// missing or not understood keeps its default.
pub open spec fn settings_of_fields(viz: Option<Seq<char>>, color: Option<Seq<char>>) -> Settings {
    Settings {
        viz: match viz {
            Some(k) => VizKind::of_key(k),
            None => VizKind::Bars,
        },
        color: match color {
            Some(c) => match color_of_text(c) {
                Some(p) => p,
                None => ColorPref::Preset(0),
            },
            None => ColorPref::Preset(0),
        },
    }
}

/// The colour that a stored colour text selects, if any.
pub fn color_from_text(c: &str) -> (r: Option<ColorPref>)
    ensures
        r == color_of_text(c@),
{
    let cs = chars_of(c);
    proof {
        reveal_strlit("preset:");
    }
    if starts_with(&cs, "preset:") {
        let rest = string_of_range(&cs, 7, cs.len());
        let rest_chars = chars_of(rest.as_str());
        assert(rest_chars@ == c@.skip(7));
        match parse_usize(&rest_chars) {
            Some(i) => if i < PRESET_COUNT {
                Some(ColorPref::Preset(i))
            } else {
                None
            },
            None => None,
        }
    } else {
        match parse_hex(c) {
            Some((r, g, b)) => Some(ColorPref::Custom { r, g, b }),
            None => None,
        }
    }
}

/// The settings that the stored `viz` and `color` texts describe.
pub fn settings_from_fields(viz: Option<&str>, color: Option<&str>) -> (s: Settings)
    ensures
        s == settings_of_fields(
            match viz {
                Some(v) => Some(v@),
                None => None,
            },
            match color {
                Some(c) => Some(c@),
                None => None,
            },
        ),
{
    let mut s = Settings::default();
    if let Some(v) = viz {
        s.viz = VizKind::from_key(v);
    }
    if let Some(c) = color {
        if let Some(p) = color_from_text(c) {
            s.color = p;
        }
    }
    s
}

/// The string value of member `key` of the top-level JSON object that
/// `serde_json` reads from `text`; none where the text is not JSON, is not
/// an object, lacks the member, or the member is not a string.
pub uninterp spec fn json_string_member(text: Seq<char>, key: Seq<char>) -> Option<Seq<char>>;

/// The pretty-printed JSON text that `serde_json` writes for an object with
/// the two string members `k1: v1` and `k2: v2`.
pub uninterp spec fn json_pair_object(k1: Seq<char>, v1: Seq<char>, k2: Seq<char>, v2: Seq<char>) -> Seq<char>;

/// Parses `text` with `serde_json::from_str` as a `serde_json::Value`, then
/// takes `Value::get(key)` and `Value::as_str`.  The contract names the
/// result; it claims no more than that it depends on the text and key alone.
#[verifier::external_body]
fn json_member(text: &str, key: &str) -> (r: Option<String>)
    ensures
        match r {
            Some(v) => json_string_member(text@, key@) == Some(v@),
            None => json_string_member(text@, key@) is None,
        },
{
    let v = serde_json::from_str::<serde_json::Value>(text).ok()?;
    match v.get(key)?.as_str() {
        Some(m) => Some(m.to_string()),
        None => None,
    }
}

/// Builds a `serde_json::Map` with the two string members and writes it with
/// `serde_json::to_string_pretty`.  The contract names the text and claims
/// that `serde_json` reads each member back: the later one where the keys are
/// equal, and both where they differ.
#[verifier::external_body]
fn json_pair(k1: &str, v1: &str, k2: &str, v2: &str) -> (r: String)
    ensures
        r@ == json_pair_object(k1@, v1@, k2@, v2@),
        json_string_member(r@, k2@) == Some(v2@),
        k1@ != k2@ ==> json_string_member(r@, k1@) == Some(v1@),
{
    let mut m = serde_json::Map::new();
    m.insert(k1.to_string(), serde_json::Value::String(v1.to_string()));
    m.insert(k2.to_string(), serde_json::Value::String(v2.to_string()));
    serde_json::to_string_pretty(&serde_json::Value::Object(m)).unwrap_or_default()
}

/// The settings that a configuration document describes.
pub open spec fn settings_of_document(text: Seq<char>) -> Settings {
    settings_of_fields(
        json_string_member(text, "viz"@),
        json_string_member(text, "color"@),
    )
}

/// The configuration document that `settings_to_json` writes.
pub open spec fn document_of_settings(s: Settings) -> Seq<char> {
    json_pair_object("viz"@, s.viz.key_text(), "color"@, color_setting_text(s.color))
}

/// Whether the settings can be stored and read back: a preset number below
/// six, or any custom colour.
pub open spec fn storable(s: Settings) -> bool {
    match s.color {
        ColorPref::Preset(i) => i < 6,
        ColorPref::Custom { .. } => true,
    }
}

/// A document without the members (or no document at all, which the caller
/// reads as an empty text) gives the default settings.
pub proof fn lemma_missing_members_default(text: Seq<char>)
    requires
        json_string_member(text, "viz"@) is None,
        json_string_member(text, "color"@) is None,
    ensures
        settings_of_document(text) == default_settings(),
{
}

/// Reads the settings from the text of a configuration document.
pub fn settings_from_json(text: &str) -> (s: Settings)
    ensures
        s == settings_of_document(text@),
{
    let viz = json_member(text, "viz");
    let color = json_member(text, "color");
    let v = match &viz {
        Some(x) => Some(x.as_str()),
        None => None,
    };
    let c = match &color {
        Some(x) => Some(x.as_str()),
        None => None,
    };
    settings_from_fields(v, c)
}

/// Writes the settings as a configuration document.  Reading the document
/// back gives the same settings, for every storable value.
pub fn settings_to_json(s: &Settings) -> (text: String)
    ensures
        text@ == document_of_settings(*s),
        storable(*s) ==> settings_of_document(text@) == *s,
{
    let color = color_setting(s.color);
    let text = json_pair("viz", s.viz.key(), "color", color.as_str());
    proof {
        reveal_strlit("viz");
        reveal_strlit("color");
        assert("viz"@ != "color"@) by {
            assert("viz"@.len() != "color"@.len());
        }
        lemma_viz_key_roundtrip(s.viz);
        if storable(*s) {
            lemma_color_setting_roundtrip(s.color);
        }
    }
    text
}

/// Reading back the stored text of a storable colour gives the colour.
pub proof fn lemma_color_setting_roundtrip(c: ColorPref)
    requires
        match c {
            ColorPref::Preset(i) => i < 6,
            ColorPref::Custom { .. } => true,
        },
    ensures
        color_of_text(color_setting_text(c)) == Some(c),
{
    reveal_strlit("preset:");
    match c {
        ColorPref::Preset(i) => {
            let t = color_setting_text(c);
            assert(t.take(7) == "preset:"@);
            assert(t.skip(7) == decimal(i as nat));
            lemma_parse_decimal(i as nat);
        },
        ColorPref::Custom { r, g, b } => {
            let t = hex_text(r, g, b);
            assert(t[0] == '#');
            assert(!has_prefix(t, "preset:"@)) by {
                assert(t.take(7)[0] != "preset:"@[0]);
            }
            lemma_hex_roundtrip(r, g, b);
        },
    }
}

} // verus!

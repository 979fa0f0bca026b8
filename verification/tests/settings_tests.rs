use tmus::settings::{
    color_label, color_setting, hex_of, next_color, parse_hex, preset_name, settings_from_fields,
    settings_from_json, settings_to_json, ColorPref, Settings, VizKind, PRESET_COUNT,
};

#[test]
fn parse_hex_works() {
    assert_eq!(parse_hex("#00ff88"), Some((0, 255, 136)));
    assert_eq!(parse_hex("ff0000"), Some((255, 0, 0)));
    assert_eq!(parse_hex("#12345"), None); // wrong length
    assert_eq!(parse_hex("#zz0000"), None); // not hexadecimal
}

#[test]
fn parse_hex_trims_and_drops_hashes() {
    assert_eq!(parse_hex("  ##00FF88 \n"), Some((0, 255, 136)));
    assert_eq!(parse_hex("\u{3000}#AbCdEf"), Some((0xab, 0xcd, 0xef)));
    assert_eq!(parse_hex("# 00ff88"), None);
    assert_eq!(parse_hex("#00ff8"), None);
    assert_eq!(parse_hex("#00ff880"), None);
    assert_eq!(parse_hex(""), None);
    assert_eq!(parse_hex("#é0000"), None);
}

#[test]
fn hex_of_writes_lower_case() {
    assert_eq!(hex_of(0, 255, 136), "#00ff88");
    assert_eq!(hex_of(0xab, 0x0c, 0x10), "#ab0c10");
    assert_eq!(parse_hex(&hex_of(1, 2, 3)), Some((1, 2, 3)));
}

#[test]
fn viz_kind_names_and_cycle() {
    assert_eq!(VizKind::Bars.label(), "频谱柱");
    assert_eq!(VizKind::Wave.label(), "波形");
    assert_eq!(VizKind::Ring.label(), "环形频谱");
    assert_eq!(VizKind::Bars.next(), VizKind::Wave);
    assert_eq!(VizKind::Wave.next(), VizKind::Ring);
    assert_eq!(VizKind::Ring.next(), VizKind::Bars);
    assert_eq!(VizKind::Ring.key(), "ring");
    assert_eq!(VizKind::from_key("wave"), VizKind::Wave);
    assert_eq!(VizKind::from_key("ring"), VizKind::Ring);
    assert_eq!(VizKind::from_key("bars"), VizKind::Bars);
    assert_eq!(VizKind::from_key("Wave"), VizKind::Bars);
}

#[test]
fn preset_names() {
    assert_eq!(preset_name(0), "光谱");
    assert_eq!(preset_name(3), "火焰");
    assert_eq!(preset_name(5), "云白");
    assert_eq!(preset_name(6), "光谱");
    assert_eq!(PRESET_COUNT, 6);
}

#[test]
fn color_labels() {
    assert_eq!(color_label(ColorPref::Preset(1)), "霓虹 2/6");
    assert_eq!(color_label(ColorPref::Preset(7)), "霓虹 2/6");
    assert_eq!(color_label(ColorPref::Custom { r: 0, g: 255, b: 136 }), "#00ff88");
    assert_eq!(color_setting(ColorPref::Preset(4)), "preset:4");
    assert_eq!(color_setting(ColorPref::Preset(12345)), "preset:12345");
}

#[test]
fn color_cycle() {
    let mut c = ColorPref::Preset(0);
    for i in 1..=6 {
        c = next_color(c);
        assert_eq!(c, ColorPref::Preset(i % 6));
    }
    assert_eq!(next_color(ColorPref::Custom { r: 1, g: 2, b: 3 }), ColorPref::Preset(0));
    assert_eq!(next_color(ColorPref::Preset(usize::MAX)), ColorPref::Preset(4));
}

#[test]
fn default_settings() {
    let s = Settings::default();
    assert_eq!(s.viz, VizKind::Bars);
    assert_eq!(s.color, ColorPref::Preset(0));
}

#[test]
fn settings_from_stored_fields() {
    let s = settings_from_fields(Some("ring"), Some("preset:3"));
    assert_eq!(s, Settings { viz: VizKind::Ring, color: ColorPref::Preset(3) });
    let s = settings_from_fields(Some("nope"), Some("preset:6"));
    assert_eq!(s, Settings::default());
    let s = settings_from_fields(None, Some("preset:+2"));
    assert_eq!(s.color, ColorPref::Preset(2));
    let s = settings_from_fields(None, Some("preset:#00ff88"));
    assert_eq!(s.color, ColorPref::Preset(0));
    let s = settings_from_fields(None, Some(" #0a0B0c "));
    assert_eq!(s.color, ColorPref::Custom { r: 10, g: 11, b: 12 });
    let s = settings_from_fields(None, Some("preset:99999999999999999999999"));
    assert_eq!(s.color, ColorPref::Preset(0));
}

#[test]
fn settings_from_documents() {
    let s = settings_from_json(r##"{ "viz": "wave", "color": "#102030" }"##);
    assert_eq!(s, Settings { viz: VizKind::Wave, color: ColorPref::Custom { r: 16, g: 32, b: 48 } });
    assert_eq!(settings_from_json("not json"), Settings::default());
    assert_eq!(settings_from_json("[1, 2]"), Settings::default());
    assert_eq!(settings_from_json(r#"{"viz": 3, "color": "preset:5"}"#).color, ColorPref::Preset(5));
    assert_eq!(settings_from_json(r#"{"viz": "ring"}"#).viz, VizKind::Ring);
}

#[test]
fn settings_document_roundtrip() {
    let all = [
        Settings { viz: VizKind::Ring, color: ColorPref::Custom { r: 0, g: 255, b: 136 } },
        Settings { viz: VizKind::Wave, color: ColorPref::Preset(5) },
        Settings { viz: VizKind::Bars, color: ColorPref::Preset(0) },
    ];
    for s in all {
        let text = settings_to_json(&s);
        assert_eq!(settings_from_json(&text), s);
    }
    let text = settings_to_json(&Settings { viz: VizKind::Ring, color: ColorPref::Preset(2) });
    let v: serde_json::Value = serde_json::from_str(&text).unwrap();
    assert_eq!(v["viz"], "ring");
    assert_eq!(v["color"], "preset:2");
    // A preset number that is not stored as a preset reads back as the default.
    let text = settings_to_json(&Settings { viz: VizKind::Ring, color: ColorPref::Preset(9) });
    assert_eq!(settings_from_json(&text).color, ColorPref::Preset(0));
}

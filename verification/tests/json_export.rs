use frostverb::params::parameter_defs;
use frostverb::preset::{factory_presets, factory_presets_json, json_object, FactoryPreset};
use frostverb::text::{indent, push_decimal, split_lines};

/// The JSON object of a preset as the `format!` of `f32` values writes it.
fn object_from_floats(name: &str, category: &str, levels: [u32; 12]) -> String {
    let v: Vec<f32> = levels
        .iter()
        .map(|level| (*level as f32 / 100.0).clamp(0.0, 1.0))
        .collect();
    format!(
        "{{\n  \"name\": \"{}\",\n  \"category\": \"{}\",\n  \"params\": {{\n    \"coldness\": {:.6},\n    \"wind\": {:.6},\n    \"ice_size\": {:.6},\n    \"ancient_depth\": {:.6},\n    \"frozen_harmonics\": {:.6},\n    \"storm\": {:.6},\n    \"distance\": {:.6},\n    \"decay\": {:.6},\n    \"freeze\": {:.6},\n    \"mix\": {:.6},\n    \"input\": {:.6},\n    \"output\": {:.6}\n  }}\n}}",
        name, category, v[0], v[1], v[2], v[3], v[4], v[5], v[6], v[7], v[8], v[9], v[10], v[11]
    )
}

#[test]
fn preset_objects_match_float_formatting() {
    for preset in factory_presets() {
        assert_eq!(
            preset.to_json_object(),
            object_from_floats(preset.name, preset.category, preset.levels)
        );
    }
}

#[test]
fn out_of_range_levels_are_clamped_in_json() {
    let preset = FactoryPreset {
        name: "Loud",
        category: "Test",
        levels: [150, 100, 0, 5, 99, 10, 1, 50, 0, 100, 101, 7],
    };
    let json = preset.to_json_object();
    assert!(json.contains("\"coldness\": 1.000000,"));
    assert!(json.contains("\"wind\": 1.000000,"));
    assert!(json.contains("\"ancient_depth\": 0.050000,"));
    assert!(json.contains("\"input\": 1.000000,"));
    assert!(json.contains("\"output\": 0.070000\n"));
    assert_eq!(json, object_from_floats("Loud", "Test", preset.levels));
}

#[test]
fn preset_json_array_has_exact_layout() {
    let presets = factory_presets();
    let mut expected = String::from("[\n");
    for (index, preset) in presets.iter().enumerate() {
        let object = object_from_floats(preset.name, preset.category, preset.levels);
        let indented: Vec<String> = object.lines().map(|line| format!("  {line}")).collect();
        expected.push_str(&indented.join("\n"));
        if index + 1 != presets.len() {
            expected.push(',');
        }
        expected.push('\n');
    }
    expected.push(']');
    assert_eq!(factory_presets_json(), expected);
}

#[test]
fn json_array_starts_and_ends_as_array() {
    let json = factory_presets_json();
    assert!(json.starts_with("[\n  {\n    \"name\": \"Frozen Cave\",\n"));
    assert!(json.ends_with("    }\n  }\n]"));
    assert!(json.contains("      \"coldness\": 0.720000,\n"));
    assert_eq!(json.matches("\"params\"").count(), 8);
    assert_eq!(json.matches("\"coldness\"").count(), 8);
}

#[test]
fn parameter_ids_appear_in_order_in_each_object() {
    let json = factory_presets()[2].to_json_object();
    let mut last = 0;
    for param in parameter_defs() {
        let key = format!("\"{}\":", param.id);
        let at = json.find(&key).unwrap();
        assert!(at > last);
        last = at;
    }
}

#[test]
fn indent_prefixes_every_line() {
    assert_eq!(indent("a\nb", 2), "  a\n  b");
    assert_eq!(indent("a\nb\n", 3), "   a\n   b");
    assert_eq!(indent("", 2), "");
    assert_eq!(indent("x", 0), "x");
    assert_eq!(indent("a\r\n\nb", 1), " a\n \n b");
}

#[test]
fn split_lines_matches_std_lines() {
    for input in [
        "",
        "\n",
        "\n\n",
        "a",
        "a\n",
        "a\nb",
        "a\r\nb\r\n",
        "a\rb",
        "tail\r",
        "x\n\ny\n",
        "é\nü\r\n",
    ] {
        let mine: Vec<&str> = split_lines(input);
        let std: Vec<&str> = input.lines().collect();
        assert_eq!(mine, std, "{:?}", input);
    }
}

#[test]
fn decimal_digits_are_written_without_leading_zeros() {
    for n in [0u32, 7, 10, 42, 100, 1234567, u32::MAX] {
        let mut out = String::from(">");
        push_decimal(&mut out, n);
        assert_eq!(out, format!(">{n}"));
    }
}

#[test]
fn json_object_writes_any_value_texts() {
    let values: [f32; 12] = [
        0.123456, 0.5, 1.0, 0.0, 0.333333, 0.999999, 0.25, 0.75, 0.01, 0.0005, 0.42, 0.875,
    ];
    let texts: Vec<String> = values.iter().map(|v| format!("{v:.6}")).collect();
    let json = json_object("Off Grid", "Custom", &texts);
    let expected = format!(
        "{{\n  \"name\": \"Off Grid\",\n  \"category\": \"Custom\",\n  \"params\": {{\n    \"coldness\": {:.6},\n    \"wind\": {:.6},\n    \"ice_size\": {:.6},\n    \"ancient_depth\": {:.6},\n    \"frozen_harmonics\": {:.6},\n    \"storm\": {:.6},\n    \"distance\": {:.6},\n    \"decay\": {:.6},\n    \"freeze\": {:.6},\n    \"mix\": {:.6},\n    \"input\": {:.6},\n    \"output\": {:.6}\n  }}\n}}",
        values[0], values[1], values[2], values[3], values[4], values[5], values[6], values[7],
        values[8], values[9], values[10], values[11]
    );
    assert_eq!(json, expected);
    assert!(json.contains("\"coldness\": 0.123456,"));
}

#[test]
fn json_object_of_level_texts_is_the_preset_object() {
    for preset in factory_presets() {
        let texts: Vec<String> = preset
            .levels
            .iter()
            .map(|level| format!("{:.6}", *level as f32 / 100.0))
            .collect();
        assert_eq!(
            json_object(preset.name, preset.category, &texts),
            preset.to_json_object()
        );
    }
}

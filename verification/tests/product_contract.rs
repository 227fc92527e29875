use frostverb::host::{
    decode_state, encode_state, plugin_descriptor, state_lines, ParameterBank, StateError,
    StateLine,
};
use frostverb::params::{default_levels, parameter_defs, PARAMETER_COUNT};
use frostverb::preset::{factory_preset_by_name, factory_presets, factory_presets_json};
use frostverb::ui::{artwork_layers, control_specs};

/// Reads a state document the way a host wrapper does: each value text is
/// parsed as `f32` and clamped to the normalized range before the library
/// applies the lines.
fn decode_f32(input: &str) -> Result<[f32; PARAMETER_COUNT], StateError> {
    let lines = state_lines(input);
    let values: Vec<Option<f32>> = lines
        .iter()
        .map(|line| match line {
            StateLine::Assignment { value, .. } => value.parse::<f32>().ok().map(clamp01),
            _ => None,
        })
        .collect();
    let start = ParameterBank::new(default_values());
    decode_state(&lines, &values, start).map(|bank| bank.values())
}

fn clamp01(value: f32) -> f32 {
    if value.is_finite() {
        value.clamp(0.0, 1.0)
    } else {
        0.0
    }
}

fn default_values() -> [f32; PARAMETER_COUNT] {
    default_levels().map(|level| level as f32 / 100.0)
}

#[test]
fn public_parameter_ids_are_stable() {
    let ids: Vec<&str> = parameter_defs().iter().map(|param| param.id).collect();

    assert_eq!(
        ids,
        vec![
            "coldness",
            "wind",
            "ice_size",
            "ancient_depth",
            "frozen_harmonics",
            "storm",
            "distance",
            "decay",
            "freeze",
            "mix",
            "input",
            "output",
        ]
    );
}

#[test]
fn descriptor_matches_product_contract() {
    let descriptor = plugin_descriptor();
    assert_eq!(descriptor.audio_inputs, 2);
    assert_eq!(descriptor.audio_outputs, 2);
    assert_eq!(descriptor.name, "Frost Verb");
}

#[test]
fn plugin_descriptor_is_stable_for_wrappers() {
    let descriptor = plugin_descriptor();
    assert_eq!(descriptor.name, "Frost Verb");
    assert_eq!(descriptor.vendor, "Nursven");
    assert_eq!(descriptor.bundle_id, "com.nursven.frostverb");
    assert_eq!(descriptor.audio_inputs, 2);
    assert_eq!(descriptor.audio_outputs, 2);
}

#[test]
fn json_export_contains_all_parameter_ids() {
    let json = factory_presets_json();
    for param in parameter_defs() {
        assert!(json.contains(param.id), "missing {}", param.id);
    }
    for preset in factory_presets() {
        assert!(json.contains(preset.name));
    }
}

#[test]
fn public_parameter_contract_has_unique_ids_and_valid_defaults() {
    let defs = parameter_defs();
    for (index, param) in defs.iter().enumerate() {
        assert!(!param.id.is_empty());
        assert!(!param.name.is_empty());
        assert!(param.min < param.max, "{}", param.id);
        assert!(
            (param.min..=param.max).contains(&param.default),
            "{} default out of range",
            param.id
        );
        assert!(param.automatable, "{} should be automatable", param.id);

        for previous in defs.iter().take(index) {
            assert_ne!(param.id, previous.id, "duplicate id {}", param.id);
        }
    }
}

#[test]
fn preset_lookup_is_case_insensitive() {
    assert_eq!(
        factory_preset_by_name("whiteout").map(|preset| preset.name),
        Some("Whiteout")
    );
}

#[test]
fn all_factory_presets_are_unique_and_lookupable() {
    let presets = factory_presets();
    for (index, preset) in presets.iter().enumerate() {
        assert_eq!(
            factory_preset_by_name(preset.name).map(|found| found.levels),
            Some(preset.levels)
        );
        for previous in presets.iter().take(index) {
            assert_ne!(preset.name, previous.name);
        }
    }
}

#[test]
fn host_state_rejects_missing_header_and_bad_numbers() {
    assert_eq!(
        decode_f32("coldness=0.5\n"),
        Err(StateError::MalformedState)
    );
    assert_eq!(
        decode_f32("frostverb-state-v1\ncoldness=not-a-number\n"),
        Err(StateError::MalformedState)
    );
}

#[test]
fn state_round_trip_preserves_parameters() {
    let mut values = default_values();
    values[0] = 0.9;
    values[8] = 0.35;
    let texts: Vec<String> = values.iter().map(|value| format!("{value:.8}")).collect();

    let encoded = encode_state(&texts);
    let decoded = decode_f32(&encoded).unwrap();

    assert_eq!(values, decoded);
}

#[test]
fn every_control_targets_a_public_parameter() {
    let defs = parameter_defs();
    for control in control_specs() {
        assert!(defs.iter().any(|param| param.id == control.id));
    }
}

#[test]
fn primary_layout_matches_product_plan() {
    let ids = control_specs()
        .iter()
        .map(|control| control.id)
        .collect::<Vec<_>>();
    assert!(ids.starts_with(&["ice_size", "ancient_depth", "coldness"]));
    assert!(ids.contains(&"wind"));
    assert!(ids.contains(&"frozen_harmonics"));
    assert!(ids.contains(&"storm"));
    assert!(ids.contains(&"distance"));
    assert!(ids.contains(&"input"));
    assert!(ids.contains(&"output"));
    assert!(ids.contains(&"mix"));
}

#[test]
fn artwork_manifest_has_no_baked_label_assets() {
    for layer in artwork_layers() {
        assert!(!layer.path.contains("label"));
        assert!(!layer.path.contains("text"));
        assert!(!layer.path.contains("value"));
    }
}

/// Stores a host value under a parameter id the way a host wrapper does:
/// clamped to the normalized range first.
fn set_normalized(
    bank: &mut ParameterBank<f32>,
    id: &str,
    value: f32,
) -> Result<(), StateError> {
    bank.set(id, clamp01(value))
}

#[test]
fn host_snapshot_clamps_nonfinite_and_out_of_range_values() {
    let mut snapshot = ParameterBank::new(default_values());

    set_normalized(&mut snapshot, "coldness", 2.0).unwrap();
    set_normalized(&mut snapshot, "wind", -1.0).unwrap();
    set_normalized(&mut snapshot, "freeze", f32::NAN).unwrap();

    assert_eq!(snapshot.get("coldness"), Some(1.0));
    assert_eq!(snapshot.get("wind"), Some(0.0));
    assert_eq!(snapshot.get("freeze"), Some(0.0));
    assert_eq!(
        set_normalized(&mut snapshot, "missing", 0.5),
        Err(StateError::UnknownParameter)
    );
}

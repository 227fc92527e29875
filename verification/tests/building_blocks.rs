use frostverb::delay::DelayLine;
use frostverb::noise::{xorshift32, SEED_L, SEED_R};
use frostverb::text::{eq_ignore_ascii_case, str_eq};
use frostverb::params::{default_levels, parameter_defs};
use frostverb::ui::{
    artwork_layer_by_name, artwork_layers, knob_cap_layer, knob_radius, label_size, value_size,
    ArtworkLayerKind, FrostVerbArtwork, KnobSize, RectSpec,
};
use frostverb::wav::wav_header;

#[test]
fn delay_line_echoes_after_the_delay() {
    let mut line = DelayLine::new(0i32);
    line.resize(8);
    for i in 1..=20 {
        let out = line.push_read(i, 3);
        let expected = if i > 3 { i - 3 } else { 0 };
        assert_eq!(out, expected);
    }
}

#[test]
fn delay_line_caps_the_delay_and_reads_the_oldest_at_zero() {
    let mut line = DelayLine::new(0i32);
    line.resize(4);
    for i in 1..=4 {
        line.push_read(i, 1);
    }
    // Window now holds 1, 2, 3, 4: delay 0 reads the oldest.
    assert_eq!(line.push_read(5, 0), 1);
    // Window 2, 3, 4, 5: a delay past the end is capped at 3.
    assert_eq!(line.push_read(6, 100), 3);
    assert_eq!(line.push_read(7, 1), 6);
}

#[test]
fn delay_line_clear_and_resize_silence_it() {
    let mut line = DelayLine::new(-1i32);
    line.resize(0);
    assert_eq!(line.push_read(9, 0), -1);
    assert_eq!(line.push_read(8, 5), 9);
    line.resize(3);
    for i in 0..3 {
        line.push_read(i, 1);
    }
    line.clear();
    assert_eq!(line.push_read(10, 1), -1);
    assert_eq!(line.push_read(11, 1), 10);
}

fn reference_xorshift(mut x: u32) -> u32 {
    x ^= x << 13;
    x ^= x >> 17;
    x ^= x << 5;
    x
}

#[test]
fn xorshift_steps_match_the_reference() {
    let mut a = SEED_L;
    let mut b = SEED_R;
    for _ in 0..1000 {
        assert_eq!(xorshift32(a), reference_xorshift(a));
        a = xorshift32(a);
        b = xorshift32(b);
        assert_ne!(a, 0);
        assert_ne!(b, 0);
    }
    assert_eq!(xorshift32(1), 270369);
    assert_eq!(xorshift32(0), 0);
}

#[test]
fn string_comparisons() {
    assert!(str_eq("abc", "abc"));
    assert!(!str_eq("abc", "abd"));
    assert!(eq_ignore_ascii_case("WhiteOut", "whiteout"));
    assert!(eq_ignore_ascii_case("", ""));
    assert!(!eq_ignore_ascii_case("Whiteout", "Whiteouts"));
    assert!(!eq_ignore_ascii_case("É", "é"));
    assert!(eq_ignore_ascii_case("Ice Plate", "ICE PLATE"));
}

#[test]
fn artwork_textures_follow_the_latest_set() {
    let mut art = FrostVerbArtwork::default();
    assert_eq!(art.texture("base-panel"), None);
    art.set_texture("base-panel", egui::TextureId::User(1));
    art.set_texture("toggle-plate", egui::TextureId::User(2));
    art.set_texture("base-panel", egui::TextureId::User(3));
    assert_eq!(art.texture("base-panel"), Some(egui::TextureId::User(3)));
    assert_eq!(art.texture("toggle-plate"), Some(egui::TextureId::User(2)));
    assert_eq!(art.texture("storm-wind"), None);
}

#[test]
fn artwork_layers_cover_the_design() {
    let layers = artwork_layers();
    assert_eq!(layers[0].name, "base-panel");
    assert_eq!(layers[0].rect, RectSpec::new(0, 0, 1000, 620));
    assert_eq!(layers[5].rect, RectSpec::new(0, 0, 118, 48));
    assert_eq!(layers[10].name, "foreground-scratches");
}

#[test]
fn wav_header_fields() {
    let h = wav_header(48_000, 10);
    assert_eq!(h.len(), 44);
    assert_eq!(&h[0..4], b"RIFF");
    assert_eq!(u32::from_le_bytes(h[4..8].try_into().unwrap()), 36 + 40);
    assert_eq!(&h[8..12], b"WAVE");
    assert_eq!(&h[12..16], b"fmt ");
    assert_eq!(&h[16..20], &16_u32.to_le_bytes());
    assert_eq!(&h[20..22], &1_u16.to_le_bytes());
    assert_eq!(&h[22..24], &2_u16.to_le_bytes());
    assert_eq!(&h[24..28], &48_000_u32.to_le_bytes());
    assert_eq!(&h[28..32], &192_000_u32.to_le_bytes());
    assert_eq!(&h[32..34], &4_u16.to_le_bytes());
    assert_eq!(&h[34..36], &16_u16.to_le_bytes());
    assert_eq!(&h[36..40], b"data");
    assert_eq!(u32::from_le_bytes(h[40..44].try_into().unwrap()), 40);
}

#[test]
fn knob_geometry_and_fonts() {
    assert_eq!(knob_radius(KnobSize::Large), 76);
    assert_eq!(knob_radius(KnobSize::Medium), 56);
    assert_eq!(knob_radius(KnobSize::Small), 40);
    assert_eq!(label_size(KnobSize::Large), 16);
    assert_eq!(label_size(KnobSize::Small), 12);
    assert_eq!(value_size(KnobSize::Medium), 12);
    assert_eq!(value_size(KnobSize::Small), 11);
    assert_eq!(knob_cap_layer(KnobSize::Large), "large-knob-cap");
    assert_eq!(knob_cap_layer(KnobSize::Medium), "medium-knob-cap");
    assert_eq!(knob_cap_layer(KnobSize::Small), "small-knob-cap");
}

#[test]
fn layers_are_found_by_name() {
    let layer = artwork_layer_by_name("toggle-plate").unwrap();
    assert_eq!(layer.kind, ArtworkLayerKind::Control);
    assert_eq!(layer.path, "assets/ui/toggle_plate.png");
    assert_eq!(
        artwork_layer_by_name("freeze-glow").map(|l| l.kind),
        Some(ArtworkLayerKind::Reactive)
    );
    assert!(artwork_layer_by_name("label").is_none());
    for layer in artwork_layers() {
        assert_eq!(artwork_layer_by_name(layer.name), Some(layer));
    }
}

#[test]
fn default_levels_follow_the_table() {
    let levels = default_levels();
    assert_eq!(levels, [62, 18, 55, 48, 24, 20, 42, 58, 0, 34, 75, 75]);
    for (level, def) in levels.iter().zip(parameter_defs()) {
        assert_eq!(*level, def.default);
    }
}

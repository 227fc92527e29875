use vstd::prelude::*;

use crate::params::{
    is_parameter_id, lemma_parameter_index_of_id, lemma_parameter_table_well_formed, parameter_id,
    spec_parameter_index, PARAMETER_COUNT,
};
use crate::text::{contains_text, str_eq};
use egui::TextureId;

verus! {

/// Width of the panel design, in design points.
pub const DESIGN_WIDTH: u32 = 1000;

/// Height of the panel design, in design points.
pub const DESIGN_HEIGHT: u32 = 620;

/// What an artwork layer is for.
#[derive(Clone, Copy, Debug, PartialEq, Eq, Structural)]
pub enum ArtworkLayerKind {
    Base,
    StaticOverlay,
    Control,
    Reactive,
}

/// A rectangle of the panel design, in design points.
#[derive(Clone, Copy, Debug, PartialEq, Eq, Structural)]
pub struct RectSpec {
    pub x: u32,
    pub y: u32,
    pub w: u32,
    pub h: u32,
}

impl RectSpec {
    /// The rectangle at (`x`, `y`) of size `w` by `h`.
    pub fn new(x: u32, y: u32, w: u32, h: u32) -> (r: Self)
        ensures
            r == (RectSpec { x, y, w, h }),
    {
        RectSpec { x, y, w, h }
    }
}

/// One PNG layer of the panel artwork.
#[derive(Clone, Copy, Debug, PartialEq, Eq)]
pub struct ArtworkLayer {
    pub name: &'static str,
    pub path: &'static str,
    pub kind: ArtworkLayerKind,
    pub rect: RectSpec,
}

/// Number of artwork layers.
pub const ARTWORK_LAYER_COUNT: usize = 11;

/// The artwork layers, drawn back to front.
pub open spec fn spec_artwork_layers() -> Seq<ArtworkLayer> {
    seq![
        ArtworkLayer { name: "base-panel", path: "assets/ui/base_panel.png", kind: ArtworkLayerKind::Base, rect: RectSpec { x: 0, y: 0, w: 1000, h: 620 } },
        ArtworkLayer { name: "ice-structure", path: "assets/ui/ice_structure_overlay.png", kind: ArtworkLayerKind::StaticOverlay, rect: RectSpec { x: 0, y: 0, w: 1000, h: 620 } },
        ArtworkLayer { name: "large-knob-cap", path: "assets/ui/large_knob_cap.png", kind: ArtworkLayerKind::Control, rect: RectSpec { x: 0, y: 0, w: 160, h: 160 } },
        ArtworkLayer { name: "medium-knob-cap", path: "assets/ui/medium_knob_cap.png", kind: ArtworkLayerKind::Control, rect: RectSpec { x: 0, y: 0, w: 118, h: 118 } },
        ArtworkLayer { name: "small-knob-cap", path: "assets/ui/small_knob_cap.png", kind: ArtworkLayerKind::Control, rect: RectSpec { x: 0, y: 0, w: 86, h: 86 } },
        ArtworkLayer { name: "toggle-plate", path: "assets/ui/toggle_plate.png", kind: ArtworkLayerKind::Control, rect: RectSpec { x: 0, y: 0, w: 118, h: 48 } },
        ArtworkLayer { name: "freeze-glow", path: "assets/ui/freeze_glow.png", kind: ArtworkLayerKind::Reactive, rect: RectSpec { x: 0, y: 0, w: 1000, h: 620 } },
        ArtworkLayer { name: "storm-wind", path: "assets/ui/storm_wind.png", kind: ArtworkLayerKind::Reactive, rect: RectSpec { x: 0, y: 0, w: 1000, h: 620 } },
        ArtworkLayer { name: "coldness-ice", path: "assets/ui/coldness_ice.png", kind: ArtworkLayerKind::Reactive, rect: RectSpec { x: 0, y: 0, w: 1000, h: 620 } },
        ArtworkLayer { name: "meter-accent", path: "assets/ui/meter_accent.png", kind: ArtworkLayerKind::Reactive, rect: RectSpec { x: 0, y: 0, w: 1000, h: 620 } },
        ArtworkLayer { name: "foreground-scratches", path: "assets/ui/foreground_scratches.png", kind: ArtworkLayerKind::StaticOverlay, rect: RectSpec { x: 0, y: 0, w: 1000, h: 620 } },
    ]
}

/// The artwork layers, back to front: the base panel, a static overlay, the
/// control caps and toggle plate, the four reactive overlays, and the
/// foreground overlay; full-panel layers cover the whole 1000 by 620 design.
pub proof fn lemma_artwork_table()
    ensures
        spec_artwork_layers().len() == 11,
        spec_artwork_layers()[0] == (ArtworkLayer { name: "base-panel", path: "assets/ui/base_panel.png", kind: ArtworkLayerKind::Base, rect: RectSpec { x: 0, y: 0, w: 1000, h: 620 } }),
        spec_artwork_layers()[1] == (ArtworkLayer { name: "ice-structure", path: "assets/ui/ice_structure_overlay.png", kind: ArtworkLayerKind::StaticOverlay, rect: RectSpec { x: 0, y: 0, w: 1000, h: 620 } }),
        spec_artwork_layers()[2] == (ArtworkLayer { name: "large-knob-cap", path: "assets/ui/large_knob_cap.png", kind: ArtworkLayerKind::Control, rect: RectSpec { x: 0, y: 0, w: 160, h: 160 } }),
        spec_artwork_layers()[3] == (ArtworkLayer { name: "medium-knob-cap", path: "assets/ui/medium_knob_cap.png", kind: ArtworkLayerKind::Control, rect: RectSpec { x: 0, y: 0, w: 118, h: 118 } }),
        spec_artwork_layers()[4] == (ArtworkLayer { name: "small-knob-cap", path: "assets/ui/small_knob_cap.png", kind: ArtworkLayerKind::Control, rect: RectSpec { x: 0, y: 0, w: 86, h: 86 } }),
        spec_artwork_layers()[5] == (ArtworkLayer { name: "toggle-plate", path: "assets/ui/toggle_plate.png", kind: ArtworkLayerKind::Control, rect: RectSpec { x: 0, y: 0, w: 118, h: 48 } }),
        spec_artwork_layers()[6] == (ArtworkLayer { name: "freeze-glow", path: "assets/ui/freeze_glow.png", kind: ArtworkLayerKind::Reactive, rect: RectSpec { x: 0, y: 0, w: 1000, h: 620 } }),
        spec_artwork_layers()[7] == (ArtworkLayer { name: "storm-wind", path: "assets/ui/storm_wind.png", kind: ArtworkLayerKind::Reactive, rect: RectSpec { x: 0, y: 0, w: 1000, h: 620 } }),
        spec_artwork_layers()[8] == (ArtworkLayer { name: "coldness-ice", path: "assets/ui/coldness_ice.png", kind: ArtworkLayerKind::Reactive, rect: RectSpec { x: 0, y: 0, w: 1000, h: 620 } }),
        spec_artwork_layers()[9] == (ArtworkLayer { name: "meter-accent", path: "assets/ui/meter_accent.png", kind: ArtworkLayerKind::Reactive, rect: RectSpec { x: 0, y: 0, w: 1000, h: 620 } }),
        spec_artwork_layers()[10] == (ArtworkLayer { name: "foreground-scratches", path: "assets/ui/foreground_scratches.png", kind: ArtworkLayerKind::StaticOverlay, rect: RectSpec { x: 0, y: 0, w: 1000, h: 620 } }),
{
}

/// The artwork layers.
pub fn artwork_layers() -> (layers: [ArtworkLayer; ARTWORK_LAYER_COUNT])
    ensures
        layers@ == spec_artwork_layers(),
{
    let layers = [
        ArtworkLayer { name: "base-panel", path: "assets/ui/base_panel.png", kind: ArtworkLayerKind::Base, rect: RectSpec { x: 0, y: 0, w: 1000, h: 620 } },
        ArtworkLayer { name: "ice-structure", path: "assets/ui/ice_structure_overlay.png", kind: ArtworkLayerKind::StaticOverlay, rect: RectSpec { x: 0, y: 0, w: 1000, h: 620 } },
        ArtworkLayer { name: "large-knob-cap", path: "assets/ui/large_knob_cap.png", kind: ArtworkLayerKind::Control, rect: RectSpec { x: 0, y: 0, w: 160, h: 160 } },
        ArtworkLayer { name: "medium-knob-cap", path: "assets/ui/medium_knob_cap.png", kind: ArtworkLayerKind::Control, rect: RectSpec { x: 0, y: 0, w: 118, h: 118 } },
        ArtworkLayer { name: "small-knob-cap", path: "assets/ui/small_knob_cap.png", kind: ArtworkLayerKind::Control, rect: RectSpec { x: 0, y: 0, w: 86, h: 86 } },
        ArtworkLayer { name: "toggle-plate", path: "assets/ui/toggle_plate.png", kind: ArtworkLayerKind::Control, rect: RectSpec { x: 0, y: 0, w: 118, h: 48 } },
        ArtworkLayer { name: "freeze-glow", path: "assets/ui/freeze_glow.png", kind: ArtworkLayerKind::Reactive, rect: RectSpec { x: 0, y: 0, w: 1000, h: 620 } },
        ArtworkLayer { name: "storm-wind", path: "assets/ui/storm_wind.png", kind: ArtworkLayerKind::Reactive, rect: RectSpec { x: 0, y: 0, w: 1000, h: 620 } },
        ArtworkLayer { name: "coldness-ice", path: "assets/ui/coldness_ice.png", kind: ArtworkLayerKind::Reactive, rect: RectSpec { x: 0, y: 0, w: 1000, h: 620 } },
        ArtworkLayer { name: "meter-accent", path: "assets/ui/meter_accent.png", kind: ArtworkLayerKind::Reactive, rect: RectSpec { x: 0, y: 0, w: 1000, h: 620 } },
        ArtworkLayer { name: "foreground-scratches", path: "assets/ui/foreground_scratches.png", kind: ArtworkLayerKind::StaticOverlay, rect: RectSpec { x: 0, y: 0, w: 1000, h: 620 } },
    ];
    assert(layers@ =~= spec_artwork_layers());
    layers
}

/// The size class of a knob.
#[derive(Clone, Copy, Debug, PartialEq, Eq, Structural)]
pub enum KnobSize {
    Large,
    Medium,
    Small,
}

/// A knob of the panel: the parameter it sets, its centre in design points,
/// and its size.
#[derive(Clone, Copy, Debug, PartialEq, Eq)]
pub struct ControlSpec {
    pub id: &'static str,
    pub center_x: u32,
    pub center_y: u32,
    pub size: KnobSize,
}

/// Number of knobs.
pub const CONTROL_COUNT: usize = 11;

/// The knobs of the panel: three large macro controls, four secondary
/// controls, then decay and the footer controls.
pub open spec fn spec_control_specs() -> Seq<ControlSpec> {
    seq![
        ControlSpec { id: "ice_size", center_x: 260, center_y: 210, size: KnobSize::Large },
        ControlSpec { id: "ancient_depth", center_x: 500, center_y: 188, size: KnobSize::Large },
        ControlSpec { id: "coldness", center_x: 740, center_y: 210, size: KnobSize::Large },
        ControlSpec { id: "wind", center_x: 170, center_y: 390, size: KnobSize::Medium },
        ControlSpec { id: "frozen_harmonics", center_x: 390, center_y: 405, size: KnobSize::Medium },
        ControlSpec { id: "storm", center_x: 610, center_y: 405, size: KnobSize::Medium },
        ControlSpec { id: "distance", center_x: 830, center_y: 390, size: KnobSize::Medium },
        ControlSpec { id: "decay", center_x: 500, center_y: 312, size: KnobSize::Small },
        ControlSpec { id: "input", center_x: 178, center_y: 545, size: KnobSize::Small },
        ControlSpec { id: "mix", center_x: 500, center_y: 545, size: KnobSize::Small },
        ControlSpec { id: "output", center_x: 822, center_y: 545, size: KnobSize::Small },
    ]
}

/// The knobs of the panel.
pub fn control_specs() -> (controls: [ControlSpec; CONTROL_COUNT])
    ensures
        controls@ == spec_control_specs(),
{
    let controls = [
        ControlSpec { id: "ice_size", center_x: 260, center_y: 210, size: KnobSize::Large },
        ControlSpec { id: "ancient_depth", center_x: 500, center_y: 188, size: KnobSize::Large },
        ControlSpec { id: "coldness", center_x: 740, center_y: 210, size: KnobSize::Large },
        ControlSpec { id: "wind", center_x: 170, center_y: 390, size: KnobSize::Medium },
        ControlSpec { id: "frozen_harmonics", center_x: 390, center_y: 405, size: KnobSize::Medium },
        ControlSpec { id: "storm", center_x: 610, center_y: 405, size: KnobSize::Medium },
        ControlSpec { id: "distance", center_x: 830, center_y: 390, size: KnobSize::Medium },
        ControlSpec { id: "decay", center_x: 500, center_y: 312, size: KnobSize::Small },
        ControlSpec { id: "input", center_x: 178, center_y: 545, size: KnobSize::Small },
        ControlSpec { id: "mix", center_x: 500, center_y: 545, size: KnobSize::Small },
        ControlSpec { id: "output", center_x: 822, center_y: 545, size: KnobSize::Small },
    ];
    assert(controls@ =~= spec_control_specs());
    controls
}

/// Knob sizes follow the panel plan: ice size, ancient depth and coldness are
/// the large macro controls; wind, frozen harmonics, storm and distance the
/// medium secondary controls; decay, input, mix and output the small ones.
pub proof fn lemma_knob_sizes_follow_layout()
    ensures
        forall|c: int|
            0 <= c < CONTROL_COUNT ==> {
            let k = #[trigger] spec_control_specs()[c];
            &&& (k.id@ == "ice_size"@ || k.id@ == "ancient_depth"@ || k.id@ == "coldness"@) <==> k.size == KnobSize::Large
            &&& (k.id@ == "wind"@ || k.id@ == "frozen_harmonics"@ || k.id@ == "storm"@ || k.id@ == "distance"@) <==> k.size == KnobSize::Medium
            &&& (k.id@ == "decay"@ || k.id@ == "input"@ || k.id@ == "mix"@ || k.id@ == "output"@) <==> k.size == KnobSize::Small
            },
{
    lemma_parameter_table_well_formed();
    assert(parameter_id(0) == "coldness"@);
    assert(parameter_id(1) == "wind"@);
    assert(parameter_id(2) == "ice_size"@);
    assert(parameter_id(3) == "ancient_depth"@);
    assert(parameter_id(4) == "frozen_harmonics"@);
    assert(parameter_id(5) == "storm"@);
    assert(parameter_id(6) == "distance"@);
    assert(parameter_id(7) == "decay"@);
    assert(parameter_id(8) == "freeze"@);
    assert(parameter_id(9) == "mix"@);
    assert(parameter_id(10) == "input"@);
    assert(parameter_id(11) == "output"@);
    assert forall|c: int| 0 <= c < CONTROL_COUNT implies {
            let k = #[trigger] spec_control_specs()[c];
            &&& (k.id@ == "ice_size"@ || k.id@ == "ancient_depth"@ || k.id@ == "coldness"@) <==> k.size == KnobSize::Large
            &&& (k.id@ == "wind"@ || k.id@ == "frozen_harmonics"@ || k.id@ == "storm"@ || k.id@ == "distance"@) <==> k.size == KnobSize::Medium
            &&& (k.id@ == "decay"@ || k.id@ == "input"@ || k.id@ == "mix"@ || k.id@ == "output"@) <==> k.size == KnobSize::Small
    } by {
        if c == 0 {
            assert(spec_control_specs()[0].id@ == "ice_size"@);
        } else if c == 1 {
            assert(spec_control_specs()[1].id@ == "ancient_depth"@);
        } else if c == 2 {
            assert(spec_control_specs()[2].id@ == "coldness"@);
        } else if c == 3 {
            assert(spec_control_specs()[3].id@ == "wind"@);
        } else if c == 4 {
            assert(spec_control_specs()[4].id@ == "frozen_harmonics"@);
        } else if c == 5 {
            assert(spec_control_specs()[5].id@ == "storm"@);
        } else if c == 6 {
            assert(spec_control_specs()[6].id@ == "distance"@);
        } else if c == 7 {
            assert(spec_control_specs()[7].id@ == "decay"@);
        } else if c == 8 {
            assert(spec_control_specs()[8].id@ == "input"@);
        } else if c == 9 {
            assert(spec_control_specs()[9].id@ == "mix"@);
        } else {
            assert(spec_control_specs()[10].id@ == "output"@);
        }
    }
}

/// The knobs of the panel, one by one: the parameter each sets, its centre in
/// design points and its size.
pub proof fn lemma_control_table()
    ensures
        spec_control_specs()[0] == (ControlSpec { id: "ice_size", center_x: 260, center_y: 210, size: KnobSize::Large }),
        spec_control_specs()[1] == (ControlSpec { id: "ancient_depth", center_x: 500, center_y: 188, size: KnobSize::Large }),
        spec_control_specs()[2] == (ControlSpec { id: "coldness", center_x: 740, center_y: 210, size: KnobSize::Large }),
        spec_control_specs()[3] == (ControlSpec { id: "wind", center_x: 170, center_y: 390, size: KnobSize::Medium }),
        spec_control_specs()[4] == (ControlSpec { id: "frozen_harmonics", center_x: 390, center_y: 405, size: KnobSize::Medium }),
        spec_control_specs()[5] == (ControlSpec { id: "storm", center_x: 610, center_y: 405, size: KnobSize::Medium }),
        spec_control_specs()[6] == (ControlSpec { id: "distance", center_x: 830, center_y: 390, size: KnobSize::Medium }),
        spec_control_specs()[7] == (ControlSpec { id: "decay", center_x: 500, center_y: 312, size: KnobSize::Small }),
        spec_control_specs()[8] == (ControlSpec { id: "input", center_x: 178, center_y: 545, size: KnobSize::Small }),
        spec_control_specs()[9] == (ControlSpec { id: "mix", center_x: 500, center_y: 545, size: KnobSize::Small }),
        spec_control_specs()[10] == (ControlSpec { id: "output", center_x: 822, center_y: 545, size: KnobSize::Small }),
{
}

/// The position in the parameter table of the parameter that knob `c` sets.
pub open spec fn control_target(c: int) -> int {
    if c == 0 { 2 } else if c == 1 { 3 } else if c == 2 { 0 } else if c == 3 { 1 } else if c == 4 { 4 } else if c == 5 { 5 } else if c == 6 { 6 } else if c == 7 { 7 } else if c == 8 { 10 } else if c == 9 { 9 } else { 11 }
}

/// Every knob sets a public parameter, no two knobs set the same one, and
/// every parameter but `freeze`, which has its own toggle, has a knob.
pub proof fn lemma_controls_cover_parameters()
    ensures
        forall|c: int|
            0 <= c < CONTROL_COUNT ==> {
                &&& is_parameter_id(#[trigger] spec_control_specs()[c].id@)
                &&& spec_parameter_index(spec_control_specs()[c].id@) == Some(control_target(c))
            },
        forall|c: int, d: int|
            0 <= c < CONTROL_COUNT && 0 <= d < CONTROL_COUNT && c != d ==> #[trigger] spec_control_specs()[c].id@
                != #[trigger] spec_control_specs()[d].id@,
        forall|i: int|
            #![trigger parameter_id(i)]
            0 <= i < PARAMETER_COUNT && i != 8 ==> exists|c: int|
                0 <= c < CONTROL_COUNT && #[trigger] spec_control_specs()[c].id@ == parameter_id(i),
{
    lemma_parameter_table_well_formed();
    assert forall|c: int| 0 <= c < CONTROL_COUNT implies spec_control_specs()[c].id@ == parameter_id(
        control_target(c),
    ) && 0 <= control_target(c) < PARAMETER_COUNT && control_target(c) != 8 by {
        if c == 0 {
            assert(spec_control_specs()[0].id@ == parameter_id(2));
        } else if c == 1 {
            assert(spec_control_specs()[1].id@ == parameter_id(3));
        } else if c == 2 {
            assert(spec_control_specs()[2].id@ == parameter_id(0));
        } else if c == 3 {
            assert(spec_control_specs()[3].id@ == parameter_id(1));
        } else if c == 4 {
            assert(spec_control_specs()[4].id@ == parameter_id(4));
        } else if c == 5 {
            assert(spec_control_specs()[5].id@ == parameter_id(5));
        } else if c == 6 {
            assert(spec_control_specs()[6].id@ == parameter_id(6));
        } else if c == 7 {
            assert(spec_control_specs()[7].id@ == parameter_id(7));
        } else if c == 8 {
            assert(spec_control_specs()[8].id@ == parameter_id(10));
        } else if c == 9 {
            assert(spec_control_specs()[9].id@ == parameter_id(9));
        } else {
            assert(spec_control_specs()[10].id@ == parameter_id(11));
        }
    }
    assert forall|c: int| 0 <= c < CONTROL_COUNT implies {
        &&& is_parameter_id(#[trigger] spec_control_specs()[c].id@)
        &&& spec_parameter_index(spec_control_specs()[c].id@) == Some(control_target(c))
    } by {
        lemma_parameter_index_of_id(control_target(c));
    }
    assert forall|i: int| #![trigger parameter_id(i)] 0 <= i < PARAMETER_COUNT && i != 8 implies exists|c: int|
        0 <= c < CONTROL_COUNT && #[trigger] spec_control_specs()[c].id@ == parameter_id(i) by {
        if i == 0 {
            assert(spec_control_specs()[2].id@ == parameter_id(0));
        } else if i == 1 {
            assert(spec_control_specs()[3].id@ == parameter_id(1));
        } else if i == 2 {
            assert(spec_control_specs()[0].id@ == parameter_id(2));
        } else if i == 3 {
            assert(spec_control_specs()[1].id@ == parameter_id(3));
        } else if i == 4 {
            assert(spec_control_specs()[4].id@ == parameter_id(4));
        } else if i == 5 {
            assert(spec_control_specs()[5].id@ == parameter_id(5));
        } else if i == 6 {
            assert(spec_control_specs()[6].id@ == parameter_id(6));
        } else if i == 7 {
            assert(spec_control_specs()[7].id@ == parameter_id(7));
        } else if i == 9 {
            assert(spec_control_specs()[9].id@ == parameter_id(9));
        } else if i == 10 {
            assert(spec_control_specs()[8].id@ == parameter_id(10));
        } else {
            assert(spec_control_specs()[10].id@ == parameter_id(11));
        }
    }
}

/// Length of each layer name: with `layer_key_first` it tells the names apart.
spec fn layer_key_len(i: int) -> int {
    if i == 0 { 10 } else if i == 1 { 13 } else if i == 2 { 14 } else if i == 3 { 15 } else if i == 4 { 14 } else if i == 5 { 12 } else if i == 6 { 11 } else if i == 7 { 10 } else if i == 8 { 12 } else if i == 9 { 12 } else { 20 }
}

/// First character of each layer name.
spec fn layer_key_first(i: int) -> char {
    if i == 0 { 'b' } else if i == 1 { 'i' } else if i == 2 { 'l' } else if i == 3 { 'm' } else if i == 4 { 's' } else if i == 5 { 't' } else if i == 6 { 'f' } else if i == 7 { 's' } else if i == 8 { 'c' } else if i == 9 { 'm' } else { 'f' }
}

/// No two artwork layers share a name.
pub proof fn lemma_layer_names_distinct()
    ensures
        forall|i: int, j: int|
            0 <= i < ARTWORK_LAYER_COUNT && 0 <= j < ARTWORK_LAYER_COUNT && i != j
                ==> #[trigger] spec_artwork_layers()[i].name@ != #[trigger] spec_artwork_layers()[j].name@,
{
    assert forall|i: int| 0 <= i < ARTWORK_LAYER_COUNT implies spec_artwork_layers()[i].name@.len()
        == layer_key_len(i) && spec_artwork_layers()[i].name@[0] == layer_key_first(i) by {
        if i == 0 {
            reveal_strlit("base-panel");
            assert(spec_artwork_layers()[0].name@ == "base-panel"@);
        } else if i == 1 {
            reveal_strlit("ice-structure");
            assert(spec_artwork_layers()[1].name@ == "ice-structure"@);
        } else if i == 2 {
            reveal_strlit("large-knob-cap");
            assert(spec_artwork_layers()[2].name@ == "large-knob-cap"@);
        } else if i == 3 {
            reveal_strlit("medium-knob-cap");
            assert(spec_artwork_layers()[3].name@ == "medium-knob-cap"@);
        } else if i == 4 {
            reveal_strlit("small-knob-cap");
            assert(spec_artwork_layers()[4].name@ == "small-knob-cap"@);
        } else if i == 5 {
            reveal_strlit("toggle-plate");
            assert(spec_artwork_layers()[5].name@ == "toggle-plate"@);
        } else if i == 6 {
            reveal_strlit("freeze-glow");
            assert(spec_artwork_layers()[6].name@ == "freeze-glow"@);
        } else if i == 7 {
            reveal_strlit("storm-wind");
            assert(spec_artwork_layers()[7].name@ == "storm-wind"@);
        } else if i == 8 {
            reveal_strlit("coldness-ice");
            assert(spec_artwork_layers()[8].name@ == "coldness-ice"@);
        } else if i == 9 {
            reveal_strlit("meter-accent");
            assert(spec_artwork_layers()[9].name@ == "meter-accent"@);
        } else {
            reveal_strlit("foreground-scratches");
            assert(spec_artwork_layers()[10].name@ == "foreground-scratches"@);
        }
    }
    assert forall|i: int, j: int|
        0 <= i < ARTWORK_LAYER_COUNT && 0 <= j < ARTWORK_LAYER_COUNT && i != j implies #[trigger] spec_artwork_layers()[i].name@
        != #[trigger] spec_artwork_layers()[j].name@ by {
        if spec_artwork_layers()[i].name@ == spec_artwork_layers()[j].name@ {
            assert(layer_key_len(i) == layer_key_len(j));
            assert(layer_key_first(i) == layer_key_first(j));
        }
    }
}

/// The artwork layer called `name`, if any.
pub fn artwork_layer_by_name(name: &str) -> (r: Option<ArtworkLayer>)
    ensures
        match r {
            Some(layer) => exists|i: int|
                0 <= i < ARTWORK_LAYER_COUNT && #[trigger] spec_artwork_layers()[i] == layer && layer.name@
                    == name@,
            None => forall|i: int| 0 <= i < ARTWORK_LAYER_COUNT ==> #[trigger] spec_artwork_layers()[i].name@ != name@,
        },
{
    let layers = artwork_layers();
    let mut i: usize = 0;
    while i < ARTWORK_LAYER_COUNT
        invariant
            layers@ == spec_artwork_layers(),
            0 <= i <= ARTWORK_LAYER_COUNT,
            forall|j: int| 0 <= j < i ==> #[trigger] spec_artwork_layers()[j].name@ != name@,
        decreases ARTWORK_LAYER_COUNT - i,
    {
        if str_eq(layers[i].name, name) {
            assert(spec_artwork_layers()[i as int] == layers[i as int]);
            return Some(layers[i]);
        }
        i += 1;
    }
    None
}

/// The knob radius of each size, in design points.
pub open spec fn spec_knob_radius(size: KnobSize) -> u32 {
    match size {
        KnobSize::Large => 76,
        KnobSize::Medium => 56,
        KnobSize::Small => 40,
    }
}

/// The radius of a knob, in design points.
pub fn knob_radius(size: KnobSize) -> (r: u32)
    ensures
        r == spec_knob_radius(size),
{
    match size {
        KnobSize::Large => 76,
        KnobSize::Medium => 56,
        KnobSize::Small => 40,
    }
}

/// The font size of a knob's label, in points.
pub fn label_size(size: KnobSize) -> (r: u32)
    ensures
        r == match size {
            KnobSize::Large => 16u32,
            KnobSize::Medium => 14u32,
            KnobSize::Small => 12u32,
        },
{
    match size {
        KnobSize::Large => 16,
        KnobSize::Medium => 14,
        KnobSize::Small => 12,
    }
}

/// The font size of a knob's value readout, in points.
pub fn value_size(size: KnobSize) -> (r: u32)
    ensures
        r == match size {
            KnobSize::Large => 13u32,
            KnobSize::Medium => 12u32,
            KnobSize::Small => 11u32,
        },
{
    match size {
        KnobSize::Large => 13,
        KnobSize::Medium => 12,
        KnobSize::Small => 11,
    }
}

/// The artwork layer that caps a knob of each size.
pub open spec fn spec_knob_cap_layer(size: KnobSize) -> int {
    match size {
        KnobSize::Large => 2,
        KnobSize::Medium => 3,
        KnobSize::Small => 4,
    }
}

/// The name of the artwork layer that caps a knob of this size.
pub fn knob_cap_layer(size: KnobSize) -> (name: &'static str)
    ensures
        name == spec_artwork_layers()[spec_knob_cap_layer(size)].name,
{
    match size {
        KnobSize::Large => "large-knob-cap",
        KnobSize::Medium => "medium-knob-cap",
        KnobSize::Small => "small-knob-cap",
    }
}

/// Every knob cap is a control layer of the artwork, sized to the knob's
/// diameter or more.
pub proof fn lemma_knob_caps_are_control_layers(size: KnobSize)
    ensures
        0 <= spec_knob_cap_layer(size) < ARTWORK_LAYER_COUNT,
        spec_artwork_layers()[spec_knob_cap_layer(size)].kind == ArtworkLayerKind::Control,
        spec_artwork_layers()[spec_knob_cap_layer(size)].rect.w >= 2 * spec_knob_radius(size),
        spec_artwork_layers()[spec_knob_cap_layer(size)].rect.w == spec_artwork_layers()[spec_knob_cap_layer(size)].rect.h,
{
}

/// A word whose first three characters never occur together in a text does
/// not occur in it.
proof fn lemma_absent(h: Seq<char>, w: Seq<char>)
    requires
        w.len() >= 3,
        forall|k: int|
            0 <= k && k + 3 <= h.len() ==> !(#[trigger] h[k] == w[0] && h[k + 1] == w[1] && h[k + 2] == w[2]),
    ensures
        !contains_text(h, w),
{
    assert forall|k: int| 0 <= k && k + w.len() <= h.len() implies #[trigger] h.subrange(k, k + w.len()) != w by {
        if h.subrange(k, k + w.len()) == w {
            assert(h[k] == w[0]);
            assert(h[k + 1] == w[1]);
            assert(h[k + 2] == w[2]);
        }
    }
}

/// The artwork carries no text: no layer's file is a label, text or value
/// asset, since those are drawn by the panel itself.
pub proof fn lemma_artwork_has_no_label_assets()
    ensures
        forall|i: int|
            0 <= i < ARTWORK_LAYER_COUNT ==> {
                let path = #[trigger] spec_artwork_layers()[i].path@;
                &&& !contains_text(path, "label"@)
                &&& !contains_text(path, "text"@)
                &&& !contains_text(path, "value"@)
            },
{
    reveal_strlit("label");
    reveal_strlit("text");
    reveal_strlit("value");
    assert forall|i: int| 0 <= i < ARTWORK_LAYER_COUNT implies {
        let path = #[trigger] spec_artwork_layers()[i].path@;
        &&& !contains_text(path, "label"@)
        &&& !contains_text(path, "text"@)
        &&& !contains_text(path, "value"@)
    } by {
        if i == 0 {
            reveal_strlit("assets/ui/base_panel.png");
            assert(spec_artwork_layers()[0].path@ == "assets/ui/base_panel.png"@);
            lemma_absent("assets/ui/base_panel.png"@, "label"@);
            lemma_absent("assets/ui/base_panel.png"@, "text"@);
            lemma_absent("assets/ui/base_panel.png"@, "value"@);
        } else if i == 1 {
            reveal_strlit("assets/ui/ice_structure_overlay.png");
            assert(spec_artwork_layers()[1].path@ == "assets/ui/ice_structure_overlay.png"@);
            lemma_absent("assets/ui/ice_structure_overlay.png"@, "label"@);
            lemma_absent("assets/ui/ice_structure_overlay.png"@, "text"@);
            lemma_absent("assets/ui/ice_structure_overlay.png"@, "value"@);
        } else if i == 2 {
            reveal_strlit("assets/ui/large_knob_cap.png");
            assert(spec_artwork_layers()[2].path@ == "assets/ui/large_knob_cap.png"@);
            lemma_absent("assets/ui/large_knob_cap.png"@, "label"@);
            lemma_absent("assets/ui/large_knob_cap.png"@, "text"@);
            lemma_absent("assets/ui/large_knob_cap.png"@, "value"@);
        } else if i == 3 {
            reveal_strlit("assets/ui/medium_knob_cap.png");
            assert(spec_artwork_layers()[3].path@ == "assets/ui/medium_knob_cap.png"@);
            lemma_absent("assets/ui/medium_knob_cap.png"@, "label"@);
            lemma_absent("assets/ui/medium_knob_cap.png"@, "text"@);
            lemma_absent("assets/ui/medium_knob_cap.png"@, "value"@);
        } else if i == 4 {
            reveal_strlit("assets/ui/small_knob_cap.png");
            assert(spec_artwork_layers()[4].path@ == "assets/ui/small_knob_cap.png"@);
            lemma_absent("assets/ui/small_knob_cap.png"@, "label"@);
            lemma_absent("assets/ui/small_knob_cap.png"@, "text"@);
            lemma_absent("assets/ui/small_knob_cap.png"@, "value"@);
        } else if i == 5 {
            reveal_strlit("assets/ui/toggle_plate.png");
            assert(spec_artwork_layers()[5].path@ == "assets/ui/toggle_plate.png"@);
            lemma_absent("assets/ui/toggle_plate.png"@, "label"@);
            lemma_absent("assets/ui/toggle_plate.png"@, "text"@);
            lemma_absent("assets/ui/toggle_plate.png"@, "value"@);
        } else if i == 6 {
            reveal_strlit("assets/ui/freeze_glow.png");
            assert(spec_artwork_layers()[6].path@ == "assets/ui/freeze_glow.png"@);
            lemma_absent("assets/ui/freeze_glow.png"@, "label"@);
            lemma_absent("assets/ui/freeze_glow.png"@, "text"@);
            lemma_absent("assets/ui/freeze_glow.png"@, "value"@);
        } else if i == 7 {
            reveal_strlit("assets/ui/storm_wind.png");
            assert(spec_artwork_layers()[7].path@ == "assets/ui/storm_wind.png"@);
            lemma_absent("assets/ui/storm_wind.png"@, "label"@);
            lemma_absent("assets/ui/storm_wind.png"@, "text"@);
            lemma_absent("assets/ui/storm_wind.png"@, "value"@);
        } else if i == 8 {
            reveal_strlit("assets/ui/coldness_ice.png");
            assert(spec_artwork_layers()[8].path@ == "assets/ui/coldness_ice.png"@);
            lemma_absent("assets/ui/coldness_ice.png"@, "label"@);
            lemma_absent("assets/ui/coldness_ice.png"@, "text"@);
            lemma_absent("assets/ui/coldness_ice.png"@, "value"@);
        } else if i == 9 {
            reveal_strlit("assets/ui/meter_accent.png");
            assert(spec_artwork_layers()[9].path@ == "assets/ui/meter_accent.png"@);
            lemma_absent("assets/ui/meter_accent.png"@, "label"@);
            lemma_absent("assets/ui/meter_accent.png"@, "text"@);
            lemma_absent("assets/ui/meter_accent.png"@, "value"@);
        } else {
            reveal_strlit("assets/ui/foreground_scratches.png");
            assert(spec_artwork_layers()[10].path@ == "assets/ui/foreground_scratches.png"@);
            lemma_absent("assets/ui/foreground_scratches.png"@, "label"@);
            lemma_absent("assets/ui/foreground_scratches.png"@, "text"@);
            lemma_absent("assets/ui/foreground_scratches.png"@, "value"@);
        }
    }
}

/// egui's `TextureId`, declared so that verified code can store a texture
/// handle and hand it back; nothing inside a handle is read or assumed.
#[verifier::external_type_specification]
#[verifier::external_body]
pub struct ExTextureId(egui::TextureId);

/// No name is listed twice.
pub open spec fn entries_wf(entries: Seq<(&'static str, TextureId)>) -> bool {
    forall|i: int, j: int|
        0 <= i < entries.len() && 0 <= j < entries.len() && i != j ==> #[trigger] entries[i].0@
            != #[trigger] entries[j].0@
}

/// Whether a texture is listed under `name`.
pub open spec fn entries_have(entries: Seq<(&'static str, TextureId)>, name: Seq<char>) -> bool {
    exists|i: int| 0 <= i < entries.len() && #[trigger] entries[i].0@ == name
}

/// The texture listed under `name`.
pub open spec fn entries_at(entries: Seq<(&'static str, TextureId)>, name: Seq<char>) -> TextureId {
    entries[choose|i: int| 0 <= i < entries.len() && #[trigger] entries[i].0@ == name].1
}

/// The textures listed, by name.
pub open spec fn entries_map(entries: Seq<(&'static str, TextureId)>) -> Map<Seq<char>, TextureId> {
    Map::new(|name: Seq<char>| entries_have(entries, name), |name: Seq<char>| entries_at(entries, name))
}

proof fn lemma_entry(entries: Seq<(&'static str, TextureId)>, i: int)
    requires
        entries_wf(entries),
        0 <= i < entries.len(),
    ensures
        entries_map(entries).contains_key(entries[i].0@),
        entries_map(entries)[entries[i].0@] == entries[i].1,
{
    let name = entries[i].0@;
    assert(entries_have(entries, name));
    let c = choose|k: int| 0 <= k < entries.len() && #[trigger] entries[k].0@ == name;
    assert(c == i);
}

/// Listing a texture under a name already listed replaces it.
proof fn lemma_replace(entries: Seq<(&'static str, TextureId)>, i: int, name: &'static str, t: TextureId)
    requires
        entries_wf(entries),
        0 <= i < entries.len(),
        entries[i].0@ == name@,
    ensures
        entries_wf(entries.update(i, (name, t))),
        entries_map(entries.update(i, (name, t))) == entries_map(entries).insert(name@, t),
{
    let after = entries.update(i, (name, t));
    assert forall|a: int, b: int|
        0 <= a < after.len() && 0 <= b < after.len() && a != b implies #[trigger] after[a].0@
        != #[trigger] after[b].0@ by {
        assert(entries[a].0@ != entries[b].0@);
    }
    let target = entries_map(entries).insert(name@, t);
    assert forall|k: Seq<char>| #[trigger] entries_map(after).dom().contains(k) == target.dom().contains(k)
        && (entries_map(after).dom().contains(k) ==> entries_map(after)[k] == target[k]) by {
        if entries_have(after, k) {
            let c = choose|c: int| 0 <= c < after.len() && #[trigger] after[c].0@ == k;
            lemma_entry(after, c);
            if c != i {
                lemma_entry(entries, c);
            }
        }
        if entries_have(entries, k) {
            let c = choose|c: int| 0 <= c < entries.len() && #[trigger] entries[c].0@ == k;
            lemma_entry(after, c);
        }
    }
    assert(entries_map(after) =~= entries_map(entries).insert(name@, t));
}

/// Listing a texture under a new name adds it.
proof fn lemma_append(entries: Seq<(&'static str, TextureId)>, name: &'static str, t: TextureId)
    requires
        entries_wf(entries),
        !entries_have(entries, name@),
    ensures
        entries_wf(entries.push((name, t))),
        entries_map(entries.push((name, t))) == entries_map(entries).insert(name@, t),
{
    let after = entries.push((name, t));
    let n = entries.len() as int;
    assert forall|a: int, b: int|
        0 <= a < after.len() && 0 <= b < after.len() && a != b implies #[trigger] after[a].0@
        != #[trigger] after[b].0@ by {
        if a < n && b < n {
            assert(entries[a].0@ != entries[b].0@);
        } else if a < n {
            assert(entries[a].0@ == after[a].0@);
        } else {
            assert(entries[b].0@ == after[b].0@);
        }
    }
    let target = entries_map(entries).insert(name@, t);
    assert forall|k: Seq<char>| #[trigger] entries_map(after).dom().contains(k) == target.dom().contains(k)
        && (entries_map(after).dom().contains(k) ==> entries_map(after)[k] == target[k]) by {
        if entries_have(after, k) {
            let c = choose|c: int| 0 <= c < after.len() && #[trigger] after[c].0@ == k;
            lemma_entry(after, c);
            if c < n {
                lemma_entry(entries, c);
            }
        }
        if entries_have(entries, k) {
            let c = choose|c: int| 0 <= c < entries.len() && #[trigger] entries[c].0@ == k;
            lemma_entry(after, c);
        }
        if k == name@ {
            lemma_entry(after, n);
        }
    }
    assert(entries_map(after) =~= entries_map(entries).insert(name@, t));
}

/// The textures that a host wrapper supplied for the artwork layers, by layer
/// name.
#[derive(Clone, Debug)]
pub struct FrostVerbArtwork {
    textures: Vec<(&'static str, TextureId)>,
}

impl FrostVerbArtwork {
    /// No layer name is listed twice.
    pub closed spec fn wf(&self) -> bool {
        entries_wf(self.textures@)
    }
}

impl View for FrostVerbArtwork {
    type V = Map<Seq<char>, TextureId>;

    closed spec fn view(&self) -> Map<Seq<char>, TextureId> {
        entries_map(self.textures@)
    }
}

impl FrostVerbArtwork {
    /// An artwork with no textures.
    pub fn new() -> (art: Self)
        ensures
            art.wf(),
            art@ == Map::<Seq<char>, TextureId>::empty(),
    {
        let art = FrostVerbArtwork { textures: Vec::new() };
        assert(entries_map(art.textures@) =~= Map::<Seq<char>, TextureId>::empty());
        art
    }

    /// Lists `texture_id` under `layer_name`, replacing what was listed there.
    pub fn set_texture(&mut self, layer_name: &'static str, texture_id: TextureId)
        requires
            old(self).wf(),
        ensures
            final(self).wf(),
            final(self)@ == old(self)@.insert(layer_name@, texture_id),
    {
        let n = self.textures.len();
        let mut i: usize = 0;
        while i < n
            invariant
                n == self.textures.len(),
                self.textures@ == old(self).textures@,
                entries_wf(self.textures@),
                0 <= i <= n,
                forall|j: int| 0 <= j < i ==> self.textures@[j].0@ != layer_name@,
            decreases n - i,
        {
            if str_eq(self.textures[i].0, layer_name) {
                proof {
                    lemma_replace(self.textures@, i as int, layer_name, texture_id);
                }
                self.textures.set(i, (layer_name, texture_id));
                return;
            }
            i += 1;
        }
        proof {
            lemma_append(self.textures@, layer_name, texture_id);
        }
        self.textures.push((layer_name, texture_id));
    }

    /// The texture listed under `layer_name`, if any.
    pub fn texture(&self, layer_name: &str) -> (r: Option<TextureId>)
        requires
            self.wf(),
        ensures
            r == (if self@.contains_key(layer_name@) {
                Some(self@[layer_name@])
            } else {
                None
            }),
    {
        let n = self.textures.len();
        let mut i: usize = 0;
        while i < n
            invariant
                n == self.textures.len(),
                entries_wf(self.textures@),
                0 <= i <= n,
                forall|j: int| 0 <= j < i ==> self.textures@[j].0@ != layer_name@,
            decreases n - i,
        {
            if str_eq(self.textures[i].0, layer_name) {
                proof {
                    lemma_entry(self.textures@, i as int);
                }
                return Some(self.textures[i].1);
            }
            i += 1;
        }
        assert(!entries_have(self.textures@, layer_name@));
        None
    }
}

impl Default for FrostVerbArtwork {
    fn default() -> (art: Self)
        ensures
            art.wf(),
            art@ == Map::<Seq<char>, TextureId>::empty(),
    {
        FrostVerbArtwork::new()
    }
}

/// The latest texture supplied for a layer is the one used: after listing a
/// texture under a name, that name gives that texture and every other name
/// gives what it gave before.
pub proof fn lemma_texture_after_set(
    textures: Map<Seq<char>, TextureId>,
    name: Seq<char>,
    texture: TextureId,
    other: Seq<char>,
)
    ensures
        textures.insert(name, texture).contains_key(name),
        textures.insert(name, texture)[name] == texture,
        other != name ==> textures.insert(name, texture).contains_key(other) == textures.contains_key(other),
        other != name && textures.contains_key(other) ==> textures.insert(name, texture)[other] == textures[other],
{
}

} // verus!

use vstd::prelude::*;

use crate::text::{is_white_space, plain_line, str_eq};

verus! {

/// Number of public parameters; also the length of every parameter array.
pub const PARAMETER_COUNT: usize = 12;

/// One public, host-automatable parameter. Values are given in hundredths of
/// the normalized range (so `100` stands for `1.0`).
#[derive(Clone, Copy, Debug, PartialEq, Eq)]
pub struct ParameterDef {
    pub id: &'static str,
    pub name: &'static str,
    pub default: u32,
    pub min: u32,
    pub max: u32,
    pub unit: &'static str,
    pub automatable: bool,
}

/// The parameter table, in the stable order that arrays of values follow.
pub open spec fn spec_parameter_defs() -> Seq<ParameterDef> {
    seq![
        ParameterDef { id: "coldness", name: "Coldness", default: 62, min: 0, max: 100, unit: "", automatable: true },
        ParameterDef { id: "wind", name: "Wind", default: 18, min: 0, max: 100, unit: "", automatable: true },
        ParameterDef { id: "ice_size", name: "Ice Size", default: 55, min: 0, max: 100, unit: "", automatable: true },
        ParameterDef { id: "ancient_depth", name: "Ancient Depth", default: 48, min: 0, max: 100, unit: "", automatable: true },
        ParameterDef { id: "frozen_harmonics", name: "Frozen Harmonics", default: 24, min: 0, max: 100, unit: "", automatable: true },
        ParameterDef { id: "storm", name: "Storm", default: 20, min: 0, max: 100, unit: "", automatable: true },
        ParameterDef { id: "distance", name: "Distance", default: 42, min: 0, max: 100, unit: "", automatable: true },
        ParameterDef { id: "decay", name: "Decay", default: 58, min: 0, max: 100, unit: "", automatable: true },
        ParameterDef { id: "freeze", name: "Freeze", default: 0, min: 0, max: 100, unit: "", automatable: true },
        ParameterDef { id: "mix", name: "Mix", default: 34, min: 0, max: 100, unit: "", automatable: true },
        ParameterDef { id: "input", name: "Input", default: 75, min: 0, max: 100, unit: "", automatable: true },
        ParameterDef { id: "output", name: "Output", default: 75, min: 0, max: 100, unit: "", automatable: true },
    ]
}

/// The public parameters, in their stable order, with their names and
/// defaults; every range is 0 to 100 hundredths.
pub proof fn lemma_parameter_table()
    ensures
        spec_parameter_defs().len() == 12,
        spec_parameter_defs()[0] == (ParameterDef { id: "coldness", name: "Coldness", default: 62, min: 0, max: 100, unit: "", automatable: true }),
        spec_parameter_defs()[1] == (ParameterDef { id: "wind", name: "Wind", default: 18, min: 0, max: 100, unit: "", automatable: true }),
        spec_parameter_defs()[2] == (ParameterDef { id: "ice_size", name: "Ice Size", default: 55, min: 0, max: 100, unit: "", automatable: true }),
        spec_parameter_defs()[3] == (ParameterDef { id: "ancient_depth", name: "Ancient Depth", default: 48, min: 0, max: 100, unit: "", automatable: true }),
        spec_parameter_defs()[4] == (ParameterDef { id: "frozen_harmonics", name: "Frozen Harmonics", default: 24, min: 0, max: 100, unit: "", automatable: true }),
        spec_parameter_defs()[5] == (ParameterDef { id: "storm", name: "Storm", default: 20, min: 0, max: 100, unit: "", automatable: true }),
        spec_parameter_defs()[6] == (ParameterDef { id: "distance", name: "Distance", default: 42, min: 0, max: 100, unit: "", automatable: true }),
        spec_parameter_defs()[7] == (ParameterDef { id: "decay", name: "Decay", default: 58, min: 0, max: 100, unit: "", automatable: true }),
        spec_parameter_defs()[8] == (ParameterDef { id: "freeze", name: "Freeze", default: 0, min: 0, max: 100, unit: "", automatable: true }),
        spec_parameter_defs()[9] == (ParameterDef { id: "mix", name: "Mix", default: 34, min: 0, max: 100, unit: "", automatable: true }),
        spec_parameter_defs()[10] == (ParameterDef { id: "input", name: "Input", default: 75, min: 0, max: 100, unit: "", automatable: true }),
        spec_parameter_defs()[11] == (ParameterDef { id: "output", name: "Output", default: 75, min: 0, max: 100, unit: "", automatable: true }),
{
}

/// The id of the parameter at position `i` of the table.
pub open spec fn parameter_id(i: int) -> Seq<char> {
    spec_parameter_defs()[i].id@
}

/// The public parameter table.
pub fn parameter_defs() -> (defs: [ParameterDef; PARAMETER_COUNT])
    ensures
        defs@ == spec_parameter_defs(),
{
    let defs = [
        ParameterDef { id: "coldness", name: "Coldness", default: 62, min: 0, max: 100, unit: "", automatable: true },
        ParameterDef { id: "wind", name: "Wind", default: 18, min: 0, max: 100, unit: "", automatable: true },
        ParameterDef { id: "ice_size", name: "Ice Size", default: 55, min: 0, max: 100, unit: "", automatable: true },
        ParameterDef { id: "ancient_depth", name: "Ancient Depth", default: 48, min: 0, max: 100, unit: "", automatable: true },
        ParameterDef { id: "frozen_harmonics", name: "Frozen Harmonics", default: 24, min: 0, max: 100, unit: "", automatable: true },
        ParameterDef { id: "storm", name: "Storm", default: 20, min: 0, max: 100, unit: "", automatable: true },
        ParameterDef { id: "distance", name: "Distance", default: 42, min: 0, max: 100, unit: "", automatable: true },
        ParameterDef { id: "decay", name: "Decay", default: 58, min: 0, max: 100, unit: "", automatable: true },
        ParameterDef { id: "freeze", name: "Freeze", default: 0, min: 0, max: 100, unit: "", automatable: true },
        ParameterDef { id: "mix", name: "Mix", default: 34, min: 0, max: 100, unit: "", automatable: true },
        ParameterDef { id: "input", name: "Input", default: 75, min: 0, max: 100, unit: "", automatable: true },
        ParameterDef { id: "output", name: "Output", default: 75, min: 0, max: 100, unit: "", automatable: true },
    ];
    assert(defs@ =~= spec_parameter_defs());
    defs
}

/// Whether `id` names a public parameter.
pub open spec fn is_parameter_id(id: Seq<char>) -> bool {
    exists|i: int| 0 <= i < PARAMETER_COUNT && parameter_id(i) == id
}

/// The position of the parameter named `id`, if any.
pub open spec fn spec_parameter_index(id: Seq<char>) -> Option<int> {
    if is_parameter_id(id) {
        Some(choose|i: int| 0 <= i < PARAMETER_COUNT && parameter_id(i) == id)
    } else {
        None
    }
}

/// The public parameter contract: every parameter has a non-empty id and
/// name, a range with `min < max` holding its default, is automatable, and no
/// two parameters share an id.
pub proof fn lemma_parameter_table_well_formed()
    ensures
        spec_parameter_defs().len() == PARAMETER_COUNT,
        forall|i: int|
            0 <= i < PARAMETER_COUNT ==> {
                let d = #[trigger] spec_parameter_defs()[i];
                &&& d.id@.len() > 0
                &&& d.name@.len() > 0
                &&& d.min < d.max
                &&& d.min <= d.default <= d.max
                &&& d.automatable
            },
        forall|i: int, j: int|
            0 <= i < PARAMETER_COUNT && 0 <= j < PARAMETER_COUNT && i != j ==> parameter_id(i)
                != parameter_id(j),
{
    reveal_strlit("coldness");
    reveal_strlit("wind");
    reveal_strlit("ice_size");
    reveal_strlit("ancient_depth");
    reveal_strlit("frozen_harmonics");
    reveal_strlit("storm");
    reveal_strlit("distance");
    reveal_strlit("decay");
    reveal_strlit("freeze");
    reveal_strlit("mix");
    reveal_strlit("input");
    reveal_strlit("output");
    reveal_strlit("Coldness");
    reveal_strlit("Wind");
    reveal_strlit("Ice Size");
    reveal_strlit("Ancient Depth");
    reveal_strlit("Frozen Harmonics");
    reveal_strlit("Storm");
    reveal_strlit("Distance");
    reveal_strlit("Decay");
    reveal_strlit("Freeze");
    reveal_strlit("Mix");
    reveal_strlit("Input");
    reveal_strlit("Output");
    assert forall|i: int| 0 <= i < PARAMETER_COUNT implies parameter_id(i).len() == id_key_len(i)
        && parameter_id(i)[0] == id_key_first(i) && spec_parameter_defs()[i].name@.len() > 0 by {
        if i == 0 {
            assert(spec_parameter_defs()[0].id@ == "coldness"@);
            assert(spec_parameter_defs()[0].name@ == "Coldness"@);
        } else if i == 1 {
            assert(spec_parameter_defs()[1].id@ == "wind"@);
            assert(spec_parameter_defs()[1].name@ == "Wind"@);
        } else if i == 2 {
            assert(spec_parameter_defs()[2].id@ == "ice_size"@);
            assert(spec_parameter_defs()[2].name@ == "Ice Size"@);
        } else if i == 3 {
            assert(spec_parameter_defs()[3].id@ == "ancient_depth"@);
            assert(spec_parameter_defs()[3].name@ == "Ancient Depth"@);
        } else if i == 4 {
            assert(spec_parameter_defs()[4].id@ == "frozen_harmonics"@);
            assert(spec_parameter_defs()[4].name@ == "Frozen Harmonics"@);
        } else if i == 5 {
            assert(spec_parameter_defs()[5].id@ == "storm"@);
            assert(spec_parameter_defs()[5].name@ == "Storm"@);
        } else if i == 6 {
            assert(spec_parameter_defs()[6].id@ == "distance"@);
            assert(spec_parameter_defs()[6].name@ == "Distance"@);
        } else if i == 7 {
            assert(spec_parameter_defs()[7].id@ == "decay"@);
            assert(spec_parameter_defs()[7].name@ == "Decay"@);
        } else if i == 8 {
            assert(spec_parameter_defs()[8].id@ == "freeze"@);
            assert(spec_parameter_defs()[8].name@ == "Freeze"@);
        } else if i == 9 {
            assert(spec_parameter_defs()[9].id@ == "mix"@);
            assert(spec_parameter_defs()[9].name@ == "Mix"@);
        } else if i == 10 {
            assert(spec_parameter_defs()[10].id@ == "input"@);
            assert(spec_parameter_defs()[10].name@ == "Input"@);
        } else {
            assert(spec_parameter_defs()[11].id@ == "output"@);
            assert(spec_parameter_defs()[11].name@ == "Output"@);
        }
    }
    assert forall|i: int, j: int|
        0 <= i < PARAMETER_COUNT && 0 <= j < PARAMETER_COUNT && i != j implies parameter_id(i)
        != parameter_id(j) by {
        if parameter_id(i) == parameter_id(j) {
            assert(id_key_len(i) == id_key_len(j));
            assert(id_key_first(i) == id_key_first(j));
        }
    }
}

/// Length of each parameter id: with `id_key_first` it tells the ids apart.
spec fn id_key_len(i: int) -> int {
    if i == 0 { 8 } else if i == 1 { 4 } else if i == 2 { 8 } else if i == 3 { 13 }
    else if i == 4 { 16 } else if i == 5 { 5 } else if i == 6 { 8 } else if i == 7 { 5 }
    else if i == 8 { 6 } else if i == 9 { 3 } else if i == 10 { 5 } else { 6 }
}

/// First character of each parameter id.
spec fn id_key_first(i: int) -> char {
    if i == 0 { 'c' } else if i == 1 { 'w' } else if i == 2 { 'i' } else if i == 3 { 'a' }
    else if i == 4 { 'f' } else if i == 5 { 's' } else if i == 6 { 'd' } else if i == 7 { 'd' }
    else if i == 8 { 'f' } else if i == 9 { 'm' } else if i == 10 { 'i' } else { 'o' }
}

/// Every parameter id is a single, non-empty line without `=`, starting with a
/// character other than white space.
pub proof fn lemma_parameter_ids_plain()
    ensures
        forall|i: int|
            0 <= i < PARAMETER_COUNT ==> {
                &&& plain_line(#[trigger] parameter_id(i))
                &&& parameter_id(i).len() > 0
                &&& !is_white_space(parameter_id(i)[0])
                &&& forall|k: int| 0 <= k < parameter_id(i).len() ==> parameter_id(i)[k] != '='
            },
{
    assert forall|i: int| 0 <= i < PARAMETER_COUNT implies {
        &&& plain_line(#[trigger] parameter_id(i))
        &&& parameter_id(i).len() > 0
        &&& !is_white_space(parameter_id(i)[0])
        &&& forall|k: int| 0 <= k < parameter_id(i).len() ==> parameter_id(i)[k] != '='
    } by {
        if i == 0 {
            reveal_strlit("coldness");
            assert(parameter_id(0) == "coldness"@);
        } else if i == 1 {
            reveal_strlit("wind");
            assert(parameter_id(1) == "wind"@);
        } else if i == 2 {
            reveal_strlit("ice_size");
            assert(parameter_id(2) == "ice_size"@);
        } else if i == 3 {
            reveal_strlit("ancient_depth");
            assert(parameter_id(3) == "ancient_depth"@);
        } else if i == 4 {
            reveal_strlit("frozen_harmonics");
            assert(parameter_id(4) == "frozen_harmonics"@);
        } else if i == 5 {
            reveal_strlit("storm");
            assert(parameter_id(5) == "storm"@);
        } else if i == 6 {
            reveal_strlit("distance");
            assert(parameter_id(6) == "distance"@);
        } else if i == 7 {
            reveal_strlit("decay");
            assert(parameter_id(7) == "decay"@);
        } else if i == 8 {
            reveal_strlit("freeze");
            assert(parameter_id(8) == "freeze"@);
        } else if i == 9 {
            reveal_strlit("mix");
            assert(parameter_id(9) == "mix"@);
        } else if i == 10 {
            reveal_strlit("input");
            assert(parameter_id(10) == "input"@);
        } else {
            reveal_strlit("output");
            assert(parameter_id(11) == "output"@);
        }
    }
}

/// Each parameter id leads to its own position.
pub proof fn lemma_parameter_index_of_id(i: int)
    requires
        0 <= i < PARAMETER_COUNT,
    ensures
        spec_parameter_index(parameter_id(i)) == Some(i),
{
    lemma_parameter_table_well_formed();
    assert(is_parameter_id(parameter_id(i)));
}

/// The default level of every parameter, in table order.
pub fn default_levels() -> (levels: [u32; PARAMETER_COUNT])
    ensures
        forall|i: int| 0 <= i < PARAMETER_COUNT ==> levels@[i] == #[trigger] spec_parameter_defs()[i].default,
{
    let defs = parameter_defs();
    let mut levels: [u32; PARAMETER_COUNT] = [0; PARAMETER_COUNT];
    let mut i: usize = 0;
    while i < PARAMETER_COUNT
        invariant
            defs@ == spec_parameter_defs(),
            0 <= i <= PARAMETER_COUNT,
            forall|j: int| 0 <= j < i ==> levels@[j] == #[trigger] spec_parameter_defs()[j].default,
        decreases PARAMETER_COUNT - i,
    {
        levels[i] = defs[i].default;
        i += 1;
    }
    levels
}

/// Looks up the position of a parameter by its id.
pub fn parameter_index(id: &str) -> (r: Option<usize>)
    ensures
        match r {
            Some(i) => spec_parameter_index(id@) == Some(i as int) && i < PARAMETER_COUNT,
            None => spec_parameter_index(id@) is None,
        },
{
    let defs = parameter_defs();
    let mut i: usize = 0;
    while i < PARAMETER_COUNT
        invariant
            defs@ == spec_parameter_defs(),
            0 <= i <= PARAMETER_COUNT,
            forall|j: int| 0 <= j < i ==> parameter_id(j) != id@,
        decreases PARAMETER_COUNT - i,
    {
        if str_eq(defs[i].id, id) {
            proof {
                lemma_parameter_table_well_formed();
                assert(parameter_id(i as int) == id@);
                assert(is_parameter_id(id@));
                let c = choose|k: int| 0 <= k < PARAMETER_COUNT && parameter_id(k) == id@;
                assert(c == i);
            }
            return Some(i);
        }
        i += 1;
    }
    None
}

/// The definition of the parameter named `id`, if any.
pub fn parameter_by_id(id: &str) -> (r: Option<ParameterDef>)
    ensures
        match spec_parameter_index(id@) {
            Some(i) => r == Some(spec_parameter_defs()[i]),
            None => r is None,
        },
{
    match parameter_index(id) {
        Some(i) => {
            let defs = parameter_defs();
            Some(defs[i])
        },
        None => None,
    }
}

} // verus!

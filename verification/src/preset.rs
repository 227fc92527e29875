use vstd::prelude::*;

pub use crate::text::indent;

use crate::host::string_views;
use crate::params::{
    lemma_parameter_ids_plain, parameter_defs, parameter_id, spec_parameter_defs, PARAMETER_COUNT,
};
use crate::text::{
    ascii_lower, blanks, contains_text, decimal_text, digit_char, digit_str, eq_ascii_fold,
    eq_ignore_ascii_case, join_lines, lemma_contains_middle, lemma_contains_trans,
    lemma_decimal_plain, lemma_eq_ascii_fold_upper, lemma_join_contains, lemma_join_push, lemma_lines_of_join,
    lemma_plain_concat, plain_line, prefixed, push_decimal, spec_indent, upper_text,
};

verus! {

/// Number of factory presets.
pub const FACTORY_PRESET_COUNT: usize = 8;

/// A named factory preset. `levels` holds one value per public parameter, in
/// the order of the parameter table, in hundredths of the normalized range.
#[derive(Clone, Copy, Debug, PartialEq, Eq)]
pub struct FactoryPreset {
    pub name: &'static str,
    pub category: &'static str,
    pub levels: [u32; PARAMETER_COUNT],
}

/// The factory presets, in menu order.
pub open spec fn spec_factory_presets() -> Seq<FactoryPreset> {
    seq![
        FactoryPreset { name: "Frozen Cave", category: "Frozen Cave", levels: [72, 14, 78, 72, 32, 20, 55, 76, 0, 42, 75, 75] },
        FactoryPreset { name: "Fjord Distance", category: "Fjord Distance", levels: [58, 22, 68, 61, 20, 18, 86, 64, 0, 36, 75, 75] },
        FactoryPreset { name: "Ice Plate", category: "Ice Plate", levels: [88, 6, 36, 24, 54, 16, 22, 38, 0, 31, 75, 75] },
        FactoryPreset { name: "Nordic Temple", category: "Nordic Temple", levels: [64, 10, 82, 88, 42, 12, 48, 84, 0, 45, 75, 75] },
        FactoryPreset { name: "Whiteout", category: "Whiteout", levels: [82, 74, 61, 52, 28, 82, 78, 58, 18, 40, 75, 75] },
        FactoryPreset { name: "Distant Horn", category: "Distant Horn", levels: [52, 16, 73, 66, 36, 22, 92, 70, 0, 48, 75, 75] },
        FactoryPreset { name: "Crystal Tunnel", category: "Crystal Tunnel", levels: [92, 8, 58, 44, 82, 24, 50, 62, 0, 37, 75, 75] },
        FactoryPreset { name: "Dead Snowfield", category: "Dead Snowfield", levels: [76, 42, 47, 38, 16, 36, 90, 44, 8, 32, 75, 75] },
    ]
}

/// The factory preset bank, preset by preset: menu position, name,
/// category, and the level of each parameter in table order (coldness, wind,
/// ice size, ancient depth, frozen harmonics, storm, distance, decay, freeze,
/// mix, input, output).
pub proof fn lemma_factory_preset_table()
    ensures
        spec_factory_presets().len() == 8,
        spec_factory_presets()[0].name@ == "Frozen Cave"@,
        spec_factory_presets()[0].category@ == "Frozen Cave"@,
        spec_factory_presets()[0].levels@ == seq![72u32, 14, 78, 72, 32, 20, 55, 76, 0, 42, 75, 75],
        spec_factory_presets()[1].name@ == "Fjord Distance"@,
        spec_factory_presets()[1].category@ == "Fjord Distance"@,
        spec_factory_presets()[1].levels@ == seq![58u32, 22, 68, 61, 20, 18, 86, 64, 0, 36, 75, 75],
        spec_factory_presets()[2].name@ == "Ice Plate"@,
        spec_factory_presets()[2].category@ == "Ice Plate"@,
        spec_factory_presets()[2].levels@ == seq![88u32, 6, 36, 24, 54, 16, 22, 38, 0, 31, 75, 75],
        spec_factory_presets()[3].name@ == "Nordic Temple"@,
        spec_factory_presets()[3].category@ == "Nordic Temple"@,
        spec_factory_presets()[3].levels@ == seq![64u32, 10, 82, 88, 42, 12, 48, 84, 0, 45, 75, 75],
        spec_factory_presets()[4].name@ == "Whiteout"@,
        spec_factory_presets()[4].category@ == "Whiteout"@,
        spec_factory_presets()[4].levels@ == seq![82u32, 74, 61, 52, 28, 82, 78, 58, 18, 40, 75, 75],
        spec_factory_presets()[5].name@ == "Distant Horn"@,
        spec_factory_presets()[5].category@ == "Distant Horn"@,
        spec_factory_presets()[5].levels@ == seq![52u32, 16, 73, 66, 36, 22, 92, 70, 0, 48, 75, 75],
        spec_factory_presets()[6].name@ == "Crystal Tunnel"@,
        spec_factory_presets()[6].category@ == "Crystal Tunnel"@,
        spec_factory_presets()[6].levels@ == seq![92u32, 8, 58, 44, 82, 24, 50, 62, 0, 37, 75, 75],
        spec_factory_presets()[7].name@ == "Dead Snowfield"@,
        spec_factory_presets()[7].category@ == "Dead Snowfield"@,
        spec_factory_presets()[7].levels@ == seq![76u32, 42, 47, 38, 16, 36, 90, 44, 8, 32, 75, 75],
{
    assert(spec_factory_presets()[0].levels@ =~= seq![72u32, 14, 78, 72, 32, 20, 55, 76, 0, 42, 75, 75]);
    assert(spec_factory_presets()[1].levels@ =~= seq![58u32, 22, 68, 61, 20, 18, 86, 64, 0, 36, 75, 75]);
    assert(spec_factory_presets()[2].levels@ =~= seq![88u32, 6, 36, 24, 54, 16, 22, 38, 0, 31, 75, 75]);
    assert(spec_factory_presets()[3].levels@ =~= seq![64u32, 10, 82, 88, 42, 12, 48, 84, 0, 45, 75, 75]);
    assert(spec_factory_presets()[4].levels@ =~= seq![82u32, 74, 61, 52, 28, 82, 78, 58, 18, 40, 75, 75]);
    assert(spec_factory_presets()[5].levels@ =~= seq![52u32, 16, 73, 66, 36, 22, 92, 70, 0, 48, 75, 75]);
    assert(spec_factory_presets()[6].levels@ =~= seq![92u32, 8, 58, 44, 82, 24, 50, 62, 0, 37, 75, 75]);
    assert(spec_factory_presets()[7].levels@ =~= seq![76u32, 42, 47, 38, 16, 36, 90, 44, 8, 32, 75, 75]);
}

/// Every factory preset level lies in the normalized range, every preset keeps
/// input and output at 75 hundredths, and only Whiteout (18) and Dead
/// Snowfield (8) hold a freeze.
pub proof fn lemma_factory_preset_levels_in_range()
    ensures
        forall|i: int, k: int|
            0 <= i < FACTORY_PRESET_COUNT && 0 <= k < PARAMETER_COUNT ==> #[trigger] spec_factory_presets()[i].levels@[k] <= 100,
        forall|i: int|
            0 <= i < FACTORY_PRESET_COUNT ==> #[trigger] spec_factory_presets()[i].levels@[10] == 75
                && spec_factory_presets()[i].levels@[11] == 75,
        forall|i: int|
            0 <= i < FACTORY_PRESET_COUNT ==> (#[trigger] spec_factory_presets()[i].levels@[8] > 0 <==> (i == 4 || i == 7)),
        spec_factory_presets()[4].levels@[8] == 18,
        spec_factory_presets()[7].levels@[8] == 8,
{
    lemma_factory_preset_table();
}

/// The factory presets.
pub fn factory_presets() -> (presets: [FactoryPreset; FACTORY_PRESET_COUNT])
    ensures
        presets@ == spec_factory_presets(),
{
    let presets = [
        FactoryPreset { name: "Frozen Cave", category: "Frozen Cave", levels: [72, 14, 78, 72, 32, 20, 55, 76, 0, 42, 75, 75] },
        FactoryPreset { name: "Fjord Distance", category: "Fjord Distance", levels: [58, 22, 68, 61, 20, 18, 86, 64, 0, 36, 75, 75] },
        FactoryPreset { name: "Ice Plate", category: "Ice Plate", levels: [88, 6, 36, 24, 54, 16, 22, 38, 0, 31, 75, 75] },
        FactoryPreset { name: "Nordic Temple", category: "Nordic Temple", levels: [64, 10, 82, 88, 42, 12, 48, 84, 0, 45, 75, 75] },
        FactoryPreset { name: "Whiteout", category: "Whiteout", levels: [82, 74, 61, 52, 28, 82, 78, 58, 18, 40, 75, 75] },
        FactoryPreset { name: "Distant Horn", category: "Distant Horn", levels: [52, 16, 73, 66, 36, 22, 92, 70, 0, 48, 75, 75] },
        FactoryPreset { name: "Crystal Tunnel", category: "Crystal Tunnel", levels: [92, 8, 58, 44, 82, 24, 50, 62, 0, 37, 75, 75] },
        FactoryPreset { name: "Dead Snowfield", category: "Dead Snowfield", levels: [76, 42, 47, 38, 16, 36, 90, 44, 8, 32, 75, 75] },
    ];
    assert(presets@ =~= spec_factory_presets());
    presets
}

/// Whether preset `i` answers to `name`, ignoring the case of ASCII letters.
pub open spec fn preset_answers_to(i: int, name: Seq<char>) -> bool {
    eq_ascii_fold(spec_factory_presets()[i].name@, name)
}

/// The position of the factory preset that answers to `name`, if any.
pub open spec fn spec_preset_index(name: Seq<char>) -> Option<int> {
    if exists|i: int| 0 <= i < FACTORY_PRESET_COUNT && preset_answers_to(i, name) {
        Some(choose|i: int| 0 <= i < FACTORY_PRESET_COUNT && preset_answers_to(i, name))
    } else {
        None
    }
}

/// Length of each preset name: with `name_key_first` it tells the names apart.
spec fn name_key_len(i: int) -> int {
    if i == 0 { 11 } else if i == 1 { 14 } else if i == 2 { 9 } else if i == 3 { 13 } else if i == 4 { 8 } else if i == 5 { 12 } else if i == 6 { 14 } else { 14 }
}

/// First character of each preset name, folded to lower case.
spec fn name_key_first(i: int) -> char {
    if i == 0 { 'f' } else if i == 1 { 'f' } else if i == 2 { 'i' } else if i == 3 { 'n' } else if i == 4 { 'w' } else if i == 5 { 'd' } else if i == 6 { 'c' } else { 'd' }
}

/// No two factory presets answer to the same name, even with the case of
/// ASCII letters ignored.
pub proof fn lemma_preset_names_distinct()
    ensures
        forall|i: int, j: int|
            0 <= i < FACTORY_PRESET_COUNT && 0 <= j < FACTORY_PRESET_COUNT && i != j
                ==> !eq_ascii_fold(#[trigger] spec_factory_presets()[i].name@, #[trigger] spec_factory_presets()[j].name@),
{
    reveal_strlit("Frozen Cave");
    reveal_strlit("Fjord Distance");
    reveal_strlit("Ice Plate");
    reveal_strlit("Nordic Temple");
    reveal_strlit("Whiteout");
    reveal_strlit("Distant Horn");
    reveal_strlit("Crystal Tunnel");
    reveal_strlit("Dead Snowfield");
    assert forall|i: int| 0 <= i < FACTORY_PRESET_COUNT implies
        spec_factory_presets()[i].name@.len() == name_key_len(i)
        && ascii_lower(spec_factory_presets()[i].name@[0]) == name_key_first(i) by {
        if i == 0 {
            assert(spec_factory_presets()[0].name@ == "Frozen Cave"@);
        } else if i == 1 {
            assert(spec_factory_presets()[1].name@ == "Fjord Distance"@);
        } else if i == 2 {
            assert(spec_factory_presets()[2].name@ == "Ice Plate"@);
        } else if i == 3 {
            assert(spec_factory_presets()[3].name@ == "Nordic Temple"@);
        } else if i == 4 {
            assert(spec_factory_presets()[4].name@ == "Whiteout"@);
        } else if i == 5 {
            assert(spec_factory_presets()[5].name@ == "Distant Horn"@);
        } else if i == 6 {
            assert(spec_factory_presets()[6].name@ == "Crystal Tunnel"@);
        } else {
            assert(spec_factory_presets()[7].name@ == "Dead Snowfield"@);
        }
    }
    assert forall|i: int, j: int|
        0 <= i < FACTORY_PRESET_COUNT && 0 <= j < FACTORY_PRESET_COUNT && i != j implies
        !eq_ascii_fold(spec_factory_presets()[i].name@, spec_factory_presets()[j].name@) by {
        if eq_ascii_fold(spec_factory_presets()[i].name@, spec_factory_presets()[j].name@) {
            assert(name_key_len(i) == name_key_len(j));
            assert(name_key_first(i) == name_key_first(j));
        }
    }
}

/// Every factory preset is found by its own name, and only by a name that
/// folds to it.
pub proof fn lemma_factory_presets_lookupable()
    ensures
        forall|i: int|
            0 <= i < FACTORY_PRESET_COUNT ==> spec_preset_index(#[trigger] spec_factory_presets()[i].name@)
                == Some(i),
{
    lemma_preset_names_distinct();
    assert forall|i: int| 0 <= i < FACTORY_PRESET_COUNT implies spec_preset_index(
        #[trigger] spec_factory_presets()[i].name@,
    ) == Some(i) by {
        let name = spec_factory_presets()[i].name@;
        assert(preset_answers_to(i, name));
        let c = choose|k: int| 0 <= k < FACTORY_PRESET_COUNT && preset_answers_to(k, name);
        if c != i {
            assert(eq_ascii_fold(spec_factory_presets()[c].name@, spec_factory_presets()[i].name@));
        }
    }
}

/// Lookup ignores the case of ASCII letters: two names that differ only in
/// it find the same preset, or both none.
pub proof fn lemma_preset_lookup_ignores_case(a: Seq<char>, b: Seq<char>)
    requires
        eq_ascii_fold(a, b),
    ensures
        spec_preset_index(a) == spec_preset_index(b),
{
    assert forall|i: int| 0 <= i < FACTORY_PRESET_COUNT implies preset_answers_to(i, a) == preset_answers_to(i, b) by {
        let n = spec_factory_presets()[i].name@;
        if preset_answers_to(i, a) {
            assert(eq_ascii_fold(n, b));
        }
        if preset_answers_to(i, b) {
            assert(eq_ascii_fold(n, a));
        }
    }
    lemma_preset_names_distinct();
    if exists|i: int| 0 <= i < FACTORY_PRESET_COUNT && preset_answers_to(i, a) {
        let ca = choose|i: int| 0 <= i < FACTORY_PRESET_COUNT && preset_answers_to(i, a);
        assert(preset_answers_to(ca, b));
        let cb = choose|i: int| 0 <= i < FACTORY_PRESET_COUNT && preset_answers_to(i, b);
        if ca != cb {
            assert(eq_ascii_fold(spec_factory_presets()[ca].name@, spec_factory_presets()[cb].name@));
        }
    }
}

/// Every factory preset is found by its name written in ASCII upper case.
pub proof fn lemma_presets_found_in_upper_case()
    ensures
        forall|i: int|
            0 <= i < FACTORY_PRESET_COUNT ==> spec_preset_index(
                upper_text(#[trigger] spec_factory_presets()[i].name@),
            ) == Some(i),
{
    lemma_factory_presets_lookupable();
    assert forall|i: int| 0 <= i < FACTORY_PRESET_COUNT implies spec_preset_index(
        upper_text(#[trigger] spec_factory_presets()[i].name@),
    ) == Some(i) by {
        let name = spec_factory_presets()[i].name@;
        lemma_eq_ascii_fold_upper(name);
        lemma_preset_lookup_ignores_case(upper_text(name), name);
    }
}

/// Finds the factory preset whose name equals `name` with the case of ASCII
/// letters ignored.
pub fn factory_preset_by_name(name: &str) -> (r: Option<FactoryPreset>)
    ensures
        match spec_preset_index(name@) {
            Some(i) => r == Some(spec_factory_presets()[i]),
            None => r is None,
        },
{
    let presets = factory_presets();
    let mut i: usize = 0;
    while i < FACTORY_PRESET_COUNT
        invariant
            presets@ == spec_factory_presets(),
            0 <= i <= FACTORY_PRESET_COUNT,
            forall|j: int| 0 <= j < i ==> !preset_answers_to(j, name@),
        decreases FACTORY_PRESET_COUNT - i,
    {
        if eq_ignore_ascii_case(presets[i].name, name) {
            proof {
                lemma_preset_names_distinct();
                assert(preset_answers_to(i as int, name@));
                let c = choose|k: int| 0 <= k < FACTORY_PRESET_COUNT && preset_answers_to(k, name@);
                if c != i {
                    assert(eq_ascii_fold(spec_factory_presets()[c].name@, spec_factory_presets()[i as int].name@));
                }
            }
            return Some(presets[i]);
        }
        i += 1;
    }
    None
}

/// A level clamped to the normalized range, in hundredths.
pub open spec fn clamped_level(h: u32) -> nat {
    if h > 100 {
        100
    } else {
        h as nat
    }
}

/// A level written with six decimals, as `0.720000` for 72 hundredths.
pub open spec fn level_text(h: u32) -> Seq<char> {
    let c = clamped_level(h);
    decimal_text(c / 100) + seq!['.', digit_char(((c % 100) / 10) as int), digit_char((c % 10) as int)]
        + seq!['0', '0', '0', '0']
}

/// The value of a decimal digit character.
pub open spec fn digit_of(c: char) -> int {
    c as int - 48
}

/// Whether `c` is a decimal digit.
pub open spec fn is_digit(c: char) -> bool {
    '0' <= c && c <= '9'
}

/// A level is written as one digit, a point and six decimals, and the number
/// written is the level, clamped to 100 hundredths: `0.720000` for 72,
/// `1.000000` for 100 or more.
pub proof fn lemma_level_text_value(h: u32)
    ensures
        level_text(h).len() == 8,
        level_text(h)[1] == '.',
        is_digit(level_text(h)[0]),
        forall|k: int| 2 <= k < 8 ==> is_digit(#[trigger] level_text(h)[k]),
        digit_of(level_text(h)[0]) * 1000000 + digit_of(level_text(h)[2]) * 100000 + digit_of(
            level_text(h)[3],
        ) * 10000 + digit_of(level_text(h)[4]) * 1000 + digit_of(level_text(h)[5]) * 100 + digit_of(
            level_text(h)[6],
        ) * 10 + digit_of(level_text(h)[7]) == clamped_level(h) * 10000,
{
    let c = clamped_level(h);
    let t = level_text(h);
    assert(c / 100 < 10);
    assert(decimal_text(c / 100) == seq![digit_char((c / 100) as int)]);
    assert(t[0] == digit_char((c / 100) as int));
    assert(t[2] == digit_char(((c % 100) / 10) as int));
    assert(t[3] == digit_char((c % 10) as int));
    assert(t[4] == '0' && t[5] == '0' && t[6] == '0' && t[7] == '0');
    assert(digit_of(t[0]) == c / 100);
    assert(digit_of(t[2]) == (c % 100) / 10);
    assert(digit_of(t[3]) == c % 10);
}

/// The JSON line of parameter `i`, with a trailing comma on all but the last.
pub open spec fn json_param_line(i: int, h: u32) -> Seq<char> {
    "    \""@ + parameter_id(i) + "\": "@ + level_text(h) + if i + 1 < PARAMETER_COUNT {
        ","@
    } else {
        seq![]
    }
}

/// The lines of the JSON object of a preset.
pub open spec fn preset_json_lines(p: FactoryPreset) -> Seq<Seq<char>> {
    seq![
        "{"@,
        "  \"name\": \""@ + p.name@ + "\","@,
        "  \"category\": \""@ + p.category@ + "\","@,
        "  \"params\": {"@,
    ] + Seq::new(PARAMETER_COUNT as nat, |i: int| json_param_line(i, p.levels@[i])) + seq![
        "  }"@,
        "}"@,
    ]
}

/// The JSON object of a preset, its lines joined by line feeds.
pub open spec fn preset_json_object(p: FactoryPreset) -> Seq<char> {
    join_lines(preset_json_lines(p))
}

/// Appends a line feed and `line` to a text made of joined lines.
fn append_line(out: &mut String, line: &str, Ghost(prev): Ghost<Seq<Seq<char>>>)
    requires
        old(out)@ == join_lines(prev),
        prev.len() > 0,
    ensures
        final(out)@ == join_lines(prev.push(line@)),
{
    proof {
        reveal_strlit("\n");
        lemma_join_push(prev, line@);
    }
    out.append("\n");
    out.append(line);
}

/// Appends a level written with six decimals.
fn push_level(out: &mut String, h: u32)
    ensures
        final(out)@ == old(out)@ + level_text(h),
{
    let c: u32 = if h > 100 {
        100
    } else {
        h
    };
    push_decimal(out, c / 100);
    proof {
        reveal_strlit(".");
        reveal_strlit("0000");
    }
    out.append(".");
    out.append(digit_str((c % 100) / 10));
    out.append(digit_str(c % 10));
    out.append("0000");
    assert(final(out)@ =~= old(out)@ + level_text(h));
}

/// The JSON line of parameter `i` whose value is written as `text`, with a
/// trailing comma on all but the last.
pub open spec fn json_value_line(i: int, text: Seq<char>) -> Seq<char> {
    "    \""@ + parameter_id(i) + "\": "@ + text + if i + 1 < PARAMETER_COUNT {
        ","@
    } else {
        seq![]
    }
}

/// The lines of a preset's JSON object, given its name, its category and the
/// text of each parameter value in table order.
pub open spec fn json_object_lines(name: Seq<char>, category: Seq<char>, texts: Seq<Seq<char>>) -> Seq<
    Seq<char>,
> {
    seq![
        "{"@,
        "  \"name\": \""@ + name + "\","@,
        "  \"category\": \""@ + category + "\","@,
        "  \"params\": {"@,
    ] + Seq::new(PARAMETER_COUNT as nat, |i: int| json_value_line(i, texts[i])) + seq!["  }"@, "}"@]
}

/// Writes a preset's JSON object from its name, its category and the text of
/// each parameter value, in table order; the texts are written as given.
pub fn json_object(name: &str, category: &str, value_texts: &Vec<String>) -> (r: String)
    requires
        value_texts.len() == PARAMETER_COUNT,
    ensures
        r@ == join_lines(json_object_lines(name@, category@, string_views(value_texts@))),
{
    let ghost texts = string_views(value_texts@);
    let defs = parameter_defs();
    let mut out = String::from_str("{");
    let ghost mut ls: Seq<Seq<char>> = seq!["{"@];
    let mut line = String::from_str("  \"name\": \"");
    line.append(name);
    line.append("\",");
    append_line(&mut out, line.as_str(), Ghost(ls));
    proof { ls = ls.push(line@); }
    let mut line = String::from_str("  \"category\": \"");
    line.append(category);
    line.append("\",");
    append_line(&mut out, line.as_str(), Ghost(ls));
    proof { ls = ls.push(line@); }
    let line = String::from_str("  \"params\": {");
    append_line(&mut out, line.as_str(), Ghost(ls));
    proof { ls = ls.push(line@); }
    let ghost head = ls;
    let mut i: usize = 0;
    while i < PARAMETER_COUNT
        invariant
            defs@ == spec_parameter_defs(),
            value_texts.len() == PARAMETER_COUNT,
            texts == string_views(value_texts@),
            0 <= i <= PARAMETER_COUNT,
            head.len() == 4,
            ls == head + Seq::new(i as nat, |k: int| json_value_line(k, texts[k])),
            out@ == join_lines(ls),
        decreases PARAMETER_COUNT - i,
    {
        let mut line = String::from_str("    \"");
        line.append(defs[i].id);
        line.append("\": ");
        line.append(value_texts[i].as_str());
        if i + 1 < PARAMETER_COUNT {
            line.append(",");
        }
        assert(line@ == json_value_line(i as int, texts[i as int]));
        append_line(&mut out, line.as_str(), Ghost(ls));
        proof {
            ls = ls.push(line@);
            assert(ls =~= head + Seq::new((i + 1) as nat, |k: int| json_value_line(k, texts[k])));
        }
        i += 1;
    }
    let line = String::from_str("  }");
    append_line(&mut out, line.as_str(), Ghost(ls));
    proof { ls = ls.push(line@); }
    let line = String::from_str("}");
    append_line(&mut out, line.as_str(), Ghost(ls));
    proof {
        ls = ls.push(line@);
        assert(ls =~= json_object_lines(name@, category@, texts));
    }
    out
}

/// A factory preset's object is the JSON object written from its name, its
/// category and its levels, each written with six decimals.
pub proof fn lemma_preset_object_is_json_object(p: FactoryPreset)
    ensures
        preset_json_object(p) == join_lines(
            json_object_lines(
                p.name@,
                p.category@,
                Seq::new(PARAMETER_COUNT as nat, |i: int| level_text(p.levels@[i])),
            ),
        ),
{
    let texts = Seq::new(PARAMETER_COUNT as nat, |i: int| level_text(p.levels@[i]));
    assert(preset_json_lines(p) =~= json_object_lines(p.name@, p.category@, texts));
}

impl FactoryPreset {
    /// The preset as a JSON object, its levels clamped to the normalized range.
    pub fn to_json_object(self) -> (r: String)
        ensures
            r@ == preset_json_object(self),
    {
        let defs = parameter_defs();
        let mut out = String::from_str("{");
        let ghost mut ls: Seq<Seq<char>> = seq!["{"@];
        let mut line = String::from_str("  \"name\": \"");
        line.append(self.name);
        line.append("\",");
        append_line(&mut out, line.as_str(), Ghost(ls));
        proof { ls = ls.push(line@); }
        let mut line = String::from_str("  \"category\": \"");
        line.append(self.category);
        line.append("\",");
        append_line(&mut out, line.as_str(), Ghost(ls));
        proof { ls = ls.push(line@); }
        let line = String::from_str("  \"params\": {");
        append_line(&mut out, line.as_str(), Ghost(ls));
        proof { ls = ls.push(line@); }
        let ghost head = ls;
        let mut i: usize = 0;
        while i < PARAMETER_COUNT
            invariant
                defs@ == spec_parameter_defs(),
                0 <= i <= PARAMETER_COUNT,
                head.len() == 4,
                ls == head + Seq::new(i as nat, |k: int| json_param_line(k, self.levels@[k])),
                out@ == join_lines(ls),
            decreases PARAMETER_COUNT - i,
        {
            let mut line = String::from_str("    \"");
            line.append(defs[i].id);
            line.append("\": ");
            push_level(&mut line, self.levels[i]);
            if i + 1 < PARAMETER_COUNT {
                line.append(",");
            }
            assert(line@ == json_param_line(i as int, self.levels@[i as int]));
            append_line(&mut out, line.as_str(), Ghost(ls));
            proof {
                ls = ls.push(line@);
                assert(ls =~= head + Seq::new((i + 1) as nat, |k: int| json_param_line(k, self.levels@[k])));
            }
            i += 1;
        }
        let line = String::from_str("  }");
        append_line(&mut out, line.as_str(), Ghost(ls));
        proof { ls = ls.push(line@); }
        let line = String::from_str("}");
        append_line(&mut out, line.as_str(), Ghost(ls));
        proof {
            ls = ls.push(line@);
            assert(ls =~= preset_json_lines(self));
        }
        out
    }
}

/// The entry of preset `j` in the exported array: its object indented by two
/// spaces, a comma unless it is the last, and a line feed.
pub open spec fn presets_json_entry(j: int) -> Seq<char> {
    spec_indent(preset_json_object(spec_factory_presets()[j]), 2) + if j + 1 != FACTORY_PRESET_COUNT {
        ","@
    } else {
        seq![]
    } + "\n"@
}

/// The entries of the first `n` presets.
pub open spec fn presets_json_body(n: int) -> Seq<char>
    decreases n,
{
    if n <= 0 {
        seq![]
    } else {
        presets_json_body(n - 1) + presets_json_entry(n - 1)
    }
}

/// The factory presets exported as a JSON array.
pub open spec fn spec_factory_presets_json() -> Seq<char> {
    "[\n"@ + presets_json_body(FACTORY_PRESET_COUNT as int) + "]"@
}

/// Exports every factory preset as one JSON array.
pub fn factory_presets_json() -> (json: String)
    ensures
        json@ == spec_factory_presets_json(),
{
    let presets = factory_presets();
    let mut json = String::from_str("[\n");
    let mut index: usize = 0;
    while index < FACTORY_PRESET_COUNT
        invariant
            presets@ == spec_factory_presets(),
            0 <= index <= FACTORY_PRESET_COUNT,
            json@ == "[\n"@ + presets_json_body(index as int),
        decreases FACTORY_PRESET_COUNT - index,
    {
        let object = presets[index].to_json_object();
        json.append(indent(object.as_str(), 2).as_str());
        if index + 1 != FACTORY_PRESET_COUNT {
            json.append(",");
        }
        json.append("\n");
        assert(json@ =~= "[\n"@ + presets_json_body(index + 1));
        index += 1;
    }
    json.append("]");
    json
}

/// Every factory preset name is a single line.
proof fn lemma_preset_names_plain()
    ensures
        forall|j: int|
            0 <= j < FACTORY_PRESET_COUNT ==> plain_line(#[trigger] spec_factory_presets()[j].name@)
                && spec_factory_presets()[j].category == spec_factory_presets()[j].name,
{
    assert forall|j: int| 0 <= j < FACTORY_PRESET_COUNT implies plain_line(
        #[trigger] spec_factory_presets()[j].name@,
    ) && spec_factory_presets()[j].category == spec_factory_presets()[j].name by {
        if j == 0 {
            reveal_strlit("Frozen Cave");
            assert(spec_factory_presets()[0].name@ == "Frozen Cave"@);
        } else if j == 1 {
            reveal_strlit("Fjord Distance");
            assert(spec_factory_presets()[1].name@ == "Fjord Distance"@);
        } else if j == 2 {
            reveal_strlit("Ice Plate");
            assert(spec_factory_presets()[2].name@ == "Ice Plate"@);
        } else if j == 3 {
            reveal_strlit("Nordic Temple");
            assert(spec_factory_presets()[3].name@ == "Nordic Temple"@);
        } else if j == 4 {
            reveal_strlit("Whiteout");
            assert(spec_factory_presets()[4].name@ == "Whiteout"@);
        } else if j == 5 {
            reveal_strlit("Distant Horn");
            assert(spec_factory_presets()[5].name@ == "Distant Horn"@);
        } else if j == 6 {
            reveal_strlit("Crystal Tunnel");
            assert(spec_factory_presets()[6].name@ == "Crystal Tunnel"@);
        } else {
            reveal_strlit("Dead Snowfield");
            assert(spec_factory_presets()[7].name@ == "Dead Snowfield"@);
        }
    }
}

/// A level's text is a single line.
proof fn lemma_level_text_plain(h: u32)
    ensures
        plain_line(level_text(h)),
{
    let c = clamped_level(h);
    lemma_decimal_plain(c / 100);
    let tail = seq!['.', digit_char(((c % 100) / 10) as int), digit_char((c % 10) as int)];
    assert(plain_line(tail));
    assert(plain_line(seq!['0', '0', '0', '0']));
    lemma_plain_concat(decimal_text(c / 100), tail);
    lemma_plain_concat(decimal_text(c / 100) + tail, seq!['0', '0', '0', '0']);
}

/// The lines of a factory preset's JSON object are single lines, the last of
/// them not empty.
proof fn lemma_json_lines_plain(j: int)
    requires
        0 <= j < FACTORY_PRESET_COUNT,
    ensures
        forall|k: int|
            0 <= k < preset_json_lines(spec_factory_presets()[j]).len() ==> plain_line(
                #[trigger] preset_json_lines(spec_factory_presets()[j])[k],
            ),
        preset_json_lines(spec_factory_presets()[j]).last().len() > 0,
{
    let p = spec_factory_presets()[j];
    let ls = preset_json_lines(p);
    reveal_strlit("{");
    reveal_strlit("  \"name\": \"");
    reveal_strlit("\",");
    reveal_strlit("  \"category\": \"");
    reveal_strlit("  \"params\": {");
    reveal_strlit("    \"");
    reveal_strlit("\": ");
    reveal_strlit(",");
    reveal_strlit("  }");
    reveal_strlit("}");
    lemma_preset_names_plain();
    lemma_parameter_ids_plain();
    assert(plain_line("{"@));
    assert(plain_line("  \"name\": \""@));
    assert(plain_line("\","@));
    assert(plain_line("  \"category\": \""@));
    assert(plain_line("  \"params\": {"@));
    assert(plain_line("    \""@));
    assert(plain_line("\": "@));
    assert(plain_line(","@));
    assert(plain_line("  }"@));
    assert(plain_line("}"@));
    assert(plain_line(p.name@));
    lemma_plain_concat("  \"name\": \""@, p.name@);
    lemma_plain_concat("  \"name\": \""@ + p.name@, "\","@);
    lemma_plain_concat("  \"category\": \""@, p.category@);
    lemma_plain_concat("  \"category\": \""@ + p.category@, "\","@);
    assert forall|i: int| 0 <= i < PARAMETER_COUNT implies plain_line(
        #[trigger] json_param_line(i, p.levels@[i]),
    ) by {
        lemma_level_text_plain(p.levels@[i]);
        lemma_plain_concat("    \""@, parameter_id(i));
        lemma_plain_concat("    \""@ + parameter_id(i), "\": "@);
        lemma_plain_concat("    \""@ + parameter_id(i) + "\": "@, level_text(p.levels@[i]));
        let comma: Seq<char> = if i + 1 < PARAMETER_COUNT {
            ","@
        } else {
            seq![]
        };
        assert(plain_line(comma));
        lemma_plain_concat("    \""@ + parameter_id(i) + "\": "@ + level_text(p.levels@[i]), comma);
    }
    assert forall|k: int| 0 <= k < ls.len() implies plain_line(#[trigger] ls[k]) by {
        if 4 <= k < 4 + PARAMETER_COUNT {
            assert(ls[k] == json_param_line(k - 4, p.levels@[k - 4]));
        }
    }
}

/// The exported JSON mentions every parameter id and every factory preset
/// name.
pub proof fn lemma_presets_json_mentions_ids_and_names()
    ensures
        forall|i: int| 0 <= i < PARAMETER_COUNT ==> contains_text(spec_factory_presets_json(), #[trigger] parameter_id(i)),
        forall|j: int|
            0 <= j < FACTORY_PRESET_COUNT ==> contains_text(
                spec_factory_presets_json(),
                #[trigger] spec_factory_presets()[j].name@,
            ),
{
    assert forall|j: int| 0 <= j < FACTORY_PRESET_COUNT implies contains_text(
        spec_factory_presets_json(),
        #[trigger] spec_factory_presets()[j].name@,
    ) by {
        let ls = preset_json_lines(spec_factory_presets()[j]);
        lemma_entry_contains_line(j, 1);
        lemma_contains_middle("  \"name\": \""@, spec_factory_presets()[j].name@, "\","@);
        lemma_contains_trans(spec_factory_presets_json(), ls[1], spec_factory_presets()[j].name@);
    }
    assert forall|i: int| 0 <= i < PARAMETER_COUNT implies contains_text(
        spec_factory_presets_json(),
        #[trigger] parameter_id(i),
    ) by {
        let ls = preset_json_lines(spec_factory_presets()[0]);
        lemma_entry_contains_line(0, 4 + i);
        assert(ls[4 + i] == json_param_line(i, spec_factory_presets()[0].levels@[i]));
        let h = spec_factory_presets()[0].levels@[i];
        let comma: Seq<char> = if i + 1 < PARAMETER_COUNT {
            ","@
        } else {
            seq![]
        };
        lemma_contains_middle("    \""@, parameter_id(i), "\": "@ + level_text(h) + comma);
        assert("    \""@ + parameter_id(i) + ("\": "@ + level_text(h) + comma) =~= ls[4 + i]);
        lemma_contains_trans(spec_factory_presets_json(), ls[4 + i], parameter_id(i));
    }
}

/// A preset's entry in the exported array holds every line of its object.
proof fn lemma_entry_has_line(j: int, k: int)
    requires
        0 <= j < FACTORY_PRESET_COUNT,
        0 <= k < preset_json_lines(spec_factory_presets()[j]).len(),
    ensures
        contains_text(presets_json_entry(j), preset_json_lines(spec_factory_presets()[j])[k]),
{
    let ls = preset_json_lines(spec_factory_presets()[j]);
    lemma_json_lines_plain(j);
    lemma_lines_of_join(ls);
    let pre = prefixed(ls, blanks(2));
    assert(spec_indent(preset_json_object(spec_factory_presets()[j]), 2) == join_lines(pre));
    lemma_join_contains(pre, k);
    lemma_contains_middle(blanks(2), ls[k], seq![]);
    assert(blanks(2) + ls[k] + seq![] =~= pre[k]);
    lemma_contains_trans(join_lines(pre), pre[k], ls[k]);
    let comma: Seq<char> = if j + 1 != FACTORY_PRESET_COUNT {
        ","@
    } else {
        seq![]
    };
    lemma_contains_middle(seq![], join_lines(pre), comma + "\n"@);
    assert(seq![] + join_lines(pre) + (comma + "\n"@) =~= presets_json_entry(j));
    lemma_contains_trans(presets_json_entry(j), join_lines(pre), ls[k]);
}

/// The exported JSON holds every line of every preset's object.
proof fn lemma_entry_contains_line(j: int, k: int)
    requires
        0 <= j < FACTORY_PRESET_COUNT,
        0 <= k < preset_json_lines(spec_factory_presets()[j]).len(),
    ensures
        contains_text(spec_factory_presets_json(), preset_json_lines(spec_factory_presets()[j])[k]),
{
    let line = preset_json_lines(spec_factory_presets()[j])[k];
    lemma_entry_has_line(j, k);
    lemma_body_contains_entry(FACTORY_PRESET_COUNT as int, j);
    lemma_contains_middle("[\n"@, presets_json_body(FACTORY_PRESET_COUNT as int), "]"@);
    lemma_contains_trans(spec_factory_presets_json(), presets_json_body(FACTORY_PRESET_COUNT as int), presets_json_entry(j));
    lemma_contains_trans(spec_factory_presets_json(), presets_json_entry(j), line);
}

/// The body of the array holds the entry of each preset it covers.
proof fn lemma_body_contains_entry(n: int, j: int)
    requires
        0 <= j < n,
    ensures
        contains_text(presets_json_body(n), presets_json_entry(j)),
    decreases n,
{
    if j == n - 1 {
        lemma_contains_middle(presets_json_body(n - 1), presets_json_entry(j), seq![]);
        assert(presets_json_body(n - 1) + presets_json_entry(j) + seq![] =~= presets_json_body(n));
    } else {
        lemma_body_contains_entry(n - 1, j);
        lemma_contains_middle(seq![], presets_json_body(n - 1), presets_json_entry(n - 1));
        assert(seq![] + presets_json_body(n - 1) + presets_json_entry(n - 1) =~= presets_json_body(n));
        lemma_contains_trans(presets_json_body(n), presets_json_body(n - 1), presets_json_entry(j));
    }
}

} // verus!

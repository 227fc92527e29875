use vstd::prelude::*;

use crate::params::{
    lemma_parameter_ids_plain, lemma_parameter_index_of_id, parameter_defs, parameter_id,
    parameter_index, spec_parameter_defs, spec_parameter_index, PARAMETER_COUNT,
};
use crate::text::{
    blank, chars_of, first_pos, is_blank, join_lines, lemma_first_pos, lemma_join_push,
    lemma_lines_of_terminated, plain_line, spec_lines, split_lines, str_eq,
};

verus! {

/// Why a host state document or a parameter write was refused.
#[derive(Clone, Copy, Debug, PartialEq, Eq, Structural)]
pub enum StateError {
    MalformedState,
    UnknownParameter,
}

/// Static metadata that plugin wrappers publish to hosts.
#[derive(Clone, Copy, Debug, PartialEq, Eq)]
pub struct PluginDescriptor {
    pub name: &'static str,
    pub vendor: &'static str,
    pub bundle_id: &'static str,
    pub version: &'static str,
    pub audio_inputs: usize,
    pub audio_outputs: usize,
}

/// The descriptor of this plugin: a stereo-in, stereo-out effect.
pub fn plugin_descriptor() -> (d: PluginDescriptor)
    ensures
        d.name@ == "Frost Verb"@,
        d.vendor@ == "Nursven"@,
        d.bundle_id@ == "com.nursven.frostverb"@,
        d.version@ == "0.1.0"@,
        d.audio_inputs == 2,
        d.audio_outputs == 2,
{
    PluginDescriptor {
        name: "Frost Verb",
        vendor: "Nursven",
        bundle_id: "com.nursven.frostverb",
        version: "0.1.0",
        audio_inputs: 2,
        audio_outputs: 2,
    }
}

/// The value stored under `id`, if `id` names a parameter.
pub open spec fn bank_get<T>(values: Seq<T>, id: Seq<char>) -> Option<T> {
    match spec_parameter_index(id) {
        Some(i) => Some(values[i]),
        None => None,
    }
}

/// The values after storing `value` under `id`, or the refusal of an unknown id.
pub open spec fn bank_set<T>(values: Seq<T>, id: Seq<char>, value: T) -> Result<Seq<T>, StateError> {
    match spec_parameter_index(id) {
        Some(i) => Ok(values.update(i, value)),
        None => Err(StateError::UnknownParameter),
    }
}

/// One value per public parameter, addressed by parameter id.
#[derive(Clone, Copy, Debug)]
pub struct ParameterBank<T> {
    values: [T; PARAMETER_COUNT],
}

impl<T> View for ParameterBank<T> {
    type V = Seq<T>;

    closed spec fn view(&self) -> Seq<T> {
        self.values@
    }
}

impl<T: Copy> ParameterBank<T> {
    /// A bank holding `values`, in the order of the parameter table.
    pub fn new(values: [T; PARAMETER_COUNT]) -> (bank: Self)
        ensures
            bank@ == values@,
            bank@.len() == PARAMETER_COUNT,
    {
        ParameterBank { values }
    }

    /// The values, in the order of the parameter table.
    pub fn values(&self) -> (values: [T; PARAMETER_COUNT])
        ensures
            values@ == self@,
            self@.len() == PARAMETER_COUNT,
    {
        self.values
    }

    /// The value of the parameter named `id`, or `None` for an unknown id.
    pub fn get(&self, id: &str) -> (r: Option<T>)
        ensures
            r == bank_get(self@, id@),
    {
        match parameter_index(id) {
            Some(i) => Some(self.values[i]),
            None => None,
        }
    }

    /// Stores `value` under the parameter named `id`; an unknown id is
    /// refused and changes nothing.
    pub fn set(&mut self, id: &str, value: T) -> (r: Result<(), StateError>)
        ensures
            match bank_set(old(self)@, id@, value) {
                Ok(values) => r is Ok && final(self)@ == values,
                Err(e) => r == Err::<(), StateError>(e) && final(self)@ == old(self)@,
            },
            final(self)@.len() == PARAMETER_COUNT,
    {
        match parameter_index(id) {
            Some(i) => {
                self.values[i] = value;
                assert(self.values@ =~= old(self).values@.update(i as int, value));
                Ok(())
            },
            None => Err(StateError::UnknownParameter),
        }
    }
}

impl<T> ParameterBank<T> {
    /// A bank holds one value per public parameter.
    pub proof fn lemma_len(&self)
        ensures
            self@.len() == PARAMETER_COUNT,
    {
    }
}

/// A write is read back: after storing `value` under a parameter id, reading
/// that id gives `value` and every other id reads as before.
pub proof fn lemma_get_after_set<T>(values: Seq<T>, id: Seq<char>, value: T, other: Seq<char>)
    requires
        values.len() == PARAMETER_COUNT,
        bank_set(values, id, value) is Ok,
    ensures
        bank_get(bank_set(values, id, value)->Ok_0, id) == Some(value),
        other != id ==> bank_get(bank_set(values, id, value)->Ok_0, other) == bank_get(values, other),
{
    let i = spec_parameter_index(id)->Some_0;
    if other != id {
        match spec_parameter_index(other) {
            Some(j) => {
                assert(crate::params::parameter_id(j) == other);
                assert(crate::params::parameter_id(i) == id);
            },
            None => {},
        }
    }
}

/// The first line of every state document.
pub const STATE_HEADER: &'static str = "frostverb-state-v1";

/// What one line of a state document says.
pub enum LineView {
    Header,
    Blank,
    Assignment { id: Seq<char>, value: Seq<char> },
    Malformed,
}

/// How a line of a state document reads: the header; a blank line; `id=value`,
/// split at the first `=`; or anything else, which is malformed.
pub open spec fn spec_classify(line: Seq<char>) -> LineView {
    if line == STATE_HEADER@ {
        LineView::Header
    } else if is_blank(line) {
        LineView::Blank
    } else {
        let p = first_pos(line, '=');
        if p >= line.len() {
            LineView::Malformed
        } else {
            LineView::Assignment { id: line.take(p as int), value: line.skip(p + 1 as int) }
        }
    }
}

/// One line of a state document, as read.
#[derive(Clone, Copy, Debug, PartialEq, Eq)]
pub enum StateLine<'a> {
    Header,
    Blank,
    Assignment { id: &'a str, value: &'a str },
    Malformed,
}

impl<'a> View for StateLine<'a> {
    type V = LineView;

    open spec fn view(&self) -> LineView {
        match *self {
            StateLine::Header => LineView::Header,
            StateLine::Blank => LineView::Blank,
            StateLine::Assignment { id, value } => LineView::Assignment { id: id@, value: value@ },
            StateLine::Malformed => LineView::Malformed,
        }
    }
}

/// The lines of a state document, each classified.
pub open spec fn spec_state_lines(input: Seq<char>) -> Seq<LineView> {
    spec_lines(input).map_values(|l: Seq<char>| spec_classify(l))
}

/// The views of read lines.
pub open spec fn line_views(v: Seq<StateLine>) -> Seq<LineView> {
    v.map_values(|l: StateLine| l@)
}

/// Reads one line of a state document.
pub fn classify_line<'a>(line: &'a str) -> (r: StateLine<'a>)
    ensures
        r@ == spec_classify(line@),
{
    if str_eq(line, STATE_HEADER) {
        return StateLine::Header;
    }
    if blank(line) {
        return StateLine::Blank;
    }
    let cs = chars_of(line);
    let mut p: usize = 0;
    while p < cs.len()
        invariant
            cs@ == line@,
            line@ != STATE_HEADER@,
            !is_blank(line@),
            0 <= p <= cs.len(),
            forall|j: int| 0 <= j < p ==> line@[j] != '=',
        decreases cs.len() - p,
    {
        if cs[p] == '=' {
            proof {
                lemma_first_pos(line@, '=', p as int);
            }
            let id = line.substring_char(0, p);
            let value = line.substring_char(p + 1, cs.len());
            assert(id@ =~= line@.take(p as int));
            assert(value@ =~= line@.skip(p + 1));
            return StateLine::Assignment { id, value };
        }
        p += 1;
    }
    proof {
        lemma_first_pos(line@, '=', p as int);
    }
    StateLine::Malformed
}

/// Reads every line of a state document.
pub fn state_lines<'a>(input: &'a str) -> (r: Vec<StateLine<'a>>)
    ensures
        line_views(r@) == spec_state_lines(input@),
{
    let lines = split_lines(input);
    let mut r: Vec<StateLine<'a>> = Vec::new();
    let mut i: usize = 0;
    while i < lines.len()
        invariant
            0 <= i <= lines.len(),
            crate::text::views(lines@) == spec_lines(input@),
            line_views(r@) == spec_state_lines(input@).take(i as int),
        decreases lines.len() - i,
    {
        let line = classify_line(lines[i]);
        proof {
            assert(lines@[i as int]@ == spec_lines(input@)[i as int]);
        }
        let ghost before = r@;
        r.push(line);
        assert(line_views(r@) =~= line_views(before).push(line@));
        assert(spec_state_lines(input@).take(i + 1) =~= spec_state_lines(input@).take(i as int).push(
            spec_classify(spec_lines(input@)[i as int]),
        ));
        i += 1;
    }
    assert(spec_state_lines(input@).take(i as int) =~= spec_state_lines(input@));
    r
}

/// Decoding a state document: lines are taken in order; the header is noted,
/// blank lines are skipped, a malformed line or a value that did not parse
/// refuses the document as malformed, an unknown id refuses it as such, and
/// every other assignment overwrites its parameter. A document without a
/// header is malformed. `values[k]` is the value read from line `k`.
pub open spec fn spec_decode<T>(
    lines: Seq<LineView>,
    values: Seq<Option<T>>,
    bank: Seq<T>,
    saw_header: bool,
) -> Result<Seq<T>, StateError>
    decreases lines.len(),
{
    if lines.len() == 0 {
        if saw_header {
            Ok(bank)
        } else {
            Err(StateError::MalformedState)
        }
    } else {
        let rest = lines.drop_first();
        let more = values.drop_first();
        match lines[0] {
            LineView::Header => spec_decode(rest, more, bank, true),
            LineView::Blank => spec_decode(rest, more, bank, saw_header),
            LineView::Malformed => Err(StateError::MalformedState),
            LineView::Assignment { id, value: _ } => match values[0] {
                None => Err(StateError::MalformedState),
                Some(v) => match bank_set(bank, id, v) {
                    Ok(next) => spec_decode(rest, more, next, saw_header),
                    Err(e) => Err(e),
                },
            },
        }
    }
}

/// Blank lines change nothing: inserting a blank line anywhere in a document,
/// before or after its header, leaves its decoding as it was, whatever value
/// stands beside it.
pub proof fn lemma_blank_lines_ignored<T>(
    lines: Seq<LineView>,
    values: Seq<Option<T>>,
    bank: Seq<T>,
    saw_header: bool,
    k: int,
    v: Option<T>,
)
    requires
        lines.len() == values.len(),
        0 <= k <= lines.len(),
    ensures
        spec_decode(lines.insert(k, LineView::Blank), values.insert(k, v), bank, saw_header)
            == spec_decode(lines, values, bank, saw_header),
    decreases k,
{
    let l2 = lines.insert(k, LineView::Blank);
    let v2 = values.insert(k, v);
    if k == 0 {
        assert(l2.drop_first() =~= lines);
        assert(v2.drop_first() =~= values);
    } else {
        assert(l2[0] == lines[0]);
        assert(v2[0] == values[0]);
        assert(l2.drop_first() =~= lines.drop_first().insert(k - 1, LineView::Blank));
        assert(v2.drop_first() =~= values.drop_first().insert(k - 1, v));
        match lines[0] {
            LineView::Header => {
                lemma_blank_lines_ignored(lines.drop_first(), values.drop_first(), bank, true, k - 1, v);
            },
            LineView::Blank => {
                lemma_blank_lines_ignored(lines.drop_first(), values.drop_first(), bank, saw_header, k - 1, v);
            },
            LineView::Malformed => {},
            LineView::Assignment { id, value: _ } => {
                match values[0] {
                    None => {},
                    Some(x) => {
                        match bank_set(bank, id, x) {
                            Ok(next) => {
                                lemma_blank_lines_ignored(
                                    lines.drop_first(),
                                    values.drop_first(),
                                    next,
                                    saw_header,
                                    k - 1,
                                    v,
                                );
                            },
                            Err(_) => {},
                        }
                    },
                }
            },
        }
    }
}

/// A line that decoding accepts: the header, a blank line, or an assignment
/// of a parsed value to a known parameter.
pub open spec fn line_accepted<T>(line: LineView, value: Option<T>) -> bool {
    match line {
        LineView::Header => true,
        LineView::Blank => true,
        LineView::Malformed => false,
        LineView::Assignment { id, value: _ } => value is Some && spec_parameter_index(id) is Some,
    }
}

/// The refusal that a line which decoding does not accept brings: only a
/// parsed value assigned to an unknown id is refused as unknown.
pub open spec fn line_refusal<T>(line: LineView, value: Option<T>) -> StateError {
    match line {
        LineView::Assignment { id, value: _ } => if value is Some && spec_parameter_index(id) is None {
            StateError::UnknownParameter
        } else {
            StateError::MalformedState
        },
        _ => StateError::MalformedState,
    }
}

/// The first line that decoding does not accept decides the refusal: a
/// malformed line or a value that did not parse refuses the document as
/// malformed, an assignment to an unknown id as such, whatever follows.
pub proof fn lemma_decode_first_refusal<T>(
    lines: Seq<LineView>,
    values: Seq<Option<T>>,
    bank: Seq<T>,
    saw_header: bool,
    k: int,
)
    requires
        lines.len() == values.len(),
        0 <= k < lines.len(),
        forall|j: int| 0 <= j < k ==> line_accepted(#[trigger] lines[j], values[j]),
        !line_accepted(lines[k], values[k]),
    ensures
        spec_decode(lines, values, bank, saw_header) == Err::<Seq<T>, StateError>(line_refusal(lines[k], values[k])),
    decreases k,
{
    if k > 0 {
        assert(line_accepted(lines[0], values[0]));
        let rest = lines.drop_first();
        let more = values.drop_first();
        assert forall|j: int| 0 <= j < k - 1 implies line_accepted(#[trigger] rest[j], more[j]) by {
            assert(rest[j] == lines[j + 1]);
            assert(more[j] == values[j + 1]);
            assert(line_accepted(lines[j + 1], values[j + 1]));
        }
        assert(rest[k - 1] == lines[k]);
        assert(more[k - 1] == values[k]);
        match lines[0] {
            LineView::Header => {
                lemma_decode_first_refusal(rest, more, bank, true, k - 1);
            },
            LineView::Blank => {
                lemma_decode_first_refusal(rest, more, bank, saw_header, k - 1);
            },
            LineView::Malformed => {},
            LineView::Assignment { id, value: _ } => {
                let x = values[0]->Some_0;
                let next = bank_set(bank, id, x)->Ok_0;
                lemma_decode_first_refusal(rest, more, next, saw_header, k - 1);
            },
        }
    }
}

/// A document without a header line is refused, as malformed unless one of
/// its lines is refused first; one whose lines are all accepted and that has
/// a header decodes.
pub proof fn lemma_decode_needs_header<T>(
    lines: Seq<LineView>,
    values: Seq<Option<T>>,
    bank: Seq<T>,
    saw_header: bool,
)
    requires
        lines.len() == values.len(),
        forall|j: int| 0 <= j < lines.len() ==> line_accepted(#[trigger] lines[j], values[j]),
    ensures
        spec_decode(lines, values, bank, saw_header) is Ok <==> (saw_header || exists|j: int|
            0 <= j < lines.len() && #[trigger] lines[j] == LineView::Header),
        bank.len() == PARAMETER_COUNT && spec_decode(lines, values, bank, saw_header) is Ok
            ==> spec_decode(lines, values, bank, saw_header)->Ok_0.len() == PARAMETER_COUNT,
    decreases lines.len(),
{
    if lines.len() > 0 {
        let rest = lines.drop_first();
        let more = values.drop_first();
        assert forall|j: int| 0 <= j < rest.len() implies line_accepted(#[trigger] rest[j], more[j]) by {
            assert(rest[j] == lines[j + 1]);
            assert(more[j] == values[j + 1]);
            assert(line_accepted(lines[j + 1], values[j + 1]));
        }
        assert(line_accepted(lines[0], values[0]));
        let next_saw = saw_header || lines[0] == LineView::Header;
        let next_bank = match lines[0] {
            LineView::Assignment { id, value: _ } => bank_set(bank, id, values[0]->Some_0)->Ok_0,
            _ => bank,
        };
        lemma_decode_needs_header(rest, more, next_bank, next_saw);
        if exists|j: int| 0 <= j < rest.len() && #[trigger] rest[j] == LineView::Header {
            let j = choose|j: int| 0 <= j < rest.len() && #[trigger] rest[j] == LineView::Header;
            assert(lines[j + 1] == LineView::Header);
        }
        if exists|j: int| 0 <= j < lines.len() && #[trigger] lines[j] == LineView::Header {
            let j = choose|j: int| 0 <= j < lines.len() && #[trigger] lines[j] == LineView::Header;
            if j > 0 {
                assert(rest[j - 1] == LineView::Header);
            }
        }
    }
}

/// The value that the lines leave for parameter `i`, starting from `current`:
/// the parsed value of the last assignment to that parameter, in line order,
/// or `current` where no line assigns it.
pub open spec fn last_assigned<T>(lines: Seq<LineView>, values: Seq<Option<T>>, i: int, current: T) -> T
    decreases lines.len(),
{
    if lines.len() == 0 {
        current
    } else {
        let next = match lines[0] {
            LineView::Assignment { id, value: _ } => if spec_parameter_index(id) == Some(i) && values[0] is Some {
                values[0]->Some_0
            } else {
                current
            },
            _ => current,
        };
        last_assigned(lines.drop_first(), values.drop_first(), i, next)
    }
}

/// The last assignment wins: when every line is accepted and a header was
/// seen, decoding succeeds and leaves each parameter at the value of the last
/// line that assigns it, and at its starting value where none does.
pub proof fn lemma_decode_last_assignment_wins<T>(
    lines: Seq<LineView>,
    values: Seq<Option<T>>,
    bank: Seq<T>,
    saw_header: bool,
)
    requires
        lines.len() == values.len(),
        bank.len() == PARAMETER_COUNT,
        forall|j: int| 0 <= j < lines.len() ==> line_accepted(#[trigger] lines[j], values[j]),
        saw_header || exists|j: int| 0 <= j < lines.len() && #[trigger] lines[j] == LineView::Header,
    ensures
        spec_decode(lines, values, bank, saw_header) is Ok,
        spec_decode(lines, values, bank, saw_header)->Ok_0.len() == PARAMETER_COUNT,
        forall|i: int|
            0 <= i < PARAMETER_COUNT ==> #[trigger] spec_decode(lines, values, bank, saw_header)->Ok_0[i]
                == last_assigned(lines, values, i, bank[i]),
    decreases lines.len(),
{
    lemma_decode_needs_header(lines, values, bank, saw_header);
    if lines.len() > 0 {
        let rest = lines.drop_first();
        let more = values.drop_first();
        assert forall|j: int| 0 <= j < rest.len() implies line_accepted(#[trigger] rest[j], more[j]) by {
            assert(rest[j] == lines[j + 1]);
            assert(more[j] == values[j + 1]);
            assert(line_accepted(lines[j + 1], values[j + 1]));
        }
        assert(line_accepted(lines[0], values[0]));
        let next_saw = saw_header || lines[0] == LineView::Header;
        if !next_saw {
            let j = choose|j: int| 0 <= j < lines.len() && #[trigger] lines[j] == LineView::Header;
            assert(j > 0);
            assert(rest[j - 1] == LineView::Header);
        }
        match lines[0] {
            LineView::Assignment { id, value: _ } => {
                let p = spec_parameter_index(id)->Some_0;
                let x = values[0]->Some_0;
                let next = bank.update(p, x);
                assert(0 <= p < PARAMETER_COUNT);
                lemma_decode_last_assignment_wins(rest, more, next, saw_header);
                assert forall|i: int| 0 <= i < PARAMETER_COUNT implies #[trigger] spec_decode(
                    lines,
                    values,
                    bank,
                    saw_header,
                )->Ok_0[i] == last_assigned(lines, values, i, bank[i]) by {
                    assert(spec_decode(rest, more, next, saw_header)->Ok_0[i] == last_assigned(rest, more, i, next[i]));
                }
            },
            _ => {
                lemma_decode_last_assignment_wins(rest, more, bank, next_saw);
                assert forall|i: int| 0 <= i < PARAMETER_COUNT implies #[trigger] spec_decode(
                    lines,
                    values,
                    bank,
                    saw_header,
                )->Ok_0[i] == last_assigned(lines, values, i, bank[i]) by {
                    assert(spec_decode(rest, more, bank, next_saw)->Ok_0[i] == last_assigned(rest, more, i, bank[i]));
                }
            },
        }
    }
}

/// Applies the lines of a state document to `start`. `values[k]` is the value
/// read from the value text of line `k` (`None` where it did not parse); it is
/// ignored for lines that are not assignments.
pub fn decode_state<T: Copy>(
    lines: &Vec<StateLine>,
    values: &Vec<Option<T>>,
    start: ParameterBank<T>,
) -> (r: Result<ParameterBank<T>, StateError>)
    requires
        lines.len() == values.len(),
    ensures
        match spec_decode(line_views(lines@), values@, start@, false) {
            Ok(b) => r matches Ok(bank) && bank@ == b,
            Err(e) => r matches Err(f) && f == e,
        },
{
    let ghost all = line_views(lines@);
    let mut bank = start;
    let mut saw_header = false;
    let mut i: usize = 0;
    assert(all.skip(0) =~= all);
    assert(values@.skip(0) =~= values@);
    while i < lines.len()
        invariant
            lines.len() == values.len(),
            all == line_views(lines@),
            0 <= i <= lines.len(),
            spec_decode(all, values@, start@, false) == spec_decode(
                all.skip(i as int),
                values@.skip(i as int),
                bank@,
                saw_header,
            ),
        decreases lines.len() - i,
    {
        proof {
            assert(all.skip(i as int)[0] == all[i as int]);
            assert(all.skip(i as int).drop_first() =~= all.skip(i + 1));
            assert(values@.skip(i as int).drop_first() =~= values@.skip(i + 1));
            assert(values@.skip(i as int)[0] == values@[i as int]);
        }
        match lines[i] {
            StateLine::Header => {
                saw_header = true;
            },
            StateLine::Blank => {},
            StateLine::Malformed => {
                return Err(StateError::MalformedState);
            },
            StateLine::Assignment { id, value: _ } => {
                match values[i] {
                    None => {
                        return Err(StateError::MalformedState);
                    },
                    Some(v) => {
                        match bank.set(id, v) {
                            Ok(()) => {},
                            Err(e) => {
                                return Err(e);
                            },
                        }
                    },
                }
            },
        }
        i += 1;
    }
    proof {
        assert(all.skip(i as int).len() == 0);
    }
    if saw_header {
        Ok(bank)
    } else {
        Err(StateError::MalformedState)
    }
}

/// The line that records parameter `i` with the value text `text`.
pub open spec fn state_entry_line(i: int, text: Seq<char>) -> Seq<char> {
    parameter_id(i) + seq!['='] + text
}

/// The lines of a state document: the header, then one `id=value` line per
/// parameter in table order.
pub open spec fn state_doc_lines(texts: Seq<Seq<char>>) -> Seq<Seq<char>> {
    seq![STATE_HEADER@] + Seq::new(PARAMETER_COUNT as nat, |i: int| state_entry_line(i, texts[i]))
}

/// A state document: its lines, each ended by a line feed.
pub open spec fn spec_encode_state(texts: Seq<Seq<char>>) -> Seq<char> {
    join_lines(state_doc_lines(texts)) + seq!['\n']
}

/// The texts that a sequence of strings holds.
pub open spec fn string_views(v: Seq<String>) -> Seq<Seq<char>> {
    v.map_values(|t: String| t@)
}

/// Writes a state document from the value text of each parameter, in table
/// order.
pub fn encode_state(value_texts: &Vec<String>) -> (state: String)
    requires
        value_texts.len() == PARAMETER_COUNT,
    ensures
        state@ == spec_encode_state(string_views(value_texts@)),
{
    let ghost texts = string_views(value_texts@);
    let ghost ls = state_doc_lines(texts);
    let defs = parameter_defs();
    let mut state = String::from_str(STATE_HEADER);
    proof {
        reveal_strlit("\n");
        reveal_strlit("=");
        assert(ls.take(1) =~= seq![STATE_HEADER@]);
    }
    state.append("\n");
    let mut i: usize = 0;
    while i < PARAMETER_COUNT
        invariant
            value_texts.len() == PARAMETER_COUNT,
            texts == string_views(value_texts@),
            ls == state_doc_lines(texts),
            defs@ == spec_parameter_defs(),
            0 <= i <= PARAMETER_COUNT,
            state@ == join_lines(ls.take(i + 1)) + seq!['\n'],
            "\n"@ == seq!['\n'],
            "="@ == seq!['='],
        decreases PARAMETER_COUNT - i,
    {
        state.append(defs[i].id);
        state.append("=");
        state.append(value_texts[i].as_str());
        state.append("\n");
        proof {
            assert(ls[i + 1] == state_entry_line(i as int, texts[i as int]));
            lemma_join_push(ls.take(i + 1), ls[i + 1]);
            assert(ls.take(i + 1).push(ls[i + 1]) =~= ls.take(i + 2));
            assert(state@ =~= join_lines(ls.take(i + 2)) + seq!['\n']);
        }
        i += 1;
    }
    assert(ls.take(PARAMETER_COUNT + 1) =~= ls);
    state
}

/// The lines that a state document written from `texts` reads as.
pub open spec fn encoded_line_views(texts: Seq<Seq<char>>) -> Seq<LineView> {
    seq![LineView::Header] + Seq::new(
        PARAMETER_COUNT as nat,
        |i: int| LineView::Assignment { id: parameter_id(i), value: texts[i] },
    )
}

/// The values after the first `k` parameters took `written` over `start`.
pub open spec fn partly_written<T>(start: Seq<T>, written: Seq<T>, k: int) -> Seq<T> {
    Seq::new(PARAMETER_COUNT as nat, |i: int| if i < k { written[i] } else { start[i] })
}

proof fn lemma_decode_assignments<T>(
    texts: Seq<Seq<char>>,
    written: Seq<T>,
    start: Seq<T>,
    k: int,
)
    requires
        texts.len() == PARAMETER_COUNT,
        written.len() == PARAMETER_COUNT,
        start.len() == PARAMETER_COUNT,
        0 <= k <= PARAMETER_COUNT,
    ensures
        spec_decode(
            encoded_line_views(texts).skip(k + 1),
            (seq![None] + written.map_values(|v: T| Some(v))).skip(k + 1),
            partly_written(start, written, k),
            true,
        ) == Ok::<Seq<T>, StateError>(written),
    decreases PARAMETER_COUNT - k,
{
    let lines = encoded_line_views(texts).skip(k + 1);
    let vals = (seq![None] + written.map_values(|v: T| Some(v))).skip(k + 1);
    if k == PARAMETER_COUNT {
        assert(lines.len() == 0);
        assert(partly_written(start, written, k) =~= written);
    } else {
        lemma_decode_assignments(texts, written, start, k + 1);
        lemma_parameter_index_of_id(k);
        assert(lines[0] == LineView::Assignment { id: parameter_id(k), value: texts[k] });
        assert(vals[0] == Some(written[k]));
        assert(partly_written(start, written, k).update(k, written[k]) =~= partly_written(start, written, k + 1));
        assert(lines.drop_first() =~= encoded_line_views(texts).skip(k + 2));
        assert(vals.drop_first() =~= (seq![None] + written.map_values(|v: T| Some(v))).skip(k + 2));
    }
}

/// What a state document records is read back: a document written from the
/// value texts `texts` (single lines) reads as the header followed by one
/// assignment per parameter with its text, and when each text reads back as
/// the value it was written from, decoding restores exactly those values,
/// whatever the values decoding started from.
pub proof fn lemma_state_round_trip<T>(texts: Seq<Seq<char>>, written: Seq<T>, start: Seq<T>)
    requires
        texts.len() == PARAMETER_COUNT,
        forall|i: int| 0 <= i < PARAMETER_COUNT ==> plain_line(#[trigger] texts[i]),
        written.len() == PARAMETER_COUNT,
        start.len() == PARAMETER_COUNT,
    ensures
        spec_state_lines(spec_encode_state(texts)) == encoded_line_views(texts),
        spec_decode(
            spec_state_lines(spec_encode_state(texts)),
            seq![None] + written.map_values(|v: T| Some(v)),
            start,
            false,
        ) == Ok::<Seq<T>, StateError>(written),
{
    let ls = state_doc_lines(texts);
    reveal_strlit("frostverb-state-v1");
    lemma_parameter_ids_plain();
    assert(STATE_HEADER@ == "frostverb-state-v1"@);
    assert(plain_line(STATE_HEADER@));
    assert forall|k: int| 0 <= k < ls.len() implies plain_line(#[trigger] ls[k]) by {
        if k > 0 {
            let l = ls[k];
            assert(l == state_entry_line(k - 1, texts[k - 1]));
            assert forall|j: int| 0 <= j < l.len() implies l[j] != '\n' && l[j] != '\r' by {
                let id = parameter_id(k - 1);
                if j < id.len() {
                    assert(l[j] == id[j]);
                } else if j > id.len() {
                    assert(l[j] == texts[k - 1][j - id.len() - 1]);
                }
            }
        }
    }
    lemma_lines_of_terminated(ls);
    let views = spec_state_lines(spec_encode_state(texts));
    assert forall|k: int| 0 <= k < views.len() implies views[k] == encoded_line_views(texts)[k] by {
        if k > 0 {
            let i = k - 1;
            let id = parameter_id(i);
            let l = ls[k];
            assert(l == id + seq!['='] + texts[i]);
            assert(l[id.len() as int] == '=');
            assert(l != STATE_HEADER@) by {
                if l == STATE_HEADER@ {
                    assert(STATE_HEADER@[id.len() as int] == '=');
                }
            }
            assert(l[0] == id[0]);
            assert(!is_blank(l));
            assert forall|j: int| 0 <= j < id.len() implies l[j] != '=' by {
                assert(l[j] == id[j]);
            }
            lemma_first_pos(l, '=', id.len() as int);
            assert(l.take(id.len() as int) =~= id);
            assert(l.skip(id.len() + 1 as int) =~= texts[i]);
        }
    }
    assert(views =~= encoded_line_views(texts));
    lemma_decode_assignments(texts, written, start, 0);
    let vals = seq![None] + written.map_values(|v: T| Some(v));
    assert(views[0] == LineView::Header);
    assert(vals[0] == Option::<T>::None);
    assert(views.drop_first() =~= views.skip(1));
    assert(vals.drop_first() =~= vals.skip(1));
    assert(partly_written(start, written, 0) =~= start);
}

/// The number of blocks of `block_size` frames that cover `total` frames, the
/// last one possibly short.
pub open spec fn spec_block_count(total: nat, block_size: nat) -> nat {
    if total % block_size == 0 {
        total / block_size
    } else {
        total / block_size + 1
    }
}

/// How many blocks a host run of `total` frames takes.
pub fn block_count(total: usize, block_size: usize) -> (n: usize)
    requires
        block_size > 0,
    ensures
        n == spec_block_count(total as nat, block_size as nat),
{
    if total % block_size == 0 {
        total / block_size
    } else {
        assert(total / block_size + 1 <= total) by (nonlinear_arith)
            requires
                total % block_size != 0,
                block_size > 0,
        {
            if block_size == 1 {
                assert(total % block_size == 0);
            }
            assert(total / block_size <= total / 2);
            assert(total >= 1);
        }
        total / block_size + 1
    }
}

/// The length of the next block once `done` of `total` frames are processed.
pub fn block_frames(total: usize, done: usize, block_size: usize) -> (n: usize)
    requires
        done <= total,
    ensures
        n == if block_size < total - done {
            block_size
        } else {
            (total - done) as usize
        },
{
    let left = total - done;
    if block_size < left {
        block_size
    } else {
        left
    }
}

/// The frames processed after `k` blocks, each as long as `block_frames`
/// makes it.
pub open spec fn frames_after(total: nat, block_size: nat, k: nat) -> nat
    decreases k,
{
    if k == 0 {
        0
    } else {
        let done = frames_after(total, block_size, (k - 1) as nat);
        let left = (total - done) as nat;
        done + if block_size < left {
            block_size
        } else {
            left
        }
    }
}

/// Blocks cover a run exactly: after `k` blocks, `min(k * block_size, total)`
/// frames are processed, every block before the last of `block_count` is full,
/// and `block_count` blocks end exactly at `total`.
pub proof fn lemma_blocks_cover(total: nat, block_size: nat, k: nat)
    requires
        block_size > 0,
    ensures
        frames_after(total, block_size, k) == if k * block_size < total {
            k * block_size
        } else {
            total
        },
        frames_after(total, block_size, spec_block_count(total, block_size)) == total,
        k < spec_block_count(total, block_size) ==> frames_after(total, block_size, k) < total,
    decreases k,
{
    if k > 0 {
        let km = (k - 1) as nat;
        lemma_blocks_cover(total, block_size, km);
        assert(k * block_size == km * block_size + block_size) by (nonlinear_arith)
            requires
                km == k - 1,
        ;
    }
    let c = spec_block_count(total, block_size);
    assert(c * block_size >= total) by (nonlinear_arith)
        requires
            block_size > 0,
            c == if total % block_size == 0 {
                total / block_size
            } else {
                total / block_size + 1
            },
    {
        assert(total == (total / block_size) * block_size + total % block_size);
    }
    assert(k < c ==> k * block_size < total) by (nonlinear_arith)
        requires
            block_size > 0,
            c == if total % block_size == 0 {
                total / block_size
            } else {
                total / block_size + 1
            },
    {
        assert(total == (total / block_size) * block_size + total % block_size);
        if k < c {
            assert(k <= c - 1);
            assert(k * block_size <= (c - 1) * block_size);
        }
    }
    if c > 0 {
        lemma_frames_after_capped(total, block_size, c);
    }
}

proof fn lemma_frames_after_capped(total: nat, block_size: nat, c: nat)
    requires
        block_size > 0,
        c * block_size >= total,
    ensures
        frames_after(total, block_size, c) == total,
    decreases c,
{
    if c > 0 {
        let cm = (c - 1) as nat;
        assert(c * block_size == cm * block_size + block_size) by (nonlinear_arith)
            requires
                cm == c - 1,
        ;
        if cm * block_size >= total {
            lemma_frames_after_capped(total, block_size, cm);
            assert(frames_after(total, block_size, cm) == total);
        } else {
            lemma_frames_after_below(total, block_size, cm);
            assert(frames_after(total, block_size, cm) == cm * block_size);
        }
        let d = frames_after(total, block_size, cm);
        assert(d <= total);
        assert((total - d) as nat <= block_size);
        assert(frames_after(total, block_size, c) == d + (total - d) as nat);
    } else {
        assert(0 * block_size == 0);
    }
}

proof fn lemma_frames_after_below(total: nat, block_size: nat, k: nat)
    requires
        block_size > 0,
        k * block_size <= total,
    ensures
        frames_after(total, block_size, k) == k * block_size,
    decreases k,
{
    if k > 0 {
        let km = (k - 1) as nat;
        assert(k * block_size == km * block_size + block_size) by (nonlinear_arith)
            requires
                km == k - 1,
        ;
        lemma_frames_after_below(total, block_size, km);
        let d = frames_after(total, block_size, km);
        assert(d == km * block_size);
        assert((total - d) as nat >= block_size);
        assert(frames_after(total, block_size, k) == d + block_size);
    } else {
        assert(0 * block_size == 0);
    }
}

} // verus!

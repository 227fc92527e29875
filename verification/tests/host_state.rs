use frostverb::host::{
    block_count, block_frames, classify_line, decode_state, encode_state, state_lines, ParameterBank, StateError, StateLine,
    STATE_HEADER,
};
use frostverb::params::{parameter_by_id, parameter_defs, parameter_index, PARAMETER_COUNT};

fn bank() -> ParameterBank<u32> {
    ParameterBank::new([0, 1, 2, 3, 4, 5, 6, 7, 8, 9, 10, 11])
}

#[test]
fn parameter_index_finds_every_id() {
    for (index, def) in parameter_defs().iter().enumerate() {
        assert_eq!(parameter_index(def.id), Some(index));
        assert_eq!(parameter_by_id(def.id), Some(*def));
    }
    assert_eq!(parameter_index("Coldness"), None);
    assert_eq!(parameter_index("coldness "), None);
    assert_eq!(parameter_index(""), None);
    assert_eq!(parameter_by_id("missing"), None);
}

#[test]
fn bank_reads_back_what_was_written() {
    let mut b = bank();
    assert_eq!(b.get("storm"), Some(5));
    assert_eq!(b.set("storm", 50), Ok(()));
    assert_eq!(b.get("storm"), Some(50));
    assert_eq!(b.get("wind"), Some(1));
    assert_eq!(b.set("missing", 99), Err(StateError::UnknownParameter));
    assert_eq!(b.values(), [0, 1, 2, 3, 4, 50, 6, 7, 8, 9, 10, 11]);
    assert_eq!(b.get("missing"), None);
    assert_eq!(b.values().len(), PARAMETER_COUNT);
}

#[test]
fn lines_are_classified() {
    assert_eq!(classify_line(STATE_HEADER), StateLine::Header);
    assert_eq!(classify_line(""), StateLine::Blank);
    assert_eq!(classify_line(" \t\u{3000}"), StateLine::Blank);
    assert_eq!(classify_line("no equals"), StateLine::Malformed);
    assert_eq!(
        classify_line("mix=0.5=1"),
        StateLine::Assignment { id: "mix", value: "0.5=1" }
    );
    assert_eq!(
        classify_line(" mix = 2"),
        StateLine::Assignment { id: " mix ", value: " 2" }
    );
    assert_eq!(classify_line("=1"), StateLine::Assignment { id: "", value: "1" });
    assert_eq!(classify_line("frostverb-state-v1 "), StateLine::Malformed);
}

#[test]
fn encode_writes_header_and_one_line_per_parameter() {
    let texts: Vec<String> = (0..PARAMETER_COUNT).map(|i| format!("v{i}")).collect();
    let state = encode_state(&texts);
    let mut expected = String::from("frostverb-state-v1\n");
    for (i, def) in parameter_defs().iter().enumerate() {
        expected.push_str(&format!("{}=v{}\n", def.id, i));
    }
    assert_eq!(state, expected);
}

#[test]
fn encoded_state_decodes_to_the_written_values() {
    let written: [u32; PARAMETER_COUNT] = [12, 11, 10, 9, 8, 7, 6, 5, 4, 3, 2, 1];
    let texts: Vec<String> = written.iter().map(|v| v.to_string()).collect();
    let state = encode_state(&texts);
    let lines = state_lines(&state);
    assert_eq!(lines.len(), PARAMETER_COUNT + 1);
    let values: Vec<Option<u32>> = lines
        .iter()
        .map(|line| match line {
            StateLine::Assignment { value, .. } => value.parse().ok(),
            _ => None,
        })
        .collect();
    let decoded = decode_state(&lines, &values, bank()).unwrap();
    assert_eq!(decoded.values(), written);
}

fn decode_u32(input: &str) -> Result<[u32; PARAMETER_COUNT], StateError> {
    let lines = state_lines(input);
    let values: Vec<Option<u32>> = lines
        .iter()
        .map(|line| match line {
            StateLine::Assignment { value, .. } => value.parse().ok(),
            _ => None,
        })
        .collect();
    decode_state(&lines, &values, bank()).map(|b| b.values())
}

#[test]
fn decode_applies_assignments_in_order() {
    assert_eq!(
        decode_u32("mix=40\n\n  \nfrostverb-state-v1\nmix=41\r\nwind=7"),
        Ok([0, 7, 2, 3, 4, 5, 6, 7, 8, 41, 10, 11])
    );
    assert_eq!(decode_u32("frostverb-state-v1"), Ok([0, 1, 2, 3, 4, 5, 6, 7, 8, 9, 10, 11]));
}

#[test]
fn decode_reports_the_first_failing_line() {
    assert_eq!(decode_u32(""), Err(StateError::MalformedState));
    assert_eq!(decode_u32("mix=1\n"), Err(StateError::MalformedState));
    assert_eq!(
        decode_u32("frostverb-state-v1\nbogus=1\nmix=x\n"),
        Err(StateError::UnknownParameter)
    );
    assert_eq!(
        decode_u32("frostverb-state-v1\nmix=x\nbogus=1\n"),
        Err(StateError::MalformedState)
    );
    assert_eq!(
        decode_u32("frostverb-state-v1\nmix\n"),
        Err(StateError::MalformedState)
    );
    assert_eq!(decode_u32("bogus=1\n"), Err(StateError::UnknownParameter));
}

#[test]
fn blocks_cover_a_run_exactly() {
    use_blocks(480_000, 64);
    use_blocks(100, 64);
    use_blocks(128, 64);
    use_blocks(0, 64);
    use_blocks(7, 1);
}

fn use_blocks(total: usize, block: usize) {
    let mut done = 0;
    let mut blocks = 0;
    while done < total {
        let n = block_frames(total, done, block);
        assert!(n > 0 && n <= block);
        done += n;
        blocks += 1;
    }
    assert_eq!(done, total);
    assert_eq!(blocks, block_count(total, block));
    assert_eq!(block_count(total, block), total.div_ceil(block));
}

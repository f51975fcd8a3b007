use generalization::corpus::FuzzState;
use generalization::executors::{Executor, NeedleExecutor};
use generalization::generalization::{
    find_next_char, increment_by_offset, GeneralizationStage, Nominator,
};
use generalization::inputs::GeneralizedInput;
use generalization::payload::materialize_payload;

fn slots(bytes: &[u8]) -> Vec<Option<u8>> {
    bytes.iter().map(|&b| Some(b)).collect()
}

#[test]
fn stride_index_function() {
    let list = slots(b"abcd");
    assert_eq!(increment_by_offset(&list, 0, 255), 256);
    assert_eq!(increment_by_offset(&list, 3, 0), 4);
    assert_eq!(increment_by_offset(&list, 5, 31), 37);
}

#[test]
fn delimiter_scan_includes_the_delimiter() {
    let list = slots(b"a.b");
    assert_eq!(find_next_char(&list, 0, 46), 2);
    assert_eq!(find_next_char(&list, 2, 46), 3);
    let no_dot = slots(b"abc");
    assert_eq!(find_next_char(&no_dot, 0, 46), 3);
}

#[test]
fn delimiter_scan_skips_gapped_slots() {
    let mut list = slots(b"a.b");
    list[1] = None;
    assert_eq!(find_next_char(&list, 0, 46), 3);
}

#[test]
fn trim_collapses_gap_runs() {
    let mut p = vec![None, None, Some(1u8), None, None, None, Some(2u8)];
    GeneralizationStage::trim_payload(&mut p);
    assert_eq!(p, vec![None, Some(1), None, Some(2)]);

    let mut all_gaps: Vec<Option<u8>> = vec![None; 5];
    GeneralizationStage::trim_payload(&mut all_gaps);
    assert_eq!(all_gaps, vec![None]);

    let mut empty: Vec<Option<u8>> = vec![];
    GeneralizationStage::trim_payload(&mut empty);
    assert_eq!(empty, vec![]);

    let mut intact = vec![Some(1u8), Some(2u8)];
    GeneralizationStage::trim_payload(&mut intact);
    assert_eq!(intact, vec![Some(1), Some(2)]);
}

#[test]
fn trim_preserves_materialization() {
    let mut p = vec![None, Some(10u8), None, None, Some(20u8), None];
    let before = materialize_payload(&p);
    GeneralizationStage::trim_payload(&mut p);
    assert_eq!(materialize_payload(&p), before);
}

#[test]
fn split_phase_deletes_token_by_token() {
    let mut executor: NeedleExecutor<65> = NeedleExecutor::new("map".to_string());
    let mut state = FuzzState::new();
    let stage = GeneralizationStage::from_name("map");
    let mut payload = slots(b"a.b.c.A");
    let novelties = vec![0usize];
    stage
        .find_gaps(&mut executor, &mut state, &mut payload, &novelties, Nominator::Split, 46)
        .unwrap();
    assert_eq!(payload, vec![None, Some(65)]);
    assert_eq!(materialize_payload(&payload), b"A".to_vec());
}

#[test]
fn bracket_phase_removes_opener_and_interior() {
    // The candidate excludes the opener and the interior but keeps the
    // closing bracket itself.
    let mut executor: NeedleExecutor<65> = NeedleExecutor::new("map".to_string());
    let mut state = FuzzState::new();
    let stage = GeneralizationStage::from_name("map");
    let mut payload = slots(b"(hello)A");
    let novelties = vec![0usize];
    stage
        .find_gaps_in_closures(&mut executor, &mut state, &mut payload, &novelties, 40, 41)
        .unwrap();
    assert_eq!(payload, vec![None, Some(41), Some(65)]);
    assert_eq!(materialize_payload(&payload), b")A".to_vec());
}

#[test]
fn stride_phase_whole_deletion_rejected() {
    let mut executor: NeedleExecutor<65> = NeedleExecutor::new("map".to_string());
    let mut state = FuzzState::new();
    let stage = GeneralizationStage::from_name("map");
    let mut payload = slots(b"xAx");
    let novelties = vec![0usize];
    stage
        .find_gaps(&mut executor, &mut state, &mut payload, &novelties, Nominator::Stride, 255)
        .unwrap();
    // Deleting the whole input would lose the needle, so nothing changes.
    assert_eq!(payload, slots(b"xAx"));
    assert_eq!(state.executions, 1);
}

#[test]
fn verify_input_counts_one_execution_per_probe() {
    let mut executor: NeedleExecutor<65> = NeedleExecutor::new("map".to_string());
    let mut state = FuzzState::new();
    let stage = GeneralizationStage::from_name("map");
    let novelties = vec![0usize];
    let hit = stage
        .verify_input(&mut executor, &mut state, &novelties, GeneralizedInput::new(b"xA".to_vec()))
        .unwrap();
    assert!(hit);
    assert_eq!(state.executions, 1);
    let miss = stage
        .verify_input(&mut executor, &mut state, &novelties, GeneralizedInput::new(b"xx".to_vec()))
        .unwrap();
    assert!(!miss);
    assert_eq!(state.executions, 2);
}

#[test]
fn observer_names_must_match() {
    let mut executor: NeedleExecutor<65> = NeedleExecutor::new("edges".to_string());
    let candidate = GeneralizedInput::new(b"A".to_vec());
    executor.run_target(&candidate).unwrap();
    let novelties = vec![0usize];
    assert_eq!(executor.how_many_set(&"edges".to_string(), &novelties), Some(1));
    assert_eq!(executor.how_many_set(&"other".to_string(), &novelties), None);
}

#[test]
fn constructor_takes_the_observer_name() {
    let executor: NeedleExecutor<65> = NeedleExecutor::new("edges".to_string());
    let by_observer = GeneralizationStage::new(&executor);
    assert_eq!(by_observer.map_observer_name, "edges".to_string());
    let by_name = GeneralizationStage::from_name("edges");
    assert_eq!(by_name.map_observer_name, "edges".to_string());
}

#[test]
fn generalized_input_accessors() {
    let mut input = GeneralizedInput::new(b"ab".to_vec());
    assert_eq!(input.bytes(), &b"ab".to_vec());
    assert!(input.generalized().is_none());
    input.generalized_from_options(&vec![Some(97u8), None]);
    assert_eq!(input.generalized().unwrap(), &vec![Some(97), None]);
    let copy = input.clone();
    assert_eq!(copy.bytes, input.bytes);
    assert_eq!(copy.generalized, input.generalized);
}

#[test]
fn quote_pairs_use_the_same_byte_for_both_ends() {
    let mut executor: NeedleExecutor<65> = NeedleExecutor::new("map".to_string());
    let mut state = FuzzState::new();
    let stage = GeneralizationStage::from_name("map");
    let mut payload = slots(b"'abc'A");
    let novelties = vec![0usize];
    stage
        .find_gaps_in_closures(&mut executor, &mut state, &mut payload, &novelties, 39, 39)
        .unwrap();
    assert_eq!(payload, vec![None, Some(39), Some(65)]);
    assert_eq!(materialize_payload(&payload), b"'A".to_vec());
}

use generalization::corpus::{FuzzState, Testcase};
use generalization::executors::{Executor, MinLenExecutor, NeedleExecutor};
use generalization::generalization::GeneralizationStage;
use generalization::inputs::GeneralizedInput;
use generalization::payload::materialize_payload;

fn state_with_entry(bytes: &[u8], novelties: Option<Vec<usize>>) -> FuzzState {
    let mut state = FuzzState::new();
    state.corpus.push(Testcase {
        input: Some(GeneralizedInput::new(bytes.to_vec())),
        novelties,
    });
    state
}

fn stored_payload(state: &FuzzState, idx: usize) -> Option<Vec<Option<u8>>> {
    state.corpus[idx]
        .input
        .as_ref()
        .unwrap()
        .generalized
        .clone()
}

#[test]
fn aaaa_shrinks_to_one_a() {
    let mut executor: NeedleExecutor<65> = NeedleExecutor::new("map".to_string());
    let mut state = state_with_entry(b"AAAA", Some(vec![0]));
    let stage = GeneralizationStage::from_name("map");
    let r = stage.perform(&mut executor, &mut state, 0);
    assert!(r.is_ok());
    let p = stored_payload(&state, 0).expect("a generalization should be stored");
    assert_eq!(p, vec![None, Some(65)]);
    assert_eq!(materialize_payload(&p), b"A".to_vec());
    assert_eq!(state.corpus[0].input.as_ref().unwrap().bytes, b"AAAA".to_vec());
    assert_eq!(state.executions, 16);
    assert_eq!(executor.runs, 16);
}

#[test]
fn x_a_x_keeps_only_the_needle() {
    let mut executor: NeedleExecutor<65> = NeedleExecutor::new("map".to_string());
    let mut state = state_with_entry(b"xAx", Some(vec![0]));
    let stage = GeneralizationStage::from_name("map");
    let r = stage.perform(&mut executor, &mut state, 0);
    assert!(r.is_ok());
    let p = stored_payload(&state, 0).expect("a generalization should be stored");
    assert_eq!(p, vec![None, Some(65), None]);
    assert_eq!(materialize_payload(&p), b"A".to_vec());
    // One execution per witness probe, and no other executions.
    assert_eq!(state.executions, 15);
    assert_eq!(executor.runs, 15);
}

#[test]
fn stored_materialization_still_covers_the_novelties() {
    let mut executor: NeedleExecutor<65> = NeedleExecutor::new("map".to_string());
    let mut state = state_with_entry(b"xAx", Some(vec![0]));
    let stage = GeneralizationStage::from_name("map");
    stage.perform(&mut executor, &mut state, 0).unwrap();
    let p = stored_payload(&state, 0).unwrap();
    let concrete = materialize_payload(&p);
    assert!(concrete.len() <= 3);
    let candidate = GeneralizedInput::new(concrete);
    executor.run_target(&candidate).unwrap();
    let novelties = vec![0usize];
    let cnt = executor.how_many_set(&"map".to_string(), &novelties).unwrap();
    assert_eq!(cnt, novelties.len());
}

#[test]
fn dotted_input_reduces_to_needle() {
    let mut executor: NeedleExecutor<65> = NeedleExecutor::new("map".to_string());
    let mut state = state_with_entry(b"a.b.c.A", Some(vec![0]));
    let stage = GeneralizationStage::from_name("map");
    let r = stage.perform(&mut executor, &mut state, 0);
    assert!(r.is_ok());
    let p = stored_payload(&state, 0).expect("a generalization should be stored");
    assert_eq!(materialize_payload(&p), b"A".to_vec());
}

#[test]
fn unstable_baseline_returns_success_without_storing() {
    // The target wants a byte the input does not hold, so the baseline
    // probe misses the novelty set.
    let mut executor: NeedleExecutor<66> = NeedleExecutor::new("map".to_string());
    let mut state = state_with_entry(b"AAAA", Some(vec![0]));
    let stage = GeneralizationStage::from_name("map");
    let r = stage.perform(&mut executor, &mut state, 0);
    assert!(r.is_ok());
    assert!(stored_payload(&state, 0).is_none());
    assert_eq!(state.corpus[0].input.as_ref().unwrap().bytes, b"AAAA".to_vec());
    // Only the baseline probe ran.
    assert_eq!(state.executions, 1);
    assert_eq!(executor.runs, 1);
}

#[test]
fn already_generalized_entry_is_left_alone() {
    let mut executor: NeedleExecutor<65> = NeedleExecutor::new("map".to_string());
    let mut state = FuzzState::new();
    let mut input = GeneralizedInput::new(b"AAAA".to_vec());
    input.generalized = Some(vec![Some(65), None]);
    state.corpus.push(Testcase { input: Some(input), novelties: Some(vec![0]) });
    let stage = GeneralizationStage::from_name("map");
    let r = stage.perform(&mut executor, &mut state, 0);
    assert!(r.is_ok());
    assert_eq!(stored_payload(&state, 0), Some(vec![Some(65), None]));
    // The executor is never invoked and the execution counter is unchanged.
    assert_eq!(state.executions, 0);
    assert_eq!(executor.runs, 0);
}

#[test]
fn second_invocation_is_a_no_op() {
    let mut executor: NeedleExecutor<65> = NeedleExecutor::new("map".to_string());
    let mut state = state_with_entry(b"AAAA", Some(vec![0]));
    let stage = GeneralizationStage::from_name("map");
    stage.perform(&mut executor, &mut state, 0).unwrap();
    let stored_before = stored_payload(&state, 0);
    let executions_before = state.executions;
    let r = stage.perform(&mut executor, &mut state, 0);
    assert!(r.is_ok());
    assert_eq!(stored_payload(&state, 0), stored_before);
    assert_eq!(state.executions, executions_before);
}

#[test]
fn oversized_payload_is_not_stored() {
    // The target needs every byte, so nothing can be deleted and the final
    // payload keeps all 8193 slots, one over the ceiling.
    let mut executor: MinLenExecutor<8193> = MinLenExecutor::new("map".to_string());
    let mut state = state_with_entry(&vec![65u8; 8193], Some(vec![0]));
    let stage = GeneralizationStage::from_name("map");
    let r = stage.perform(&mut executor, &mut state, 0);
    assert!(r.is_ok());
    assert!(stored_payload(&state, 0).is_none());
    assert_eq!(state.corpus[0].input.as_ref().unwrap().bytes.len(), 8193);
    assert_eq!(state.executions, executor.runs);
}

#[test]
fn shrinkage_is_monotone() {
    for input in [&b"AAAA"[..], b"xAx", b"a.b.c.A", b"(hello)A", b"{[<A>]}"] {
        let mut executor: NeedleExecutor<65> = NeedleExecutor::new("map".to_string());
        let mut state = state_with_entry(input, Some(vec![0]));
        let stage = GeneralizationStage::from_name("map");
        stage.perform(&mut executor, &mut state, 0).unwrap();
        if let Some(p) = stored_payload(&state, 0) {
            let concrete = materialize_payload(&p);
            assert!(concrete.len() <= input.len());
            assert!(concrete.contains(&65));
            // Post-trim compactness: no two adjacent gaps.
            for w in p.windows(2) {
                assert!(!(w[0].is_none() && w[1].is_none()));
            }
        } else {
            panic!("a generalization should be stored for {:?}", input);
        }
    }
}

#[test]
fn several_novelty_indices_are_all_preserved() {
    let mut executor: NeedleExecutor<65> = NeedleExecutor::new("map".to_string());
    let mut state = state_with_entry(b"xAx", Some(vec![0, 3, 17]));
    let stage = GeneralizationStage::from_name("map");
    let r = stage.perform(&mut executor, &mut state, 0);
    assert!(r.is_ok());
    let p = stored_payload(&state, 0).expect("a generalization should be stored");
    assert_eq!(materialize_payload(&p), b"A".to_vec());
}

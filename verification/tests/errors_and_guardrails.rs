use generalization::corpus::{FuzzState, Testcase};
use generalization::errors::Error;
use generalization::executors::NeedleExecutor;
use generalization::generalization::GeneralizationStage;
use generalization::inputs::GeneralizedInput;

#[test]
fn missing_corpus_entry_is_reported_with_its_index() {
    let mut executor: NeedleExecutor<65> = NeedleExecutor::new("map".to_string());
    let mut state = FuzzState::new();
    let stage = GeneralizationStage::from_name("map");
    let r = stage.perform(&mut executor, &mut state, 3);
    assert_eq!(r, Err(Error::KeyNotFound(3)));
    assert_eq!(state.executions, 0);
}

#[test]
fn entry_without_input_is_reported_as_missing() {
    let mut executor: NeedleExecutor<65> = NeedleExecutor::new("map".to_string());
    let mut state = FuzzState::new();
    state.corpus.push(Testcase { input: None, novelties: Some(vec![0]) });
    let stage = GeneralizationStage::from_name("map");
    let r = stage.perform(&mut executor, &mut state, 0);
    assert_eq!(r, Err(Error::KeyNotFound(0)));
}

#[test]
fn missing_novelty_metadata_is_fatal() {
    let mut executor: NeedleExecutor<65> = NeedleExecutor::new("map".to_string());
    let mut state = FuzzState::new();
    state.corpus.push(Testcase {
        input: Some(GeneralizedInput::new(b"AAAA".to_vec())),
        novelties: None,
    });
    let stage = GeneralizationStage::from_name("map");
    let r = stage.perform(&mut executor, &mut state, 0);
    assert_eq!(r, Err(Error::MetadataNotFound(0)));
    assert_eq!(state.executions, 0);
    assert_eq!(executor.runs, 0);
}

#[test]
fn missing_observer_aborts_the_stage() {
    let mut executor: NeedleExecutor<65> = NeedleExecutor::new("map".to_string());
    let mut state = FuzzState::new();
    state.corpus.push(Testcase {
        input: Some(GeneralizedInput::new(b"AAAA".to_vec())),
        novelties: Some(vec![0]),
    });
    let stage = GeneralizationStage::from_name("another-observer");
    let r = stage.perform(&mut executor, &mut state, 0);
    assert_eq!(r, Err(Error::ObserverNotFound));
    // The baseline probe ran, but nothing was stored.
    assert!(state.corpus[0].input.as_ref().unwrap().generalized.is_none());
}

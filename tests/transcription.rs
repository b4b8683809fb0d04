use buddy::transcription::{
    extract_text, model_load_error, transcribe_with, RecognitionResult, TranscriptionError,
};

#[test]
fn empty_audio_gives_empty_text_without_recognizing() {
    let r = transcribe_with(&[], || -> Option<RecognitionResult> {
        panic!("no recognizer for an empty buffer")
    });
    assert_eq!(r.ok().unwrap(), "");
}

#[test]
fn single_hypothesis_text_is_kept() {
    let r = transcribe_with(&[1, 2, 3], || Some(RecognitionResult::Single("open editor".to_string())));
    assert_eq!(r.ok().unwrap(), "open editor");
}

#[test]
fn first_of_several_hypotheses_is_kept() {
    let alts = vec!["open editor".to_string(), "open auditor".to_string()];
    let r = transcribe_with(&[7], || Some(RecognitionResult::Multiple(alts)));
    assert_eq!(r.ok().unwrap(), "open editor");
}

#[test]
fn no_hypotheses_give_empty_text() {
    let r = transcribe_with(&[7], || Some(RecognitionResult::Multiple(vec![])));
    assert_eq!(r.ok().unwrap(), "");
}

#[test]
fn missing_recognizer_is_an_error() {
    match transcribe_with(&[7], || None) {
        Err(TranscriptionError::Recognizer(m)) => assert_eq!(m, "failed to create recognizer"),
        other => panic!("unexpected {:?}", other),
    }
}

#[test]
fn same_outcome_gives_same_text() {
    let audio = [5i16, -5, 5];
    let first = transcribe_with(&audio, || Some(RecognitionResult::Single("stop".to_string())));
    let second = transcribe_with(&audio, || Some(RecognitionResult::Single("stop".to_string())));
    assert_eq!(first.ok().unwrap(), second.ok().unwrap());
}

#[test]
fn extract_text_cases() {
    assert_eq!(extract_text(RecognitionResult::Single("hi".to_string())), "hi");
    assert_eq!(extract_text(RecognitionResult::Multiple(vec!["a".to_string(), "b".to_string()])), "a");
    assert_eq!(extract_text(RecognitionResult::Multiple(vec![])), "");
}

#[test]
fn transcription_error_messages() {
    let e = model_load_error("/models/en");
    match &e {
        TranscriptionError::Model(m) => assert_eq!(m, "unable to load model at /models/en"),
        other => panic!("unexpected {:?}", other),
    }
    assert_eq!(e.message(), "failed loading Vosk model: unable to load model at /models/en");
    let r = TranscriptionError::Recognizer("x".to_string());
    assert_eq!(r.message(), "transcription error: x");
}

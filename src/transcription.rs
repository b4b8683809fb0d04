use vstd::prelude::*;
use vstd::string::*;

verus! {

/// What a recognizer reports once the whole buffer has been fed to it, with
/// the text of each hypothesis.
#[derive(Clone, Debug)]
pub enum RecognitionResult {
    /// One hypothesis.
    Single(String),
    /// Several hypotheses, the most likely first.
    Multiple(Vec<String>),
}

/// Why a transcriber could not be built or could not transcribe.
#[derive(Clone, Debug)]
pub enum TranscriptionError {
    /// The speech model could not be loaded.
    Model(String),
    /// A recognizer could not be created for one call.
    Recognizer(String),
}

/// The text kept of a recognition result: the single hypothesis, or the
/// first of several, or nothing when there are none.
pub open spec fn text_of(result: RecognitionResult) -> Seq<char> {
    match result {
        RecognitionResult::Single(t) => t@,
        RecognitionResult::Multiple(alts) => if alts@.len() > 0 {
            alts@[0]@
        } else {
            Seq::empty()
        },
    }
}

/// Extracts the transcript from a recognition result.
pub fn extract_text(result: RecognitionResult) -> (r: String)
    ensures
        r@ == text_of(result),
{
    match result {
        RecognitionResult::Single(t) => t,
        RecognitionResult::Multiple(alts) => {
            if alts.len() > 0 {
                alts[0].clone()
            } else {
                String::new()
            }
        },
    }
}

/// The text of the error for a recognizer that could not be created.
pub open spec fn recognizer_failure() -> Seq<char> {
    "failed to create recognizer"@
}

/// What a transcription returns when recognition gave `outcome`: `None`
/// means that no recognizer could be created.
pub open spec fn transcript_for(outcome: Option<RecognitionResult>, r: Result<
    String,
    TranscriptionError,
>) -> bool {
    match outcome {
        Some(res) => r is Ok && r->Ok_0@ == text_of(res),
        None => r is Err && r->Err_0 is Recognizer && r->Err_0->Recognizer_0@
            == recognizer_failure(),
    }
}

/// Transcribes one buffer of samples. An empty buffer gives the empty text
/// at once; otherwise `recognize` runs a fresh recognizer over the whole
/// buffer and its result is reduced to one text.
pub fn transcribe_with<F: FnOnce() -> Option<RecognitionResult>>(audio: &[i16], recognize: F) -> (r:
    Result<String, TranscriptionError>)
    requires
        audio@.len() > 0 ==> recognize.requires(()),
    ensures
        audio@.len() == 0 ==> r is Ok && r->Ok_0@ == Seq::<char>::empty(),
        audio@.len() > 0 ==> exists|o: Option<RecognitionResult>|
            recognize.ensures((), o) && #[trigger] transcript_for(o, r),
{
    if audio.len() == 0 {
        return Ok(String::new());
    }
    let outcome = recognize();
    let r = match outcome {
        Some(res) => Ok(extract_text(res)),
        None => Err(TranscriptionError::Recognizer(String::from_str("failed to create recognizer"))),
    };
    assert(transcript_for(outcome, r));
    r
}

/// Two transcriptions whose recognition gave the same outcome return the
/// same result: the same text, or the same recognizer error.
pub proof fn transcript_is_determined(
    outcome: Option<RecognitionResult>,
    r1: Result<String, TranscriptionError>,
    r2: Result<String, TranscriptionError>,
)
    requires
        transcript_for(outcome, r1),
        transcript_for(outcome, r2),
    ensures
        r1 is Ok <==> r2 is Ok,
        r1 is Ok ==> r1->Ok_0@ == r2->Ok_0@,
        r1 is Err ==> r1->Err_0 is Recognizer && r2->Err_0 is Recognizer
            && r1->Err_0->Recognizer_0@ == r2->Err_0->Recognizer_0@,
{
}

/// The error for a model that could not be loaded from `model_path`.
pub fn model_load_error(model_path: &str) -> (r: TranscriptionError)
    ensures
        r is Model && r->Model_0@ == "unable to load model at "@ + model_path@,
{
    let m = String::from_str("unable to load model at ");
    TranscriptionError::Model(m.concat(model_path))
}

impl TranscriptionError {
    /// A one-line description of the error, prefixed by what failed.
    pub fn message(&self) -> (r: String)
        ensures
            self is Model ==> r@ == "failed loading Vosk model: "@ + self->Model_0@,
            self is Recognizer ==> r@ == "transcription error: "@ + self->Recognizer_0@,
    {
        match self {
            TranscriptionError::Model(m) => String::from_str("failed loading Vosk model: ").concat(
                m.as_str(),
            ),
            TranscriptionError::Recognizer(m) => String::from_str("transcription error: ").concat(
                m.as_str(),
            ),
        }
    }
}

} // verus!

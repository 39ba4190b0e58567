//! Audio transcription: which service is asked, with which key, and what is
//! made of its reply. The upload itself is the caller's business.

use vstd::prelude::*;
use vstd::string::StringExecFns;
use crate::text::same_text;

verus! {

/// Which way a recording goes to be transcribed.
#[derive(Clone, Copy, Debug, PartialEq, Eq, Structural)]
pub enum TranscriptionRoute {
    /// Straight to the speech-to-text service.
    OpenAi,
    /// The route chosen with the other assistant. It has no speech-to-text of
    /// its own, so the same speech-to-text service is used in the end.
    ViaAssistant,
}

/// Why a recording was not transcribed.
#[derive(Debug, PartialEq, Eq)]
pub enum TranscriptionError {
    /// No key for the speech-to-text service is stored.
    MissingOpenAiKey,
    /// The other assistant was chosen and no key for it is stored.
    MissingAssistantKey,
    /// Neither place that may hold a key for the speech-to-text service had
    /// one.
    NoWhisperKey,
    /// The service answered with an error; the text is its reply.
    Api(String),
}

/// Mathematical value of a `TranscriptionError`.
pub ghost enum TranscriptionErrorModel {
    MissingOpenAiKey,
    MissingAssistantKey,
    NoWhisperKey,
    Api(Seq<char>),
}

impl View for TranscriptionError {
    type V = TranscriptionErrorModel;

    open spec fn view(&self) -> TranscriptionErrorModel {
        match *self {
            TranscriptionError::MissingOpenAiKey => TranscriptionErrorModel::MissingOpenAiKey,
            TranscriptionError::MissingAssistantKey => TranscriptionErrorModel::MissingAssistantKey,
            TranscriptionError::NoWhisperKey => TranscriptionErrorModel::NoWhisperKey,
            TranscriptionError::Api(reply) => TranscriptionErrorModel::Api(reply@),
        }
    }
}

/// What the user is told about an error.
pub open spec fn message_of(error: TranscriptionErrorModel) -> Seq<char> {
    match error {
        TranscriptionErrorModel::MissingOpenAiKey => "OpenAI API key is required for audio transcription"@,
        TranscriptionErrorModel::MissingAssistantKey => "The chosen assistant's API key is not set"@,
        TranscriptionErrorModel::NoWhisperKey => "Audio transcription requires an OpenAI API key. The chosen assistant doesn't support direct audio transcription."@,
        TranscriptionErrorModel::Api(reply) => "OpenAI API error: "@ + reply,
    }
}

impl TranscriptionError {
    /// What the user is told about the error.
    pub fn message(&self) -> (text: String)
        ensures
            text@ == message_of(self@),
    {
        match self {
            TranscriptionError::MissingOpenAiKey => String::from_str(
                "OpenAI API key is required for audio transcription",
            ),
            TranscriptionError::MissingAssistantKey => String::from_str("The chosen assistant's API key is not set"),
            TranscriptionError::NoWhisperKey => String::from_str(
                "Audio transcription requires an OpenAI API key. The chosen assistant doesn't support direct audio transcription.",
            ),
            TranscriptionError::Api(reply) => {
                let mut text = String::from_str("OpenAI API error: ");
                text.append(reply.as_str());
                text
            },
        }
    }
}

/// The route for given settings. The key of the speech-to-text service is
/// needed on every route. With it, the choice `openai` takes the direct
/// route; any other choice takes the other route, which needs that
/// assistant's key as well.
pub open spec fn route_of(
    openai_api_key: Seq<char>,
    api_choice: Seq<char>,
    claude_api_key: Seq<char>,
) -> Result<TranscriptionRoute, TranscriptionErrorModel> {
    if openai_api_key.len() == 0 {
        Err(TranscriptionErrorModel::MissingOpenAiKey)
    } else if api_choice == "openai"@ {
        Ok(TranscriptionRoute::OpenAi)
    } else if claude_api_key.len() == 0 {
        Err(TranscriptionErrorModel::MissingAssistantKey)
    } else {
        Ok(TranscriptionRoute::ViaAssistant)
    }
}

/// Mathematical value of a route or the error in its place.
pub open spec fn route_model(outcome: Result<TranscriptionRoute, TranscriptionError>) -> Result<
    TranscriptionRoute,
    TranscriptionErrorModel,
> {
    match outcome {
        Ok(route) => Ok(route),
        Err(error) => Err(error@),
    }
}

/// Mathematical value of a text or the error in its place.
pub open spec fn text_model(outcome: Result<String, TranscriptionError>) -> Result<
    Seq<char>,
    TranscriptionErrorModel,
> {
    match outcome {
        Ok(text) => Ok(text@),
        Err(error) => Err(error@),
    }
}

/// Picks the route for a recording from the stored settings: the key of the
/// speech-to-text service, the chosen assistant, and the other assistant's
/// key.
pub fn transcribe_audio(openai_api_key: &str, api_choice: &str, claude_api_key: &str) -> (route:
    Result<TranscriptionRoute, TranscriptionError>)
    ensures
        route_model(route) == route_of(openai_api_key@, api_choice@, claude_api_key@),
{
    if openai_api_key.is_empty() {
        Err(TranscriptionError::MissingOpenAiKey)
    } else if same_text(api_choice, "openai") {
        Ok(TranscriptionRoute::OpenAi)
    } else if claude_api_key.is_empty() {
        Err(TranscriptionError::MissingAssistantKey)
    } else {
        Ok(TranscriptionRoute::ViaAssistant)
    }
}

/// The key to use: the first of the two that is there.
pub open spec fn whisper_key_of(primary: Option<Seq<char>>, secondary: Option<Seq<char>>) -> Result<
    Seq<char>,
    TranscriptionErrorModel,
> {
    match primary {
        Some(key) => Ok(key),
        None => match secondary {
            Some(key) => Ok(key),
            None => Err(TranscriptionErrorModel::NoWhisperKey),
        },
    }
}

/// Mathematical value of a key that may be missing.
pub open spec fn key_model(key: Option<String>) -> Option<Seq<char>> {
    match key {
        Some(text) => Some(text@),
        None => None,
    }
}

/// The key of the speech-to-text service on the other assistant's route,
/// which looks in two places: the first key that is there is used, and with
/// neither the transcription cannot go on.
pub fn transcribe_with_claude(primary: Option<String>, secondary: Option<String>) -> (key: Result<
    String,
    TranscriptionError,
>)
    ensures
        text_model(key) == whisper_key_of(key_model(primary), key_model(secondary)),
{
    match primary {
        Some(key) => Ok(key),
        None => match secondary {
            Some(key) => Ok(key),
            None => Err(TranscriptionError::NoWhisperKey),
        },
    }
}

/// The name under which a recording is uploaded: the file's own name, or
/// `audio.wav` when the path has none that is text.
pub fn upload_file_name(file_name: Option<&str>) -> (name: String)
    ensures
        name@ == match file_name {
            Some(own) => own@,
            None => "audio.wav"@,
        },
{
    match file_name {
        Some(own) => String::from_str(own),
        None => String::from_str("audio.wav"),
    }
}

/// What a reply of the speech-to-text service amounts to: its body is the
/// transcription when the status says success, and the error to report when
/// it does not.
pub fn transcribe_with_openai(success: bool, body: String) -> (outcome: Result<
    String,
    TranscriptionError,
>)
    ensures
        text_model(outcome) == if success {
            Ok::<Seq<char>, TranscriptionErrorModel>(body@)
        } else {
            Err::<Seq<char>, TranscriptionErrorModel>(TranscriptionErrorModel::Api(body@))
        },
{
    if success {
        Ok(body)
    } else {
        Err(TranscriptionError::Api(body))
    }
}

} // verus!

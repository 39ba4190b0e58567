//! Audio recording: the state that says whether a recording is running and
//! where it is written. Talking to the sound device is the caller's business.

use vstd::prelude::*;
use vstd::string::StringExecFns;

verus! {

/// Why a recording could not be started or stopped.
#[derive(Clone, Copy, Debug, PartialEq, Eq, Structural)]
pub enum RecordingError {
    AlreadyRecording,
    NotRecording,
}

impl RecordingError {
    /// What the user is told about the error.
    pub fn message(&self) -> (text: String)
        ensures
            text@ == match *self {
                RecordingError::AlreadyRecording => "Already recording"@,
                RecordingError::NotRecording => "Not recording"@,
            },
    {
        match self {
            RecordingError::AlreadyRecording => String::from_str("Already recording"),
            RecordingError::NotRecording => String::from_str("Not recording"),
        }
    }
}

/// The name of the file for a recording that starts at the time that `stamp`
/// names: `recording_`, the stamp, and `.wav`.
pub open spec fn recording_name_of(stamp: Seq<char>) -> Seq<char> {
    "recording_"@ + stamp + ".wav"@
}

/// The name of the file for a recording that starts at the time that `stamp`
/// names.
pub fn recording_file_name(stamp: &str) -> (name: String)
    ensures
        name@ == recording_name_of(stamp@),
{
    let mut name = String::from_str("recording_");
    name.append(stamp);
    name.append(".wav");
    name
}

/// Whether a recording is running, and the file of the last recording that was
/// started.
#[derive(Debug, PartialEq, Eq)]
pub struct Recorder {
    pub is_recording: bool,
    pub path: Option<String>,
}

/// Mathematical value of a recorder.
pub ghost struct RecorderModel {
    pub is_recording: bool,
    pub path: Option<Seq<char>>,
}

impl View for Recorder {
    type V = RecorderModel;

    open spec fn view(&self) -> RecorderModel {
        RecorderModel {
            is_recording: self.is_recording,
            path: match self.path {
                Some(path) => Some(path@),
                None => None,
            },
        }
    }
}

/// Mathematical value of a path or the error in its place.
pub open spec fn path_model(outcome: Result<String, RecordingError>) -> Result<
    Seq<char>,
    RecordingError,
> {
    match outcome {
        Ok(path) => Ok(path@),
        Err(error) => Err(error),
    }
}

impl Recorder {
    /// A recorder that is not recording and has not recorded anything.
    pub fn new() -> (recorder: Recorder)
        ensures
            recorder@ == (RecorderModel { is_recording: false, path: None }),
    {
        Recorder { is_recording: false, path: None }
    }

    /// Starts a recording into `file_path`. While a recording is running
    /// another cannot be started, and nothing changes.
    pub fn start_audio_recording(&mut self, file_path: String) -> (outcome: Result<
        String,
        RecordingError,
    >)
        ensures
            old(self)@.is_recording ==> final(self)@ == old(self)@ && outcome == Err::<
                String,
                RecordingError,
            >(RecordingError::AlreadyRecording),
            !old(self)@.is_recording ==> final(self)@ == (RecorderModel {
                is_recording: true,
                path: Some(file_path@),
            }) && path_model(outcome) == Ok::<Seq<char>, RecordingError>(file_path@),
    {
        if self.is_recording {
            return Err(RecordingError::AlreadyRecording);
        }
        self.path = Some(file_path.clone());
        self.is_recording = true;
        Ok(file_path)
    }

    /// Stops the running recording and answers the file it was written to.
    /// Without a running recording nothing changes.
    pub fn stop_audio_recording(&mut self) -> (outcome: Result<String, RecordingError>)
        ensures
            !old(self)@.is_recording ==> final(self)@ == old(self)@ && outcome == Err::<
                String,
                RecordingError,
            >(RecordingError::NotRecording),
            old(self)@.is_recording ==> final(self)@ == (RecorderModel {
                is_recording: false,
                path: old(self)@.path,
            }) && path_model(outcome) == Ok::<Seq<char>, RecordingError>(
                match old(self)@.path {
                    Some(path) => path,
                    None => Seq::<char>::empty(),
                },
            ),
    {
        if !self.is_recording {
            return Err(RecordingError::NotRecording);
        }
        self.is_recording = false;
        match &self.path {
            Some(path) => Ok(path.clone()),
            None => Ok(String::new()),
        }
    }

    /// The recording broke off by itself: the recorder is no longer recording.
    pub fn recording_failed(&mut self)
        ensures
            final(self)@ == (RecorderModel { is_recording: false, path: old(self)@.path }),
    {
        self.is_recording = false;
    }
}

} // verus!

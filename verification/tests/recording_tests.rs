use heelix::metadata::{get_activity_metadata, MetadataRow};
use heelix::project::{
    fetch_activities_by_project_id, DocumentRow, Project, DEFAULT_PROJECT_ID, NEW_DOCUMENT_NAME,
    NEW_DOCUMENT_TEXT, UNASSIGNED_PROJECT_NAME,
};
use heelix::recording::{recording_file_name, Recorder, RecordingError};
use heelix::transcription::{
    transcribe_audio, transcribe_with_claude, transcribe_with_openai, upload_file_name,
    TranscriptionError, TranscriptionRoute,
};

#[test]
fn recording_is_named_after_its_start() {
    assert_eq!(recording_file_name("20240131_235959"), "recording_20240131_235959.wav");
    assert_eq!(recording_file_name(""), "recording_.wav");
}

#[test]
fn recorder_starts_once_and_stops_once() {
    let mut recorder = Recorder::new();
    assert_eq!(recorder, Recorder { is_recording: false, path: None });
    assert_eq!(recorder.stop_audio_recording(), Err(RecordingError::NotRecording));
    assert_eq!(recorder.start_audio_recording("/tmp/a.wav".to_string()), Ok("/tmp/a.wav".to_string()));
    assert!(recorder.is_recording);
    assert_eq!(
        recorder.start_audio_recording("/tmp/b.wav".to_string()),
        Err(RecordingError::AlreadyRecording)
    );
    assert_eq!(recorder.path, Some("/tmp/a.wav".to_string()));
    assert_eq!(recorder.stop_audio_recording(), Ok("/tmp/a.wav".to_string()));
    assert!(!recorder.is_recording);
    assert_eq!(recorder.stop_audio_recording(), Err(RecordingError::NotRecording));
    assert_eq!(recorder.start_audio_recording("/tmp/c.wav".to_string()), Ok("/tmp/c.wav".to_string()));
    assert_eq!(recorder.path, Some("/tmp/c.wav".to_string()));
}

#[test]
fn failed_recording_frees_the_recorder() {
    let mut recorder = Recorder::new();
    assert_eq!(recorder.start_audio_recording("a.wav".to_string()), Ok("a.wav".to_string()));
    recorder.recording_failed();
    assert_eq!(recorder, Recorder { is_recording: false, path: Some("a.wav".to_string()) });
    assert_eq!(recorder.stop_audio_recording(), Err(RecordingError::NotRecording));
}

#[test]
fn stopping_without_a_path_answers_an_empty_path() {
    let mut recorder = Recorder { is_recording: true, path: None };
    assert_eq!(recorder.stop_audio_recording(), Ok(String::new()));
}

#[test]
fn recording_errors_have_messages() {
    assert_eq!(RecordingError::AlreadyRecording.message(), "Already recording");
    assert_eq!(RecordingError::NotRecording.message(), "Not recording");
}

#[test]
fn transcription_route_follows_the_settings() {
    assert_eq!(transcribe_audio("", "openai", "c"), Err(TranscriptionError::MissingOpenAiKey));
    assert_eq!(transcribe_audio("", "other", ""), Err(TranscriptionError::MissingOpenAiKey));
    assert_eq!(transcribe_audio("o", "openai", ""), Ok(TranscriptionRoute::OpenAi));
    assert_eq!(transcribe_audio("o", "other", ""), Err(TranscriptionError::MissingAssistantKey));
    assert_eq!(transcribe_audio("o", "", "c"), Ok(TranscriptionRoute::ViaAssistant));
    assert_eq!(transcribe_audio("o", "OpenAI", "c"), Ok(TranscriptionRoute::ViaAssistant));
}

#[test]
fn speech_key_is_the_first_that_is_there() {
    assert_eq!(transcribe_with_claude(Some("a".to_string()), Some("b".to_string())), Ok("a".to_string()));
    assert_eq!(transcribe_with_claude(None, Some("b".to_string())), Ok("b".to_string()));
    assert_eq!(transcribe_with_claude(Some(String::new()), None), Ok(String::new()));
    assert_eq!(transcribe_with_claude(None, None), Err(TranscriptionError::NoWhisperKey));
}

#[test]
fn reply_of_the_service_is_text_or_error() {
    assert_eq!(transcribe_with_openai(true, "hello".to_string()), Ok("hello".to_string()));
    assert_eq!(
        transcribe_with_openai(false, "bad key".to_string()),
        Err(TranscriptionError::Api("bad key".to_string()))
    );
}

#[test]
fn transcription_errors_have_messages() {
    assert_eq!(
        TranscriptionError::MissingOpenAiKey.message(),
        "OpenAI API key is required for audio transcription"
    );
    assert_eq!(
        TranscriptionError::Api("bad key".to_string()).message(),
        "OpenAI API error: bad key"
    );
    assert!(TranscriptionError::MissingAssistantKey.message().ends_with("API key is not set"));
    assert!(TranscriptionError::NoWhisperKey
        .message()
        .starts_with("Audio transcription requires an OpenAI API key."));
}

#[test]
fn upload_keeps_the_file_name_or_takes_the_default() {
    assert_eq!(upload_file_name(Some("memo.wav")), "memo.wav");
    assert_eq!(upload_file_name(None), "audio.wav");
}

#[test]
fn project_constants() {
    assert_eq!(UNASSIGNED_PROJECT_NAME, "Unassigned");
    assert_eq!(DEFAULT_PROJECT_ID, 0);
    assert_eq!(NEW_DOCUMENT_NAME, "New Document");
    assert_eq!(NEW_DOCUMENT_TEXT, "Start editing");
}

#[test]
fn document_rows_are_split_into_parallel_lists() {
    let rows = vec![
        DocumentRow { id: 3, activity_id: Some(30), document_name: "three".to_string() },
        DocumentRow { id: 5, activity_id: None, document_name: "five".to_string() },
        DocumentRow { id: 8, activity_id: Some(80), document_name: String::new() },
    ];
    assert_eq!(
        fetch_activities_by_project_id(rows),
        (
            vec![3, 5, 8],
            vec![Some(30), None, Some(80)],
            vec!["three".to_string(), "five".to_string(), String::new()],
        )
    );
    assert_eq!(fetch_activities_by_project_id(vec![]), (vec![], vec![], vec![]));
}

#[test]
fn project_takes_its_documents_from_rows() {
    let project = Project::new(2, "Work".to_string(), "2024-01-01".to_string());
    assert_eq!(
        project,
        Project {
            id: 2,
            name: "Work".to_string(),
            activities: vec![],
            activity_ids: vec![],
            activity_names: vec![],
            created_at: "2024-01-01".to_string(),
        }
    );
    let filled = project.with_documents(vec![
        DocumentRow { id: 1, activity_id: None, document_name: "a".to_string() },
        DocumentRow { id: 2, activity_id: Some(9), document_name: "b".to_string() },
    ]);
    assert_eq!(
        filled,
        Project {
            id: 2,
            name: "Work".to_string(),
            activities: vec![1, 2],
            activity_ids: vec![None, Some(9)],
            activity_names: vec!["a".to_string(), "b".to_string()],
            created_at: "2024-01-01".to_string(),
        }
    );
}

fn row(key: &str, value: &str) -> Option<MetadataRow> {
    Some(MetadataRow { meta_key: key.to_string(), meta_value: value.to_string() })
}

#[test]
fn metadata_rows_become_members() {
    let object = get_activity_metadata(true, true, vec![row("a", "1"), None, row("b", "2")]);
    assert_eq!(object.len(), 2);
    assert_eq!(object.get("a"), Some(&serde_json::Value::String("1".to_string())));
    assert_eq!(object.get("b"), Some(&serde_json::Value::String("2".to_string())));
}

#[test]
fn later_metadata_row_overrides_an_earlier_one() {
    let object = get_activity_metadata(true, true, vec![row("a", "1"), row("b", "2"), row("a", "3")]);
    assert_eq!(object.len(), 2);
    assert_eq!(object.get("a"), Some(&serde_json::Value::String("3".to_string())));
}

#[test]
fn metadata_is_empty_without_document_or_table() {
    assert!(get_activity_metadata(false, true, vec![row("a", "1")]).is_empty());
    assert!(get_activity_metadata(true, false, vec![row("a", "1")]).is_empty());
    assert!(get_activity_metadata(false, false, vec![]).is_empty());
    assert!(get_activity_metadata(true, true, vec![]).is_empty());
    assert!(get_activity_metadata(true, true, vec![None, None]).is_empty());
}

#[test]
fn metadata_members_are_all_strings() {
    let object = get_activity_metadata(true, true, vec![row("k", ""), row("", "v")]);
    assert_eq!(object.len(), 2);
    for (_, value) in object.iter() {
        assert!(value.is_string());
    }
    assert_eq!(object.get(""), Some(&serde_json::Value::String("v".to_string())));
    assert_eq!(object.get("k"), Some(&serde_json::Value::String(String::new())));
}

use project_soap::backends::vosk_local::{
    entry_action, EntryAction, ModelSize, VoskLocal, VoskLocalCommands, VoskStart, SAMPLE_RATE,
};
use project_soap::backends::whisperx_local::{WhisperXLocal, WhisperXWord};
use project_soap::chunker::split_samples;
use project_soap::cli::{overwrites_original, thread_number_in_range, Args, Backend};
use project_soap::error::PipelineError;
use project_soap::word::Word;

fn vosk_args(file_in: Option<&str>, command: Option<VoskLocalCommands>) -> Args {
    Args {
        backend: Backend::VoskLocal { model: "/models/vosk".to_string(), command },
        file_in: file_in.map(|f| f.to_string()),
        out: String::new(),
        threads: 4,
        repeat: false,
    }
}

fn plain(words: &[Word]) -> Vec<(String, u64, u64)> {
    words.iter().map(|w| (w.word.clone(), w.start, w.end)).collect()
}

#[test]
fn thread_number_must_lie_between_one_and_the_maximum() {
    assert_eq!(thread_number_in_range(1, 8), Ok(1));
    assert_eq!(thread_number_in_range(8, 8), Ok(8));
    assert_eq!(thread_number_in_range(0, 8), Err(PipelineError::InvalidInput));
    assert_eq!(thread_number_in_range(9, 8), Err(PipelineError::InvalidInput));
    assert_eq!(thread_number_in_range(1, 0), Err(PipelineError::InvalidInput));
}

#[test]
fn an_empty_out_path_overwrites_the_original() {
    assert!(overwrites_original(""));
    assert!(!overwrites_original("clean.mp4"));
}

#[test]
fn the_smallest_model_named_is_fetched() {
    let all = VoskLocalCommands::GetModel { small: true, medium: true, large: true };
    assert_eq!(all.model(), Some(ModelSize::Small));
    let two = VoskLocalCommands::GetModel { small: false, medium: true, large: true };
    assert_eq!(two.model(), Some(ModelSize::Medium));
    let one = VoskLocalCommands::GetModel { small: false, medium: false, large: true };
    assert_eq!(one.model(), Some(ModelSize::Large));
    let none = VoskLocalCommands::GetModel { small: false, medium: false, large: false };
    assert_eq!(none.model(), None);
}

#[test]
fn each_model_has_its_name_and_url() {
    assert_eq!(ModelSize::Small.name(), "small");
    assert_eq!(ModelSize::Medium.name(), "medium");
    assert_eq!(ModelSize::Large.name(), "large");
    assert_eq!(
        ModelSize::Small.url(),
        "https://alphacephei.com/vosk/models/vosk-model-small-en-us-0.15.zip"
    );
    assert_eq!(
        ModelSize::Medium.url(),
        "https://alphacephei.com/vosk/models/vosk-model-en-us-0.22-lgraph.zip"
    );
    assert_eq!(
        ModelSize::Large.url(),
        "https://alphacephei.com/vosk/models/vosk-model-en-us-0.22.zip"
    );
}

#[test]
fn sanitize_removes_every_apostrophe() {
    assert_eq!(VoskLocal::sanitize("it's a 'test'.mp4"), "its a test.mp4");
    assert_eq!(VoskLocal::sanitize("plain.mp4"), "plain.mp4");
    assert_eq!(VoskLocal::sanitize("'''"), "");
}

#[test]
fn new_lays_out_the_temp_directory() {
    let cleaner =
        VoskLocal::new("/m".to_string(), "/videos/clip.mp4".to_string(), "clip.mp4", 3);
    assert_eq!(cleaner.model_location, "/m");
    assert_eq!(cleaner.file_location, "/videos/clip.mp4");
    assert_eq!(cleaner.thread_number, 3);
    assert_eq!(cleaner.temp_dir_name, "./temp'clip.mp4'");
    assert_eq!(cleaner.preprocessed_file_location, "./temp'clip.mp4'\\clip.mp4.wav");
}

#[test]
fn a_subcommand_takes_the_place_of_a_transcription() {
    let command = VoskLocalCommands::GetModel { small: false, medium: true, large: false };
    match VoskLocal::from_args(vosk_args(Some("clip.mp4"), Some(command))) {
        VoskStart::GetModel { model, model_location } => {
            assert_eq!(model, Some(ModelSize::Medium));
            assert_eq!(model_location, "/models/vosk");
        }
        other => panic!("unexpected start: {:?}", other),
    }
}

#[test]
fn from_args_prepares_a_transcription() {
    match VoskLocal::from_args(vosk_args(Some("videos/clip.mp4"), None)) {
        VoskStart::Transcribe { cleaner, rename_from } => {
            assert_eq!(rename_from, None);
            assert_eq!(cleaner.file_location, "videos/clip.mp4");
            assert_eq!(cleaner.model_location, "/models/vosk");
            assert_eq!(cleaner.thread_number, 4);
            assert_eq!(cleaner.temp_dir_name, "./temp'clip.mp4'");
            assert_eq!(cleaner.preprocessed_file_location, "./temp'clip.mp4'\\clip.mp4.wav");
        }
        other => panic!("unexpected start: {:?}", other),
    }
}

#[test]
fn from_args_moves_a_file_with_apostrophes() {
    match VoskLocal::from_args(vosk_args(Some("videos/it's.mp4"), None)) {
        VoskStart::Transcribe { cleaner, rename_from } => {
            assert_eq!(rename_from, Some("videos/it's.mp4".to_string()));
            assert_eq!(cleaner.file_location, "videos/its.mp4");
            assert_eq!(cleaner.temp_dir_name, "./temp'its.mp4'");
        }
        other => panic!("unexpected start: {:?}", other),
    }
}

#[test]
fn from_args_reports_a_path_without_a_file_name() {
    match VoskLocal::from_args(vosk_args(Some(".."), None)) {
        VoskStart::NoFileName { file_location } => assert_eq!(file_location, ".."),
        other => panic!("unexpected start: {:?}", other),
    }
}

#[test]
fn vosk_chunks_follow_the_thread_number() {
    let cleaner = VoskLocal::new("/m".to_string(), "a.mp4".to_string(), "a.mp4", 3);
    let samples = vec![7i16; 10];
    let chunks = cleaner.chunks(&samples).unwrap();
    let direct = split_samples(&samples, 3).unwrap();
    assert_eq!(chunks.len(), 3);
    for (a, b) in chunks.iter().zip(direct.iter()) {
        assert_eq!(a.index, b.index);
        assert_eq!(a.offset_samples, b.offset_samples);
        assert_eq!(a.samples, b.samples);
    }
    let idle = VoskLocal::new("/m".to_string(), "a.mp4".to_string(), "a.mp4", 0);
    assert_eq!(idle.chunks(&samples).unwrap_err(), PipelineError::InvalidInput);
}

#[test]
fn vosk_transcribe_offsets_by_chunk_at_sixteen_kilohertz() {
    assert_eq!(SAMPLE_RATE, 16_000);
    let samples = vec![0i16; 64_000];
    let chunks = split_samples(&samples, 4).unwrap();
    let locals = vec![
        vec![],
        vec![Word::new("one".to_string(), 10, 20)],
        vec![],
        vec![Word::new("three".to_string(), 500_000, 600_000)],
    ];
    let global = VoskLocal::transcribe(&chunks, &locals).unwrap();
    assert_eq!(
        plain(&global),
        vec![("one".to_string(), 1_000_010, 1_000_020), ("three".to_string(), 3_500_000, 3_600_000)]
    );
    let short = vec![vec![], vec![]];
    assert_eq!(
        VoskLocal::transcribe(&chunks, &short).unwrap_err(),
        PipelineError::InvalidInput
    );
}

#[test]
fn whisperx_words_without_times_are_left_out() {
    let segments = vec![
        vec![
            WhisperXWord { word: "a".to_string(), start: Some(0), end: Some(10) },
            WhisperXWord { word: "7".to_string(), start: None, end: None },
            WhisperXWord { word: "b".to_string(), start: Some(20), end: None },
        ],
        vec![],
        vec![
            WhisperXWord { word: "c".to_string(), start: None, end: Some(40) },
            WhisperXWord { word: "d".to_string(), start: Some(50), end: Some(60) },
        ],
    ];
    let words = WhisperXLocal::serialize(&segments);
    assert_eq!(plain(&words), vec![("a".to_string(), 0, 10), ("d".to_string(), 50, 60)]);
    let nothing: Vec<Vec<WhisperXWord>> = Vec::new();
    assert!(WhisperXLocal::serialize(&nothing).is_empty());
}

#[test]
fn whisperx_from_args_installs_or_transcribes() {
    let setup = Args {
        backend: Backend::WhisperXLocal { other_options: "--language en".to_string(), setup: true },
        file_in: None,
        out: String::new(),
        threads: 1,
        repeat: false,
    };
    assert!(WhisperXLocal::from_args(setup).is_none());
    let run = Args {
        backend: Backend::WhisperXLocal { other_options: "--language en".to_string(), setup: false },
        file_in: Some("clip.mp4".to_string()),
        out: String::new(),
        threads: 1,
        repeat: false,
    };
    let cleaner = WhisperXLocal::from_args(run).unwrap();
    assert_eq!(cleaner.file_location, "clip.mp4");
    assert_eq!(cleaner.other_options, "--language en");
}

#[test]
fn archive_entries_are_skipped_made_or_written() {
    assert_eq!(entry_action("model/", true), EntryAction::MakeDir);
    assert_eq!(entry_action("model/am/final.mdl", true), EntryAction::WriteFile);
    assert_eq!(entry_action("", true), EntryAction::WriteFile);
    assert_eq!(entry_action("../etc/", false), EntryAction::Skip);
    assert_eq!(entry_action("../etc/passwd", false), EntryAction::Skip);
}

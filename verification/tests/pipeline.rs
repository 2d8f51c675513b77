use project_soap::blocklist::Blocklist;
use project_soap::chunker::split_samples;
use project_soap::error::PipelineError;
use project_soap::pipeline::{check_format, chunk_offsets, redact};
use project_soap::word::{MuteInterval, Word};
use project_soap::workers::ResultSlots;

fn word(text: &str, start: u64, end: u64) -> Word {
    Word::new(text.to_string(), start, end)
}

fn list(entries: &[&str]) -> Blocklist {
    let entries: Vec<String> = entries.iter().map(|e| e.to_string()).collect();
    Blocklist::from_entries(&entries)
}

#[test]
fn two_second_buffer_in_two_chunks_end_to_end() {
    let samples = vec![0i16; 32_000];
    let chunks = split_samples(&samples, 2).unwrap();
    let offsets = chunk_offsets(&chunks);
    assert_eq!(offsets, vec![0, 16_000]);
    let mut slots = ResultSlots::new(chunks.len());
    assert!(slots.record(1, vec![word("damn", 200_000, 500_000)]));
    assert!(slots.record(0, vec![word("test", 100_000, 400_000)]));
    let locals = slots.join().unwrap();
    let redaction = redact(&locals, &offsets, 16_000, &list(&["damn"])).unwrap();
    assert_eq!(redaction.plan, vec![MuteInterval { start: 1_200_000, end: 1_500_000 }]);
    assert_eq!(redaction.matched, 1);
    assert!(!redaction.nothing_to_redact());
}

#[test]
fn no_match_gives_an_empty_plan_and_a_count_of_zero() {
    let locals = vec![vec![word("hello", 0, 100)], vec![word("world", 0, 100)]];
    let offsets = vec![0, 16_000];
    let redaction = redact(&locals, &offsets, 16_000, &list(&["xyz"])).unwrap();
    assert!(redaction.plan.is_empty());
    assert_eq!(redaction.matched, 0);
    assert!(redaction.nothing_to_redact());
}

#[test]
fn an_empty_blocklist_is_nothing_to_redact() {
    let locals = vec![vec![word("damn", 0, 100)]];
    let offsets = vec![0];
    let redaction = redact(&locals, &offsets, 16_000, &Blocklist::new()).unwrap();
    assert!(redaction.nothing_to_redact());
    assert_eq!(redaction.matched, 0);
}

#[test]
fn back_to_back_matches_are_counted_apart_and_muted_as_one() {
    let locals = vec![
        vec![word("damn", 900_000, 1_000_000)],
        vec![word("Damn", 0, 250_000), word("it", 250_000, 300_000), word("heck", 600_000, 700_000)],
    ];
    let offsets = vec![0, 16_000];
    let redaction = redact(&locals, &offsets, 16_000, &list(&["damn", "heck"])).unwrap();
    assert_eq!(redaction.matched, 3);
    assert_eq!(
        redaction.plan,
        vec![
            MuteInterval { start: 900_000, end: 1_250_000 },
            MuteInterval { start: 1_600_000, end: 1_700_000 },
        ]
    );
}

#[test]
fn redact_fails_as_reconciliation_does() {
    let locals = vec![vec![word("a", 2_000_000, 2_100_000)], vec![word("damn", 0, 10)]];
    let offsets = vec![0, 16_000];
    assert_eq!(
        redact(&locals, &offsets, 16_000, &list(&["damn"])).unwrap_err(),
        PipelineError::ReconciliationInconsistency { chunk: 1 }
    );
    assert_eq!(
        redact(&locals, &vec![0], 16_000, &list(&["damn"])).unwrap_err(),
        PipelineError::InvalidInput
    );
    assert_eq!(
        redact(&locals, &offsets, 0, &list(&["damn"])).unwrap_err(),
        PipelineError::InvalidInput
    );
}

#[test]
fn only_mono_integer_pcm_is_supported() {
    assert_eq!(check_format(1, true), Ok(()));
    assert_eq!(check_format(2, true), Err(PipelineError::UnsupportedAudioFormat));
    assert_eq!(check_format(0, true), Err(PipelineError::UnsupportedAudioFormat));
    assert_eq!(check_format(1, false), Err(PipelineError::UnsupportedAudioFormat));
}

#[test]
fn a_single_pass_transcript_is_one_chunk_at_offset_zero() {
    let locals = vec![vec![word("one", 0, 10), word("damn", 10, 20), word("two", 30, 40)]];
    let redaction = redact(&locals, &vec![0], 16_000, &list(&["damn"])).unwrap();
    assert_eq!(redaction.plan, vec![MuteInterval { start: 10, end: 20 }]);
    assert_eq!(redaction.matched, 1);
}

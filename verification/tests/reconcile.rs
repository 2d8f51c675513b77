use project_soap::error::PipelineError;
use project_soap::reconcile::reconcile;
use project_soap::word::Word;

fn word(text: &str, start: u64, end: u64) -> Word {
    Word::new(text.to_string(), start, end)
}

fn plain(words: &[Word]) -> Vec<(String, u64, u64)> {
    words.iter().map(|w| (w.word.clone(), w.start, w.end)).collect()
}

#[test]
fn offset_of_chunk_two_of_four_is_added() {
    let locals = vec![vec![], vec![], vec![word("late", 2_000_000, 2_500_000)], vec![]];
    let offsets = vec![0, 48_000, 96_000, 144_000];
    let global = reconcile(&locals, &offsets, 16_000).unwrap();
    assert_eq!(plain(&global), vec![("late".to_string(), 8_000_000, 8_500_000)]);
}

#[test]
fn chunks_are_concatenated_in_index_order() {
    let locals = vec![
        vec![word("a", 0, 10), word("b", 20, 30)],
        vec![word("c", 5, 15)],
        vec![word("d", 0, 1), word("e", 1, 2)],
    ];
    let offsets = vec![0, 16_000, 32_000];
    let global = reconcile(&locals, &offsets, 16_000).unwrap();
    assert_eq!(
        plain(&global),
        vec![
            ("a".to_string(), 0, 10),
            ("b".to_string(), 20, 30),
            ("c".to_string(), 1_000_005, 1_000_015),
            ("d".to_string(), 2_000_000, 2_000_001),
            ("e".to_string(), 2_000_001, 2_000_002),
        ]
    );
    for pair in global.windows(2) {
        assert!(pair[0].start <= pair[1].start);
    }
}

#[test]
fn offset_is_rounded_down_to_whole_microseconds() {
    let locals = vec![vec![], vec![word("x", 0, 1)]];
    let offsets = vec![0, 1];
    let global = reconcile(&locals, &offsets, 16_000).unwrap();
    assert_eq!(plain(&global), vec![("x".to_string(), 62, 63)]);
    let offsets = vec![0, 3];
    let global = reconcile(&locals, &offsets, 44_100).unwrap();
    assert_eq!(plain(&global), vec![("x".to_string(), 68, 69)]);
}

#[test]
fn no_chunks_give_no_words() {
    let locals: Vec<Vec<Word>> = Vec::new();
    let offsets: Vec<u64> = Vec::new();
    assert!(reconcile(&locals, &offsets, 16_000).unwrap().is_empty());
}

#[test]
fn mismatched_lengths_are_invalid_input() {
    let locals = vec![vec![word("a", 0, 1)]];
    let offsets = vec![0, 16_000];
    assert_eq!(reconcile(&locals, &offsets, 16_000).unwrap_err(), PipelineError::InvalidInput);
}

#[test]
fn zero_sample_rate_is_invalid_input() {
    let locals = vec![vec![word("a", 0, 1)]];
    let offsets = vec![0];
    assert_eq!(reconcile(&locals, &offsets, 0).unwrap_err(), PipelineError::InvalidInput);
}

#[test]
fn a_word_that_starts_before_its_predecessor_is_an_inconsistency() {
    let locals = vec![vec![word("a", 0, 10)], vec![word("b", 500, 600), word("c", 400, 450)]];
    let offsets = vec![0, 16_000];
    assert_eq!(
        reconcile(&locals, &offsets, 16_000).unwrap_err(),
        PipelineError::ReconciliationInconsistency { chunk: 1 }
    );
}

#[test]
fn a_chunk_that_starts_before_the_last_word_is_an_inconsistency() {
    let locals = vec![vec![word("a", 2_000_000, 2_100_000)], vec![word("b", 0, 10)]];
    let offsets = vec![0, 16_000];
    assert_eq!(
        reconcile(&locals, &offsets, 16_000).unwrap_err(),
        PipelineError::ReconciliationInconsistency { chunk: 1 }
    );
}

#[test]
fn a_timestamp_beyond_the_range_is_reported_with_its_chunk() {
    let locals = vec![vec![word("a", 0, 10)], vec![word("b", u64::MAX - 5, u64::MAX)]];
    let offsets = vec![0, 16_000];
    assert_eq!(
        reconcile(&locals, &offsets, 16_000).unwrap_err(),
        PipelineError::TimestampOutOfRange { chunk: 1 }
    );
    let locals = vec![vec![word("a", 0, 10)]];
    let offsets = vec![u64::MAX];
    assert_eq!(
        reconcile(&locals, &offsets, 1).unwrap_err(),
        PipelineError::TimestampOutOfRange { chunk: 0 }
    );
}

#[test]
fn out_of_range_wins_over_disorder_in_the_same_chunk() {
    let locals = vec![vec![word("a", 10, 20), word("b", 5, 6), word("c", u64::MAX, u64::MAX)]];
    let offsets = vec![16_000];
    assert_eq!(
        reconcile(&locals, &offsets, 16_000).unwrap_err(),
        PipelineError::TimestampOutOfRange { chunk: 0 }
    );
}

#[test]
fn the_largest_timestamp_still_fits() {
    let locals = vec![vec![word("a", u64::MAX - 1_000_000, u64::MAX - 1_000_000)]];
    let offsets = vec![16_000];
    let global = reconcile(&locals, &offsets, 16_000).unwrap();
    assert_eq!(plain(&global), vec![("a".to_string(), u64::MAX, u64::MAX)]);
}

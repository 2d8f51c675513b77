use project_soap::planner::plan_redactions;
use project_soap::word::{MuteInterval, Word};

fn word(text: &str, start: u64, end: u64) -> Word {
    Word::new(text.to_string(), start, end)
}

fn iv(start: u64, end: u64) -> MuteInterval {
    MuteInterval { start, end }
}

#[test]
fn overlapping_intervals_become_one() {
    let matched = vec![word("a", 1_000_000, 2_000_000), word("b", 1_500_000, 2_500_000)];
    assert_eq!(plan_redactions(&matched), vec![iv(1_000_000, 2_500_000)]);
}

#[test]
fn touching_intervals_become_one() {
    let matched = vec![word("a", 100, 200), word("b", 200, 300)];
    assert_eq!(plan_redactions(&matched), vec![iv(100, 300)]);
}

#[test]
fn disjoint_sorted_intervals_come_back_unchanged() {
    let matched = vec![word("a", 10, 20), word("b", 21, 30), word("c", 100, 101)];
    let plan = plan_redactions(&matched);
    assert_eq!(plan, vec![iv(10, 20), iv(21, 30), iv(100, 101)]);
    let again: Vec<Word> = plan.iter().map(|m| word("x", m.start, m.end)).collect();
    assert_eq!(plan_redactions(&again), plan);
}

#[test]
fn a_word_inside_another_is_absorbed() {
    let matched = vec![word("a", 10, 100), word("b", 20, 30), word("c", 90, 120)];
    assert_eq!(plan_redactions(&matched), vec![iv(10, 120)]);
}

#[test]
fn words_without_length_mute_nothing() {
    let matched = vec![word("a", 5, 5), word("b", 7, 6)];
    assert!(plan_redactions(&matched).is_empty());
    let mixed = vec![word("a", 5, 5), word("b", 5, 9), word("c", 9, 9)];
    assert_eq!(plan_redactions(&mixed), vec![iv(5, 9)]);
}

#[test]
fn no_matches_give_an_empty_plan() {
    let matched: Vec<Word> = Vec::new();
    assert!(plan_redactions(&matched).is_empty());
}

#[test]
fn plan_is_ascending_and_disjoint() {
    let matched = vec![
        word("a", 0, 4),
        word("b", 2, 6),
        word("c", 7, 9),
        word("d", 9, 12),
        word("e", 20, 25),
        word("f", 20, 22),
    ];
    let plan = plan_redactions(&matched);
    assert_eq!(plan, vec![iv(0, 6), iv(7, 12), iv(20, 25)]);
    for pair in plan.windows(2) {
        assert!(pair[0].end < pair[1].start);
    }
    for m in &plan {
        assert!(m.start < m.end);
    }
}

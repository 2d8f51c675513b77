use vstd::prelude::*;

verus! {

/// Microseconds in one second: the unit of every timestamp in this crate.
pub const MICROS_PER_SECOND: u64 = 1_000_000;

/// What a [`Word`] is to the contracts: its text and its span on a timeline.
pub struct WordView {
    pub word: Seq<char>,
    pub start: int,
    pub end: int,
}

/// A recognized word with the span in which it was spoken, in microseconds.
///
/// The same type serves both timelines: fresh from a recognizer the span is
/// counted from the start of the word's own chunk, after reconciliation from
/// the start of the recording.
#[derive(Debug)]
pub struct Word {
    pub word: String,
    pub start: u64,
    pub end: u64,
}

impl View for Word {
    type V = WordView;

    open spec fn view(&self) -> WordView {
        WordView { word: self.word@, start: self.start as int, end: self.end as int }
    }
}

impl Clone for Word {
    fn clone(&self) -> (copy: Self)
        ensures
            copy@ == self@,
    {
        Word { word: self.word.clone(), start: self.start, end: self.end }
    }
}

impl Word {
    /// A word from its parts.
    pub fn new(word: String, start: u64, end: u64) -> (made: Word)
        ensures
            made@ == (WordView { word: word@, start: start as int, end: end as int }),
    {
        Word { word, start, end }
    }
}

/// The views of a sequence of words, in order.
pub open spec fn views(words: Seq<Word>) -> Seq<WordView> {
    words.map_values(|w: Word| w@)
}

/// Whether no word starts before the one in front of it.
pub open spec fn starts_ascend(words: Seq<WordView>) -> bool {
    forall|i: int, j: int| 0 <= i <= j < words.len() ==> words[i].start <= words[j].start
}

/// A stretch of the recording to silence, in microseconds from its start.
#[derive(Debug, Clone, Copy, PartialEq, Eq, Structural)]
pub struct MuteInterval {
    pub start: u64,
    pub end: u64,
}

/// A span of time as the contracts see it: from `start` up to `end`.
pub struct Span {
    pub start: int,
    pub end: int,
}

impl View for MuteInterval {
    type V = Span;

    open spec fn view(&self) -> Span {
        Span { start: self.start as int, end: self.end as int }
    }
}

impl MuteInterval {
    /// Whether the interval has positive length.
    pub open spec fn well_formed(&self) -> bool {
        self.start < self.end
    }
}

} // verus!

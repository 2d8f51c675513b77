use crate::cli::{Args, Backend};
use crate::word::{views, Word, WordView};
use vstd::prelude::*;

verus! {

/// The WhisperX backend: a single pass over the whole file, whose words
/// come back on the recording's own timeline.
#[derive(Debug)]
pub struct WhisperXLocal {
    pub file_location: String,
    pub other_options: String,
}

/// A word of WhisperX's output. WhisperX leaves out the times of a word that
/// it could not align.
#[derive(Debug)]
pub struct WhisperXWord {
    pub word: String,
    pub start: Option<u64>,
    pub end: Option<u64>,
}

/// What a [`WhisperXWord`] is to the contracts.
pub struct WhisperXWordView {
    pub word: Seq<char>,
    pub start: Option<u64>,
    pub end: Option<u64>,
}

impl View for WhisperXWord {
    type V = WhisperXWordView;

    open spec fn view(&self) -> WhisperXWordView {
        WhisperXWordView { word: self.word@, start: self.start, end: self.end }
    }
}

/// The words of one segment that have both their times, in order.
pub open spec fn timed(words: Seq<WhisperXWordView>) -> Seq<WordView>
    decreases words.len(),
{
    if words.len() == 0 {
        Seq::empty()
    } else if words.last().start is Some && words.last().end is Some {
        timed(words.drop_last()).push(
            WordView {
                word: words.last().word,
                start: words.last().start->Some_0 as int,
                end: words.last().end->Some_0 as int,
            },
        )
    } else {
        timed(words.drop_last())
    }
}

/// The timed words of the first `upto` segments, segment after segment.
pub open spec fn timed_upto(segments: Seq<Seq<WhisperXWordView>>, upto: int) -> Seq<WordView>
    decreases upto,
{
    if upto <= 0 {
        Seq::empty()
    } else {
        timed_upto(segments, upto - 1) + timed(segments[upto - 1])
    }
}

/// The segments of a transcript as the contracts see them.
pub open spec fn segment_views(segments: Seq<Vec<WhisperXWord>>) -> Seq<Seq<WhisperXWordView>> {
    segments.map_values(|s: Vec<WhisperXWord>| s@.map_values(|w: WhisperXWord| w@))
}

impl WhisperXLocal {
    /// Flattens WhisperX's segments into one list of words, leaving out
    /// every word that lacks its start or its end.
    pub fn serialize(segments: &Vec<Vec<WhisperXWord>>) -> (words: Vec<Word>)
        ensures
            views(words@) == timed_upto(segment_views(segments@), segments@.len() as int),
    {
        let ghost all = segment_views(segments@);
        let mut words: Vec<Word> = Vec::new();
        let mut s: usize = 0;
        assert(views(words@) =~= timed_upto(all, 0));
        while s < segments.len()
            invariant
                s <= segments@.len(),
                all == segment_views(segments@),
                views(words@) == timed_upto(all, s as int),
            decreases segments@.len() - s,
        {
            let segment = &segments[s];
            let ghost these = all[s as int];
            let ghost done = timed_upto(all, s as int);
            let mut k: usize = 0;
            assert(these.take(0) =~= Seq::<WhisperXWordView>::empty());
            assert(done + timed(these.take(0)) =~= done);
            while k < segment.len()
                invariant
                    k <= segment@.len(),
                    these == segment@.map_values(|w: WhisperXWord| w@),
                    views(words@) == done + timed(these.take(k as int)),
                decreases segment@.len() - k,
            {
                let word = &segment[k];
                let ghost before = views(words@);
                proof {
                    assert(these.take(k + 1).drop_last() =~= these.take(k as int));
                    assert(these.take(k + 1).last() == word@);
                }
                match (word.start, word.end) {
                    (Some(start), Some(end)) => {
                        words.push(Word { word: word.word.clone(), start, end });
                        assert(views(words@) =~= before.push(
                            WordView { word: word.word@, start: start as int, end: end as int },
                        ));
                        assert(views(words@) =~= done + timed(these.take(k + 1)));
                    },
                    _ => {},
                }
                k += 1;
            }
            assert(these.take(k as int) =~= these);
            s += 1;
        }
        words
    }

    /// Reads the backend's options from the command line. `None` means that
    /// WhisperX is to be installed and nothing transcribed.
    pub fn from_args(args: Args) -> (cleaner: Option<WhisperXLocal>)
        requires
            args.backend is WhisperXLocal,
            !args.backend->WhisperXLocal_setup ==> args.file_in is Some,
        ensures
            cleaner is None <==> args.backend->WhisperXLocal_setup,
            cleaner is Some ==> cleaner->Some_0.file_location@ == args.file_in->Some_0@
                && cleaner->Some_0.other_options@ == args.backend->WhisperXLocal_other_options@,
    {
        match args.backend {
            Backend::WhisperXLocal { other_options, setup } => {
                if setup {
                    return None;
                }
                match args.file_in {
                    Some(file_location) => Some(WhisperXLocal { file_location, other_options }),
                    None => unreached(),
                }
            },
            _ => unreached(),
        }
    }
}

} // verus!

use crate::error::PipelineError;
use crate::reconcile::local_views;
use crate::word::{views, Word, WordView};
use vstd::prelude::*;

verus! {

/// Where the workers' results are gathered: one slot per chunk, set aside
/// before the workers start and written by chunk index, so that the order in
/// which workers finish leaves no trace.
#[derive(Debug)]
pub struct ResultSlots {
    results: Vec<Vec<Word>>,
    filled: Vec<bool>,
}

impl View for ResultSlots {
    type V = Seq<Option<Seq<WordView>>>;

    closed spec fn view(&self) -> Seq<Option<Seq<WordView>>> {
        Seq::new(
            self.filled@.len(),
            |i: int|
                if self.filled@[i] {
                    Some(views(self.results@[i]@))
                } else {
                    None
                },
        )
    }
}

/// The index of the first slot without a result, or the number of slots.
pub open spec fn first_missing(slots: Seq<Option<Seq<WordView>>>) -> int
    decreases slots.len(),
{
    if slots.len() == 0 {
        0
    } else if first_missing(slots.drop_last()) < slots.len() - 1 {
        first_missing(slots.drop_last())
    } else if slots.last() is None {
        slots.len() - 1
    } else {
        slots.len() as int
    }
}

/// [`first_missing`] names a slot without a result in front of which every
/// slot has one, or the number of slots where none is missing.
pub proof fn lemma_first_missing(slots: Seq<Option<Seq<WordView>>>)
    ensures
        0 <= first_missing(slots) <= slots.len(),
        forall|i: int| 0 <= i < first_missing(slots) ==> (#[trigger] slots[i]) is Some,
        first_missing(slots) < slots.len() ==> slots[first_missing(slots)] is None,
    decreases slots.len(),
{
    if slots.len() > 0 {
        let front = slots.drop_last();
        lemma_first_missing(front);
        assert forall|i: int| 0 <= i < first_missing(slots) implies (#[trigger] slots[i]) is Some by {
            if i < front.len() {
                assert(front[i] == slots[i]);
            }
        }
        if first_missing(front) < front.len() {
            assert(front[first_missing(front)] == slots[first_missing(front)]);
        }
    }
}

/// Two workers that write different slots may finish in either order: the
/// slots end up the same.
pub proof fn lemma_arrival_order_is_irrelevant(
    slots: Seq<Option<Seq<WordView>>>,
    first: int,
    first_result: Option<Seq<WordView>>,
    second: int,
    second_result: Option<Seq<WordView>>,
)
    requires
        0 <= first < slots.len(),
        0 <= second < slots.len(),
        first != second,
    ensures
        slots.update(first, first_result).update(second, second_result) == slots.update(
            second,
            second_result,
        ).update(first, first_result),
{
    assert(slots.update(first, first_result).update(second, second_result) =~= slots.update(
        second,
        second_result,
    ).update(first, first_result));
}

impl ResultSlots {
    /// Whether each slot has its place for a result.
    pub closed spec fn well_formed(&self) -> bool {
        self.results@.len() == self.filled@.len()
    }

    /// One empty slot for each of `chunks` chunks.
    pub fn new(chunks: usize) -> (slots: ResultSlots)
        ensures
            slots.well_formed(),
            slots@ == Seq::new(chunks as nat, |i: int| None::<Seq<WordView>>),
    {
        let mut results: Vec<Vec<Word>> = Vec::new();
        let mut filled: Vec<bool> = Vec::new();
        let mut i: usize = 0;
        while i < chunks
            invariant
                i <= chunks,
                results@.len() == i,
                filled@.len() == i,
                forall|k: int| 0 <= k < i ==> !filled@[k],
            decreases chunks - i,
        {
            results.push(Vec::new());
            filled.push(false);
            i += 1;
        }
        let slots = ResultSlots { results, filled };
        assert(slots@ =~= Seq::new(chunks as nat, |i: int| None::<Seq<WordView>>));
        slots
    }

    /// The number of slots.
    pub fn len(&self) -> (count: usize)
        ensures
            count == self@.len(),
    {
        self.filled.len()
    }

    /// Stores what the worker of chunk `index` recognized. A slot takes one
    /// result only: a second one for the same chunk, or one for a chunk that
    /// does not exist, is turned away and changes nothing.
    pub fn record(&mut self, index: usize, words: Vec<Word>) -> (accepted: bool)
        requires
            old(self).well_formed(),
        ensures
            final(self).well_formed(),
            accepted <==> index < old(self)@.len() && old(self)@[index as int] is None,
            accepted ==> final(self)@ == old(self)@.update(index as int, Some(views(words@))),
            !accepted ==> final(self)@ == old(self)@,
    {
        if index >= self.filled.len() || self.filled[index] {
            return false;
        }
        self.results.set(index, words);
        self.filled.set(index, true);
        assert(self@ =~= old(self)@.update(index as int, Some(views(words@))));
        true
    }

    /// Hands out the results in chunk order once every worker is done.
    ///
    /// Fails with `RecognitionFailure` for the first chunk whose slot is still
    /// empty: its worker produced no result, and a plan made without it would
    /// miss words.
    pub fn join(self) -> (all: Result<Vec<Vec<Word>>, PipelineError>)
        requires
            self.well_formed(),
        ensures
            all is Ok <==> first_missing(self@) == self@.len(),
            all is Ok ==> local_views(all->Ok_0@) == self@.map_values(
                |slot: Option<Seq<WordView>>| slot->Some_0,
            ),
            all is Err ==> (all->Err_0 matches PipelineError::RecognitionFailure { chunk }
                && chunk == first_missing(self@)),
    {
        let mut i: usize = 0;
        while i < self.filled.len()
            invariant
                i <= self.filled@.len(),
                self.well_formed(),
                forall|k: int| 0 <= k < i ==> (#[trigger] self@[k]) is Some,
            decreases self.filled@.len() - i,
        {
            if !self.filled[i] {
                proof {
                    lemma_first_missing(self@);
                    assert(self@[i as int] is None);
                    let at = first_missing(self@);
                    if at < i {
                        assert(self@[at] is Some);
                    }
                    if at > i {
                        assert(self@[i as int] is Some);
                    }
                }
                return Err(PipelineError::RecognitionFailure { chunk: i });
            }
            i += 1;
        }
        proof {
            lemma_first_missing(self@);
            let at = first_missing(self@);
            if at < self@.len() {
                assert(self@[at] is Some);
            }
            assert(local_views(self.results@) =~= self@.map_values(
                |slot: Option<Seq<WordView>>| slot->Some_0,
            )) by {
                assert forall|k: int| 0 <= k < self@.len() implies local_views(self.results@)[k]
                    == (#[trigger] self@[k])->Some_0 by {}
            }
        }
        Ok(self.results)
    }
}

} // verus!

use crate::blocklist::{folded, Blocklist};
use crate::word::{starts_ascend, views, Word, WordView};
use vstd::prelude::*;

verus! {

/// Whether a word is to be redacted: its whole text, folded, is on the list.
pub open spec fn is_blocked(word: WordView, list: Set<Seq<char>>) -> bool {
    list.contains(folded(word.word))
}

/// [`is_blocked`] for a fixed list, as a predicate on words.
pub open spec fn on_list(list: Set<Seq<char>>) -> spec_fn(WordView) -> bool {
    |word: WordView| is_blocked(word, list)
}

/// The words that a filter keeps stay in ascending order of start.
pub proof fn lemma_filter_keeps_ascent(words: Seq<WordView>, keep: spec_fn(WordView) -> bool)
    requires
        starts_ascend(words),
    ensures
        starts_ascend(words.filter(keep)),
    decreases words.len(),
{
    reveal(Seq::filter);
    if words.len() > 0 {
        let front = words.drop_last();
        let kept = front.filter(keep);
        assert forall|i: int, j: int| 0 <= i <= j < front.len() implies front[i].start
            <= front[j].start by {
            assert(front[i] == words[i] && front[j] == words[j]);
        }
        lemma_filter_keeps_ascent(front, keep);
        if keep(words.last()) {
            let all = words.filter(keep);
            assert(all == kept.push(words.last()));
            assert forall|i: int, j: int| 0 <= i <= j < all.len() implies all[i].start
                <= all[j].start by {
                if j == kept.len() && i < j {
                    assert(kept.contains(kept[i]));
                    front.lemma_filter_contains_rev(keep, kept[i]);
                    let at = choose|at: int| 0 <= at < front.len() && front[at] == kept[i];
                    assert(words[at] == kept[i]);
                    assert(words[at].start <= words[words.len() - 1].start);
                }
            }
        }
    }
}

/// A filter keeps nothing exactly when no word passes it.
pub proof fn lemma_filter_empty(words: Seq<WordView>, keep: spec_fn(WordView) -> bool)
    ensures
        words.filter(keep).len() == 0 <==> forall|i: int|
            0 <= i < words.len() ==> !keep(#[trigger] words[i]),
    decreases words.len(),
{
    reveal(Seq::filter);
    if words.len() > 0 {
        let front = words.drop_last();
        lemma_filter_empty(front, keep);
        if words.filter(keep).len() == 0 {
            assert forall|i: int| 0 <= i < words.len() implies !keep(#[trigger] words[i]) by {
                if i < front.len() {
                    assert(front[i] == words[i]);
                }
            }
        } else if !keep(words.last()) {
            let i = choose|i: int| 0 <= i < front.len() && keep(#[trigger] front[i]);
            assert(words[i] == front[i]);
        }
    }
}

/// Picks out the words whose text, folded, is on the blocklist. Only whole
/// words match; the words kept stay as they are and in their order.
pub fn filter_words(words: &Vec<Word>, blocklist: &Blocklist) -> (matched: Vec<Word>)
    ensures
        views(matched@) == views(words@).filter(on_list(blocklist@)),
        matched@.len() == 0 <==> forall|i: int|
            0 <= i < words@.len() ==> !is_blocked((#[trigger] words@[i])@, blocklist@),
        starts_ascend(views(words@)) ==> starts_ascend(views(matched@)),
{
    let ghost all = views(words@);
    let ghost keep = on_list(blocklist@);
    let mut matched: Vec<Word> = Vec::new();
    let mut i: usize = 0;
    proof {
        reveal(Seq::filter);
        assert(all.take(0) =~= Seq::<WordView>::empty());
        assert(views(matched@) =~= all.take(0).filter(keep));
    }
    while i < words.len()
        invariant
            i <= words@.len(),
            all == views(words@),
            keep == on_list(blocklist@),
            views(matched@) == all.take(i as int).filter(keep),
        decreases words@.len() - i,
    {
        let word = &words[i];
        let ghost before = views(matched@);
        proof {
            reveal(Seq::filter);
            assert(all.take(i + 1).drop_last() =~= all.take(i as int));
            assert(all.take(i + 1).last() == word@);
            assert(keep(word@) == is_blocked(word@, blocklist@));
        }
        if blocklist.contains(word.word.as_str()) {
            matched.push(word.clone());
            assert(views(matched@) =~= before.push(word@));
        }
        i += 1;
    }
    proof {
        assert(all.take(i as int) =~= all);
        lemma_filter_empty(all, keep);
        assert(views(matched@).len() == matched@.len());
        assert forall|k: int| 0 <= k < words@.len() implies keep(all[k]) == is_blocked(
            (#[trigger] words@[k])@,
            blocklist@,
        ) by {}
        if matched@.len() == 0 {
            assert forall|k: int| 0 <= k < words@.len() implies !is_blocked(
                (#[trigger] words@[k])@,
                blocklist@,
            ) by {
                assert(!keep(all[k]));
            }
        }
        if starts_ascend(all) {
            lemma_filter_keeps_ascent(all, keep);
        }
    }
    matched
}

} // verus!

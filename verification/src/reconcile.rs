use crate::error::PipelineError;
use crate::word::{starts_ascend, views, Word, WordView, MICROS_PER_SECOND};
use vstd::prelude::*;

verus! {

/// The time at which a chunk begins, in whole microseconds: the samples in
/// front of it divided by the sample rate, rounded down.
pub open spec fn offset_micros(offset_samples: int, sample_rate: int) -> int {
    offset_samples * (MICROS_PER_SECOND as int) / sample_rate
}

/// A word moved `by` microseconds along the timeline, its text untouched.
pub open spec fn shifted(word: WordView, by: int) -> WordView {
    WordView { word: word.word, start: word.start + by, end: word.end + by }
}

/// Every word of a chunk moved `by` microseconds.
pub open spec fn shifted_all(words: Seq<WordView>, by: int) -> Seq<WordView> {
    words.map_values(|w: WordView| shifted(w, by))
}

/// What the recognizers returned, chunk by chunk.
pub open spec fn local_views(locals: Seq<Vec<Word>>) -> Seq<Seq<WordView>> {
    locals.map_values(|chunk: Vec<Word>| views(chunk@))
}

/// The words of the first `upto` chunks on the global timeline: each chunk's
/// words moved by that chunk's offset, the chunks in index order.
pub open spec fn aligned(
    locals: Seq<Seq<WordView>>,
    offsets: Seq<u64>,
    sample_rate: int,
    upto: int,
) -> Seq<WordView>
    decreases upto,
{
    if upto <= 0 {
        Seq::empty()
    } else {
        aligned(locals, offsets, sample_rate, upto - 1) + shifted_all(
            locals[upto - 1],
            offset_micros(offsets[upto - 1] as int, sample_rate),
        )
    }
}

/// Whether both ends of every word, moved `by` microseconds, still fit the
/// 64-bit timeline.
pub open spec fn chunk_fits(words: Seq<WordView>, by: int) -> bool {
    forall|k: int|
        0 <= k < words.len() ==> (#[trigger] words[k]).start + by <= u64::MAX && words[k].end + by
            <= u64::MAX
}

/// Whether the first `upto` chunks reconcile: all their words fit the
/// timeline and, put on it, none starts before its predecessor.
pub open spec fn sound(
    locals: Seq<Seq<WordView>>,
    offsets: Seq<u64>,
    sample_rate: int,
    upto: int,
) -> bool {
    &&& forall|c: int|
        0 <= c < upto ==> chunk_fits(
            #[trigger] locals[c],
            offset_micros(offsets[c] as int, sample_rate),
        )
    &&& starts_ascend(aligned(locals, offsets, sample_rate, upto))
}

/// Whether there is one offset for each chunk and a sample rate to divide by.
pub open spec fn well_posed(chunks: int, offsets: int, sample_rate: int) -> bool {
    chunks == offsets && sample_rate > 0
}

/// Whether `error` is what reconciling these chunks fails with: the two
/// vectors do not go together, or `chunk` is the first chunk that spoils the
/// timeline and the error tells how.
pub open spec fn is_fault(
    error: PipelineError,
    locals: Seq<Seq<WordView>>,
    offsets: Seq<u64>,
    sample_rate: int,
) -> bool {
    match error {
        PipelineError::InvalidInput => !well_posed(
            locals.len() as int,
            offsets.len() as int,
            sample_rate,
        ),
        PipelineError::TimestampOutOfRange { chunk } => {
            &&& well_posed(locals.len() as int, offsets.len() as int, sample_rate)
            &&& chunk < locals.len()
            &&& sound(locals, offsets, sample_rate, chunk as int)
            &&& !chunk_fits(
                locals[chunk as int],
                offset_micros(offsets[chunk as int] as int, sample_rate),
            )
        },
        PipelineError::ReconciliationInconsistency { chunk } => {
            &&& well_posed(locals.len() as int, offsets.len() as int, sample_rate)
            &&& chunk < locals.len()
            &&& sound(locals, offsets, sample_rate, chunk as int)
            &&& chunk_fits(
                locals[chunk as int],
                offset_micros(offsets[chunk as int] as int, sample_rate),
            )
            &&& !starts_ascend(aligned(locals, offsets, sample_rate, chunk + 1))
        },
        _ => false,
    }
}

/// A prefix of an ascending sequence ascends.
proof fn lemma_prefix_ascends(whole: Seq<WordView>, front: Seq<WordView>, rest: Seq<WordView>)
    requires
        whole == front + rest,
        starts_ascend(whole),
    ensures
        starts_ascend(front),
{
    assert forall|i: int, j: int| 0 <= i <= j < front.len() implies front[i].start
        <= front[j].start by {
        assert(whole[i] == front[i] && whole[j] == front[j]);
    }
}

/// Chunks that reconcile up to some index reconcile up to every smaller one.
pub proof fn lemma_sound_prefix(
    locals: Seq<Seq<WordView>>,
    offsets: Seq<u64>,
    sample_rate: int,
    upto: int,
    shorter: int,
)
    requires
        0 <= shorter <= upto,
        sound(locals, offsets, sample_rate, upto),
    ensures
        sound(locals, offsets, sample_rate, shorter),
    decreases upto - shorter,
{
    if shorter < upto {
        lemma_prefix_ascends(
            aligned(locals, offsets, sample_rate, upto),
            aligned(locals, offsets, sample_rate, upto - 1),
            shifted_all(locals[upto - 1], offset_micros(offsets[upto - 1] as int, sample_rate)),
        );
        lemma_sound_prefix(locals, offsets, sample_rate, upto - 1, shorter);
    }
}

/// Whether the first `upto` chunks are in step with the recording: the
/// offsets do not decrease, and each chunk's words ascend, begin at or after
/// the chunk's own start and no later than the next chunk begins.
pub open spec fn in_step(
    locals: Seq<Seq<WordView>>,
    offsets: Seq<u64>,
    sample_rate: int,
    upto: int,
) -> bool {
    &&& forall|c: int| 0 <= c < upto ==> starts_ascend(#[trigger] locals[c])
    &&& forall|c: int, k: int|
        0 <= c < upto && 0 <= k < locals[c].len() ==> 0 <= (#[trigger] locals[c][k]).start
    &&& forall|c: int, k: int|
        0 <= c < upto - 1 && 0 <= k < locals[c].len() ==> (#[trigger] locals[c][k]).start
            + offset_micros(offsets[c] as int, sample_rate) <= offset_micros(
            offsets[c + 1] as int,
            sample_rate,
        )
    &&& forall|c: int| 0 <= c < upto - 1 ==> offsets[c] <= #[trigger] offsets[c + 1]
}

/// The words of the first `shorter` chunks of chunks in step ascend on the
/// global timeline, and none starts after the next chunk begins.
proof fn lemma_in_step_ascends(
    locals: Seq<Seq<WordView>>,
    offsets: Seq<u64>,
    sample_rate: int,
    upto: int,
    shorter: int,
)
    requires
        sample_rate > 0,
        0 <= shorter <= upto <= locals.len(),
        upto <= offsets.len(),
        in_step(locals, offsets, sample_rate, upto),
    ensures
        starts_ascend(aligned(locals, offsets, sample_rate, shorter)),
        shorter < upto ==> forall|i: int|
            0 <= i < aligned(locals, offsets, sample_rate, shorter).len() ==> (#[trigger] aligned(
                locals,
                offsets,
                sample_rate,
                shorter,
            )[i]).start <= offset_micros(offsets[shorter] as int, sample_rate),
    decreases shorter,
{
    if shorter > 0 {
        let c = shorter - 1;
        lemma_in_step_ascends(locals, offsets, sample_rate, upto, c);
        let front = aligned(locals, offsets, sample_rate, c);
        let by = offset_micros(offsets[c] as int, sample_rate);
        let moved = shifted_all(locals[c], by);
        let whole = aligned(locals, offsets, sample_rate, shorter);
        assert(whole == front + moved);
        assert forall|k: int| 0 <= k < moved.len() implies by <= (#[trigger] moved[k]).start by {
            assert(0 <= locals[c][k].start);
        }
        assert forall|i: int, j: int| 0 <= i <= j < whole.len() implies whole[i].start
            <= whole[j].start by {
            if j < front.len() {
                assert(whole[i] == front[i] && whole[j] == front[j]);
            } else if i < front.len() {
                assert(whole[i] == front[i]);
                assert(whole[j] == moved[j - front.len()]);
            } else {
                assert(whole[i] == moved[i - front.len()]);
                assert(whole[j] == moved[j - front.len()]);
                assert(locals[c][i - front.len()].start <= locals[c][j - front.len()].start);
            }
        }
        if shorter < upto {
            let next = offset_micros(offsets[shorter] as int, sample_rate);
            assert(offsets[c] <= offsets[c + 1]);
            vstd::arithmetic::div_mod::lemma_div_is_ordered(
                offsets[c] as int * (MICROS_PER_SECOND as int),
                offsets[shorter] as int * (MICROS_PER_SECOND as int),
                sample_rate,
            );
            assert(by <= next);
            assert forall|i: int| 0 <= i < whole.len() implies (#[trigger] whole[i]).start
                <= next by {
                if i < front.len() {
                    assert(whole[i] == front[i]);
                } else {
                    assert(whole[i] == moved[i - front.len()]);
                    assert(locals[c][i - front.len()].start + by <= next);
                }
            }
        }
    }
}

/// Chunks in step with the recording reconcile wherever their timestamps
/// fit: with offsets that do not decrease and words that stay within their
/// chunks, the words come out in ascending order of start.
pub proof fn lemma_in_step_is_sound(
    locals: Seq<Seq<WordView>>,
    offsets: Seq<u64>,
    sample_rate: int,
    upto: int,
)
    requires
        sample_rate > 0,
        0 <= upto <= locals.len(),
        upto <= offsets.len(),
        in_step(locals, offsets, sample_rate, upto),
        forall|c: int|
            0 <= c < upto ==> chunk_fits(
                #[trigger] locals[c],
                offset_micros(offsets[c] as int, sample_rate),
            ),
    ensures
        sound(locals, offsets, sample_rate, upto),
{
    lemma_in_step_ascends(locals, offsets, sample_rate, upto, upto);
}

/// Puts the chunk-local words on the recording's timeline. Chunk `i`'s words
/// are moved by `offsets[i]` samples' worth of microseconds and the chunks are
/// concatenated in index order; nothing is sorted.
///
/// Fails with `InvalidInput` when the two vectors differ in length or the
/// sample rate is zero. Otherwise the first chunk that spoils the timeline
/// decides: `TimestampOutOfRange` when one of its words leaves the 64-bit
/// range, `ReconciliationInconsistency` when one of its words starts before
/// its predecessor.
pub fn reconcile(locals: &Vec<Vec<Word>>, offsets: &Vec<u64>, sample_rate: u32) -> (global: Result<
    Vec<Word>,
    PipelineError,
>)
    ensures
        global is Ok <==> well_posed(
            locals@.len() as int,
            offsets@.len() as int,
            sample_rate as int,
        ) && sound(local_views(locals@), offsets@, sample_rate as int, locals@.len() as int),
        global is Ok ==> views(global->Ok_0@) == aligned(
            local_views(locals@),
            offsets@,
            sample_rate as int,
            locals@.len() as int,
        ),
        global is Ok ==> starts_ascend(views(global->Ok_0@)),
        global is Err ==> is_fault(
            global->Err_0,
            local_views(locals@),
            offsets@,
            sample_rate as int,
        ),
{
    if locals.len() != offsets.len() || sample_rate == 0 {
        return Err(PipelineError::InvalidInput);
    }
    let ghost lv = local_views(locals@);
    let ghost rate = sample_rate as int;
    let ghost total = locals@.len() as int;
    let mut out: Vec<Word> = Vec::new();
    let mut latest: u64 = 0;
    let mut c: usize = 0;
    while c < locals.len()
        invariant
            c <= locals@.len(),
            locals@.len() == offsets@.len(),
            total == locals@.len(),
            sample_rate > 0,
            lv == local_views(locals@),
            rate == sample_rate as int,
            views(out@) == aligned(lv, offsets@, rate, c as int),
            sound(lv, offsets@, rate, c as int),
            out@.len() == 0 ==> latest == 0,
            out@.len() > 0 ==> latest == out@.last().start,
        decreases locals@.len() - c,
    {
        let chunk = &locals[c];
        let wide: u128 = (offsets[c] as u128) * (MICROS_PER_SECOND as u128) / (sample_rate as u128);
        let ghost by = offset_micros(offsets@[c as int] as int, rate);
        let ghost words = lv[c as int];
        let ghost done = aligned(lv, offsets@, rate, c as int);
        assert(wide == by);
        assert(words == views(chunk@));
        let mut k: usize = 0;
        while k < chunk.len()
            invariant
                k <= chunk@.len(),
                c < total,
                total == locals@.len(),
                locals@.len() == offsets@.len(),
                sample_rate > 0,
                rate == sample_rate as int,
                lv == local_views(locals@),
                words == views(chunk@),
                words == lv[c as int],
                by == offset_micros(offsets@[c as int] as int, rate),
                sound(lv, offsets@, rate, c as int),
                wide == by,
                wide <= 0xFFFF_FFFF_FFFF_FFFFu128 * 1_000_000u128,
                forall|j: int|
                    0 <= j < k ==> (#[trigger] words[j]).start + by <= u64::MAX && words[j].end
                        + by <= u64::MAX,
            decreases chunk@.len() - k,
        {
            let word = &chunk[k];
            assert(words[k as int] == word@);
            if word.start as u128 + wide > u64::MAX as u128 || word.end as u128 + wide
                > u64::MAX as u128 {
                proof {
                    assert(!chunk_fits(words, by));
                    assert(!sound(lv, offsets@, rate, total));
                }
                return Err(PipelineError::TimestampOutOfRange { chunk: c });
            }
            k += 1;
        }
        assert(chunk_fits(words, by));
        let shift: u64 = if chunk.len() == 0 {
            0
        } else {
            assert(words[0].start + by <= u64::MAX);
            wide as u64
        };
        let mut k: usize = 0;
        assert(shifted_all(words, by).take(0) =~= Seq::<WordView>::empty());
        assert(done + Seq::<WordView>::empty() =~= done);
        while k < chunk.len()
            invariant
                k <= chunk@.len(),
                c < total,
                total == locals@.len(),
                locals@.len() == offsets@.len(),
                sample_rate > 0,
                rate == sample_rate as int,
                lv == local_views(locals@),
                words == views(chunk@),
                words == lv[c as int],
                chunk_fits(words, by),
                0 <= by,
                chunk@.len() > 0 ==> shift == by,
                done == aligned(lv, offsets@, rate, c as int),
                by == offset_micros(offsets@[c as int] as int, rate),
                sound(lv, offsets@, rate, c as int),
                views(out@) == done + shifted_all(words, by).take(k as int),
                starts_ascend(views(out@)),
                out@.len() == 0 ==> latest == 0,
                out@.len() > 0 ==> latest == out@.last().start,
            decreases chunk@.len() - k,
        {
            let word = &chunk[k];
            assert(words[k as int] == word@);
            let start = word.start + shift;
            let end = word.end + shift;
            let ghost moved = shifted_all(words, by);
            let ghost next = aligned(lv, offsets@, rate, c + 1);
            assert(next == done + moved);
            assert(moved[k as int] == shifted(word@, by));
            if start < latest {
                proof {
                    let at = done.len() + k;
                    let held = views(out@);
                    assert(moved.take(k as int).len() == k);
                    assert(held.len() == out@.len());
                    assert(out@.len() == at);
                    assert(next[at] == moved[k as int]);
                    let i = at - 1;
                    assert(held[i] == out@[i]@);
                    assert(next[i] == held[i]) by {
                        if i < done.len() {
                            assert(next[i] == done[i]);
                            assert(held[i] == done[i]);
                        } else {
                            assert(next[i] == moved[i - done.len()]);
                            assert(held[i] == moved.take(k as int)[i - done.len()]);
                        }
                    }
                    assert(next[i].start > next[at].start);
                    assert(!starts_ascend(next));
                    if sound(lv, offsets@, rate, total) {
                        lemma_sound_prefix(lv, offsets@, rate, total, c + 1);
                    }
                }
                return Err(PipelineError::ReconciliationInconsistency { chunk: c });
            }
            let ghost before = views(out@);
            let ghost out_before = out@;
            out.push(Word { word: word.word.clone(), start, end });
            latest = start;
            proof {
                assert(out@.last()@ == moved[k as int]);
                assert(views(out@) =~= before.push(moved[k as int]));
                assert(moved.take(k + 1) =~= moved.take(k as int).push(moved[k as int]));
                assert(views(out@) =~= done + moved.take(k + 1));
                assert forall|i: int, j: int| 0 <= i <= j < out@.len() implies views(out@)[i].start
                    <= views(out@)[j].start by {
                    assert(before.len() == out_before.len());
                    if j < out_before.len() {
                        assert(views(out@)[i] == before[i] && views(out@)[j] == before[j]);
                    } else if i < out_before.len() {
                        assert(views(out@)[i] == before[i]);
                        assert(before[i].start <= before[out_before.len() - 1].start);
                        assert(before[out_before.len() - 1] == out_before.last()@);
                    }
                }
            }
            k += 1;
        }
        proof {
            let moved = shifted_all(words, by);
            assert(moved.take(k as int) =~= moved);
            assert(views(out@) == aligned(lv, offsets@, rate, c + 1));
            assert forall|j: int| 0 <= j < c + 1 implies chunk_fits(
                #[trigger] lv[j],
                offset_micros(offsets@[j] as int, rate),
            ) by {}
        }
        c += 1;
    }
    Ok(out)
}

} // verus!

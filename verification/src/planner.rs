use crate::word::{starts_ascend, views, MuteInterval, Span, Word, WordView};
use vstd::prelude::*;

verus! {

/// The spans of a sequence of words, in order.
pub open spec fn spans_of(words: Seq<WordView>) -> Seq<Span> {
    words.map_values(|w: WordView| Span { start: w.start, end: w.end })
}

/// The spans of a sequence of mute intervals, in order.
pub open spec fn intervals(plan: Seq<MuteInterval>) -> Seq<Span> {
    plan.map_values(|m: MuteInterval| m@)
}

/// Whether the microsecond that begins at `t` lies inside `span`.
pub open spec fn holds(span: Span, t: int) -> bool {
    span.start <= t < span.end
}

/// Whether the microsecond that begins at `t` lies inside one of `spans`.
pub open spec fn covers(spans: Seq<Span>, t: int) -> bool {
    exists|i: int| 0 <= i < spans.len() && holds(#[trigger] spans[i], t)
}

/// Whether no span starts before the one in front of it.
pub open spec fn span_starts_ascend(spans: Seq<Span>) -> bool {
    forall|i: int, j: int| 0 <= i <= j < spans.len() ==> spans[i].start <= spans[j].start
}

/// A redaction plan: intervals of positive length, ascending, of which no two
/// overlap or touch.
pub open spec fn is_plan(plan: Seq<Span>) -> bool {
    &&& forall|i: int| 0 <= i < plan.len() ==> (#[trigger] plan[i]).start < plan[i].end
    &&& forall|i: int, j: int| 0 <= i < j < plan.len() ==> plan[i].end < plan[j].start
}

/// The smaller of two instants.
pub open spec fn earlier(a: int, b: int) -> int {
    if a <= b {
        a
    } else {
        b
    }
}

/// The greater of two instants.
pub open spec fn later(a: int, b: int) -> int {
    if a >= b {
        a
    } else {
        b
    }
}

/// The plan after one more span: a span without length changes nothing; one
/// that overlaps or touches the plan's last interval is joined with it; any
/// other becomes the new last interval.
pub open spec fn absorb(plan: Seq<Span>, span: Span) -> Seq<Span> {
    if span.end <= span.start {
        plan
    } else if plan.len() > 0 && span.start <= plan.last().end {
        plan.drop_last().push(
            Span {
                start: earlier(plan.last().start, span.start),
                end: later(plan.last().end, span.end),
            },
        )
    } else {
        plan.push(span)
    }
}

/// The plan that absorbing `spans` one after the other gives.
pub open spec fn merged(spans: Seq<Span>) -> Seq<Span>
    decreases spans.len(),
{
    if spans.len() == 0 {
        Seq::empty()
    } else {
        absorb(merged(spans.drop_last()), spans.last())
    }
}

/// Of spans in ascending order of start, the merged plan is a valid plan and
/// silences exactly the microseconds that some span covers.
pub proof fn lemma_merged_is_minimal_cover(spans: Seq<Span>)
    requires
        span_starts_ascend(spans),
    ensures
        is_plan(merged(spans)),
        forall|t: int| covers(merged(spans), t) <==> covers(spans, t),
        merged(spans).len() > 0 ==> spans.len() > 0 && merged(spans).last().start
            <= spans.last().start,
    decreases spans.len(),
{
    if spans.len() > 0 {
        let front = spans.drop_last();
        let span = spans.last();
        let before = merged(front);
        let after = merged(spans);
        lemma_merged_is_minimal_cover(front);
        assert(front.len() > 0 ==> front.last() == spans[spans.len() - 2]);
        assert forall|t: int| covers(spans, t) <==> (covers(front, t) || holds(span, t)) by {
            if covers(spans, t) {
                let i = choose|i: int| 0 <= i < spans.len() && holds(#[trigger] spans[i], t);
                if i < spans.len() - 1 {
                    assert(holds(front[i], t));
                }
            }
            if covers(front, t) {
                let i = choose|i: int| 0 <= i < front.len() && holds(#[trigger] front[i], t);
                assert(holds(spans[i], t));
            }
            if holds(span, t) {
                assert(holds(spans[spans.len() - 1], t));
            }
        }
        if span.end <= span.start {
            assert(after == before);
        } else if before.len() > 0 && span.start <= before.last().end {
            let last = before.last();
            let joint = Span {
                start: earlier(last.start, span.start),
                end: later(last.end, span.end),
            };
            let kept = before.drop_last();
            assert(after == kept.push(joint));
            assert(last == before[before.len() - 1]);
            assert(joint.start == last.start);
            assert forall|i: int, j: int| 0 <= i < j < after.len() implies after[i].end
                < after[j].start by {
                assert(after[i] == before[i]);
            }
            assert forall|t: int| covers(after, t) <==> (covers(before, t) || holds(span, t)) by {
                if covers(after, t) {
                    let i = choose|i: int| 0 <= i < after.len() && holds(#[trigger] after[i], t);
                    if i < kept.len() {
                        assert(holds(before[i], t));
                    } else if !holds(span, t) {
                        assert(holds(before[before.len() - 1], t));
                    }
                }
                if covers(before, t) {
                    let i = choose|i: int| 0 <= i < before.len() && holds(#[trigger] before[i], t);
                    if i < kept.len() {
                        assert(holds(after[i], t));
                    } else {
                        assert(holds(after[after.len() - 1], t));
                    }
                }
                if holds(span, t) {
                    assert(holds(after[after.len() - 1], t));
                }
            }
        } else {
            assert(after == before.push(span));
            assert forall|i: int, j: int| 0 <= i < j < after.len() implies after[i].end
                < after[j].start by {
                if j == before.len() {
                    assert(before[i].end <= before.last().end);
                }
            }
            assert forall|t: int| covers(after, t) <==> (covers(before, t) || holds(span, t)) by {
                if covers(after, t) {
                    let i = choose|i: int| 0 <= i < after.len() && holds(#[trigger] after[i], t);
                    if i < before.len() {
                        assert(holds(before[i], t));
                    }
                }
                if covers(before, t) {
                    let i = choose|i: int| 0 <= i < before.len() && holds(#[trigger] before[i], t);
                    assert(holds(after[i], t));
                }
                if holds(span, t) {
                    assert(holds(after[after.len() - 1], t));
                }
            }
        }
    }
}

/// Merging is idempotent on valid input: a sequence that already is a plan
/// comes back unchanged.
pub proof fn lemma_merged_keeps_plans(plan: Seq<Span>)
    requires
        is_plan(plan),
    ensures
        merged(plan) == plan,
    decreases plan.len(),
{
    if plan.len() > 0 {
        let front = plan.drop_last();
        lemma_merged_keeps_plans(front);
        assert(plan.last() == plan[plan.len() - 1]);
        if front.len() > 0 {
            assert(front.last() == plan[plan.len() - 2]);
        }
        assert(front.push(plan.last()) =~= plan);
    } else {
        assert(merged(plan) =~= plan);
    }
}

/// Without its last interval a plan covers what it covered before, less
/// the microseconds of that interval.
proof fn lemma_cover_without_last(plan: Seq<Span>, t: int)
    requires
        is_plan(plan),
        plan.len() > 0,
    ensures
        covers(plan.drop_last(), t) <==> covers(plan, t) && !holds(plan.last(), t),
{
    let front = plan.drop_last();
    let last = plan.len() - 1;
    if covers(front, t) {
        let i = choose|i: int| 0 <= i < front.len() && holds(#[trigger] front[i], t);
        assert(holds(plan[i], t));
        assert(plan[i].end < plan[last].start);
    }
    if covers(plan, t) && !holds(plan.last(), t) {
        let i = choose|i: int| 0 <= i < plan.len() && holds(#[trigger] plan[i], t);
        assert(holds(front[i], t));
    }
}

/// The last interval of a plan ends no later than that of another plan
/// which covers at least as much.
proof fn lemma_last_end_is_covered(plan: Seq<Span>, other: Seq<Span>)
    requires
        is_plan(plan),
        is_plan(other),
        plan.len() > 0,
        forall|t: int| covers(plan, t) ==> covers(other, t),
    ensures
        other.len() > 0,
        plan.last().end <= other.last().end,
{
    let t = plan.last().end - 1;
    assert(holds(plan[plan.len() - 1], t));
    assert(covers(plan, t));
    let j = choose|j: int| 0 <= j < other.len() && holds(#[trigger] other[j], t);
    if j < other.len() - 1 {
        assert(other[j].end < other[other.len() - 1].start);
    }
}

/// The last interval of a plan starts no earlier than that of another plan
/// which covers as much and ends with it.
proof fn lemma_last_start_is_bounded(plan: Seq<Span>, other: Seq<Span>)
    requires
        is_plan(plan),
        is_plan(other),
        plan.len() > 0,
        other.len() > 0,
        plan.last().end == other.last().end,
        forall|t: int| covers(plan, t) ==> covers(other, t),
    ensures
        other.last().start <= plan.last().start,
{
    let a = plan.last();
    let b = other.last();
    if a.start < b.start {
        let t = b.start - 1;
        assert(holds(plan[plan.len() - 1], t));
        assert(covers(plan, t));
        let j = choose|j: int| 0 <= j < other.len() && holds(#[trigger] other[j], t);
        if j < other.len() - 1 {
            assert(other[j].end < other[other.len() - 1].start);
        }
    }
}

/// A plan is determined by what it silences: two plans that cover the same
/// microseconds are the same sequence of intervals.
pub proof fn lemma_plan_is_unique(plan: Seq<Span>, other: Seq<Span>)
    requires
        is_plan(plan),
        is_plan(other),
        forall|t: int| covers(plan, t) <==> covers(other, t),
    ensures
        plan == other,
    decreases plan.len(),
{
    if plan.len() == 0 {
        if other.len() > 0 {
            assert(holds(other[0], other[0].start));
            assert(covers(other, other[0].start));
        }
        assert(plan =~= other);
    } else {
        lemma_last_end_is_covered(plan, other);
        lemma_last_end_is_covered(other, plan);
        lemma_last_start_is_bounded(plan, other);
        lemma_last_start_is_bounded(other, plan);
        let front = plan.drop_last();
        let other_front = other.drop_last();
        assert(plan.last() == other.last());
        assert forall|t: int| covers(front, t) <==> covers(other_front, t) by {
            lemma_cover_without_last(plan, t);
            lemma_cover_without_last(other, t);
        }
        assert(is_plan(front)) by {
            assert forall|i: int| 0 <= i < front.len() implies (#[trigger] front[i]).start
                < front[i].end by {
                assert(front[i] == plan[i]);
            }
            assert forall|i: int, j: int| 0 <= i < j < front.len() implies front[i].end
                < front[j].start by {
                assert(front[i] == plan[i] && front[j] == plan[j]);
            }
        }
        assert(is_plan(other_front)) by {
            assert forall|i: int| 0 <= i < other_front.len() implies (#[trigger] other_front[i]).start
                < other_front[i].end by {
                assert(other_front[i] == other[i]);
            }
            assert forall|i: int, j: int| 0 <= i < j < other_front.len() implies other_front[i].end
                < other_front[j].start by {
                assert(other_front[i] == other[i] && other_front[j] == other[j]);
            }
        }
        lemma_plan_is_unique(front, other_front);
        assert(plan =~= front.push(plan.last()));
        assert(other =~= other_front.push(other.last()));
    }
}

/// A plan lies within the bounds of the spans it was merged from: where
/// every span lies between `low` and `high`, so does every interval.
pub proof fn lemma_merged_within_bounds(spans: Seq<Span>, low: int, high: int)
    requires
        span_starts_ascend(spans),
        forall|i: int|
            0 <= i < spans.len() ==> low <= (#[trigger] spans[i]).start && spans[i].end <= high,
    ensures
        forall|k: int|
            0 <= k < merged(spans).len() ==> low <= (#[trigger] merged(spans)[k]).start
                && merged(spans)[k].end <= high,
{
    lemma_merged_is_minimal_cover(spans);
    let plan = merged(spans);
    assert forall|k: int| 0 <= k < plan.len() implies low <= (#[trigger] plan[k]).start
        && plan[k].end <= high by {
        let first = plan[k].start;
        let last = plan[k].end - 1;
        assert(holds(plan[k], first));
        assert(holds(plan[k], last));
        assert(covers(plan, first));
        assert(covers(plan, last));
        assert(covers(spans, first));
        assert(covers(spans, last));
    }
}

/// Collapses the matched words, given in ascending order of start, into the
/// redaction plan: spans that overlap or touch become one interval from the
/// earliest start to the latest end, and a word without length mutes nothing.
///
/// The plan is empty exactly when no matched word has positive length.
pub fn plan_redactions(matched: &Vec<Word>) -> (plan: Vec<MuteInterval>)
    requires
        starts_ascend(views(matched@)),
    ensures
        intervals(plan@) == merged(spans_of(views(matched@))),
        is_plan(intervals(plan@)),
        forall|t: int| covers(intervals(plan@), t) <==> covers(spans_of(views(matched@)), t),
        plan@.len() == 0 <==> forall|i: int|
            0 <= i < matched@.len() ==> (#[trigger] matched@[i]).end <= matched@[i].start,
{
    let ghost spans = spans_of(views(matched@));
    let mut plan: Vec<MuteInterval> = Vec::new();
    let mut i: usize = 0;
    assert(spans.take(0) =~= Seq::<Span>::empty());
    while i < matched.len()
        invariant
            i <= matched@.len(),
            spans == spans_of(views(matched@)),
            intervals(plan@) == merged(spans.take(i as int)),
        decreases matched@.len() - i,
    {
        let word = &matched[i];
        proof {
            assert(spans.take(i + 1).drop_last() =~= spans.take(i as int));
            assert(spans.take(i + 1).last() == spans[i as int]);
            assert(spans[i as int] == Span { start: word.start as int, end: word.end as int });
        }
        let ghost before = intervals(plan@);
        if word.start < word.end {
            let n = plan.len();
            if n > 0 && word.start <= plan[n - 1].end {
                let last = plan[n - 1];
                let start = if last.start <= word.start {
                    last.start
                } else {
                    word.start
                };
                let end = if last.end >= word.end {
                    last.end
                } else {
                    word.end
                };
                plan.set(n - 1, MuteInterval { start, end });
                assert(intervals(plan@) =~= absorb(before, spans[i as int]));
            } else {
                plan.push(MuteInterval { start: word.start, end: word.end });
                assert(intervals(plan@) =~= absorb(before, spans[i as int]));
            }
        }
        i += 1;
    }
    proof {
        assert(spans.take(i as int) =~= spans);
        assert(span_starts_ascend(spans));
        lemma_merged_is_minimal_cover(spans);
        lemma_empty_plan(spans);
        assert(intervals(plan@).len() == plan@.len());
        assert forall|k: int| 0 <= k < spans.len() implies (#[trigger] spans[k]).start
            == matched@[k].start && spans[k].end == matched@[k].end by {}
        if plan@.len() == 0 {
            assert forall|k: int| 0 <= k < matched@.len() implies (#[trigger] matched@[k]).end
                <= matched@[k].start by {
                assert(spans[k].end <= spans[k].start);
            }
        }
    }
    plan
}

/// The merged plan is empty exactly when no span has positive length.
pub proof fn lemma_empty_plan(spans: Seq<Span>)
    ensures
        merged(spans).len() == 0 <==> forall|i: int|
            0 <= i < spans.len() ==> (#[trigger] spans[i]).end <= spans[i].start,
    decreases spans.len(),
{
    if spans.len() > 0 {
        let front = spans.drop_last();
        lemma_empty_plan(front);
        if merged(spans).len() == 0 {
            assert forall|i: int| 0 <= i < spans.len() implies (#[trigger] spans[i]).end
                <= spans[i].start by {
                if i < front.len() {
                    assert(front[i] == spans[i]);
                }
            }
        } else if spans.last().end <= spans.last().start {
            let i = choose|i: int| 0 <= i < front.len() && !((#[trigger] front[i]).end
                <= front[i].start);
            assert(spans[i] == front[i]);
        }
    }
}

} // verus!

use crate::blocklist::Blocklist;
use crate::chunker::Chunk;
use crate::error::PipelineError;
use crate::filter::{filter_words, is_blocked, on_list};
use crate::planner::{covers, intervals, is_plan, merged, plan_redactions, spans_of};
use crate::reconcile::{aligned, is_fault, local_views, reconcile, sound, well_posed};
use crate::word::{MuteInterval, Word, WordView};
use vstd::prelude::*;

verus! {

/// What a run hands to the renderer: the intervals to mute and, for the log,
/// the number of words that matched the blocklist.
#[derive(Debug)]
pub struct Redaction {
    pub plan: Vec<MuteInterval>,
    pub matched: usize,
}

impl Redaction {
    /// Whether there is nothing to mute, so that the renderer need not run.
    pub fn nothing_to_redact(&self) -> (nothing: bool)
        ensures
            nothing <==> self.plan@.len() == 0,
    {
        self.plan.len() == 0
    }
}

/// The words of a timeline that are on the list, in their order.
pub open spec fn hits(global: Seq<WordView>, list: Set<Seq<char>>) -> Seq<WordView> {
    global.filter(on_list(list))
}

/// Whether `redaction` is what the words of `global` and the list call for:
/// the count of the words on the list and the merged plan of their spans.
pub open spec fn is_redaction_of(
    redaction: Redaction,
    global: Seq<WordView>,
    list: Set<Seq<char>>,
) -> bool {
    &&& redaction.matched == hits(global, list).len()
    &&& intervals(redaction.plan@) == merged(spans_of(hits(global, list)))
    &&& is_plan(intervals(redaction.plan@))
    &&& forall|t: int|
        covers(intervals(redaction.plan@), t) <==> covers(spans_of(hits(global, list)), t)
}

/// Accepts the audio format the recognizers take, mono integer PCM, and
/// fails with `UnsupportedAudioFormat` on any other.
pub fn check_format(channels: u16, integer_samples: bool) -> (checked: Result<(), PipelineError>)
    ensures
        checked is Ok <==> channels == 1 && integer_samples,
        checked is Err ==> checked->Err_0 == PipelineError::UnsupportedAudioFormat,
{
    if channels == 1 && integer_samples {
        Ok(())
    } else {
        Err(PipelineError::UnsupportedAudioFormat)
    }
}

/// The sample offset of each chunk, in chunk order.
pub fn chunk_offsets(chunks: &Vec<Chunk>) -> (offsets: Vec<u64>)
    ensures
        offsets@.len() == chunks@.len(),
        forall|i: int| 0 <= i < chunks@.len() ==> offsets@[i] == chunks@[i].offset_samples,
{
    let mut offsets: Vec<u64> = Vec::new();
    let mut i: usize = 0;
    while i < chunks.len()
        invariant
            i <= chunks@.len(),
            offsets@.len() == i,
            forall|k: int| 0 <= k < i ==> offsets@[k] == chunks@[k].offset_samples,
        decreases chunks@.len() - i,
    {
        offsets.push(chunks[i].offset_samples);
        i += 1;
    }
    offsets
}

/// From the recognizers' chunk-local words to the redaction: the words are
/// put on the recording's timeline, those on the blocklist picked out, and
/// their spans merged into the plan.
///
/// Fails as [`reconcile`] does, and on the same inputs. With no word on the
/// list, as with an empty list, the plan is empty and the count is 0.
pub fn redact(
    locals: &Vec<Vec<Word>>,
    offsets: &Vec<u64>,
    sample_rate: u32,
    blocklist: &Blocklist,
) -> (outcome: Result<Redaction, PipelineError>)
    ensures
        outcome is Ok <==> well_posed(
            locals@.len() as int,
            offsets@.len() as int,
            sample_rate as int,
        ) && sound(local_views(locals@), offsets@, sample_rate as int, locals@.len() as int),
        outcome is Err ==> is_fault(
            outcome->Err_0,
            local_views(locals@),
            offsets@,
            sample_rate as int,
        ),
        outcome is Ok ==> is_redaction_of(
            outcome->Ok_0,
            aligned(local_views(locals@), offsets@, sample_rate as int, locals@.len() as int),
            blocklist@,
        ),
        outcome is Ok && (forall|i: int|
            0 <= i < aligned(
                local_views(locals@),
                offsets@,
                sample_rate as int,
                locals@.len() as int,
            ).len() ==> !is_blocked(
                #[trigger] aligned(
                    local_views(locals@),
                    offsets@,
                    sample_rate as int,
                    locals@.len() as int,
                )[i],
                blocklist@,
            )) ==> outcome->Ok_0.matched == 0 && outcome->Ok_0.plan@.len() == 0,
        outcome is Ok && blocklist@ == Set::<Seq<char>>::empty() ==> outcome->Ok_0.matched == 0
            && outcome->Ok_0.plan@.len() == 0,
{
    let global = match reconcile(locals, offsets, sample_rate) {
        Ok(global) => global,
        Err(error) => {
            return Err(error);
        },
    };
    let matched = filter_words(&global, blocklist);
    let plan = plan_redactions(&matched);
    let count = matched.len();
    proof {
        let timeline = aligned(
            local_views(locals@),
            offsets@,
            sample_rate as int,
            locals@.len() as int,
        );
        let found = hits(timeline, blocklist@);
        assert(crate::word::views(matched@) == found);
        assert(found.len() == matched@.len());
        crate::filter::lemma_filter_empty(timeline, on_list(blocklist@));
        crate::planner::lemma_empty_plan(spans_of(found));
        assert(intervals(plan@).len() == plan@.len());
        if found.len() == 0 {
            assert(spans_of(found).len() == 0);
        }
    }
    Ok(Redaction { plan, matched: count })
}

} // verus!

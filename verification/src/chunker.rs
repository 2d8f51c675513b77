use crate::error::PipelineError;
use vstd::prelude::*;
use vstd::slice::{slice_subrange, slice_to_vec};

verus! {

/// One worker's share of the sample buffer.
#[derive(Debug)]
pub struct Chunk {
    /// Position of the chunk among its siblings.
    pub index: usize,
    /// Number of samples of the buffer that precede this chunk.
    pub offset_samples: u64,
    /// The chunk's own samples.
    pub samples: Vec<i16>,
}

/// Samples in every chunk but the last when `total` samples go to `workers`.
pub open spec fn chunk_size(total: int, workers: int) -> int {
    total / workers
}

/// Where chunk `i` begins in a buffer of `total` samples.
pub open spec fn chunk_start(total: int, workers: int, i: int) -> int {
    i * chunk_size(total, workers)
}

/// Where chunk `i` ends: the last chunk runs to the end of the buffer.
pub open spec fn chunk_end(total: int, workers: int, i: int) -> int {
    if i == workers - 1 {
        total
    } else {
        (i + 1) * chunk_size(total, workers)
    }
}

/// Whether `chunks` is the split of `buffer` into equal contiguous parts, the
/// last of which takes the remainder.
pub open spec fn is_split_of(chunks: Seq<Chunk>, buffer: Seq<i16>, workers: int) -> bool {
    &&& chunks.len() == workers
    &&& forall|i: int|
        0 <= i < chunks.len() ==> {
            &&& (#[trigger] chunks[i]).index == i
            &&& chunks[i].offset_samples == chunk_start(buffer.len() as int, workers, i)
            &&& chunks[i].samples@ == buffer.subrange(
                chunk_start(buffer.len() as int, workers, i),
                chunk_end(buffer.len() as int, workers, i),
            )
        }
}

/// The samples of the first `upto` chunks, one chunk after the other.
pub open spec fn joined(chunks: Seq<Chunk>, upto: int) -> Seq<i16>
    decreases upto,
{
    if upto <= 0 {
        Seq::empty()
    } else {
        joined(chunks, upto - 1) + chunks[upto - 1].samples@
    }
}

/// Chunk boundaries lie inside the buffer and in order.
pub proof fn lemma_chunk_bounds(total: int, workers: int, i: int)
    requires
        0 <= total,
        0 <= i < workers,
    ensures
        0 <= chunk_start(total, workers, i) <= chunk_end(total, workers, i) <= total,
        i + 1 < workers ==> chunk_end(total, workers, i) == chunk_start(total, workers, i + 1),
        chunk_start(total, workers, 0) == 0,
        chunk_end(total, workers, workers - 1) == total,
{
    let size = total / workers;
    assert(0 <= size && size * workers <= total) by (nonlinear_arith)
        requires
            0 <= total,
            0 < workers,
            size == total / workers,
    ;
    assert(0 <= i * size && i * size <= (i + 1) * size && (i + 1) * size <= size * workers)
        by (nonlinear_arith)
        requires
            0 <= i < workers,
            0 <= size,
    ;
}

/// Every chunk starts where the one before it ended, the first at sample 0
/// and the last ending with the buffer, so that the chunks put together in
/// index order are the buffer again: no sample is lost and none is doubled.
pub proof fn lemma_split_is_exhaustive(chunks: Seq<Chunk>, buffer: Seq<i16>, workers: int)
    requires
        0 < workers,
        is_split_of(chunks, buffer, workers),
    ensures
        chunks[0].offset_samples == 0,
        forall|i: int|
            0 <= i < workers - 1 ==> (#[trigger] chunks[i]).offset_samples + chunks[i].samples@.len()
                == chunks[i + 1].offset_samples,
        chunks[workers - 1].offset_samples + chunks[workers - 1].samples@.len() == buffer.len(),
        joined(chunks, workers) == buffer,
{
    let total = buffer.len() as int;
    assert forall|i: int| 0 <= i < workers implies (#[trigger] chunks[i]).offset_samples
        + chunks[i].samples@.len() == chunk_end(total, workers, i) by {
        lemma_chunk_bounds(total, workers, i);
    }
    assert forall|i: int| 0 <= i < workers - 1 implies (#[trigger] chunks[i]).offset_samples
        + chunks[i].samples@.len() == chunks[i + 1].offset_samples by {
        lemma_chunk_bounds(total, workers, i);
    }
    lemma_chunk_bounds(total, workers, 0);
    lemma_chunk_bounds(total, workers, workers - 1);
    lemma_joined_prefix(chunks, buffer, workers, workers);
    assert(buffer.subrange(0, total) =~= buffer);
}

/// The first `upto` chunks of a split, joined, are the buffer up to where
/// chunk `upto - 1` ends.
proof fn lemma_joined_prefix(chunks: Seq<Chunk>, buffer: Seq<i16>, workers: int, upto: int)
    requires
        is_split_of(chunks, buffer, workers),
        0 < upto <= workers,
    ensures
        joined(chunks, upto) == buffer.subrange(
            0,
            chunk_end(buffer.len() as int, workers, upto - 1),
        ),
    decreases upto,
{
    let total = buffer.len() as int;
    lemma_chunk_bounds(total, workers, upto - 1);
    let last = chunks[upto - 1];
    if upto == 1 {
        assert(joined(chunks, 0) =~= Seq::<i16>::empty());
        assert(joined(chunks, 1) =~= last.samples@);
    } else {
        lemma_joined_prefix(chunks, buffer, workers, upto - 1);
        lemma_chunk_bounds(total, workers, upto - 2);
        assert(joined(chunks, upto) =~= buffer.subrange(0, chunk_end(total, workers, upto - 1)));
    }
}

/// Splits `samples` among `workers`: every chunk gets
/// `samples.len() / workers` samples and the last one the remainder as well.
///
/// Fails with `InvalidInput` exactly when there are no workers or no samples.
pub fn split_samples(samples: &[i16], workers: usize) -> (split: Result<
    Vec<Chunk>,
    PipelineError,
>)
    ensures
        split is Err <==> workers == 0 || samples@.len() == 0,
        split is Err ==> split == Err::<Vec<Chunk>, PipelineError>(PipelineError::InvalidInput),
        split is Ok ==> is_split_of(split->Ok_0@, samples@, workers as int),
        split is Ok ==> joined(split->Ok_0@, workers as int) == samples@,
{
    let total = samples.len();
    if workers == 0 || total == 0 {
        return Err(PipelineError::InvalidInput);
    }
    let size = total / workers;
    let mut chunks: Vec<Chunk> = Vec::new();
    let mut i: usize = 0;
    while i < workers
        invariant
            0 < workers,
            total == samples@.len(),
            size == chunk_size(total as int, workers as int),
            i <= workers,
            chunks@.len() == i,
            forall|k: int|
                0 <= k < i ==> {
                    &&& (#[trigger] chunks@[k]).index == k
                    &&& chunks@[k].offset_samples == chunk_start(total as int, workers as int, k)
                    &&& chunks@[k].samples@ == samples@.subrange(
                        chunk_start(total as int, workers as int, k),
                        chunk_end(total as int, workers as int, k),
                    )
                },
        decreases workers - i,
    {
        proof {
            lemma_chunk_bounds(total as int, workers as int, i as int);
            assert((i + 1) * size == i * size + size) by (nonlinear_arith);
        }
        let start = i * size;
        let end = if i == workers - 1 {
            total
        } else {
            start + size
        };
        let part = slice_to_vec(slice_subrange(samples, start, end));
        chunks.push(Chunk { index: i, offset_samples: start as u64, samples: part });
        i += 1;
    }
    proof {
        lemma_split_is_exhaustive(chunks@, samples@, workers as int);
    }
    Ok(chunks)
}

} // verus!

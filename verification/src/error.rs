use vstd::prelude::*;

verus! {

/// Why a run was abandoned. No partial plan accompanies any of these.
#[derive(Debug, PartialEq, Eq, Structural, Clone, Copy)]
pub enum PipelineError {
    /// The worker count or the sample rate is zero, or the buffer is empty.
    InvalidInput,
    /// The audio is not single-channel integer PCM.
    UnsupportedAudioFormat,
    /// The recognizer of the given chunk produced no final result.
    RecognitionFailure { chunk: usize },
    /// After offset correction a word of the given chunk starts before its
    /// predecessor on the global timeline.
    ReconciliationInconsistency { chunk: usize },
    /// A timestamp of the given chunk does not fit the global timeline's
    /// 64-bit microsecond range.
    TimestampOutOfRange { chunk: usize },
}

} // verus!

use crate::backends::vosk_local::VoskLocalCommands;
use crate::error::PipelineError;
use vstd::prelude::*;

verus! {

/// The transcription backend chosen on the command line, with its options.
#[derive(Debug)]
pub enum Backend {
    VoskLocal {
        /// Path to a Vosk model.
        model: String,
        /// A subcommand to run in place of a transcription.
        command: Option<VoskLocalCommands>,
    },
    WhisperXLocal {
        /// Options to pass on to WhisperX.
        other_options: String,
        /// Whether to install WhisperX in place of a transcription.
        setup: bool,
    },
}

/// The command line, parsed.
#[derive(Debug)]
pub struct Args {
    /// The backend that transcribes the audio.
    pub backend: Backend,
    /// File to clean.
    pub file_in: Option<String>,
    /// Where the cleaned file goes; empty to overwrite the original.
    pub out: String,
    /// Number of threads to run on.
    pub threads: usize,
    pub repeat: bool,
}

/// Accepts a thread number between 1 and the number of threads the system
/// has, and fails with `InvalidInput` on any other.
pub fn thread_number_in_range(thread_number: usize, max_threads: usize) -> (checked: Result<
    usize,
    PipelineError,
>)
    ensures
        checked is Ok <==> 1 <= thread_number <= max_threads,
        checked is Ok ==> checked->Ok_0 == thread_number,
        checked is Err ==> checked->Err_0 == PipelineError::InvalidInput,
{
    if 1 <= thread_number && thread_number <= max_threads {
        Ok(thread_number)
    } else {
        Err(PipelineError::InvalidInput)
    }
}

/// Whether the cleaned file is to replace the original: no place for it
/// was named.
pub fn overwrites_original(out: &str) -> (overwrite: bool)
    ensures
        overwrite <==> out@.len() == 0,
{
    out.is_empty()
}

} // verus!

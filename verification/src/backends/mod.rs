use vstd::prelude::*;

pub mod vosk_local;
pub mod whisperx_local;

verus! {

/// A backend made ready to transcribe.
#[derive(Debug)]
pub enum Backend {
    VoskLocal(vosk_local::VoskLocal),
    WhisperXLocal(whisperx_local::WhisperXLocal),
}

} // verus!

use crate::chunker::{is_split_of, joined, split_samples, Chunk};
use crate::cli::{Args, Backend};
use crate::error::PipelineError;
use crate::pipeline::chunk_offsets;
use crate::reconcile::{aligned, is_fault, local_views, reconcile, sound};
use crate::word::{starts_ascend, views, Word};
use vstd::prelude::*;
use vstd::string::{StrSliceExecFns, StringExecFns};

verus! {

/// Samples per second of the audio that a Vosk recognizer takes.
pub const SAMPLE_RATE: u32 = 16000;

/// Subcommands of the Vosk backend.
#[derive(Debug, PartialEq, Eq, Structural, Clone, Copy)]
pub enum VoskLocalCommands {
    /// Download a Vosk model from the web.
    GetModel {
        /// vosk-model-small-en-us-0.15: small, lightweight, not very accurate.
        small: bool,
        /// vosk-model-en-us-0.22-lgraph: fairly small, more accurate.
        medium: bool,
        /// vosk-model-en-us-0.22: big, even more accurate, needs a lot of RAM.
        large: bool,
    },
}

/// The models on offer.
#[derive(Debug, PartialEq, Eq, Structural, Clone, Copy)]
pub enum ModelSize {
    Small,
    Medium,
    Large,
}

/// The model that the flags of a subcommand ask for: the smallest of those
/// named, or none where no flag is set.
pub open spec fn chosen_model(command: VoskLocalCommands) -> Option<ModelSize> {
    match command {
        VoskLocalCommands::GetModel { small, medium, large } => if small {
            Some(ModelSize::Small)
        } else if medium {
            Some(ModelSize::Medium)
        } else if large {
            Some(ModelSize::Large)
        } else {
            None
        },
    }
}

impl VoskLocalCommands {
    /// The model to download, if the flags name one.
    pub fn model(&self) -> (size: Option<ModelSize>)
        ensures
            size == chosen_model(*self),
    {
        match *self {
            VoskLocalCommands::GetModel { small, medium, large } => {
                if small {
                    Some(ModelSize::Small)
                } else if medium {
                    Some(ModelSize::Medium)
                } else if large {
                    Some(ModelSize::Large)
                } else {
                    None
                }
            },
        }
    }
}

impl ModelSize {
    /// The name under which the model is asked for.
    pub fn name(&self) -> (name: &'static str)
        ensures
            name@ == match *self {
                ModelSize::Small => "small"@,
                ModelSize::Medium => "medium"@,
                ModelSize::Large => "large"@,
            },
    {
        match *self {
            ModelSize::Small => "small",
            ModelSize::Medium => "medium",
            ModelSize::Large => "large",
        }
    }

    /// Where the model's archive is downloaded from.
    pub fn url(&self) -> (url: &'static str)
        ensures
            url@ == match *self {
                ModelSize::Small =>
                    "https://alphacephei.com/vosk/models/vosk-model-small-en-us-0.15.zip"@,
                ModelSize::Medium =>
                    "https://alphacephei.com/vosk/models/vosk-model-en-us-0.22-lgraph.zip"@,
                ModelSize::Large => "https://alphacephei.com/vosk/models/vosk-model-en-us-0.22.zip"@,
            },
    {
        match *self {
            ModelSize::Small => "https://alphacephei.com/vosk/models/vosk-model-small-en-us-0.15.zip",
            ModelSize::Medium =>
                "https://alphacephei.com/vosk/models/vosk-model-en-us-0.22-lgraph.zip",
            ModelSize::Large => "https://alphacephei.com/vosk/models/vosk-model-en-us-0.22.zip",
        }
    }
}

/// The Vosk backend: one recognizer per thread, each on its own chunk of
/// the preprocessed audio.
#[derive(Debug)]
pub struct VoskLocal {
    /// The path to the model.
    pub model_location: String,
    /// The path to the input file.
    pub file_location: String,
    /// Where the preprocessed audio goes: 16 kHz, 16 bit, mono PCM.
    pub preprocessed_file_location: String,
    /// The number of threads to run the model on.
    pub thread_number: usize,
    pub temp_dir_name: String,
}

/// What the command line asks of the Vosk backend.
#[derive(Debug)]
pub enum VoskStart {
    /// Download a model to `model_location`; with no `model`, do nothing.
    GetModel { model: Option<ModelSize>, model_location: String },
    /// Transcribe with `cleaner`, after moving the input file from
    /// `rename_from` to the cleaner's `file_location` where one is given.
    Transcribe { cleaner: VoskLocal, rename_from: Option<String> },
    /// The path of the input file names no file.
    NoFileName { file_location: String },
}

/// What to do with one entry of a model archive.
#[derive(Debug, PartialEq, Eq, Structural, Clone, Copy)]
pub enum EntryAction {
    /// The entry's name would lead out of the target directory: leave it.
    Skip,
    /// The entry is a directory: create it.
    MakeDir,
    /// The entry is a file: create the directories above it and write it.
    WriteFile,
}

/// Decides what to do with an archive entry from its name and from whether
/// the name stays inside the directory that the archive is unpacked into.
/// A name that ends in a slash is a directory's.
pub fn entry_action(name: &str, enclosed: bool) -> (action: EntryAction)
    ensures
        action == if !enclosed {
            EntryAction::Skip
        } else if name@.len() > 0 && name@.last() == '/' {
            EntryAction::MakeDir
        } else {
            EntryAction::WriteFile
        },
{
    if !enclosed {
        return EntryAction::Skip;
    }
    let len = name.unicode_len();
    if len > 0 && name.get_char(len - 1) == '/' {
        EntryAction::MakeDir
    } else {
        EntryAction::WriteFile
    }
}

/// Whether a character is kept in a path: any but the apostrophe, which
/// would end the quoted temp directory name early.
pub open spec fn kept_in_path() -> spec_fn(char) -> bool {
    |c: char| c != '\''
}

/// The name of the temp directory for the file called `file_name`.
pub open spec fn temp_dir_for(file_name: Seq<char>) -> Seq<char> {
    "./temp'"@ + file_name + "'"@
}

/// The path of the preprocessed audio for the file called `file_name`.
pub open spec fn preprocessed_for(file_name: Seq<char>) -> Seq<char> {
    temp_dir_for(file_name) + "\\"@ + file_name + ".wav"@
}

/// Takes the apostrophes out of `path` with `str::replace`, which replaces
/// every match of a pattern, here by nothing, and copies the rest in order.
#[verifier::external_body]
fn without_apostrophes(path: &str) -> (clean: String)
    ensures
        clean@ == path@.filter(kept_in_path()),
{
    path.replace("'", "")
}

/// Asks `Path::file_name` for the last component of `path`. What counts as
/// a component is the platform's affair, so nothing is said of the answer.
#[verifier::external_body]
fn file_name_of(path: &str) -> (name: Option<String>) {
    std::path::Path::new(path).file_name().and_then(|name| name.to_str()).map(
        |name| name.to_string(),
    )
}

impl VoskLocal {
    /// Whether the temp directory and the preprocessed file are those that
    /// belong to the file called `file_name`.
    pub open spec fn laid_out_for(&self, file_name: Seq<char>) -> bool {
        &&& self.temp_dir_name@ == temp_dir_for(file_name)
        &&& self.preprocessed_file_location@ == preprocessed_for(file_name)
    }

    /// The path of an input file without its apostrophes.
    pub fn sanitize(file_in: &str) -> (clean: String)
        ensures
            clean@ == file_in@.filter(kept_in_path()),
    {
        without_apostrophes(file_in)
    }

    /// The backend for the input file at `file_location`, called `file_name`.
    pub fn new(
        model_location: String,
        file_location: String,
        file_name: &str,
        thread_number: usize,
    ) -> (cleaner: VoskLocal)
        ensures
            cleaner.model_location@ == model_location@,
            cleaner.file_location@ == file_location@,
            cleaner.thread_number == thread_number,
            cleaner.laid_out_for(file_name@),
    {
        let mut temp_dir_name = String::from_str("./temp'");
        temp_dir_name.append(file_name);
        temp_dir_name.append("'");
        let mut preprocessed_file_location = temp_dir_name.clone();
        preprocessed_file_location.append("\\");
        preprocessed_file_location.append(file_name);
        preprocessed_file_location.append(".wav");
        VoskLocal {
            model_location,
            file_location,
            preprocessed_file_location,
            thread_number,
            temp_dir_name,
        }
    }

    /// Decides from the command line what the backend is to do: fetch a
    /// model where the subcommand asks for one, else transcribe the input
    /// file, whose path loses its apostrophes.
    pub fn from_args(args: Args) -> (start: VoskStart)
        requires
            args.backend is VoskLocal,
            args.backend->VoskLocal_command is None ==> args.file_in is Some,
        ensures
            args.backend->VoskLocal_command is Some ==> (start matches VoskStart::GetModel {
                model,
                model_location,
            } && model_location@ == args.backend->VoskLocal_model@ && model == chosen_model(
                args.backend->VoskLocal_command->Some_0,
            )),
            args.backend->VoskLocal_command is None ==> !(start is GetModel),
            start matches VoskStart::NoFileName { file_location } ==> file_location@
                == args.file_in->Some_0@.filter(kept_in_path()),
            start matches VoskStart::Transcribe { cleaner, rename_from } ==> {
                &&& cleaner.model_location@ == args.backend->VoskLocal_model@
                &&& cleaner.file_location@ == args.file_in->Some_0@.filter(kept_in_path())
                &&& cleaner.thread_number == args.threads
                &&& exists|file_name: Seq<char>| cleaner.laid_out_for(file_name)
                &&& rename_from is Some <==> cleaner.file_location@ != args.file_in->Some_0@
                &&& rename_from is Some ==> rename_from->Some_0@ == args.file_in->Some_0@
            },
    {
        let threads = args.threads;
        match args.backend {
            Backend::VoskLocal { model, command } => {
                match command {
                    Some(command) => VoskStart::GetModel {
                        model: command.model(),
                        model_location: model,
                    },
                    None => {
                        match args.file_in {
                            Some(file_in) => {
                                let clean = VoskLocal::sanitize(file_in.as_str());
                                match file_name_of(clean.as_str()) {
                                    Some(file_name) => {
                                        let moved = clean != file_in;
                                        let cleaner = VoskLocal::new(
                                            model,
                                            clean,
                                            file_name.as_str(),
                                            threads,
                                        );
                                        assert(cleaner.laid_out_for(file_name@));
                                        VoskStart::Transcribe {
                                            cleaner,
                                            rename_from: if moved {
                                                Some(file_in)
                                            } else {
                                                None
                                            },
                                        }
                                    },
                                    None => VoskStart::NoFileName { file_location: clean },
                                }
                            },
                            None => unreached(),
                        }
                    },
                }
            },
            _ => unreached(),
        }
    }

    /// Splits the preprocessed audio among the backend's threads.
    pub fn chunks(&self, samples: &[i16]) -> (split: Result<Vec<Chunk>, PipelineError>)
        ensures
            split is Err <==> self.thread_number == 0 || samples@.len() == 0,
            split is Err ==> split->Err_0 == PipelineError::InvalidInput,
            split is Ok ==> is_split_of(split->Ok_0@, samples@, self.thread_number as int),
            split is Ok ==> joined(split->Ok_0@, self.thread_number as int) == samples@,
    {
        split_samples(samples, self.thread_number)
    }

    /// Puts what the recognizers found in their chunks on the timeline of
    /// the recording, at the recognizers' sample rate.
    pub fn transcribe(chunks: &Vec<Chunk>, locals: &Vec<Vec<Word>>) -> (global: Result<
        Vec<Word>,
        PipelineError,
    >)
        ensures
            global is Ok <==> chunks@.len() == locals@.len() && sound(
                local_views(locals@),
                Seq::new(chunks@.len(), |i: int| chunks@[i].offset_samples),
                SAMPLE_RATE as int,
                locals@.len() as int,
            ),
            global is Ok ==> views(global->Ok_0@) == aligned(
                local_views(locals@),
                Seq::new(chunks@.len(), |i: int| chunks@[i].offset_samples),
                SAMPLE_RATE as int,
                locals@.len() as int,
            ),
            global is Ok ==> starts_ascend(views(global->Ok_0@)),
            global is Err ==> is_fault(
                global->Err_0,
                local_views(locals@),
                Seq::new(chunks@.len(), |i: int| chunks@[i].offset_samples),
                SAMPLE_RATE as int,
            ),
    {
        let offsets = chunk_offsets(chunks);
        assert(offsets@ =~= Seq::new(chunks@.len(), |i: int| chunks@[i].offset_samples));
        reconcile(locals, &offsets, SAMPLE_RATE)
    }
}

} // verus!

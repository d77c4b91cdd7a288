//! What the command line asks for, and what the verifier is to do.

use vstd::prelude::*;

use crate::binding_map::opt_view;
use crate::prover::{Outcome, OutcomeV};
use crate::text::{chars_of, decimal, decimal_text};

verus! {

/// How much of what is known from earlier runs is used.
#[derive(Clone, Copy, Debug, PartialEq, Eq, Structural)]
pub enum VerifierMode {
    /// Modules that have not changed are skipped.
    Standard,
    /// Everything is verified again.
    Full,
    /// The cache only tells which facts to try first.
    Filtered,
}

/// A run of the verifier.
#[derive(Debug)]
pub struct Verifier {
    mode: VerifierMode,
    /// The target module to verify. If None, all modules are verified.
    target: Option<String>,
    /// If true, a dataset is created, for training.
    create_dataset: bool,
}

/// The model of a run of the verifier.
#[verifier::ext_equal]
pub struct VerifierV {
    pub mode: VerifierMode,
    pub target: Option<Seq<char>>,
    pub create_dataset: bool,
}

impl View for Verifier {
    type V = VerifierV;

    closed spec fn view(&self) -> VerifierV {
        VerifierV {
            mode: self.mode,
            target: opt_view(self.target),
            create_dataset: self.create_dataset,
        }
    }
}

/// What is to be verified.
#[derive(Debug)]
pub enum Target {
    /// All modules.
    All,
    /// The module in a file.
    File(String),
    /// The module with a name.
    Module(String),
}

/// The model of what is to be verified.
pub enum TargetV {
    All,
    File(Seq<char>),
    Module(Seq<char>),
}

impl View for Target {
    type V = TargetV;

    open spec fn view(&self) -> TargetV {
        match self {
            Target::All => TargetV::All,
            Target::File(s) => TargetV::File(s@),
            Target::Module(s) => TargetV::Module(s@),
        }
    }
}

/// Whether a text ends with ".ac".
pub open spec fn looks_like_file(s: Seq<char>) -> bool {
    s.len() >= 3 && s.skip(s.len() - 3) == seq!['.', 'a', 'c']
}

impl VerifierV {
    /// What is to be verified: a target that ends with ".ac" is a file.
    pub open spec fn wanted(self) -> TargetV {
        match self.target {
            Some(t) => if looks_like_file(t) {
                TargetV::File(t)
            } else {
                TargetV::Module(t)
            },
            None => TargetV::All,
        }
    }
}

impl TargetV {
    /// What is said where the target cannot be found.
    pub open spec fn missing_text(self) -> Seq<char> {
        match self {
            TargetV::All => Seq::empty(),
            TargetV::File(s) => "File not found: "@ + s,
            TargetV::Module(s) => "Module not found: "@ + s,
        }
    }
}

impl Target {
    /// What is said where the target cannot be found.
    pub fn missing_message(&self) -> (r: String)
        ensures
            r@ == self@.missing_text(),
    {
        match self {
            Target::All => {
                let r = String::new();
                assert(r@ =~= Seq::<char>::empty());
                r
            },
            Target::File(s) => {
                let mut out = "File not found: ".to_owned();
                out.append(s.as_str());
                out
            },
            Target::Module(s) => {
                let mut out = "Module not found: ".to_owned();
                out.append(s.as_str());
                out
            },
        }
    }
}

impl Verifier {
    /// A run of the verifier.
    pub fn new(mode: VerifierMode, target: Option<String>, create_dataset: bool) -> (r: Verifier)
        ensures
            r@ == (VerifierV { mode, target: opt_view(target), create_dataset }),
    {
        Verifier { mode, target, create_dataset }
    }

    /// Whether the cache is read.
    pub fn use_cache(&self) -> (r: bool)
        ensures
            r == (self@.mode != VerifierMode::Full),
    {
        self.mode != VerifierMode::Full
    }

    /// Whether modules that have not changed are skipped.
    pub fn check_hashes(&self) -> (r: bool)
        ensures
            r == (self@.mode != VerifierMode::Filtered),
    {
        self.mode != VerifierMode::Filtered
    }

    /// Whether a dataset is created.
    pub fn creates_dataset(&self) -> (r: bool)
        ensures
            r == self@.create_dataset,
    {
        self.create_dataset
    }

    /// What is to be verified.
    pub fn target(&self) -> (r: Target)
        ensures
            r@ == self@.wanted(),
    {
        match &self.target {
            Some(t) => {
                let chars = chars_of(t.as_str());
                let n = chars.len();
                if n >= 3 && chars[n - 3] == '.' && chars[n - 2] == 'a' && chars[n - 1] == 'c' {
                    assert(t@.skip(n - 3) =~= seq!['.', 'a', 'c']);
                    Target::File(t.clone())
                } else {
                    proof {
                        if looks_like_file(t@) {
                            let end = t@.skip(n - 3);
                            assert(end[0] == '.' && end[1] == 'a' && end[2] == 'c');
                        }
                    }
                    Target::Module(t.clone())
                }
            },
            None => Target::All,
        }
    }

    /// What to warn of after a run, where it did not do what it should: in filtered mode, the
    /// prover should not have needed facts that were filtered out.
    pub fn final_warning(&self, searches_fallback: u32) -> (r: Option<&'static str>)
        ensures
            match r {
                Some(s) => self@.mode == VerifierMode::Filtered && searches_fallback > 0 && s@
                    == "\nWarning: the filtered prover was not able to handle all goals."@,
                None => !(self@.mode == VerifierMode::Filtered && searches_fallback > 0),
            },
    {
        if self.mode == VerifierMode::Filtered && searches_fallback > 0 {
            Some("\nWarning: the filtered prover was not able to handle all goals.")
        } else {
            None
        }
    }
}

/// The line in the log for something that happened in a module, perhaps at a line of its text.
/// Lines are counted from 0 inside, and from 1 for the reader.
pub open spec fn log_text(module: Seq<char>, line: Option<u32>, message: Seq<char>) -> Seq<char> {
    match line {
        Some(n) => module + ", line "@ + decimal_text(n as nat + 1) + ": "@ + message,
        None => message,
    }
}

/// Writes the line in the log for something that happened.
pub fn log_line(module: &str, line: Option<u32>, message: &str) -> (r: String)
    ensures
        r@ == log_text(module@, line, message@),
{
    match line {
        Some(n) => {
            let mut out = module.to_owned();
            out.append(", line ");
            out.append(decimal(n as u64 + 1).as_str());
            out.append(": ");
            out.append(message);
            out
        },
        None => message.to_owned(),
    }
}

/// What the command line says.
#[derive(Debug)]
pub struct Flags {
    /// Print the version and exit.
    pub version: bool,
    /// The root folder the user has open. Only relevant in language server mode.
    pub workspace_root: Option<String>,
    /// The root folder of the extension. Presence of this flag indicates that we should run in
    /// language server mode.
    pub extension_root: Option<String>,
    /// Verify a single module. Can be either a filename or a module name.
    pub target: Option<String>,
    /// Create a dataset from the prover logs.
    pub dataset: bool,
    /// Ignore the cache and do a full reverify.
    pub full: bool,
    /// Use the cache, but only for the filtered prover, not for hash checking.
    pub filtered: bool,
}

/// The model of what the command line says.
pub struct FlagsV {
    pub version: bool,
    pub workspace_root: Option<Seq<char>>,
    pub extension_root: Option<Seq<char>>,
    pub target: Option<Seq<char>>,
    pub dataset: bool,
    pub full: bool,
    pub filtered: bool,
}

impl View for Flags {
    type V = FlagsV;

    open spec fn view(&self) -> FlagsV {
        FlagsV {
            version: self.version,
            workspace_root: opt_view(self.workspace_root),
            extension_root: opt_view(self.extension_root),
            target: opt_view(self.target),
            dataset: self.dataset,
            full: self.full,
            filtered: self.filtered,
        }
    }
}

/// What is to be done.
#[derive(Debug)]
pub enum Command {
    /// Print the version.
    ShowVersion,
    /// Run a language server.
    Serve { workspace_root: Option<String>, extension_root: String },
    /// Say what is wrong, and exit.
    Fail(String),
    /// Run the verifier.
    Verify(Verifier),
}

/// The model of what is to be done.
pub enum CommandV {
    ShowVersion,
    Serve { workspace_root: Option<Seq<char>>, extension_root: Seq<char> },
    Fail(Seq<char>),
    Verify(VerifierV),
}

impl View for Command {
    type V = CommandV;

    open spec fn view(&self) -> CommandV {
        match self {
            Command::ShowVersion => CommandV::ShowVersion,
            Command::Serve { workspace_root, extension_root } => CommandV::Serve {
                workspace_root: opt_view(*workspace_root),
                extension_root: extension_root@,
            },
            Command::Fail(s) => CommandV::Fail(s@),
            Command::Verify(v) => CommandV::Verify(v@),
        }
    }
}

impl FlagsV {
    /// What is to be done.
    pub open spec fn command(self) -> CommandV {
        if self.version {
            CommandV::ShowVersion
        } else if self.extension_root is Some {
            CommandV::Serve {
                workspace_root: self.workspace_root,
                extension_root: self.extension_root->0,
            }
        } else if self.workspace_root is Some {
            CommandV::Fail("--workspace-root is only relevant in language server mode."@)
        } else if self.full && self.filtered {
            CommandV::Fail("--full and --filtered are incompatible."@)
        } else {
            CommandV::Verify(
                VerifierV {
                    mode: if self.full {
                        VerifierMode::Full
                    } else if self.filtered {
                        VerifierMode::Filtered
                    } else {
                        VerifierMode::Standard
                    },
                    target: self.target,
                    create_dataset: self.dataset,
                },
            )
        }
    }
}

impl Flags {
    /// What is to be done.
    pub fn command(self) -> (r: Command)
        ensures
            r@ == self@.command(),
    {
        // Print the version and exit.
        if self.version {
            return Command::ShowVersion;
        }
        // Check for language server mode.
        if let Some(extension_root) = self.extension_root {
            return Command::Serve { workspace_root: self.workspace_root, extension_root };
        }
        if self.workspace_root.is_some() {
            return Command::Fail(
                "--workspace-root is only relevant in language server mode.".to_owned(),
            );
        }
        // Run the verifier.
        let mode = if self.full {
            if self.filtered {
                return Command::Fail("--full and --filtered are incompatible.".to_owned());
            }
            VerifierMode::Full
        } else if self.filtered {
            VerifierMode::Filtered
        } else {
            VerifierMode::Standard
        };
        Command::Verify(Verifier::new(mode, self.target, self.dataset))
    }
}

/// The line inside, counted from 0, for a line that the user gives, counted from 1.
pub fn internal_line(external: u32) -> (r: Option<u32>)
    ensures
        r == (if external == 0 {
            None::<u32>
        } else {
            Some((external - 1) as u32)
        }),
{
    if external == 0 {
        None
    } else {
        Some(external - 1)
    }
}

/// What is said of how a search for one goal went. A search that only ran out of time is gone on
/// with.
pub open spec fn search_text(o: OutcomeV, activated: nat) -> Seq<char> {
    match o {
        OutcomeV::Success => "success!"@,
        OutcomeV::Inconsistent => "Found inconsistency!"@,
        OutcomeV::Exhausted => "All possibilities have been exhausted."@,
        OutcomeV::Timeout => "activated "@ + decimal_text(activated) + " steps"@,
        OutcomeV::Interrupted => "Interrupted."@,
        OutcomeV::Constrained => "Constrained."@,
        OutcomeV::Error(s) => "Error: "@ + s,
    }
}

/// Says how a search for one goal went, and whether to go on with it.
pub fn search_message(outcome: &Outcome, activated: usize) -> (r: (String, bool))
    ensures
        r.0@ == search_text(outcome@, activated as nat),
        r.1 == (outcome@ is Timeout),
{
    match outcome {
        Outcome::Success => ("success!".to_owned(), false),
        Outcome::Inconsistent => ("Found inconsistency!".to_owned(), false),
        Outcome::Exhausted => ("All possibilities have been exhausted.".to_owned(), false),
        Outcome::Timeout => {
            let mut out = "activated ".to_owned();
            out.append(decimal(activated as u64).as_str());
            out.append(" steps");
            (out, true)
        },
        Outcome::Interrupted => ("Interrupted.".to_owned(), false),
        Outcome::Constrained => ("Constrained.".to_owned(), false),
        Outcome::Error(s) => {
            let mut out = "Error: ".to_owned();
            out.append(s.as_str());
            (out, false)
        },
    }
}

} // verus!

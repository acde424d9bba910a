//! Making a program of a Python script, one step at a time.

use vstd::prelude::*;
use crate::answer::{safe_stem, sanitize_file_stem, shortened, truncate_text};
use crate::numbers::{decimal, to_decimal};
use crate::paths::{is_python_name, path_verdict, python_name, safe_project_path, PathFacts};
use crate::prompts::{lemma_holds_middle, lemma_holds_part, lemma_joined_holds};
use crate::text::{
    ascii_lower, begins, cat2, cat3, cat5, holds, join, joined, occurs_at, opt_text, text_is, texts,
    to_ascii_lower, trim, trimmed,
};

verus! {

/// A way to start Python.
#[derive(Debug)]
pub struct PythonRuntime {
    pub program: String,
    pub prefix_args: Vec<String>,
}

/// How Python may be started, as program and arguments, in the order in which the ways are tried.
pub open spec fn python_ways() -> Seq<(Seq<char>, Seq<Seq<char>>)> {
    seq![
        ("python"@, Seq::<Seq<char>>::empty()),
        ("py"@, seq!["-3"@]),
        ("C:\\Users\\tarek\\miniconda3\\python.exe"@, Seq::<Seq<char>>::empty()),
    ]
}

/// The way to start Python with the given number.
pub fn python_candidate(index: usize) -> (r: Option<PythonRuntime>)
    ensures
        match r {
            Some(p) => index < python_ways().len() && (p.program@, texts(p.prefix_args@))
                == python_ways()[index as int],
            None => index >= python_ways().len(),
        },
{
    let mut prefix_args: Vec<String> = Vec::new();
    assert(texts(prefix_args@) =~= Seq::<Seq<char>>::empty());
    if index == 0 {
        Some(PythonRuntime { program: "python".to_owned(), prefix_args })
    } else if index == 1 {
        prefix_args.push("-3".to_owned());
        assert(texts(prefix_args@) =~= seq!["-3"@]);
        Some(PythonRuntime { program: "py".to_owned(), prefix_args })
    } else if index == 2 {
        Some(
            PythonRuntime {
                program: "C:\\Users\\tarek\\miniconda3\\python.exe".to_owned(),
                prefix_args,
            },
        )
    } else {
        None
    }
}

/// What came of a command.
#[derive(Debug)]
pub enum CommandOutcome {
    /// It ran to its end, with success or not, and this is what it printed.
    Ran { success: bool, output: String },
    /// It could not be started or had to be stopped.
    Failed(String),
}

/// What is to be done next.
#[derive(Debug)]
pub enum PackStep<T> {
    /// Check the path of the script and tell the name of the file that it leads to.
    Resolve { path: T },
    /// Create the folder of the script.
    MakeFolder,
    /// Write `content` into the script.
    WriteScript { content: T },
    /// Tell whether the script exists.
    CheckScript,
    /// Ask the Python with this number for its version.
    TryPython { candidate: usize },
    /// Tell whether the packager is installed.
    FindTools,
    /// Create the folder of the packager.
    MakeTools,
    /// Install the packager.
    InstallTools,
    /// Ask the packager for its version.
    CheckTools,
    /// Copy the project into a temporary workspace.
    CopyWorkspace,
    /// Tell whether the script came along.
    CheckCopy,
    /// Let Python check the syntax of the script.
    Compile,
    /// Run the script for a moment.
    TrialRun,
    /// Build the program.
    Build,
    /// Tell whether the program is there.
    CheckProgram,
    /// Create the folder that the program goes to.
    MakeDist,
    /// Copy the program there.
    CopyProgram,
    /// Run the program for a moment.
    SmokeTest,
    /// Nothing more: this is the answer.
    Finished { answer: T },
}

impl View for PackStep<String> {
    type V = PackStep<Seq<char>>;

    open spec fn view(&self) -> PackStep<Seq<char>> {
        match self {
            PackStep::Resolve { path } => PackStep::Resolve { path: path@ },
            PackStep::MakeFolder => PackStep::MakeFolder,
            PackStep::WriteScript { content } => PackStep::WriteScript { content: content@ },
            PackStep::CheckScript => PackStep::CheckScript,
            PackStep::TryPython { candidate } => PackStep::TryPython { candidate: *candidate },
            PackStep::FindTools => PackStep::FindTools,
            PackStep::MakeTools => PackStep::MakeTools,
            PackStep::InstallTools => PackStep::InstallTools,
            PackStep::CheckTools => PackStep::CheckTools,
            PackStep::CopyWorkspace => PackStep::CopyWorkspace,
            PackStep::CheckCopy => PackStep::CheckCopy,
            PackStep::Compile => PackStep::Compile,
            PackStep::TrialRun => PackStep::TrialRun,
            PackStep::Build => PackStep::Build,
            PackStep::CheckProgram => PackStep::CheckProgram,
            PackStep::MakeDist => PackStep::MakeDist,
            PackStep::CopyProgram => PackStep::CopyProgram,
            PackStep::SmokeTest => PackStep::SmokeTest,
            PackStep::Finished { answer } => PackStep::Finished { answer: answer@ },
        }
    }
}

/// What came of a step.
#[derive(Debug)]
pub enum PackEvent {
    /// Nothing was done yet.
    Begin,
    /// What the file system says of the path, and the name of the file that it leads to.
    Located { place: PathFacts, name: String },
    /// The step succeeded, or why it did not.
    Done(Result<(), String>),
    /// The answer to a question.
    Exists(bool),
    /// What came of a command.
    Command(CommandOutcome),
    /// How many files were copied and how many were too large, or why copying failed.
    Copied(Result<(u64, u64), String>),
    /// Whether a file is there, how its path is shown to the user, and how it is shown in full.
    Found { exists: bool, shown: String, full: String },
    /// How the path of the finished program is shown, or why it could not be copied.
    Placed(Result<String, String>),
    /// What the program printed.
    Output(String),
}

/// What the run waits for.
#[derive(Clone, Copy, Debug, PartialEq, Eq, Structural)]
pub enum PackPhase {
    Ready,
    Resolving,
    Folder,
    Writing,
    Script,
    Python,
    Tools,
    ToolsFolder,
    Installing,
    ToolsCheck,
    Workspace,
    Copy,
    Syntax,
    Trial,
    Building,
    Program,
    Dist,
    Placing,
    Smoke,
    Over,
}

/// A run that makes a program of a script.
#[derive(Debug)]
pub struct PackRun {
    script: String,
    bootstrap: Option<String>,
    phase: PackPhase,
    log_lines: Vec<String>,
    candidate: usize,
    errors: Vec<String>,
    place: String,
}

/// What a [`PackRun`] holds.
pub struct Packing {
    /// The path of the script.
    pub script: Seq<char>,
    /// What is to be written into the script beforehand.
    pub bootstrap: Option<Seq<char>>,
    pub phase: PackPhase,
    pub log: Seq<Seq<char>>,
    /// The Python that is tried or used.
    pub candidate: usize,
    /// What the ones before it said.
    pub errors: Seq<Seq<char>>,
    /// How the script in the workspace, and later the finished program, is shown.
    pub place: Seq<char>,
}

impl View for PackRun {
    type V = Packing;

    closed spec fn view(&self) -> Packing {
        Packing {
            script: self.script@,
            bootstrap: opt_text(self.bootstrap),
            phase: self.phase,
            log: texts(self.log_lines@),
            candidate: self.candidate,
            errors: texts(self.errors@),
            place: self.place@,
        }
    }
}

impl Packing {
    /// The number of the Python is one there is.
    pub open spec fn wf(self) -> bool {
        self.candidate < python_ways().len()
    }

    /// The event is an answer to what the run waits for.
    pub open spec fn awaits(self, event: PackEvent) -> bool {
        match self.phase {
            PackPhase::Ready => event is Begin,
            PackPhase::Resolving => event is Located,
            PackPhase::Folder
            | PackPhase::Writing
            | PackPhase::ToolsFolder
            | PackPhase::Dist => event is Done,
            PackPhase::Script | PackPhase::Tools => event is Exists,
            PackPhase::Python
            | PackPhase::Installing
            | PackPhase::ToolsCheck
            | PackPhase::Syntax
            | PackPhase::Trial
            | PackPhase::Building => event is Command,
            PackPhase::Workspace => event is Copied,
            PackPhase::Copy | PackPhase::Program => event is Found,
            PackPhase::Placing => event is Placed,
            PackPhase::Smoke => event is Output,
            PackPhase::Over => false,
        }
    }

    /// The run with another phase.
    pub open spec fn in_phase(self, phase: PackPhase) -> Packing {
        Packing { phase, ..self }
    }

    /// The run with one more line in the log.
    pub open spec fn noting(self, line: Seq<char>) -> Packing {
        Packing { log: self.log.push(line), ..self }
    }

    /// The run is over, with this answer.
    pub open spec fn over(self, answer: Seq<char>) -> (Packing, PackStep<Seq<char>>) {
        (self.in_phase(PackPhase::Over), PackStep::Finished { answer })
    }

    /// The packager cannot be used.
    pub open spec fn without_tools(self, error: Seq<char>) -> (Packing, PackStep<Seq<char>>) {
        self.over("I could not prepare PyInstaller.\n\n"@ + error)
    }

    /// The script does not pass its trial.
    pub open spec fn stopped(self, error: Seq<char>) -> (Packing, PackStep<Seq<char>>) {
        self.over("Packaging stopped during the temporary test run.\n\n"@ + error)
    }

    /// The script is there to be built.
    pub open spec fn building(self) -> (Packing, PackStep<Seq<char>>) {
        (
            self.noting(
                "PyInstaller builds from temporary workspace: "@ + self.place,
            ).in_phase(PackPhase::Building),
            PackStep::Build,
        )
    }

    /// The Python that was tried cannot be used: the next one is tried, if there is one.
    pub open spec fn without_python(self, error: Seq<char>) -> (Packing, PackStep<Seq<char>>) {
        let errors = self.errors.push(error);
        if self.candidate + 1 < python_ways().len() {
            let next = (self.candidate + 1) as usize;
            (
                Packing { errors, candidate: next, ..self },
                PackStep::TryPython { candidate: next },
            )
        } else {
            let all = joined(errors, "\n"@);
            Packing { errors, ..self }.noting("Python is not usable: "@ + all).over(
                "I could not find a usable Python installation.\n\n"@ + all,
            )
        }
    }

    /// What follows on a command.
    pub open spec fn after_command(self, outcome: CommandOutcome) -> (
        Packing,
        PackStep<Seq<char>>,
    ) {
        match (self.phase, outcome) {
            (PackPhase::Python, CommandOutcome::Ran { success, output }) => if success {
                (self.in_phase(PackPhase::Tools), PackStep::FindTools)
            } else {
                self.without_python(output@)
            },
            (PackPhase::Python, CommandOutcome::Failed(e)) => self.without_python(e@),
            (PackPhase::Installing, CommandOutcome::Ran { success, output }) => if success {
                (self.in_phase(PackPhase::ToolsCheck), PackStep::CheckTools)
            } else {
                self.without_tools(
                    "pip install pyinstaller failed.\n"@ + shortened(output@, 1800),
                )
            },
            (PackPhase::Installing, CommandOutcome::Failed(e)) => self.without_tools(
                "pip could not be started: "@ + e@,
            ),
            (PackPhase::ToolsCheck, CommandOutcome::Ran { success, output }) => if success {
                (
                    self.noting(
                        "PyInstaller ready: "@ + shortened(trimmed(output@), 120),
                    ).in_phase(PackPhase::Workspace),
                    PackStep::CopyWorkspace,
                )
            } else {
                self.without_tools("PyInstaller is not usable.\n"@ + shortened(output@, 1800))
            },
            (PackPhase::ToolsCheck, CommandOutcome::Failed(e)) => self.without_tools(
                "PyInstaller could not be checked: "@ + e@,
            ),
            (PackPhase::Syntax, CommandOutcome::Ran { success, output }) => if success {
                (
                    self.noting("Temporary test: Python syntax check passed."@).in_phase(
                        PackPhase::Trial,
                    ),
                    PackStep::TrialRun,
                )
            } else {
                self.stopped("Python syntax check failed:\n"@ + shortened(output@, 1800))
            },
            (PackPhase::Syntax, CommandOutcome::Failed(e)) => self.stopped(
                "Python syntax check could not finish:\n"@ + e@,
            ),
            (PackPhase::Trial, CommandOutcome::Ran { success, output }) => if success {
                self.noting(
                    "Temporary test run passed: "@ + shortened(trimmed(output@), 300),
                ).building()
            } else {
                self.stopped("Temporary test run failed:\n"@ + shortened(output@, 1800))
            },
            (PackPhase::Trial, CommandOutcome::Failed(e)) => self.noting(
                "Temporary test run did not finish quickly; continuing because GUI apps often keep running. Diagnostic: "@
                    + shortened(e@, 500),
            ).building(),
            (PackPhase::Building, CommandOutcome::Ran { success, output }) => if success {
                (self.in_phase(PackPhase::Program), PackStep::CheckProgram)
            } else {
                self.noting("PyInstaller error: "@ + shortened(output@, 1200)).over(
                    "Packaging failed.\n\n"@ + shortened(output@, 1800),
                )
            },
            (_, CommandOutcome::Failed(e)) => self.over(
                "PyInstaller could not be started: "@ + e@,
            ),
            _ => self.over(""@),
        }
    }

    /// The run after an event, and what is to be done next.
    pub open spec fn after(self, event: PackEvent) -> (Packing, PackStep<Seq<char>>) {
        match event {
            PackEvent::Begin => (
                self.noting("Local tool: package Python as EXE."@).in_phase(PackPhase::Resolving),
                PackStep::Resolve { path: self.script },
            ),
            PackEvent::Located { place, name } => match path_verdict(self.script, place) {
                Err(e) => self.noting("Python packaging blocked: "@ + e).over(
                    "I could not safely package `"@ + self.script + "`: "@ + e,
                ),
                Ok(_) => if !python_name(name@) {
                    self.over("`"@ + self.script + "` is not a Python file."@)
                } else if self.bootstrap is Some {
                    (self.in_phase(PackPhase::Folder), PackStep::MakeFolder)
                } else {
                    (self.in_phase(PackPhase::Script), PackStep::CheckScript)
                },
            },
            PackEvent::Done(Err(e)) => match self.phase {
                PackPhase::Folder => self.over(
                    "I could not create the folder for `"@ + self.script + "`: "@ + e@,
                ),
                PackPhase::Writing => self.over(
                    "I could not write `"@ + self.script + "` as the start file: "@ + e@,
                ),
                PackPhase::ToolsFolder => self.without_tools(
                    "Packager folder could not be created: "@ + e@,
                ),
                _ => self.over("I could not create the final dist folder: "@ + e@),
            },
            PackEvent::Done(Ok(_)) => match self.phase {
                PackPhase::Folder => (
                    self.in_phase(PackPhase::Writing),
                    PackStep::WriteScript {
                        content: match self.bootstrap {
                            Some(content) => content,
                            None => ""@,
                        },
                    },
                ),
                PackPhase::Writing => (
                    self.noting("Python file created/updated: "@ + self.script).in_phase(
                        PackPhase::Script,
                    ),
                    PackStep::CheckScript,
                ),
                PackPhase::ToolsFolder => (
                    self.in_phase(PackPhase::Installing),
                    PackStep::InstallTools,
                ),
                _ => (self.in_phase(PackPhase::Placing), PackStep::CopyProgram),
            },
            PackEvent::Exists(there) => match self.phase {
                PackPhase::Script => if there {
                    (
                        self.in_phase(PackPhase::Python),
                        PackStep::TryPython { candidate: self.candidate },
                    )
                } else {
                    self.over("I cannot find `"@ + self.script + "` in the project folder."@)
                },
                _ => if there {
                    (self.in_phase(PackPhase::ToolsCheck), PackStep::CheckTools)
                } else {
                    (
                        self.noting(
                            "PyInstaller is missing locally; trying installation..."@,
                        ).in_phase(PackPhase::ToolsFolder),
                        PackStep::MakeTools,
                    )
                },
            },
            PackEvent::Command(outcome) => self.after_command(outcome),
            PackEvent::Copied(Err(e)) => self.over(
                "I could not create the temporary packaging workspace.\n\n"@ + e@,
            ),
            PackEvent::Copied(Ok((copied, skipped))) => (
                self.noting(
                    "Temporary packaging workspace prepared: "@ + decimal(copied as nat)
                        + " file(s) copied, "@ + decimal(skipped as nat)
                        + " large file(s) skipped."@,
                ).in_phase(PackPhase::Copy),
                PackStep::CheckCopy,
            ),
            PackEvent::Found { exists, shown, full } => match self.phase {
                PackPhase::Copy => if exists {
                    (
                        Packing { place: full@, phase: PackPhase::Syntax, ..self },
                        PackStep::Compile,
                    )
                } else {
                    self.over(
                        "The temporary packaging workspace was created, but the script was not copied: "@
                            + shown@,
                    )
                },
                _ => if exists {
                    (self.in_phase(PackPhase::Dist), PackStep::MakeDist)
                } else {
                    self.noting("PyInstaller finished, but the EXE was not found."@).over(
                        "PyInstaller completed, but I cannot find the expected EXE: "@ + full@,
                    )
                },
            },
            PackEvent::Placed(Err(e)) => self.over(
                "The EXE was built, but I could not copy it back to `dist`: "@ + e@,
            ),
            PackEvent::Placed(Ok(shown)) => (
                Packing { place: shown@, ..self }.noting("EXE created: "@ + shown@).in_phase(
                    PackPhase::Smoke,
                ),
                PackStep::SmokeTest,
            ),
            PackEvent::Output(smoke) => self.noting(
                "EXE smoke test: "@ + shortened(smoke@, 300),
            ).over(
                "Done. I packaged `"@ + self.script + "` as an EXE.\n\nEXE: `"@ + self.place
                    + "`\n\nSmoke test:\n"@ + trimmed(smoke@),
            ),
        }
    }

    /// How many steps are left at most, apart from trying further ways to start Python.
    pub open spec fn distance(self) -> int {
        match self.phase {
            PackPhase::Ready => 19,
            PackPhase::Resolving => 18,
            PackPhase::Folder => 17,
            PackPhase::Writing => 16,
            PackPhase::Script => 15,
            PackPhase::Python => 14,
            PackPhase::Tools => 13,
            PackPhase::ToolsFolder => 12,
            PackPhase::Installing => 11,
            PackPhase::ToolsCheck => 10,
            PackPhase::Workspace => 9,
            PackPhase::Copy => 8,
            PackPhase::Syntax => 7,
            PackPhase::Trial => 6,
            PackPhase::Building => 5,
            PackPhase::Program => 4,
            PackPhase::Dist => 3,
            PackPhase::Placing => 2,
            PackPhase::Smoke => 1,
            PackPhase::Over => 0,
        }
    }
}

// ---------------------------------------------------------------------------------------------
// Laws
// ---------------------------------------------------------------------------------------------

/// Every event keeps the number of the Python valid, keeps the log that there is, and brings the
/// run nearer to its end; the run is finished exactly where it is over.
pub proof fn packaging_advances(s: Packing, event: PackEvent)
    requires
        s.wf(),
        s.awaits(event),
    ensures
        s.after(event).0.wf(),
        s.after(event).0.script == s.script,
        s.log.is_prefix_of(s.after(event).0.log),
        (s.after(event).1 is Finished) == (s.after(event).0.phase is Over),
        s.after(event).0.distance() < s.distance() || (s.after(event).0.phase is Python
            && s.phase is Python && s.after(event).0.candidate > s.candidate),
{
}

/// A script whose path is refused is neither written nor run nor packaged: the run is over, and
/// both the log and the answer say why.
pub proof fn refused_script_is_not_packaged(s: Packing, place: PathFacts, name: String)
    requires
        s.phase is Resolving,
        path_verdict(s.script, place) is Err,
    ensures
        ({
            let (t, step) = s.after(PackEvent::Located { place, name });
            let error = path_verdict(s.script, place)->Err_0;
            &&& t.phase is Over
            &&& step == (PackStep::Finished {
                answer: "I could not safely package `"@ + s.script + "`: "@ + error,
            })
            &&& t.log == s.log.push("Python packaging blocked: "@ + error)
        }),
{
}

/// Nothing is built unless the syntax check succeeded and the trial run did not end in failure.
pub proof fn only_tried_scripts_are_built(s: Packing, event: PackEvent)
    requires
        s.wf(),
        s.awaits(event),
        s.after(event).1 is Build,
    ensures
        s.phase is Trial,
        match event {
            PackEvent::Command(CommandOutcome::Ran { success, output: _ }) => success,
            PackEvent::Command(CommandOutcome::Failed(_)) => true,
            _ => false,
        },
{
}

/// The trial run begins only after the syntax check succeeded.
pub proof fn only_sound_scripts_are_tried(s: Packing, event: PackEvent)
    requires
        s.wf(),
        s.awaits(event),
        s.after(event).0.phase is Trial,
    ensures
        s.phase is Syntax,
        event matches PackEvent::Command(CommandOutcome::Ran { success, output: _ }) && success,
{
}

/// A script that runs longer than its trial lasts is not held back, for windows stay open: it is
/// built like one whose trial succeeded. Only a trial that came to its end without success ends the
/// run.
pub proof fn programs_that_keep_running_are_built(s: Packing, outcome: CommandOutcome)
    requires
        s.phase is Trial,
    ensures
        match outcome {
            CommandOutcome::Failed(_) => s.after(PackEvent::Command(outcome)).1 is Build,
            CommandOutcome::Ran { success, output: _ } => if success {
                s.after(PackEvent::Command(outcome)).1 is Build
            } else {
                s.after(PackEvent::Command(outcome)).1 is Finished
            },
        },
{
}

/// What comes of a step is what it was hoped for; of the trial also that it had to be stopped.
pub open spec fn succeeds(s: Packing, event: PackEvent) -> bool {
    match event {
        PackEvent::Begin => true,
        PackEvent::Located { .. } => lets_script_through(s.script, event),
        PackEvent::Done(result) => result is Ok,
        PackEvent::Exists(there) => there || s.phase is Tools,
        PackEvent::Command(CommandOutcome::Ran { success, output: _ }) => success,
        PackEvent::Command(CommandOutcome::Failed(_)) => s.phase is Trial,
        PackEvent::Copied(result) => result is Ok,
        PackEvent::Found { exists, shown: _, full: _ } => exists,
        PackEvent::Placed(result) => result is Ok,
        PackEvent::Output(_) => true,
    }
}

/// What is asked for in each phase.
pub open spec fn belongs(phase: PackPhase, step: PackStep<Seq<char>>) -> bool {
    match phase {
        PackPhase::Ready => false,
        PackPhase::Resolving => step is Resolve,
        PackPhase::Folder => step is MakeFolder,
        PackPhase::Writing => step is WriteScript,
        PackPhase::Script => step is CheckScript,
        PackPhase::Python => step is TryPython,
        PackPhase::Tools => step is FindTools,
        PackPhase::ToolsFolder => step is MakeTools,
        PackPhase::Installing => step is InstallTools,
        PackPhase::ToolsCheck => step is CheckTools,
        PackPhase::Workspace => step is CopyWorkspace,
        PackPhase::Copy => step is CheckCopy,
        PackPhase::Syntax => step is Compile,
        PackPhase::Trial => step is TrialRun,
        PackPhase::Building => step is Build,
        PackPhase::Program => step is CheckProgram,
        PackPhase::Dist => step is MakeDist,
        PackPhase::Placing => step is CopyProgram,
        PackPhase::Smoke => step is SmokeTest,
        PackPhase::Over => step is Finished,
    }
}

/// The steps of packaging come in this order, none of them left out: the script is resolved, written
/// if there is something to write, and looked for; Python is found; the packager is found, or else
/// installed, and tried; the project is copied, the script in it checked, tried and built; and the
/// program is looked for, copied and tried.
pub proof fn packaging_leaves_nothing_out(s: Packing, event: PackEvent)
    requires
        s.wf(),
        s.awaits(event),
        succeeds(s, event),
    ensures
        ({
            let (t, step) = s.after(event);
            &&& belongs(t.phase, step)
            &&& match s.phase {
                PackPhase::Ready => step == (PackStep::Resolve { path: s.script }),
                PackPhase::Resolving => if s.bootstrap is Some {
                    step is MakeFolder
                } else {
                    step is CheckScript
                },
                PackPhase::Folder => s.bootstrap matches Some(content) ==> step == (
                PackStep::WriteScript { content }),
                PackPhase::Writing => step is CheckScript,
                PackPhase::Script => step matches PackStep::TryPython { candidate } && candidate
                    == s.candidate,
                PackPhase::Python => step is FindTools,
                PackPhase::Tools => if event == PackEvent::Exists(true) {
                    step is CheckTools
                } else {
                    step is MakeTools
                },
                PackPhase::ToolsFolder => step is InstallTools,
                PackPhase::Installing => step is CheckTools,
                PackPhase::ToolsCheck => step is CopyWorkspace,
                PackPhase::Workspace => step is CheckCopy,
                PackPhase::Copy => step is Compile,
                PackPhase::Syntax => step is TrialRun,
                PackPhase::Trial => step is Build,
                PackPhase::Building => step is CheckProgram,
                PackPhase::Program => step is MakeDist,
                PackPhase::Dist => step is CopyProgram,
                PackPhase::Placing => step is SmokeTest,
                PackPhase::Smoke => step is Finished,
                PackPhase::Over => false,
            }
        }),
{
}

/// A step that fails ends the run, and the answer does not report success; where another Python can
/// be tried, that is done first.
pub proof fn failures_end_the_packaging(s: Packing, event: PackEvent)
    requires
        s.wf(),
        s.awaits(event),
        !succeeds(s, event),
    ensures
        if s.phase is Python && s.candidate + 1 < python_ways().len() {
            s.after(event).1 matches PackStep::TryPython { candidate } && candidate == s.candidate + 1
        } else {
            s.after(event).1 matches PackStep::Finished { answer } && !begins(answer, "Done. "@)
        },
{
    lemma_other_answers(s, event);
}

/// The answer to a run that failed says what failed, as far as something was said of it.
#[verifier::rlimit(40)]
pub proof fn failures_are_explained(s: Packing, event: PackEvent)
    requires
        s.wf(),
        s.awaits(event),
        !succeeds(s, event),
        !(s.phase is Python),
    ensures
        s.after(event).1 matches PackStep::Finished { answer } && match event {
            PackEvent::Located { place, name: _ } => path_verdict(s.script, place) matches Err(e)
                ==> holds(answer, s.script) && holds(answer, e),
            PackEvent::Done(Err(e)) => holds(answer, e@),
            PackEvent::Command(CommandOutcome::Failed(e)) => holds(answer, e@),
            PackEvent::Command(CommandOutcome::Ran { success: _, output }) => output@.len() <= 1800
                ==> holds(answer, output@),
            PackEvent::Copied(Err(e)) => holds(answer, e@),
            PackEvent::Placed(Err(e)) => holds(answer, e@),
            _ => true,
        },
{
    match s.after(event).1 {
        PackStep::Finished { answer } => {
            match event {
                PackEvent::Located { place, name: _ } => {
                    match path_verdict(s.script, place) {
                        Err(e) => {
                            lemma_answer_holds(answer, e);
                            let head = "I could not safely package `"@;
                            assert(answer =~= head + s.script + ("`: "@ + e));
                            lemma_holds_middle(head, s.script, "`: "@ + e);
                        },
                        Ok(_) => {},
                    }
                },
                PackEvent::Done(Err(e)) => lemma_answer_holds(answer, e@),
                PackEvent::Command(CommandOutcome::Failed(e)) => lemma_answer_holds(answer, e@),
                PackEvent::Command(CommandOutcome::Ran { success: _, output }) => {
                    if output@.len() <= 1800 {
                        lemma_answer_holds(answer, output@);
                    }
                },
                PackEvent::Copied(Err(e)) => lemma_answer_holds(answer, e@),
                PackEvent::Placed(Err(e)) => lemma_answer_holds(answer, e@),
                _ => {},
            }
        },
        _ => {},
    }
}

/// An answer that ends with an error holds it.
proof fn lemma_answer_holds(answer: Seq<char>, error: Seq<char>)
    requires
        answer.len() >= error.len(),
        answer.skip(answer.len() - error.len()) =~= error,
    ensures
        holds(answer, error),
{
    let n = answer.len() - error.len();
    assert(answer.subrange(n, n + error.len()) =~= answer.skip(n));
    assert(occurs_at(answer, error, n));
}

impl Packing {
    /// The run after events.
    pub open spec fn run(self, events: Seq<PackEvent>) -> Packing
        decreases events.len(),
    {
        if events.len() == 0 {
            self
        } else {
            self.run(events.drop_last()).after(events.last()).0
        }
    }

    /// Each of the events is an answer to what the run waits for when it comes.
    pub open spec fn allows(self, events: Seq<PackEvent>) -> bool
        decreases events.len(),
    {
        events.len() > 0 ==> self.allows(events.drop_last()) && self.run(
            events.drop_last(),
        ).awaits(events.last())
    }

    /// The run is at its beginning.
    pub open spec fn fresh(self) -> bool {
        self.wf() && self.phase is Ready
    }

    /// What is to be done behind the last of the events.
    pub open spec fn step_behind(self, events: Seq<PackEvent>) -> PackStep<Seq<char>> {
        self.run(events.drop_last()).after(events.last()).1
    }
}

/// The event lets a script through: its path may be used, and it leads to a Python file.
pub open spec fn lets_script_through(script: Seq<char>, event: PackEvent) -> bool {
    event matches PackEvent::Located { place, name } && path_verdict(script, place) is Ok
        && python_name(name@)
}

/// The event says that the finished program was copied, and how its path is shown.
pub open spec fn placed_as(event: PackEvent, shown: Seq<char>) -> bool {
    event matches PackEvent::Placed(Ok(text)) && text@ == shown
}

/// One of the events lets the script through.
pub open spec fn script_passed(script: Seq<char>, events: Seq<PackEvent>) -> bool {
    exists|k: int| 0 <= k < events.len() && lets_script_through(script, #[trigger] events[k])
}

/// One of the events says that the finished program was copied, and how its path is shown.
pub open spec fn program_placed(events: Seq<PackEvent>, shown: Seq<char>) -> bool {
    exists|k: int| 0 <= k < events.len() && placed_as(#[trigger] events[k], shown)
}

/// In a run from its beginning every phase behind the check of the script lies behind an event that
/// let it through, and the last phase behind one that says that the program was copied.
proof fn lemma_packing(s: Packing, events: Seq<PackEvent>)
    requires
        s.fresh(),
        s.allows(events),
    ensures
        s.run(events).wf(),
        s.run(events).script == s.script,
        ({
            let phase = s.run(events).phase;
            phase is Ready || phase is Resolving || phase is Over || script_passed(s.script, events)
        }),
        s.run(events).phase is Smoke ==> program_placed(events, s.run(events).place),
    decreases events.len(),
{
    if events.len() > 0 {
        let before = events.drop_last();
        let last = events.len() - 1;
        let t = s.run(before);
        lemma_packing(s, before);
        packaging_advances(t, events.last());
        if t.phase is Resolving {
            if s.run(events).phase is Folder || s.run(events).phase is Script {
                assert(lets_script_through(s.script, events[last]));
            }
        } else if script_passed(s.script, before) {
            let k = choose|k: int|
                0 <= k < before.len() && lets_script_through(s.script, #[trigger] before[k]);
            assert(events[k] == before[k]);
        }
        if s.run(events).phase is Smoke {
            assert(placed_as(events[last], s.run(events).place));
        }
    }
}

/// Over a whole run, whatever the file system and the commands answer: nothing but the path of the
/// script is looked at, and nothing is written, run or built, before an event that let the path
/// through and named a Python file.
pub proof fn only_scripts_that_were_let_through_are_packaged(s: Packing, events: Seq<PackEvent>)
    requires
        s.fresh(),
        events.len() > 0,
        s.allows(events),
        !(s.step_behind(events) is Resolve || s.step_behind(events) is Finished),
    ensures
        script_passed(s.script, events),
{
    lemma_packing(s, events.drop_last());
    packaging_advances(s.run(events.drop_last()), events.last());
    lemma_packing(s, events);
}

/// Each of the events is what was hoped for.
pub open spec fn all_succeed(s: Packing, events: Seq<PackEvent>) -> bool
    decreases events.len(),
{
    events.len() > 0 ==> all_succeed(s, events.drop_last()) && succeeds(
        s.run(events.drop_last()),
        events.last(),
    )
}

/// Over a whole run: where every step succeeds, or the trial had to be stopped, the run goes on until
/// the finished program was tried, and then it reports success, naming script and program. So every
/// such run, windowed programs included, comes to a program.
#[verifier::rlimit(40)]
pub proof fn what_succeeds_becomes_a_program(s: Packing, events: Seq<PackEvent>)
    requires
        s.fresh(),
        events.len() > 0,
        s.allows(events),
        all_succeed(s, events),
    ensures
        s.step_behind(events) is Finished <==> events.last() is Output,
        s.step_behind(events) matches PackStep::Finished { answer } ==> begins(answer, "Done. "@)
            && holds(answer, s.script) && exists|shown: Seq<char>|
            #[trigger] program_placed(events, shown) && holds(answer, shown),
{
    let before = events.drop_last();
    let t = s.run(before);
    lemma_packing(s, before);
    packaging_leaves_nothing_out(t, events.last());
    match events.last() {
        PackEvent::Output(smoke) => {
            assert(t.phase is Smoke);
            let head = "Done. I packaged `"@;
            let middle = "` as an EXE.\n\nEXE: `"@;
            let tail = "`\n\nSmoke test:\n"@ + trimmed(smoke@);
            let answer = "Done. I packaged `"@ + s.script + "` as an EXE.\n\nEXE: `"@ + t.place
                + "`\n\nSmoke test:\n"@ + trimmed(smoke@);
            assert(s.step_behind(events) == (PackStep::Finished { answer }));
            assert(answer =~= head + s.script + (middle + t.place + tail));
            lemma_holds_middle(head, s.script, middle + t.place + tail);
            assert(answer =~= (head + s.script + middle) + t.place + tail);
            lemma_holds_middle(head + s.script + middle, t.place, tail);
            reveal_strlit("Done. ");
            reveal_strlit("Done. I packaged `");
            assert(answer.subrange(0, 6) =~= "Done. "@);
            let k = choose|k: int| 0 <= k < before.len() && placed_as(#[trigger] before[k], t.place);
            assert(events[k] == before[k]);
            assert(program_placed(events, t.place));
        },
        _ => {},
    }
}

/// An answer that does not follow on the trial of the finished program does not report success.
proof fn lemma_other_answers(s: Packing, event: PackEvent)
    requires
        s.wf(),
        s.awaits(event),
        !(event is Output),
    ensures
        s.after(event).1 matches PackStep::Finished { answer } ==> !begins(answer, "Done. "@),
{
    reveal_strlit("Done. ");
    reveal_strlit("I could not safely package `");
    reveal_strlit("`");
    reveal_strlit("I could not create the folder for `");
    reveal_strlit("I could not write `");
    reveal_strlit("I could not prepare PyInstaller.\n\n");
    reveal_strlit("I could not create the final dist folder: ");
    reveal_strlit("I cannot find `");
    reveal_strlit("I could not find a usable Python installation.\n\n");
    reveal_strlit("Packaging stopped during the temporary test run.\n\n");
    reveal_strlit("Packaging failed.\n\n");
    reveal_strlit("PyInstaller could not be started: ");
    reveal_strlit("I could not create the temporary packaging workspace.\n\n");
    reveal_strlit(
        "The temporary packaging workspace was created, but the script was not copied: ",
    );
    reveal_strlit("PyInstaller completed, but I cannot find the expected EXE: ");
    reveal_strlit("The EXE was built, but I could not copy it back to `dist`: ");
    match s.after(event).1 {
        PackStep::Finished { answer } => {
            assert(answer.len() > 0 && answer[0] != 'D');
            if begins(answer, "Done. "@) {
                assert(answer.subrange(0, 6)[0] == "Done. "@[0]);
            }
        },
        _ => {},
    }
}

/// Over a whole run, an answer that reports success comes only where the script was let through and
/// the finished program was copied, and it names the program as that was reported.
pub proof fn success_is_reported_only_of_a_program(s: Packing, events: Seq<PackEvent>)
    requires
        s.fresh(),
        events.len() > 0,
        s.allows(events),
        s.step_behind(events) matches PackStep::Finished { answer } && begins(answer, "Done. "@),
    ensures
        script_passed(s.script, events),
        program_placed(events, s.run(events).place),
        events.last() matches PackEvent::Output(smoke) && s.step_behind(events) == (
        PackStep::Finished {
            answer: "Done. I packaged `"@ + s.script + "` as an EXE.\n\nEXE: `"@ + s.run(events).place
                + "`\n\nSmoke test:\n"@ + trimmed(smoke@),
        }),
{
    let before = events.drop_last();
    let t = s.run(before);
    lemma_packing(s, before);
    if !(events.last() is Output) {
        lemma_other_answers(t, events.last());
    }
    let j = choose|k: int|
        0 <= k < before.len() && lets_script_through(s.script, #[trigger] before[k]);
    assert(events[j] == before[j]);
    let k = choose|k: int| 0 <= k < before.len() && placed_as(#[trigger] before[k], t.place);
    assert(events[k] == before[k]);
}

// ---------------------------------------------------------------------------------------------
// The run
// ---------------------------------------------------------------------------------------------

/// Folders and files that do not go into the temporary workspace.
pub open spec fn left_out(name: Seq<char>) -> bool {
    let lower = ascii_lower(name);
    ||| lower == ".git"@
    ||| lower == "target"@
    ||| lower == "build"@
    ||| lower == "dist"@
    ||| lower == "__pycache__"@
    ||| lower == ".pytest_cache"@
    ||| lower == ".mypy_cache"@
    ||| lower == ".ruff_cache"@
    ||| lower == ".venv"@
    ||| lower == "venv"@
    ||| lower == "env"@
    ||| lower == "node_modules"@
}

/// Nothing but the folders of tools and of what they make stays out of the workspace, however their
/// names are capitalised: every other file of the project goes into it.
pub proof fn only_these_stay_out(name: Seq<char>)
    ensures
        left_out(name) <==> {
            ||| ascii_lower(name) == ".git"@
            ||| ascii_lower(name) == "target"@
            ||| ascii_lower(name) == "build"@
            ||| ascii_lower(name) == "dist"@
            ||| ascii_lower(name) == "__pycache__"@
            ||| ascii_lower(name) == ".pytest_cache"@
            ||| ascii_lower(name) == ".mypy_cache"@
            ||| ascii_lower(name) == ".ruff_cache"@
            ||| ascii_lower(name) == ".venv"@
            ||| ascii_lower(name) == "venv"@
            ||| ascii_lower(name) == "env"@
            ||| ascii_lower(name) == "node_modules"@
        },
{
}

/// Where no Python can be started, every error that was met on the way is told.
pub proof fn all_python_errors_are_told(s: Packing, outcome: CommandOutcome, i: int)
    requires
        s.wf(),
        s.phase is Python,
        s.candidate + 1 == python_ways().len(),
        !(outcome matches CommandOutcome::Ran { success: true, output: _ }),
    ensures
        s.after(PackEvent::Command(outcome)).1 matches PackStep::Finished { answer } && (0 <= i
            < s.errors.len() ==> holds(answer, s.errors[i])) && match outcome {
            CommandOutcome::Ran { success: _, output } => holds(answer, output@),
            CommandOutcome::Failed(e) => holds(answer, e@),
        },
{
    let error = match outcome {
        CommandOutcome::Ran { success: _, output } => output@,
        CommandOutcome::Failed(e) => e@,
    };
    let errors = s.errors.push(error);
    let all = joined(errors, "\n"@);
    let head = "I could not find a usable Python installation.\n\n"@;
    let answer = head + all;
    let none = Seq::<char>::empty();
    lemma_holds_middle(head, all, none);
    assert(head + all + none =~= answer);
    let last = s.errors.len() as int;
    lemma_joined_holds(errors, "\n"@, last);
    lemma_holds_part(answer, all, error);
    if 0 <= i < s.errors.len() {
        assert(errors[i] == s.errors[i]);
        lemma_joined_holds(errors, "\n"@, i);
        lemma_holds_part(answer, all, s.errors[i]);
    }
}

/// Whether a folder or a file does not go into the temporary workspace.
pub fn is_left_out(name: &str) -> (r: bool)
    ensures
        r == left_out(name@),
{
    let lower = to_ascii_lower(name);
    let l = lower.as_str();
    text_is(l, ".git") || text_is(l, "target") || text_is(l, "build") || text_is(l, "dist")
        || text_is(l, "__pycache__") || text_is(l, ".pytest_cache") || text_is(l, ".mypy_cache")
        || text_is(l, ".ruff_cache") || text_is(l, ".venv") || text_is(l, "venv") || text_is(
        l,
        "env",
    ) || text_is(l, "node_modules")
}

/// Whether a file is too large to go into the temporary workspace: more than 50 MiB.
pub fn is_too_large(bytes: u64) -> (r: bool)
    ensures
        r == (bytes > 50 * 1024 * 1024),
{
    bytes > 52_428_800
}

/// The name of the folder that a program is built in.
pub fn work_folder(exe_name: &str, millis: u128) -> (r: String)
    ensures
        r@ == safe_stem(exe_name@) + "_"@ + decimal(millis as nat),
{
    cat3(sanitize_file_stem(exe_name).as_str(), "_", to_decimal(millis).as_str())
}

impl PackRun {
    /// A run for the given script, before its first step.
    pub fn new(script_path: &str, bootstrap_content: Option<String>) -> (r: PackRun)
        ensures
            r@ == (Packing {
                script: script_path@,
                bootstrap: opt_text(bootstrap_content),
                phase: PackPhase::Ready,
                log: Seq::empty(),
                candidate: 0,
                errors: Seq::empty(),
                place: ""@,
            }),
            r@.wf(),
    {
        let log_lines: Vec<String> = Vec::new();
        let errors: Vec<String> = Vec::new();
        assert(texts(log_lines@) =~= Seq::<Seq<char>>::empty());
        assert(texts(errors@) =~= Seq::<Seq<char>>::empty());
        PackRun {
            script: script_path.to_owned(),
            bootstrap: bootstrap_content,
            phase: PackPhase::Ready,
            log_lines,
            candidate: 0,
            errors,
            place: "".to_owned(),
        }
    }

    /// One more line in the log.
    fn note(&mut self, line: String)
        ensures
            final(self)@ == old(self)@.noting(line@),
    {
        self.log_lines.push(line);
        assert(texts(self.log_lines@) =~= texts(old(self).log_lines@).push(line@));
    }

    /// Ends the run.
    fn end(&mut self, answer: String) -> (r: PackStep<String>)
        ensures
            (final(self)@, r@) == old(self)@.over(answer@),
    {
        self.phase = PackPhase::Over;
        PackStep::Finished { answer }
    }

    /// Ends the run for want of the packager.
    fn end_without_tools(&mut self, error: &str) -> (r: PackStep<String>)
        ensures
            (final(self)@, r@) == old(self)@.without_tools(error@),
    {
        self.end(cat2("I could not prepare PyInstaller.\n\n", error))
    }

    /// Ends the run because the script did not pass its trial.
    fn stop(&mut self, error: &str) -> (r: PackStep<String>)
        ensures
            (final(self)@, r@) == old(self)@.stopped(error@),
    {
        self.end(cat2("Packaging stopped during the temporary test run.\n\n", error))
    }

    /// Lets the program be built.
    fn build(&mut self) -> (r: PackStep<String>)
        ensures
            (final(self)@, r@) == old(self)@.building(),
    {
        self.note(cat2("PyInstaller builds from temporary workspace: ", self.place.as_str()));
        self.phase = PackPhase::Building;
        PackStep::Build
    }

    /// Tries the next Python, if there is one.
    fn next_python(&mut self, error: String) -> (r: PackStep<String>)
        requires
            old(self)@.wf(),
        ensures
            (final(self)@, r@) == old(self)@.without_python(error@),
    {
        self.errors.push(error);
        assert(texts(self.errors@) =~= texts(old(self).errors@).push(error@));
        if self.candidate < 2 {
            self.candidate += 1;
            PackStep::TryPython { candidate: self.candidate }
        } else {
            let all = join(&self.errors, "\n");
            self.note(cat2("Python is not usable: ", all.as_str()));
            self.end(cat2("I could not find a usable Python installation.\n\n", all.as_str()))
        }
    }

    /// Takes in what came of a command.
    fn advance_command(&mut self, outcome: CommandOutcome) -> (r: PackStep<String>)
        requires
            old(self)@.wf(),
            old(self)@.awaits(PackEvent::Command(outcome)),
        ensures
            (final(self)@, r@) == old(self)@.after_command(outcome),
    {
        match outcome {
            CommandOutcome::Ran { success, output } => {
                let out = output.as_str();
                match self.phase {
                    PackPhase::Python => if success {
                        self.phase = PackPhase::Tools;
                        PackStep::FindTools
                    } else {
                        self.next_python(output)
                    },
                    PackPhase::Installing => if success {
                        self.phase = PackPhase::ToolsCheck;
                        PackStep::CheckTools
                    } else {
                        let error = cat2(
                            "pip install pyinstaller failed.\n",
                            truncate_text(out, 1800).as_str(),
                        );
                        self.end_without_tools(error.as_str())
                    },
                    PackPhase::ToolsCheck => if success {
                        self.note(
                            cat2("PyInstaller ready: ", truncate_text(trim(out), 120).as_str()),
                        );
                        self.phase = PackPhase::Workspace;
                        PackStep::CopyWorkspace
                    } else {
                        let error = cat2(
                            "PyInstaller is not usable.\n",
                            truncate_text(out, 1800).as_str(),
                        );
                        self.end_without_tools(error.as_str())
                    },
                    PackPhase::Syntax => if success {
                        self.note("Temporary test: Python syntax check passed.".to_owned());
                        self.phase = PackPhase::Trial;
                        PackStep::TrialRun
                    } else {
                        let error = cat2(
                            "Python syntax check failed:\n",
                            truncate_text(out, 1800).as_str(),
                        );
                        self.stop(error.as_str())
                    },
                    PackPhase::Trial => if success {
                        self.note(
                            cat2(
                                "Temporary test run passed: ",
                                truncate_text(trim(out), 300).as_str(),
                            ),
                        );
                        self.build()
                    } else {
                        let error = cat2(
                            "Temporary test run failed:\n",
                            truncate_text(out, 1800).as_str(),
                        );
                        self.stop(error.as_str())
                    },
                    _ => if success {
                        self.phase = PackPhase::Program;
                        PackStep::CheckProgram
                    } else {
                        self.note(cat2("PyInstaller error: ", truncate_text(out, 1200).as_str()));
                        let answer = cat2(
                            "Packaging failed.\n\n",
                            truncate_text(out, 1800).as_str(),
                        );
                        self.end(answer)
                    },
                }
            },
            CommandOutcome::Failed(e) => match self.phase {
                PackPhase::Python => self.next_python(e),
                PackPhase::Installing => {
                    let error = cat2("pip could not be started: ", e.as_str());
                    self.end_without_tools(error.as_str())
                },
                PackPhase::ToolsCheck => {
                    let error = cat2("PyInstaller could not be checked: ", e.as_str());
                    self.end_without_tools(error.as_str())
                },
                PackPhase::Syntax => {
                    let error = cat2("Python syntax check could not finish:\n", e.as_str());
                    self.stop(error.as_str())
                },
                PackPhase::Trial => {
                    self.note(
                        cat2(
                            "Temporary test run did not finish quickly; continuing because GUI apps often keep running. Diagnostic: ",
                            truncate_text(e.as_str(), 500).as_str(),
                        ),
                    );
                    self.build()
                },
                _ => self.end(cat2("PyInstaller could not be started: ", e.as_str())),
            },
        }
    }

    /// Takes in what came of the last step and says what is to be done next.
    pub fn advance(&mut self, event: PackEvent) -> (r: PackStep<String>)
        requires
            old(self)@.wf(),
            old(self)@.awaits(event),
        ensures
            (final(self)@, r@) == old(self)@.after(event),
            final(self)@.wf(),
    {
        match event {
            PackEvent::Begin => {
                self.note("Local tool: package Python as EXE.".to_owned());
                self.phase = PackPhase::Resolving;
                PackStep::Resolve { path: self.script.as_str().to_owned() }
            },
            PackEvent::Located { place, name } => match safe_project_path(
                self.script.as_str(),
                &place,
            ) {
                Err(e) => {
                    self.note(cat2("Python packaging blocked: ", e.as_str()));
                    let mut answer = cat3(
                        "I could not safely package `",
                        self.script.as_str(),
                        "`: ",
                    );
                    answer.append(e.as_str());
                    self.end(answer)
                },
                Ok(_) => if !is_python_name(name.as_str()) {
                    let answer = cat3("`", self.script.as_str(), "` is not a Python file.");
                    self.end(answer)
                } else if self.bootstrap.is_some() {
                    self.phase = PackPhase::Folder;
                    PackStep::MakeFolder
                } else {
                    self.phase = PackPhase::Script;
                    PackStep::CheckScript
                },
            },
            PackEvent::Done(Err(e)) => match self.phase {
                PackPhase::Folder => {
                    let mut answer = cat3(
                        "I could not create the folder for `",
                        self.script.as_str(),
                        "`: ",
                    );
                    answer.append(e.as_str());
                    self.end(answer)
                },
                PackPhase::Writing => {
                    let mut answer = cat3(
                        "I could not write `",
                        self.script.as_str(),
                        "` as the start file: ",
                    );
                    answer.append(e.as_str());
                    self.end(answer)
                },
                PackPhase::ToolsFolder => {
                    let error = cat2("Packager folder could not be created: ", e.as_str());
                    self.end_without_tools(error.as_str())
                },
                _ => self.end(cat2("I could not create the final dist folder: ", e.as_str())),
            },
            PackEvent::Done(Ok(_)) => match self.phase {
                PackPhase::Folder => {
                    self.phase = PackPhase::Writing;
                    let content = match &self.bootstrap {
                        Some(content) => content.as_str().to_owned(),
                        None => "".to_owned(),
                    };
                    PackStep::WriteScript { content }
                },
                PackPhase::Writing => {
                    self.note(cat2("Python file created/updated: ", self.script.as_str()));
                    self.phase = PackPhase::Script;
                    PackStep::CheckScript
                },
                PackPhase::ToolsFolder => {
                    self.phase = PackPhase::Installing;
                    PackStep::InstallTools
                },
                _ => {
                    self.phase = PackPhase::Placing;
                    PackStep::CopyProgram
                },
            },
            PackEvent::Exists(there) => match self.phase {
                PackPhase::Script => if there {
                    self.phase = PackPhase::Python;
                    PackStep::TryPython { candidate: self.candidate }
                } else {
                    let answer = cat3(
                        "I cannot find `",
                        self.script.as_str(),
                        "` in the project folder.",
                    );
                    self.end(answer)
                },
                _ => if there {
                    self.phase = PackPhase::ToolsCheck;
                    PackStep::CheckTools
                } else {
                    self.note("PyInstaller is missing locally; trying installation...".to_owned());
                    self.phase = PackPhase::ToolsFolder;
                    PackStep::MakeTools
                },
            },
            PackEvent::Command(outcome) => self.advance_command(outcome),
            PackEvent::Copied(Err(e)) => self.end(
                cat2("I could not create the temporary packaging workspace.\n\n", e.as_str()),
            ),
            PackEvent::Copied(Ok((copied, skipped))) => {
                let line = cat5(
                    "Temporary packaging workspace prepared: ",
                    to_decimal(copied as u128).as_str(),
                    " file(s) copied, ",
                    to_decimal(skipped as u128).as_str(),
                    " large file(s) skipped.",
                );
                self.note(line);
                self.phase = PackPhase::Copy;
                PackStep::CheckCopy
            },
            PackEvent::Found { exists, shown, full } => match self.phase {
                PackPhase::Copy => if exists {
                    self.place = full;
                    self.phase = PackPhase::Syntax;
                    PackStep::Compile
                } else {
                    let answer = cat2(
                        "The temporary packaging workspace was created, but the script was not copied: ",
                        shown.as_str(),
                    );
                    self.end(answer)
                },
                _ => if exists {
                    self.phase = PackPhase::Dist;
                    PackStep::MakeDist
                } else {
                    self.note("PyInstaller finished, but the EXE was not found.".to_owned());
                    let answer = cat2(
                        "PyInstaller completed, but I cannot find the expected EXE: ",
                        full.as_str(),
                    );
                    self.end(answer)
                },
            },
            PackEvent::Placed(Err(e)) => self.end(
                cat2(
                    "The EXE was built, but I could not copy it back to `dist`: ",
                    e.as_str(),
                ),
            ),
            PackEvent::Placed(Ok(shown)) => {
                let line = cat2("EXE created: ", shown.as_str());
                self.place = shown;
                self.note(line);
                self.phase = PackPhase::Smoke;
                PackStep::SmokeTest
            },
            PackEvent::Output(smoke) => {
                self.note(cat2("EXE smoke test: ", truncate_text(smoke.as_str(), 300).as_str()));
                let mut answer = cat5(
                    "Done. I packaged `",
                    self.script.as_str(),
                    "` as an EXE.\n\nEXE: `",
                    self.place.as_str(),
                    "`\n\nSmoke test:\n",
                );
                answer.append(trim(smoke.as_str()));
                self.end(answer)
            },
        }
    }

    /// The log of the run.
    pub fn into_log(self) -> (r: Vec<String>)
        ensures
            texts(r@) == self@.log,
    {
        self.log_lines
    }
}

} // verus!

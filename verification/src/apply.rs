//! Carrying out file actions, one step on the file system at a time.

use vstd::prelude::*;
use crate::actions::{action_path, actions_view, path_of, Action, FileAction};
use crate::answer::{shortened, truncate_text};
use crate::numbers::{decimal, to_decimal};
use crate::order::{ordered_set, sort_dedup};
use crate::paths::{
    accepted_paths_stay_inside, clean_source, climbs, path_text, path_verdict, safe_project_path,
    source_text, within, PathFacts,
};
use crate::text::{
    cat2, cat4, count_matches, count_of, counting_is_right, find, first_at, holds, lemma_first_at,
    lemma_found_first, occurs_at, opt_text, skip_chars, take_chars, texts,
};

verus! {

/// What is to be done next on the file system.
#[derive(Debug)]
pub enum ApplyStep<T> {
    /// Tell whether `source` is there and a file.
    CheckSource { source: T },
    /// Find the target that the path leads to, keep it, and tell what the file system says of it.
    Resolve { path: T },
    /// Create the folder of the target.
    MakeFolder,
    /// Read the target.
    Read,
    /// Open the target for appending.
    Open,
    /// Write `content` into the target.
    Write { content: T },
    /// Copy `source` to the target.
    Copy { source: T },
    /// Append `content` to the opened target.
    Append { content: T },
    /// Make a program of the script `path`.
    Pack { path: T },
    /// Tell whether the file `path` of the project exists.
    CheckProgram { path: T },
    /// Nothing more: the report is complete.
    Finished,
}

impl View for ApplyStep<String> {
    type V = ApplyStep<Seq<char>>;

    open spec fn view(&self) -> ApplyStep<Seq<char>> {
        match self {
            ApplyStep::CheckSource { source } => ApplyStep::CheckSource { source: source@ },
            ApplyStep::Resolve { path } => ApplyStep::Resolve { path: path@ },
            ApplyStep::MakeFolder => ApplyStep::MakeFolder,
            ApplyStep::Read => ApplyStep::Read,
            ApplyStep::Open => ApplyStep::Open,
            ApplyStep::Write { content } => ApplyStep::Write { content: content@ },
            ApplyStep::Copy { source } => ApplyStep::Copy { source: source@ },
            ApplyStep::Append { content } => ApplyStep::Append { content: content@ },
            ApplyStep::Pack { path } => ApplyStep::Pack { path: path@ },
            ApplyStep::CheckProgram { path } => ApplyStep::CheckProgram { path: path@ },
            ApplyStep::Finished => ApplyStep::Finished,
        }
    }
}

/// What came of a step.
#[derive(Debug)]
pub enum ApplyEvent {
    /// Nothing was done yet.
    Begin,
    /// The answer to a question.
    Checked(bool),
    /// What the file system says of the path.
    Located(PathFacts),
    /// The step succeeded, or why it did not.
    Done(Result<(), String>),
    /// The text that was read, or why it could not be read.
    Text(Result<String, String>),
    /// What making a program came to: its log, its answer, and the stem of the script's name.
    Packed { log_lines: Vec<String>, answer: String, stem: Option<String> },
}

/// What the run waits for.
#[derive(Clone, Copy, Debug, PartialEq, Eq, Structural)]
pub enum ApplyPhase {
    Ready,
    Source,
    Target,
    Folder,
    Reading,
    Opening,
    Commit,
    Packing,
    Program,
    Over,
}

/// A run over file actions.
#[derive(Debug)]
pub struct ApplyRun {
    actions: Vec<FileAction>,
    at: usize,
    phase: ApplyPhase,
    log_lines: Vec<String>,
    changed_files: Vec<String>,
    had_error: bool,
    program: String,
    pack_answer: String,
}

/// What an [`ApplyRun`] holds.
pub struct Applying {
    /// The actions to carry out.
    pub actions: Seq<Action>,
    /// How many of them are over.
    pub at: int,
    pub phase: ApplyPhase,
    pub log: Seq<Seq<char>>,
    pub changed: Seq<Seq<char>>,
    pub had_error: bool,
    /// The program that is being made.
    pub program: Seq<char>,
    /// What making it came to.
    pub pack_answer: Seq<char>,
}

impl View for ApplyRun {
    type V = Applying;

    closed spec fn view(&self) -> Applying {
        Applying {
            actions: actions_view(self.actions@),
            at: self.at as int,
            phase: self.phase,
            log: texts(self.log_lines@),
            changed: texts(self.changed_files@),
            had_error: self.had_error,
            program: self.program@,
            pack_answer: self.pack_answer@,
        }
    }
}

/// What was done.
#[derive(Debug)]
pub struct ActionReport {
    pub log_lines: Vec<String>,
    pub changed_files: Vec<String>,
    pub had_error: bool,
}

/// `s` with its first `pat` replaced by `with`.
pub open spec fn replaced_first(s: Seq<char>, pat: Seq<char>, with: Seq<char>) -> Seq<char> {
    match first_at(s, pat) {
        Some(i) => s.take(i) + with + s.skip(i + pat.len()),
        None => s,
    }
}

/// The path where the program made of a script is looked for.
pub open spec fn program_path(stem: Option<Seq<char>>) -> Seq<char> {
    "dist/"@ + match stem {
        Some(s) => s,
        None => "app"@,
    } + ".exe"@
}

impl Applying {
    /// The action that is being carried out.
    pub open spec fn current(self) -> Action {
        self.actions[self.at]
    }

    /// The phase belongs to the action that is being carried out.
    pub open spec fn wf(self) -> bool {
        &&& 0 <= self.at <= self.actions.len()
        &&& match self.phase {
            ApplyPhase::Ready => self.at == 0,
            ApplyPhase::Over => self.at == self.actions.len(),
            ApplyPhase::Source => self.at < self.actions.len() && self.current() is CopyFile,
            ApplyPhase::Target | ApplyPhase::Commit => self.at < self.actions.len()
                && !(self.current() is PackagePythonExe),
            ApplyPhase::Folder => self.at < self.actions.len() && (self.current() is WriteFile
                || self.current() is CopyFile || self.current() is AppendFile),
            ApplyPhase::Opening => self.at < self.actions.len() && self.current() is AppendFile,
            ApplyPhase::Reading => self.at < self.actions.len() && self.current() is ReplaceText,
            ApplyPhase::Packing | ApplyPhase::Program => self.at < self.actions.len()
                && self.current() is PackagePythonExe,
        }
        &&& (self.at < self.actions.len() && !(self.phase is Ready)) ==> match self.current() {
            Action::ReplaceText { path: _, find, replace: _ } => find.len() > 0,
            _ => true,
        }
    }

    /// The event is an answer to what the run waits for.
    pub open spec fn awaits(self, event: ApplyEvent) -> bool {
        match self.phase {
            ApplyPhase::Ready => event is Begin,
            ApplyPhase::Source | ApplyPhase::Program => event is Checked,
            ApplyPhase::Target => event is Located,
            ApplyPhase::Folder | ApplyPhase::Opening | ApplyPhase::Commit => event is Done,
            ApplyPhase::Reading => event is Text,
            ApplyPhase::Packing => event is Packed,
            ApplyPhase::Over => false,
        }
    }

    /// The run with another phase.
    pub open spec fn in_phase(self, phase: ApplyPhase) -> Applying {
        Applying { phase, ..self }
    }

    /// The run goes on with the next action: the first step of it, unless it is a replacement
    /// of nothing, which is refused at once.
    pub open spec fn entered(self) -> (Applying, ApplyStep<Seq<char>>)
        decreases self.actions.len() - self.at,
    {
        if self.at < 0 || self.at >= self.actions.len() {
            (self.in_phase(ApplyPhase::Over), ApplyStep::Finished)
        } else {
            match self.current() {
                Action::WriteFile { path, content: _ } => (
                    self.in_phase(ApplyPhase::Target),
                    ApplyStep::Resolve { path },
                ),
                Action::CopyFile { source, path: _ } => (
                    self.in_phase(ApplyPhase::Source),
                    ApplyStep::CheckSource { source: source_text(source) },
                ),
                Action::PackagePythonExe { path } => (
                    self.in_phase(ApplyPhase::Packing),
                    ApplyStep::Pack { path },
                ),
                Action::ReplaceText { path, find, replace: _ } => if find.len() == 0 {
                    Applying {
                        at: self.at + 1,
                        had_error: true,
                        log: self.log.push("replace_text blocked: empty search text in "@ + path),
                        ..self
                    }.entered()
                } else {
                    (self.in_phase(ApplyPhase::Target), ApplyStep::Resolve { path })
                },
                Action::AppendFile { path, content: _ } => (
                    self.in_phase(ApplyPhase::Target),
                    ApplyStep::Resolve { path },
                ),
            }
        }
    }

    /// The action failed, with this line for the log.
    pub open spec fn failed(self, line: Seq<char>) -> (Applying, ApplyStep<Seq<char>>) {
        Applying { at: self.at + 1, had_error: true, log: self.log.push(line), ..self }.entered()
    }

    /// The action succeeded, with this line for the log, and changed this file.
    pub open spec fn succeeded(self, line: Seq<char>, file: Seq<char>) -> (
        Applying,
        ApplyStep<Seq<char>>,
    ) {
        Applying {
            at: self.at + 1,
            log: self.log.push(line),
            changed: self.changed.push(file),
            ..self
        }.entered()
    }

    /// The log line for a path that is refused.
    pub open spec fn refusal(self, error: Seq<char>) -> Seq<char> {
        match self.current() {
            Action::WriteFile { .. } => "write_file blocked: "@ + error,
            Action::CopyFile { .. } => "copy_file target blocked: "@ + error,
            Action::ReplaceText { .. } => "replace_text blocked: "@ + error,
            _ => "append_file blocked: "@ + error,
        }
    }

    /// The log line for a folder that could not be created.
    pub open spec fn folder_failure(self, error: Seq<char>) -> Seq<char> {
        let path = action_path(self.current());
        match self.current() {
            Action::WriteFile { .. } => "write_file failed (folder): "@ + path + ": "@ + error,
            Action::CopyFile { .. } => "copy_file failed creating folder for "@ + path + ": "@
                + error,
            _ => "append_file failed (folder): "@ + path + ": "@ + error,
        }
    }

    /// The log line for a change that failed.
    pub open spec fn change_failure(self, error: Seq<char>) -> Seq<char> {
        match self.current() {
            Action::WriteFile { path, content: _ } => "write_file failed: "@ + path + ": "@ + error,
            Action::CopyFile { source, path } => "copy_file failed: "@ + source_text(source)
                + " -> "@ + path + ": "@ + error,
            Action::ReplaceText { path, find: _, replace: _ } => "replace_text failed: "@ + path
                + ": "@ + error,
            _ => "append_file write failed: "@ + action_path(self.current()) + ": "@ + error,
        }
    }

    /// The log line for a change that was made.
    pub open spec fn change_line(self) -> Seq<char> {
        match self.current() {
            Action::WriteFile { path, content: _ } => "File written: "@ + path,
            Action::CopyFile { source, path } => "File copied: "@ + source_text(source) + " -> "@
                + path,
            Action::ReplaceText { path, find: _, replace: _ } => "Text replaced: "@ + path,
            _ => "Text appended: "@ + action_path(self.current()),
        }
    }

    /// The change itself, once target and folder are there.
    pub open spec fn change(self) -> (Applying, ApplyStep<Seq<char>>) {
        match self.current() {
            Action::WriteFile { path: _, content } => (
                self.in_phase(ApplyPhase::Commit),
                ApplyStep::Write { content },
            ),
            Action::CopyFile { source, path: _ } => (
                self.in_phase(ApplyPhase::Commit),
                ApplyStep::Copy { source: source_text(source) },
            ),
            _ => (self.in_phase(ApplyPhase::Opening), ApplyStep::Open),
        }
    }

    /// What the text of the target means for a replacement: it is made where there is exactly
    /// one place for it.
    pub open spec fn after_text(self, text: Seq<char>) -> (Applying, ApplyStep<Seq<char>>) {
        match self.current() {
            Action::ReplaceText { path, find, replace } => if count_of(text, find) == 1 {
                (
                    self.in_phase(ApplyPhase::Commit),
                    ApplyStep::Write { content: replaced_first(text, find, replace) },
                )
            } else {
                self.failed(
                    "replace_text blocked: "@ + decimal(count_of(text, find)) + " matches in "@
                        + path + " (expected: 1)"@,
                )
            },
            _ => (self, ApplyStep::Finished),
        }
    }

    /// The run after an event, and what is to be done next.
    pub open spec fn after(self, event: ApplyEvent) -> (Applying, ApplyStep<Seq<char>>) {
        match (self.phase, event) {
            (ApplyPhase::Ready, ApplyEvent::Begin) => self.entered(),
            (ApplyPhase::Source, ApplyEvent::Checked(there)) => match self.current() {
                Action::CopyFile { source, path } => if there {
                    (self.in_phase(ApplyPhase::Target), ApplyStep::Resolve { path })
                } else {
                    self.failed("copy_file blocked: source is not available: "@ + source)
                },
                _ => (self, ApplyStep::Finished),
            },
            (ApplyPhase::Target, ApplyEvent::Located(facts)) => match path_verdict(
                action_path(self.current()),
                facts,
            ) {
                Err(e) => self.failed(self.refusal(e)),
                Ok(_) => if self.current() is ReplaceText {
                    (self.in_phase(ApplyPhase::Reading), ApplyStep::Read)
                } else {
                    (self.in_phase(ApplyPhase::Folder), ApplyStep::MakeFolder)
                },
            },
            (ApplyPhase::Folder, ApplyEvent::Done(Err(e))) => self.failed(self.folder_failure(e@)),
            (ApplyPhase::Folder, ApplyEvent::Done(Ok(_))) => self.change(),
            (ApplyPhase::Opening, ApplyEvent::Done(Err(e))) => self.failed(
                "append_file failed: "@ + action_path(self.current()) + ": "@ + e@,
            ),
            (ApplyPhase::Opening, ApplyEvent::Done(Ok(_))) => match self.current() {
                Action::AppendFile { path: _, content } => (
                    self.in_phase(ApplyPhase::Commit),
                    ApplyStep::Append { content },
                ),
                _ => (self, ApplyStep::Finished),
            },
            (ApplyPhase::Reading, ApplyEvent::Text(Err(e))) => self.failed(
                "replace_text could not read file: "@ + action_path(self.current()) + ": "@ + e@,
            ),
            (ApplyPhase::Reading, ApplyEvent::Text(Ok(text))) => self.after_text(text@),
            (ApplyPhase::Commit, ApplyEvent::Done(Err(e))) => self.failed(self.change_failure(e@)),
            (ApplyPhase::Commit, ApplyEvent::Done(Ok(_))) => self.succeeded(
                self.change_line(),
                action_path(self.current()),
            ),
            (ApplyPhase::Packing, ApplyEvent::Packed { log_lines, answer, stem }) => {
                let program = program_path(opt_text(stem));
                (
                    Applying {
                        phase: ApplyPhase::Program,
                        log: self.log + texts(log_lines@),
                        program,
                        pack_answer: answer@,
                        ..self
                    },
                    ApplyStep::CheckProgram { path: program },
                )
            },
            (ApplyPhase::Program, ApplyEvent::Checked(there)) => if there {
                self.succeeded("Python-EXE gepackt: "@ + self.program, self.program)
            } else {
                self.failed("package_python_exe failed: "@ + shortened(self.pack_answer, 500))
            },
            _ => (self, ApplyStep::Finished),
        }
    }

    /// How far along the current action is.
    pub open spec fn stage(self) -> int {
        match self.phase {
            ApplyPhase::Ready => 6,
            ApplyPhase::Source => 5,
            ApplyPhase::Target => 4,
            ApplyPhase::Folder | ApplyPhase::Packing => 3,
            ApplyPhase::Reading | ApplyPhase::Opening => 2,
            ApplyPhase::Commit | ApplyPhase::Program => 1,
            ApplyPhase::Over => 0,
        }
    }
}

// ---------------------------------------------------------------------------------------------
// Laws
// ---------------------------------------------------------------------------------------------

/// A step that touches files of the project.
pub open spec fn touches_files(step: ApplyStep<Seq<char>>) -> bool {
    ||| step is MakeFolder
    ||| step is Read
    ||| step is Open
    ||| step is Write
    ||| step is Copy
    ||| step is Append
}

/// Going on with the next action touches no file, and keeps the run in good order.
proof fn lemma_entered(s: Applying)
    requires
        0 <= s.at <= s.actions.len(),
    ensures
        s.entered().0.wf(),
        !touches_files(s.entered().1),
        s.entered().0.at >= s.at,
        s.entered().0.actions == s.actions,
        s.entered().0.changed == s.changed,
        s.had_error ==> s.entered().0.had_error,
        s.log.is_prefix_of(s.entered().0.log),
        !(s.entered().0.phase is Ready),
        (s.entered().1 is Finished) == (s.entered().0.phase is Over),
        s.entered().0.stage() < 6,
    decreases s.actions.len() - s.at,
{
    if s.at < s.actions.len() {
        match s.current() {
            Action::ReplaceText { path, find, replace: _ } => {
                if find.len() == 0 {
                    let t = Applying {
                        at: s.at + 1,
                        had_error: true,
                        log: s.log.push("replace_text blocked: empty search text in "@ + path),
                        ..s
                    };
                    lemma_entered(t);
                    assert(s.log.is_prefix_of(t.log));
                    assert(s.log.is_prefix_of(t.entered().0.log));
                }
            },
            _ => {},
        }
    }
}

/// Every event keeps the run in good order, and the run says that it is finished exactly where
/// it is over.
pub proof fn good_order_is_kept(s: Applying, event: ApplyEvent)
    requires
        s.wf(),
        s.awaits(event),
    ensures
        s.after(event).0.wf(),
        s.after(event).0.actions == s.actions,
        (s.after(event).1 is Finished) == (s.after(event).0.phase is Over),
{
    lemma_continuations(s, event);
}

/// What the two ways to end an action lead to.
proof fn lemma_continuations(s: Applying, event: ApplyEvent)
    requires
        s.wf(),
        s.awaits(event),
    ensures
        s.at < s.actions.len() ==> forall|line: Seq<char>|
            ({
                let t = (#[trigger] s.failed(line)).0;
                &&& t.wf()
                &&& t.at > s.at
                &&& t.actions == s.actions
                &&& t.changed == s.changed
                &&& t.had_error
                &&& s.log.is_prefix_of(t.log)
                &&& !touches_files(s.failed(line).1)
                &&& (s.failed(line).1 is Finished) == (t.phase is Over)
                &&& !(t.phase is Ready)
            }),
        s.at < s.actions.len() ==> forall|line: Seq<char>, file: Seq<char>|
            ({
                let t = (#[trigger] s.succeeded(line, file)).0;
                &&& t.wf()
                &&& t.at > s.at
                &&& t.actions == s.actions
                &&& t.changed == s.changed.push(file)
                &&& s.had_error ==> t.had_error
                &&& s.log.is_prefix_of(t.log)
                &&& !touches_files(s.succeeded(line, file).1)
                &&& (s.succeeded(line, file).1 is Finished) == (t.phase is Over)
                &&& !(t.phase is Ready)
            }),
        s.phase is Ready ==> ({
            let t = s.entered().0;
            &&& t.wf()
            &&& t.at >= s.at
            &&& t.actions == s.actions
            &&& t.changed == s.changed
            &&& s.had_error ==> t.had_error
            &&& s.log.is_prefix_of(t.log)
            &&& !touches_files(s.entered().1)
            &&& (s.entered().1 is Finished) == (t.phase is Over)
            &&& !(t.phase is Ready)
            &&& t.stage() < s.stage()
        }),
{
    if s.at < s.actions.len() {
        assert forall|line: Seq<char>|
            ({
                let t = (#[trigger] s.failed(line)).0;
                &&& t.wf()
                &&& t.at > s.at
                &&& t.actions == s.actions
                &&& t.changed == s.changed
                &&& t.had_error
                &&& s.log.is_prefix_of(t.log)
                &&& !touches_files(s.failed(line).1)
                &&& (s.failed(line).1 is Finished) == (t.phase is Over)
                &&& !(t.phase is Ready)
            }) by {
            let m = Applying { at: s.at + 1, had_error: true, log: s.log.push(line), ..s };
            lemma_entered(m);
            assert(s.log.is_prefix_of(m.log));
        }
        assert forall|line: Seq<char>, file: Seq<char>|
            ({
                let t = (#[trigger] s.succeeded(line, file)).0;
                &&& t.wf()
                &&& t.at > s.at
                &&& t.actions == s.actions
                &&& t.changed == s.changed.push(file)
                &&& s.had_error ==> t.had_error
                &&& s.log.is_prefix_of(t.log)
                &&& !touches_files(s.succeeded(line, file).1)
                &&& (s.succeeded(line, file).1 is Finished) == (t.phase is Over)
                &&& !(t.phase is Ready)
            }) by {
            let m = Applying {
                at: s.at + 1,
                log: s.log.push(line),
                changed: s.changed.push(file),
                ..s
            };
            lemma_entered(m);
            assert(s.log.is_prefix_of(m.log));
        }
    }
    if s.phase is Ready {
        lemma_entered(s);
    }
}

/// What was said of the path of the current action let it through.
pub open spec fn lets_through(s: Applying, event: ApplyEvent) -> bool {
    event matches ApplyEvent::Located(facts) && path_verdict(action_path(s.current()), facts) is Ok
}

/// No file is touched before its path was let through: a step that touches one belongs to the
/// action that the run was at, and follows on its path having been let through, or on the success
/// of a step in a phase that is reached only behind that.
pub proof fn files_are_touched_only_behind_the_check(s: Applying, event: ApplyEvent)
    requires
        s.wf(),
        s.awaits(event),
    ensures
        touches_files(s.after(event).1) ==> s.after(event).0.at == s.at && match s.phase {
            ApplyPhase::Target => lets_through(s, event),
            ApplyPhase::Folder | ApplyPhase::Opening => event matches ApplyEvent::Done(Ok(_)),
            ApplyPhase::Reading => event matches ApplyEvent::Text(Ok(_)),
            _ => false,
        },
        match s.after(event).0.phase {
            ApplyPhase::Folder | ApplyPhase::Reading => s.phase is Target && lets_through(s, event),
            ApplyPhase::Opening => s.phase is Folder,
            ApplyPhase::Commit => s.phase is Folder || s.phase is Reading || s.phase is Opening,
            _ => true,
        },
{
    lemma_continuations(s, event);
    if s.phase is Ready {
        lemma_entered_phase(s);
    } else {
        lemma_ended_phase(s);
    }
}

/// An action whose target lies outside the project folder ends right there: an error is noted, no
/// file is touched for it, and none is reported as changed.
pub proof fn files_outside_are_left_alone(s: Applying, facts: PathFacts)
    requires
        s.wf(),
        s.phase is Target,
        facts.parent matches Ok(parent) ==> !within(texts(facts.root@), texts(parent@)),
    ensures
        ({
            let (t, step) = s.after(ApplyEvent::Located(facts));
            &&& t.at > s.at
            &&& t.had_error
            &&& t.changed == s.changed
            &&& !touches_files(step)
        }),
{
    lemma_continuations(s, ApplyEvent::Located(facts));
    if path_verdict(action_path(s.current()), facts) is Ok {
        accepted_paths_stay_inside(action_path(s.current()), facts);
    }
}

/// The phase that the next action begins in.
proof fn lemma_entered_phase(s: Applying)
    requires
        0 <= s.at <= s.actions.len(),
    ensures
        s.entered().0.phase is Over || s.entered().0.phase is Target || s.entered().0.phase is Source
            || s.entered().0.phase is Packing,
    decreases s.actions.len() - s.at,
{
    if s.at < s.actions.len() {
        match s.current() {
            Action::ReplaceText { path, find, replace: _ } => {
                if find.len() == 0 {
                    lemma_entered_phase(
                        Applying {
                            at: s.at + 1,
                            had_error: true,
                            log: s.log.push("replace_text blocked: empty search text in "@ + path),
                            ..s
                        },
                    );
                }
            },
            _ => {},
        }
    }
}

/// The phase that follows on an action that ended.
proof fn lemma_ended_phase(s: Applying)
    requires
        0 <= s.at < s.actions.len(),
    ensures
        forall|line: Seq<char>|
            ({
                let p = (#[trigger] s.failed(line)).0.phase;
                p is Over || p is Target || p is Source || p is Packing
            }),
        forall|line: Seq<char>, file: Seq<char>|
            ({
                let p = (#[trigger] s.succeeded(line, file)).0.phase;
                p is Over || p is Target || p is Source || p is Packing
            }),
{
    assert forall|line: Seq<char>|
        ({
            let p = (#[trigger] s.failed(line)).0.phase;
            p is Over || p is Target || p is Source || p is Packing
        }) by {
        lemma_entered_phase(
            Applying { at: s.at + 1, had_error: true, log: s.log.push(line), ..s },
        );
    }
    assert forall|line: Seq<char>, file: Seq<char>|
        ({
            let p = (#[trigger] s.succeeded(line, file)).0.phase;
            p is Over || p is Target || p is Source || p is Packing
        }) by {
        lemma_entered_phase(
            Applying { at: s.at + 1, log: s.log.push(line), changed: s.changed.push(file), ..s },
        );
    }
}

/// A replacement is made exactly where its text stands once in the file, and then it is the one
/// that was asked for; elsewhere the file is left alone.
pub proof fn replacements_need_one_place(s: Applying, text: String)
    requires
        s.wf(),
        s.phase is Reading,
    ensures
        ({
            let (t, step) = s.after(ApplyEvent::Text(Ok(text)));
            match s.current() {
                Action::ReplaceText { path: _, find, replace } => if count_of(text@, find) == 1 {
                    t.at == s.at && step == (ApplyStep::Write {
                        content: replaced_first(text@, find, replace),
                    })
                } else {
                    t.at > s.at && t.had_error && t.changed == s.changed
                },
                _ => false,
            }
        }),
{
    lemma_continuations(s, ApplyEvent::Text(Ok(text)));
}

/// Where a text is replaced for the first time, what stands in front of it and behind it is kept,
/// and the new text stands in its place, character for character; a text that does not hold it is
/// left alone.
pub proof fn replacing_keeps_the_rest(
    front: Seq<char>,
    pat: Seq<char>,
    behind: Seq<char>,
    with: Seq<char>,
)
    requires
        forall|j: int| 0 <= j < front.len() ==> !occurs_at(front + pat + behind, pat, j),
    ensures
        replaced_first(front + pat + behind, pat, with) == front + with + behind,
        forall|s: Seq<char>| !holds(s, pat) ==> #[trigger] replaced_first(s, pat, with) == s,
{
    let all = front + pat + behind;
    let n = front.len() as int;
    assert(all.subrange(n, n + pat.len()) =~= pat);
    lemma_found_first(all, pat, n);
    assert(all.take(n) =~= front);
    assert(all.skip(n + pat.len()) =~= behind);
    assert forall|s: Seq<char>| !holds(s, pat) implies #[trigger] replaced_first(s, pat, with)
        == s by {
        lemma_first_at(s, pat);
    }
}

/// A replacement whose text stands at a single place of the file writes the file with the new text
/// in that place, character for character, and everything around it kept.
#[verifier::rlimit(40)]
pub proof fn the_one_place_is_replaced(
    s: Applying,
    text: String,
    front: Seq<char>,
    behind: Seq<char>,
)
    requires
        s.wf(),
        s.phase is Reading,
        s.current() matches Action::ReplaceText { path: _, find, replace: _ } && text@ == front + find
            + behind && forall|j: int| occurs_at(text@, find, j) ==> j == front.len(),
    ensures
        s.current() matches Action::ReplaceText { path: _, find: _, replace } && s.after(
            ApplyEvent::Text(Ok(text)),
        ).1 == (ApplyStep::Write { content: front + replace + behind }),
{
    match s.current() {
        Action::ReplaceText { path: _, find, replace } => {
            let n = front.len() as int;
            assert(text@.subrange(n, n + find.len()) =~= find);
            assert(occurs_at(text@, find, n));
            counting_is_right(text@, find, n, n);
            replacing_keeps_the_rest(front, find, behind, replace);
        },
        _ => {},
    }
}

/// A replacement whose text stands nowhere in the file, or at two places that do not overlap, leaves
/// the file alone: an error is noted, and the run goes on with the next action.
pub proof fn other_places_are_not_replaced(s: Applying, text: String, i: int, j: int)
    requires
        s.wf(),
        s.phase is Reading,
        s.current() matches Action::ReplaceText { path: _, find, replace: _ } && (!holds(text@, find)
            || (occurs_at(text@, find, i) && occurs_at(text@, find, j) && i + find.len() <= j)),
    ensures
        ({
            let (t, step) = s.after(ApplyEvent::Text(Ok(text)));
            &&& !touches_files(step)
            &&& t.at > s.at
            &&& t.had_error
            &&& t.changed == s.changed
        }),
{
    match s.current() {
        Action::ReplaceText { path: _, find, replace: _ } => {
            counting_is_right(text@, find, i, j);
        },
        _ => {},
    }
    lemma_continuations(s, ApplyEvent::Text(Ok(text)));
}

/// Files are prepared before they are changed: behind a path that was let through comes the folder of
/// the target, or the text of it where that is to be replaced; behind the folder comes the change
/// itself, or the opening of a file that is appended to, and behind that what is appended.
pub proof fn changes_are_made_in_order(s: Applying, event: ApplyEvent)
    requires
        s.wf(),
        s.awaits(event),
    ensures
        ({
            let (t, step) = s.after(event);
            match (s.phase, event) {
                (ApplyPhase::Source, ApplyEvent::Checked(true)) => s.current() matches
                    Action::CopyFile { source: _, path } && step == (ApplyStep::Resolve { path }),
                (ApplyPhase::Target, ApplyEvent::Located(_)) => lets_through(s, event) ==> if s.current() is ReplaceText {
                    step is Read
                } else {
                    step is MakeFolder
                },
                (ApplyPhase::Folder, ApplyEvent::Done(Ok(_))) => match s.current() {
                    Action::WriteFile { path: _, content } => step == (ApplyStep::Write { content }),
                    Action::CopyFile { source, path: _ } => step == (ApplyStep::Copy {
                        source: source_text(source),
                    }),
                    _ => step is Open,
                },
                (ApplyPhase::Opening, ApplyEvent::Done(Ok(_))) => s.current() matches
                    Action::AppendFile { path: _, content } && step == (ApplyStep::Append { content }),
                (ApplyPhase::Commit, ApplyEvent::Done(Ok(_))) => t.at > s.at && t.changed
                    == s.changed.push(action_path(s.current())),
                _ => true,
            }
        }),
{
    lemma_continuations(s, event);
}

/// A packaged script is reported by its program: it is looked for in the folder `dist` under the name of
/// the script, and where it is there, it counts as changed under that path; where it is not, nothing
/// does, and an error is noted.
pub proof fn packaged_programs_are_reported(
    s: Applying,
    log_lines: Vec<String>,
    answer: String,
    stem: String,
)
    requires
        s.wf(),
        s.phase is Packing,
    ensures
        ({
            let path = "dist/"@ + stem@ + ".exe"@;
            let (t, step) = s.after(ApplyEvent::Packed { log_lines, answer, stem: Some(stem) });
            let made = t.after(ApplyEvent::Checked(true)).0;
            let missing = t.after(ApplyEvent::Checked(false)).0;
            &&& step == (ApplyStep::CheckProgram { path })
            &&& made.changed == s.changed.push(path)
            &&& made.at > s.at
            &&& missing.changed == s.changed
            &&& missing.had_error
            &&& missing.at > s.at
        }),
{
    let event = ApplyEvent::Packed { log_lines, answer, stem: Some(stem) };
    let t = s.after(event).0;
    lemma_continuations(s, event);
    lemma_continuations(t, ApplyEvent::Checked(true));
    lemma_continuations(t, ApplyEvent::Checked(false));
}

/// What comes of a step is a failure.
pub open spec fn is_failure(s: Applying, event: ApplyEvent) -> bool {
    match event {
        ApplyEvent::Checked(there) => !there,
        ApplyEvent::Located(_) => !lets_through(s, event),
        ApplyEvent::Done(result) => result is Err,
        ApplyEvent::Text(result) => result is Err,
        _ => false,
    }
}

/// A failure ends its action, and is never passed over: an error is noted, nothing is reported as
/// changed, the log says why where the file system said why, and the run goes on with the next action.
#[verifier::rlimit(40)]
pub proof fn failures_are_noted(s: Applying, event: ApplyEvent)
    requires
        s.wf(),
        s.awaits(event),
        is_failure(s, event),
    ensures
        ({
            let t = s.after(event).0;
            &&& t.at > s.at
            &&& t.had_error
            &&& t.changed == s.changed
            &&& t.log.len() > s.log.len()
            &&& event matches ApplyEvent::Done(Err(e)) ==> holds(t.log[s.log.len() as int], e@)
            &&& event matches ApplyEvent::Text(Err(e)) ==> holds(t.log[s.log.len() as int], e@)
            &&& event matches ApplyEvent::Located(facts) ==> holds(
                t.log[s.log.len() as int],
                path_verdict(action_path(s.current()), facts)->Err_0,
            )
        }),
{
    lemma_continuations(s, event);
    assert forall|line: Seq<char>| ({
        let t = (#[trigger] s.failed(line)).0;
        t.log.len() > s.log.len() && t.log[s.log.len() as int] == line
    }) by {
        let m = Applying { at: s.at + 1, had_error: true, log: s.log.push(line), ..s };
        lemma_entered(m);
        assert(m.log.is_prefix_of(m.entered().0.log));
        assert(m.log[s.log.len() as int] == line);
    }
    match event {
        ApplyEvent::Done(Err(e)) => {
            if s.phase is Folder {
                lemma_line_holds(s.folder_failure(e@), e@);
            } else if s.phase is Opening {
                lemma_line_holds("append_file failed: "@ + action_path(s.current()) + ": "@ + e@, e@);
            } else {
                lemma_line_holds(s.change_failure(e@), e@);
            }
        },
        ApplyEvent::Text(Err(e)) => {
            lemma_line_holds(
                "replace_text could not read file: "@ + action_path(s.current()) + ": "@ + e@,
                e@,
            );
        },
        ApplyEvent::Located(facts) => {
            match path_verdict(action_path(s.current()), facts) {
                Err(e) => {
                    lemma_line_holds(s.refusal(e), e);
                },
                Ok(_) => {},
            }
        },
        _ => {},
    }
}

/// A line that ends with an error holds it.
proof fn lemma_line_holds(line: Seq<char>, error: Seq<char>)
    requires
        line.len() >= error.len(),
        line.skip(line.len() - error.len()) =~= error,
    ensures
        holds(line, error),
{
    let n = line.len() - error.len();
    assert(line.subrange(n, n + error.len()) =~= line.skip(n));
    assert(occurs_at(line, error, n));
}

/// What is written, copied or appended is what the action says: its content, the file it names,
/// or the text of the target with the one replacement made.
pub proof fn files_get_what_was_asked_for(s: Applying, event: ApplyEvent)
    requires
        s.wf(),
        s.awaits(event),
    ensures
        match s.after(event).1 {
            ApplyStep::Write { content } => match s.current() {
                Action::WriteFile { path: _, content: asked } => content == asked,
                Action::ReplaceText { path: _, find, replace } => event matches ApplyEvent::Text(
                    Ok(text),
                ) && count_of(text@, find) == 1 && content == replaced_first(text@, find, replace),
                _ => false,
            },
            ApplyStep::Copy { source } => s.current() matches Action::CopyFile {
                source: asked,
                path: _,
            } && source == source_text(asked),
            ApplyStep::Append { content } => s.current() matches Action::AppendFile {
                path: _,
                content: asked,
            } && content == asked,
            _ => true,
        },
{
    lemma_continuations(s, event);
}

/// A file is reported as changed only behind the change itself: the list grows by the path of an
/// action whose change succeeded, or by a program that was found, and by nothing else.
pub proof fn only_made_changes_are_reported(s: Applying, event: ApplyEvent)
    requires
        s.wf(),
        s.awaits(event),
    ensures
        s.after(event).0.changed == match (s.phase, event) {
            (ApplyPhase::Commit, ApplyEvent::Done(Ok(_))) => s.changed.push(
                action_path(s.current()),
            ),
            (ApplyPhase::Program, ApplyEvent::Checked(true)) => s.changed.push(s.program),
            _ => s.changed,
        },
{
    lemma_continuations(s, event);
}

/// Nothing that was reported is taken back: errors stay, the log only grows, and so does the list
/// of changed files.
pub proof fn reports_only_grow(s: Applying, event: ApplyEvent)
    requires
        s.wf(),
        s.awaits(event),
    ensures
        s.had_error ==> s.after(event).0.had_error,
        s.log.is_prefix_of(s.after(event).0.log),
        s.changed.is_prefix_of(s.after(event).0.changed),
{
    lemma_continuations(s, event);
}

/// Every event brings the run nearer to its end.
pub proof fn every_event_advances(s: Applying, event: ApplyEvent)
    requires
        s.wf(),
        s.awaits(event),
    ensures
        s.after(event).0.at > s.at || (s.after(event).0.at == s.at && s.after(event).0.stage()
            < s.stage()),
{
    lemma_continuations(s, event);
}

impl Applying {
    /// The run after events.
    pub open spec fn run(self, events: Seq<ApplyEvent>) -> Applying
        decreases events.len(),
    {
        if events.len() == 0 {
            self
        } else {
            self.run(events.drop_last()).after(events.last()).0
        }
    }

    /// Each of the events is an answer to what the run waits for when it comes.
    pub open spec fn allows(self, events: Seq<ApplyEvent>) -> bool
        decreases events.len(),
    {
        events.len() > 0 ==> self.allows(events.drop_last()) && self.run(
            events.drop_last(),
        ).awaits(events.last())
    }

    /// The event with this number let the path of the action through that the run is at after all
    /// events.
    pub open spec fn let_through_at(self, events: Seq<ApplyEvent>, k: int) -> bool {
        &&& 0 <= k < events.len()
        &&& self.run(events.take(k)).at == self.run(events).at
        &&& lets_through(self.run(events.take(k)), events[k])
    }
}

/// Each of the events brings what was hoped for.
pub open spec fn all_goes_well(s: Applying, events: Seq<ApplyEvent>) -> bool
    decreases events.len(),
{
    events.len() > 0 ==> {
        let t = s.run(events.drop_last());
        &&& all_goes_well(s, events.drop_last())
        &&& !is_failure(t, events.last())
        &&& events.last() matches ApplyEvent::Text(Ok(text)) ==> (t.current() matches
            Action::ReplaceText { path: _, find, replace: _ } && count_of(text@, find) == 1)
    }
}

/// Where all goes well, every action is carried out, in order: the run reports exactly the paths of
/// the actions that are over as changed, and no error. At its end those are all of them.
#[verifier::rlimit(40)]
pub proof fn what_goes_well_is_reported(s: Applying, events: Seq<ApplyEvent>)
    requires
        s.wf(),
        s.phase is Ready,
        !s.had_error,
        s.changed.len() == 0,
        s.allows(events),
        all_goes_well(s, events),
        forall|i: int|
            0 <= i < s.actions.len() ==> !(#[trigger] s.actions[i] is PackagePythonExe) && (
            s.actions[i] matches Action::ReplaceText { path: _, find, replace: _ } ==> find.len() > 0),
    ensures
        ({
            let t = s.run(events);
            &&& t.wf()
            &&& !t.had_error
            &&& t.actions == s.actions
            &&& t.changed.len() == t.at
            &&& forall|i: int|
                0 <= i < t.at ==> #[trigger] t.changed[i] == action_path(s.actions[i])
            &&& t.phase is Over ==> t.changed.len() == s.actions.len()
        }),
    decreases events.len(),
{
    if events.len() > 0 {
        let before = events.drop_last();
        let t = s.run(before);
        let event = events.last();
        what_goes_well_is_reported(s, before);
        good_order_is_kept(t, event);
        lemma_continuations(t, event);
        only_made_changes_are_reported(t, event);
        if t.at < t.actions.len() {
            assert(!(t.actions[t.at] is PackagePythonExe));
        }
        assert forall|x: Applying|
            #![trigger x.entered()]
            0 <= x.at <= x.actions.len() && x.actions == s.actions implies x.entered().0.at == x.at
            && x.entered().0.had_error == x.had_error by {
            if x.at < x.actions.len() {
                assert(!(s.actions[x.at] is PackagePythonExe));
            }
        }
    }
}

/// The phases that lie behind the check of the path.
pub open spec fn behind_the_check(phase: ApplyPhase) -> bool {
    phase is Folder || phase is Reading || phase is Opening || phase is Commit
}

/// In a run from its beginning the check lies behind whatever phase needs it.
proof fn lemma_checked(s: Applying, events: Seq<ApplyEvent>)
    requires
        s.wf(),
        s.phase is Ready,
        s.allows(events),
    ensures
        s.run(events).wf(),
        s.run(events).actions == s.actions,
        behind_the_check(s.run(events).phase) ==> exists|k: int| s.let_through_at(events, k),
    decreases events.len(),
{
    if events.len() > 0 {
        let before = events.drop_last();
        let last = events.len() - 1;
        let t = s.run(before);
        lemma_checked(s, before);
        good_order_is_kept(t, events.last());
        files_are_touched_only_behind_the_check(t, events.last());
        lemma_continuations(t, events.last());
        assert(events.take(last) =~= before);
        if behind_the_check(s.run(events).phase) {
            if t.phase is Target {
                assert(s.let_through_at(events, last));
            } else {
                lemma_ended_phase(t);
                assert(s.run(events).at == t.at);
                let k = choose|k: int| s.let_through_at(before, k);
                assert(before.take(k) =~= events.take(k));
                assert(before[k] == events[k]);
                assert(s.let_through_at(events, k));
            }
        }
    }
}

/// The first of the events are answers to what the run waits for as well.
proof fn lemma_first_allowed(s: Applying, events: Seq<ApplyEvent>, k: int)
    requires
        s.allows(events),
        0 <= k <= events.len(),
    ensures
        s.allows(events.take(k)),
    decreases events.len() - k,
{
    if k < events.len() {
        lemma_first_allowed(s, events, k + 1);
        assert(events.take(k + 1).drop_last() =~= events.take(k));
    } else {
        assert(events.take(k) =~= events);
    }
}

/// Over a whole run, whatever the file system answers: a step that touches a file of the project
/// comes only where an earlier event of the run let the path of that very action through, no `..`
/// stands between the slashes of that path, and the actions are those that the run was given.
pub proof fn every_touched_file_was_let_through(s: Applying, events: Seq<ApplyEvent>)
    requires
        s.wf(),
        s.phase is Ready,
        events.len() > 0,
        s.allows(events),
        touches_files(s.run(events.drop_last()).after(events.last()).1),
    ensures
        s.run(events).actions == s.actions,
        0 <= s.run(events).at < s.actions.len(),
        exists|k: int| s.let_through_at(events, k),
        !climbs(path_text(action_path(s.run(events).current()))),
{
    let before = events.drop_last();
    lemma_checked(s, before);
    lemma_checked(s, events);
    lemma_continuations(s.run(before), events.last());
    let k = choose|k: int| s.let_through_at(events, k);
    lemma_first_allowed(s, events, k);
    lemma_checked(s, events.take(k));
    let t = s.run(events.take(k));
    assert(t.current() == s.run(events).current());
    match events[k] {
        ApplyEvent::Located(facts) => {
            accepted_paths_stay_inside(action_path(t.current()), facts);
        },
        _ => {},
    }
}

// ---------------------------------------------------------------------------------------------
// The run
// ---------------------------------------------------------------------------------------------

/// `s` with its first `pat` replaced by `with`.
pub fn replace_first(s: &str, pat: &str, with: &str) -> (r: String)
    ensures
        r@ == replaced_first(s@, pat@, with@),
{
    match find(s, pat) {
        Some(i) => {
            let total: usize = s.unicode_len();
            assert(i + pat@.len() <= total);
            let mut out: String = take_chars(s, i).to_owned();
            out.append(with);
            out.append(skip_chars(s, i + pat.unicode_len()));
            out
        },
        None => s.to_owned(),
    }
}

impl ApplyRun {
    /// A run over the given actions, before its first step.
    pub fn new(actions: Vec<FileAction>) -> (r: ApplyRun)
        ensures
            r@ == (Applying {
                actions: actions_view(actions@),
                at: 0,
                phase: ApplyPhase::Ready,
                log: Seq::empty(),
                changed: Seq::empty(),
                had_error: false,
                program: ""@,
                pack_answer: ""@,
            }),
            r@.wf(),
    {
        let log_lines: Vec<String> = Vec::new();
        let changed_files: Vec<String> = Vec::new();
        assert(texts(log_lines@) =~= Seq::<Seq<char>>::empty());
        assert(texts(changed_files@) =~= Seq::<Seq<char>>::empty());
        ApplyRun {
            actions,
            at: 0,
            phase: ApplyPhase::Ready,
            log_lines,
            changed_files,
            had_error: false,
            program: "".to_owned(),
            pack_answer: "".to_owned(),
        }
    }

    /// One more line in the log.
    fn note(&mut self, line: String)
        ensures
            final(self)@ == (Applying { log: old(self)@.log.push(line@), ..old(self)@ }),
    {
        self.log_lines.push(line);
        assert(texts(self.log_lines@) =~= texts(old(self).log_lines@).push(line@));
    }

    /// Goes on with the next action.
    fn enter(&mut self) -> (r: ApplyStep<String>)
        requires
            old(self)@.at <= old(self)@.actions.len(),
        ensures
            (final(self)@, r@) == old(self)@.entered(),
    {
        let n: usize = self.actions.len();
        let ghost goal = self@.entered();
        while self.at < n
            invariant
                n == self@.actions.len(),
                n == self.actions@.len(),
                self.at <= n,
                goal == old(self)@.entered(),
                self@.entered() == goal,
            ensures
                self@.entered() == goal,
                self.at >= self@.actions.len(),
            decreases n - self.at,
        {
            let ghost action = self@.current();
            assert(action == self.actions@[self.at as int]@);
            let mut blocked: Option<String> = None;
            match &self.actions[self.at] {
                FileAction::WriteFile { path, content: _ } => {
                    let path = path.as_str().to_owned();
                    self.phase = ApplyPhase::Target;
                    return ApplyStep::Resolve { path };
                },
                FileAction::CopyFile { source, path: _ } => {
                    let source = clean_source(source.as_str());
                    self.phase = ApplyPhase::Source;
                    return ApplyStep::CheckSource { source };
                },
                FileAction::PackagePythonExe { path } => {
                    let path = path.as_str().to_owned();
                    self.phase = ApplyPhase::Packing;
                    return ApplyStep::Pack { path };
                },
                FileAction::ReplaceText { path, find, replace: _ } => {
                    if !find.as_str().is_empty() {
                        let path = path.as_str().to_owned();
                        self.phase = ApplyPhase::Target;
                        return ApplyStep::Resolve { path };
                    }
                    blocked = Some(
                        cat2("replace_text blocked: empty search text in ", path.as_str()),
                    );
                },
                FileAction::AppendFile { path, content: _ } => {
                    let path = path.as_str().to_owned();
                    self.phase = ApplyPhase::Target;
                    return ApplyStep::Resolve { path };
                },
            }
            if let Some(line) = blocked {
                let ghost before = self@;
                self.note(line);
                self.had_error = true;
                self.at += 1;
                assert(self@ == (Applying {
                    at: before.at + 1,
                    had_error: true,
                    log: before.log.push(line@),
                    ..before
                }));
            }
        }
        self.phase = ApplyPhase::Over;
        ApplyStep::Finished
    }

    /// The current action failed.
    fn fail(&mut self, line: String) -> (r: ApplyStep<String>)
        requires
            0 <= old(self)@.at < old(self)@.actions.len(),
        ensures
            (final(self)@, r@) == old(self)@.failed(line@),
    {
        let ghost before = self@;
        self.note(line);
        self.had_error = true;
        assert(self.at < self.actions.len());
        self.at += 1;
        assert(self@ == (Applying {
            at: before.at + 1,
            had_error: true,
            log: before.log.push(line@),
            ..before
        }));
        self.enter()
    }

    /// The current action changed a file.
    fn succeed(&mut self, line: String, file: String) -> (r: ApplyStep<String>)
        requires
            0 <= old(self)@.at < old(self)@.actions.len(),
        ensures
            (final(self)@, r@) == old(self)@.succeeded(line@, file@),
    {
        let ghost before = self@;
        self.note(line);
        self.changed_files.push(file);
        assert(texts(self.changed_files@) =~= before.changed.push(file@));
        assert(self.at < self.actions.len());
        self.at += 1;
        assert(self@ == (Applying {
            at: before.at + 1,
            log: before.log.push(line@),
            changed: before.changed.push(file@),
            ..before
        }));
        self.enter()
    }

    /// The log line for a path that is refused.
    fn refusal_line(&self, error: &str) -> (r: String)
        requires
            0 <= self@.at < self@.actions.len(),
        ensures
            r@ == self@.refusal(error@),
    {
        match &self.actions[self.at] {
            FileAction::WriteFile { path: _, content: _ } => cat2("write_file blocked: ", error),
            FileAction::CopyFile { source: _, path: _ } => cat2("copy_file target blocked: ", error),
            FileAction::ReplaceText { path: _, find: _, replace: _ } => cat2(
                "replace_text blocked: ",
                error,
            ),
            _ => cat2("append_file blocked: ", error),
        }
    }

    /// The log line for a folder that could not be created.
    fn folder_line(&self, error: &str) -> (r: String)
        requires
            0 <= self@.at < self@.actions.len(),
        ensures
            r@ == self@.folder_failure(error@),
    {
        let action = &self.actions[self.at];
        let path = path_of(action);
        match action {
            FileAction::WriteFile { path: _, content: _ } => cat4(
                "write_file failed (folder): ",
                path,
                ": ",
                error,
            ),
            FileAction::CopyFile { source: _, path: _ } => cat4(
                "copy_file failed creating folder for ",
                path,
                ": ",
                error,
            ),
            _ => cat4("append_file failed (folder): ", path, ": ", error),
        }
    }

    /// The log line for a change that failed.
    fn change_failure_line(&self, error: &str) -> (r: String)
        requires
            0 <= self@.at < self@.actions.len(),
        ensures
            r@ == self@.change_failure(error@),
    {
        let action = &self.actions[self.at];
        match action {
            FileAction::WriteFile { path, content: _ } => cat4(
                "write_file failed: ",
                path.as_str(),
                ": ",
                error,
            ),
            FileAction::CopyFile { source, path } => {
                let source = clean_source(source.as_str());
                let mut out = cat4("copy_file failed: ", source.as_str(), " -> ", path.as_str());
                out.append(": ");
                out.append(error);
                out
            },
            FileAction::ReplaceText { path, find: _, replace: _ } => cat4(
                "replace_text failed: ",
                path.as_str(),
                ": ",
                error,
            ),
            _ => cat4("append_file write failed: ", path_of(action), ": ", error),
        }
    }

    /// The log line for a change that was made.
    fn change_made_line(&self) -> (r: String)
        requires
            0 <= self@.at < self@.actions.len(),
        ensures
            r@ == self@.change_line(),
    {
        let action = &self.actions[self.at];
        match action {
            FileAction::WriteFile { path, content: _ } => cat2("File written: ", path.as_str()),
            FileAction::CopyFile { source, path } => cat4(
                "File copied: ",
                clean_source(source.as_str()).as_str(),
                " -> ",
                path.as_str(),
            ),
            FileAction::ReplaceText { path, find: _, replace: _ } => cat2(
                "Text replaced: ",
                path.as_str(),
            ),
            _ => cat2("Text appended: ", path_of(action)),
        }
    }

    /// Takes in what came of the last step and says what is to be done next.
    pub fn advance(&mut self, event: ApplyEvent) -> (r: ApplyStep<String>)
        requires
            old(self)@.wf(),
            old(self)@.awaits(event),
        ensures
            (final(self)@, r@) == old(self)@.after(event),
            final(self)@.wf(),
    {
        proof {
            good_order_is_kept(self@, event);
        }
        let ghost start = self@;
        match event {
            ApplyEvent::Begin => self.enter(),
            ApplyEvent::Checked(there) => match self.phase {
                ApplyPhase::Source => match &self.actions[self.at] {
                    FileAction::CopyFile { source, path } => if there {
                        let path = path.as_str().to_owned();
                        self.phase = ApplyPhase::Target;
                        ApplyStep::Resolve { path }
                    } else {
                        let line = cat2(
                            "copy_file blocked: source is not available: ",
                            source.as_str(),
                        );
                        self.fail(line)
                    },
                    _ => ApplyStep::Finished,
                },
                _ => {
                    if there {
                        let line = cat2("Python-EXE gepackt: ", self.program.as_str());
                        let file = self.program.as_str().to_owned();
                        self.succeed(line, file)
                    } else {
                        let answer = truncate_text(self.pack_answer.as_str(), 500);
                        let line = cat2("package_python_exe failed: ", answer.as_str());
                        self.fail(line)
                    }
                },
            },
            ApplyEvent::Located(facts) => match safe_project_path(
                path_of(&self.actions[self.at]),
                &facts,
            ) {
                Err(e) => {
                    let line = self.refusal_line(e.as_str());
                    self.fail(line)
                },
                Ok(_) => {
                    let replacing = match &self.actions[self.at] {
                        FileAction::ReplaceText { path: _, find: _, replace: _ } => true,
                        _ => false,
                    };
                    if replacing {
                        self.phase = ApplyPhase::Reading;
                        ApplyStep::Read
                    } else {
                        self.phase = ApplyPhase::Folder;
                        ApplyStep::MakeFolder
                    }
                },
            },
            ApplyEvent::Done(Err(e)) => {
                let line = match self.phase {
                    ApplyPhase::Folder => self.folder_line(e.as_str()),
                    ApplyPhase::Opening => cat4(
                        "append_file failed: ",
                        path_of(&self.actions[self.at]),
                        ": ",
                        e.as_str(),
                    ),
                    _ => self.change_failure_line(e.as_str()),
                };
                self.fail(line)
            },
            ApplyEvent::Done(Ok(_)) => match self.phase {
                ApplyPhase::Folder => match &self.actions[self.at] {
                    FileAction::WriteFile { path: _, content } => {
                        let content = content.as_str().to_owned();
                        self.phase = ApplyPhase::Commit;
                        ApplyStep::Write { content }
                    },
                    FileAction::CopyFile { source, path: _ } => {
                        let source = clean_source(source.as_str());
                        self.phase = ApplyPhase::Commit;
                        ApplyStep::Copy { source }
                    },
                    _ => {
                        self.phase = ApplyPhase::Opening;
                        ApplyStep::Open
                    },
                },
                ApplyPhase::Opening => match &self.actions[self.at] {
                    FileAction::AppendFile { path: _, content } => {
                        let content = content.as_str().to_owned();
                        self.phase = ApplyPhase::Commit;
                        ApplyStep::Append { content }
                    },
                    _ => ApplyStep::Finished,
                },
                _ => {
                    let line = self.change_made_line();
                    let file = path_of(&self.actions[self.at]).to_owned();
                    self.succeed(line, file)
                },
            },
            ApplyEvent::Text(Err(e)) => {
                let line = cat4(
                    "replace_text could not read file: ",
                    path_of(&self.actions[self.at]),
                    ": ",
                    e.as_str(),
                );
                self.fail(line)
            },
            ApplyEvent::Text(Ok(text)) => match &self.actions[self.at] {
                FileAction::ReplaceText { path, find, replace } => {
                    let count: usize = count_matches(text.as_str(), find.as_str());
                    if count == 1 {
                        let content = replace_first(text.as_str(), find.as_str(), replace.as_str());
                        self.phase = ApplyPhase::Commit;
                        ApplyStep::Write { content }
                    } else {
                        let mut line = cat4(
                            "replace_text blocked: ",
                            to_decimal(count as u128).as_str(),
                            " matches in ",
                            path.as_str(),
                        );
                        line.append(" (expected: 1)");
                        self.fail(line)
                    }
                },
                _ => ApplyStep::Finished,
            },
            ApplyEvent::Packed { log_lines, answer, stem } => {
                let mut program: String = "dist/".to_owned();
                match &stem {
                    Some(s) => {
                        program.append(s.as_str());
                    },
                    None => {
                        program.append("app");
                    },
                }
                program.append(".exe");
                let n: usize = log_lines.len();
                let ghost lines = texts(log_lines@);
                let mut i: usize = 0;
                assert(lines.take(0) =~= Seq::<Seq<char>>::empty());
                assert(self@.log =~= start.log + lines.take(0));
                while i < n
                    invariant
                        i <= n == log_lines@.len(),
                        lines == texts(log_lines@),
                        self@ == (Applying { log: start.log + lines.take(i as int), ..start }),
                    decreases n - i,
                {
                    self.note(log_lines[i].as_str().to_owned());
                    assert(start.log + lines.take(i + 1) =~= (start.log + lines.take(
                        i as int,
                    )).push(lines[i as int]));
                    i += 1;
                }
                assert(lines.take(n as int) =~= lines);
                self.phase = ApplyPhase::Program;
                self.pack_answer = answer;
                let path = program.as_str().to_owned();
                self.program = program;
                ApplyStep::CheckProgram { path }
            },
        }
    }

    /// What was done so far, with each changed file once and in order.
    pub fn report(self) -> (r: ActionReport)
        ensures
            texts(r.log_lines@) == self@.log,
            ordered_set(texts(r.changed_files@), self@.changed),
            r.had_error == self@.had_error,
    {
        let changed_files = sort_dedup(&self.changed_files);
        ActionReport { log_lines: self.log_lines, changed_files, had_error: self.had_error }
    }
}

} // verus!

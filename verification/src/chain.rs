//! A run from the request to the answer, one step at a time.

use vstd::prelude::*;
use crate::actions::{
    action_path, actions_view, empty_action_envelope, empty_envelope, faults,
    validate_action_envelope, Action, ActionEnvelope, Envelope, FileAction,
};
use crate::answer::{
    answers_say_what_happened, clean_visible_answer, coordinator_direct_fallback,
    fallback_final_answer, plain_answer, shortened, truncate_text, visible,
};
use crate::apply::{
    every_touched_file_was_let_through, touches_files, ActionReport, ApplyEvent, Applying,
};
use crate::coders::{
    a_run_hands_on_only_checked_actions, outcome_view, passes, reply_in,
    the_last_attempt_hands_on_only_checked_actions, Coding, CoderEvent, Emergency, Reply,
};
use crate::coordinator::{
    default_decision, fallback_decision, primary_model, recommended_agent_count, team_size,
    wanted_coders, CoordinatorDecision, Decision,
};
use crate::intent::{direct_chat_answer, intent_of, small_talk_answer};
use crate::models::{agent_models_for_count, model_list, LOCAL_GPT_ROUTER_MODEL};
use crate::numbers::{decimal, to_decimal};
use crate::paths::{climbs, path_text};
use crate::prompts::{
    coder_prompt, coder_question, coders_are_told_everything, coordinator_prompt,
    coordinator_question, final_prompt, final_question, lemma_holds_middle, lemma_holds_part,
    lemma_joined_holds, repair_prompt, repair_question, retry_question,
    the_coordinator_is_told_everything, the_final_question_tells_what_happened,
    the_question_holds_what_was_given, the_question_is_repeated, the_repair_agent_is_told_everything,
    truth, truth_text, RETRY_TAIL,
};
use crate::task::{local_task, try_parse_local_file_task, LocalFileTask, LocalTask};
use crate::text::{
    begins, blank, cat2, cat3, cat4, cat5, cat6, ends, holds, is_blank, join, joined, occurs_at,
    opt_text, text_is, texts, trimmed,
};

verus! {

// ---------------------------------------------------------------------------------------------
// What goes in and what comes out
// ---------------------------------------------------------------------------------------------

/// The settings of a run.
#[derive(Debug)]
pub struct AgentRunConfig {
    pub project_dir: String,
    pub memory_dir: String,
    pub model: String,
    pub ollama_path: String,
    pub terminal_cmd: String,
    pub user_request: String,
    pub last_file_path: Option<String>,
    pub show_progress: bool,
    pub auto_apply_actions: bool,
    pub run_tests_after_apply: bool,
    pub context_limit: usize,
    pub max_parallel_agents: usize,
}

/// What came of asking the coordinator.
#[derive(Debug)]
pub enum CoordinatorReply {
    /// The models gave an error.
    Failed(String),
    /// A model answered, but not with a decision.
    Unreadable { raw: String, error: String },
    /// A model answered with a decision.
    Read { raw: String, decision: CoordinatorDecision },
}

/// What came of a step.
#[derive(Debug)]
pub enum ChainEvent {
    /// Nothing was done yet.
    Begin,
    /// How the project folder and the folder of the models are shown, or why the project folder
    /// cannot be used.
    Opened(Result<(String, String), String>),
    /// The step succeeded, or why it did not.
    Done(Result<(), String>),
    /// The snapshot of the project and what is remembered.
    Context { snapshot: String, memory: String },
    /// The coordinator was heard of.
    Decided(CoordinatorReply),
    /// What the coders came to, and their log.
    Coded { outcome: Result<ActionEnvelope, String>, log_lines: Vec<String> },
    /// What was done to the files.
    Applied(ActionReport),
    /// The actions as JSON, where they could be written so.
    Serialized(Option<String>),
    /// The repair agent was heard of.
    Repaired(Reply),
    /// What the test command printed.
    Tested(String),
    /// The final answer of the model, or why there is none.
    Answered(Result<String, String>),
}

/// What is to be done next.
#[derive(Debug)]
pub enum ChainStep<T> {
    /// Open the project folder.
    OpenProject,
    /// Carry out the actions.
    Apply,
    /// See to it that the model server runs.
    EnsureServer,
    /// See to it that all models are there.
    EnsureModels,
    /// Read the project and what is remembered.
    ReadContext,
    /// Ask the coordinator.
    AskCoordinator { prompt: T },
    /// See to it that the models of the coders are there.
    EnsureCoderModels,
    /// Let so many coders work, the first of them with this model.
    RunCoders { model: T, prompt: T, count: usize },
    /// Make the last attempt to get actions for this goal.
    RunEmergency { goal: T },
    /// Write the actions as JSON.
    Serialize,
    /// Ask the repair agent.
    AskRepair { prompt: T },
    /// Run the test command.
    RunTests { command: T },
    /// Ask the model for the final answer.
    AskFinal { prompt: T },
    /// Nothing more: this is the answer.
    Finished { answer: T },
    /// The request cannot be cut up: nothing is done.
    Abort,
}

impl View for ChainStep<String> {
    type V = ChainStep<Seq<char>>;

    open spec fn view(&self) -> ChainStep<Seq<char>> {
        match self {
            ChainStep::OpenProject => ChainStep::OpenProject,
            ChainStep::Apply => ChainStep::Apply,
            ChainStep::EnsureServer => ChainStep::EnsureServer,
            ChainStep::EnsureModels => ChainStep::EnsureModels,
            ChainStep::ReadContext => ChainStep::ReadContext,
            ChainStep::AskCoordinator { prompt } => ChainStep::AskCoordinator { prompt: prompt@ },
            ChainStep::EnsureCoderModels => ChainStep::EnsureCoderModels,
            ChainStep::RunCoders { model, prompt, count } => ChainStep::RunCoders {
                model: model@,
                prompt: prompt@,
                count: *count,
            },
            ChainStep::RunEmergency { goal } => ChainStep::RunEmergency { goal: goal@ },
            ChainStep::Serialize => ChainStep::Serialize,
            ChainStep::AskRepair { prompt } => ChainStep::AskRepair { prompt: prompt@ },
            ChainStep::RunTests { command } => ChainStep::RunTests { command: command@ },
            ChainStep::AskFinal { prompt } => ChainStep::AskFinal { prompt: prompt@ },
            ChainStep::Finished { answer } => ChainStep::Finished { answer: answer@ },
            ChainStep::Abort => ChainStep::Abort,
        }
    }
}

/// What the run waits for.
#[derive(Clone, Copy, Debug, PartialEq, Eq, Structural)]
pub enum ChainPhase {
    Ready,
    Opening,
    LocalFile,
    Server,
    Models,
    Context,
    Coordinator,
    CoderModels,
    Coders,
    LargeCoder,
    Emergency,
    Retry,
    Files,
    Writing,
    Repair,
    RepairedFiles,
    Tests,
    Wording,
    Over,
}

/// A run from the request to the answer.
#[derive(Debug)]
pub struct ChainRun {
    config: AgentRunConfig,
    phase: ChainPhase,
    log_lines: Vec<String>,
    project: String,
    snapshot: String,
    decision: CoordinatorDecision,
    count: usize,
    question: String,
    error: String,
    envelope: ActionEnvelope,
    report_lines: Vec<String>,
    changed: Vec<String>,
    had_error: bool,
    fallback: String,
}

/// What a [`ChainRun`] holds.
pub struct Chain {
    pub config: AgentRunConfig,
    pub phase: ChainPhase,
    pub log: Seq<Seq<char>>,
    /// How the project folder is shown.
    pub project: Seq<char>,
    pub snapshot: Seq<char>,
    pub decision: Decision,
    /// How many coders work.
    pub count: usize,
    /// What the coders are asked.
    pub question: Seq<char>,
    /// Why the first attempt of the coders failed.
    pub error: Seq<char>,
    /// The actions, and their summary.
    pub envelope: Envelope,
    /// The log of carrying them out.
    pub report: Seq<Seq<char>>,
    pub changed: Seq<Seq<char>>,
    pub had_error: bool,
    /// The answer that stands in for that of the model.
    pub fallback: Seq<char>,
}

impl View for ChainRun {
    type V = Chain;

    closed spec fn view(&self) -> Chain {
        Chain {
            config: self.config,
            phase: self.phase,
            log: texts(self.log_lines@),
            project: self.project@,
            snapshot: self.snapshot@,
            decision: self.decision@,
            count: self.count,
            question: self.question@,
            error: self.error@,
            envelope: self.envelope@,
            report: texts(self.report_lines@),
            changed: texts(self.changed@),
            had_error: self.had_error,
            fallback: self.fallback@,
        }
    }
}

// ---------------------------------------------------------------------------------------------
// The model
// ---------------------------------------------------------------------------------------------

/// What a run comes to next: its state, and what is to be done.
pub type Move = (Chain, ChainStep<Seq<char>>);

impl Chain {
    /// There are one to six coders, and there is a file to write where one is being written.
    pub open spec fn wf(self) -> bool {
        &&& 1 <= self.count <= 6
        &&& self.phase is LocalFile ==> self.envelope.actions.len() > 0
    }

    /// The event is an answer to what the run waits for.
    pub open spec fn awaits(self, event: ChainEvent) -> bool {
        match self.phase {
            ChainPhase::Ready => event is Begin,
            ChainPhase::Opening => event is Opened,
            ChainPhase::LocalFile | ChainPhase::Files | ChainPhase::RepairedFiles => event is Applied,
            ChainPhase::Server | ChainPhase::Models | ChainPhase::CoderModels => event is Done,
            ChainPhase::Context => event is Context,
            ChainPhase::Coordinator => event is Decided,
            ChainPhase::Coders
            | ChainPhase::LargeCoder
            | ChainPhase::Emergency
            | ChainPhase::Retry => event is Coded,
            ChainPhase::Writing => event is Serialized,
            ChainPhase::Repair => event matches ChainEvent::Repaired(reply) && reply.complete(),
            ChainPhase::Tests => event is Tested,
            ChainPhase::Wording => event is Answered,
            ChainPhase::Over => false,
        }
    }

    /// The run with another phase.
    pub open spec fn in_phase(self, phase: ChainPhase) -> Chain {
        Chain { phase, ..self }
    }

    /// The run with one more line in the log.
    pub open spec fn noting(self, line: Seq<char>) -> Chain {
        Chain { log: self.log.push(line), ..self }
    }

    /// The run with one more line in the log where progress is shown.
    pub open spec fn showing(self, line: Seq<char>) -> Chain {
        if self.config.show_progress {
            self.noting(line)
        } else {
            self
        }
    }

    /// The run with more lines in the log.
    pub open spec fn noting_all(self, lines: Seq<Seq<char>>) -> Chain {
        Chain { log: self.log + lines, ..self }
    }

    /// The run is over, with this answer.
    pub open spec fn over(self, answer: Seq<char>) -> Move {
        (self.in_phase(ChainPhase::Over), ChainStep::Finished { answer })
    }

    /// The request, and why nothing was done.
    pub open spec fn left_alone(self, reason: Seq<char>) -> Move {
        self.over(
            "Ich habe verstanden, worum es geht: "@ + trimmed(self.config.user_request@) + "\n\n"@
                + reason,
        )
    }

    /// The beginning: small talk is answered at once.
    pub open spec fn begun(self) -> Move {
        match small_talk_answer(intent_of(self.config.user_request@)) {
            Some(answer) => self.over(answer),
            None => (
                self.showing(
                    "Coordinator checks the request and project folder..."@,
                ).in_phase(ChainPhase::Opening),
                ChainStep::OpenProject,
            ),
        }
    }

    /// The project is open: a request for one file is carried out at once.
    pub open spec fn opened(self, project: Seq<char>, models: Seq<char>) -> Move {
        match local_task(self.config.user_request@, opt_text(self.config.last_file_path)) {
            None => (self.in_phase(ChainPhase::Over), ChainStep::Abort),
            Some(Some(LocalTask::NeedFileName)) => self.over(
                "Sure. What should the file be called? For example: `create text.txt`."@,
            ),
            Some(Some(LocalTask::CreateFile { path, content })) => (
                Chain {
                    envelope: Envelope {
                        summary: None,
                        actions: seq![Action::WriteFile { path, content }],
                    },
                    phase: ChainPhase::LocalFile,
                    ..self.noting("Local tool: create file."@)
                },
                ChainStep::Apply,
            ),
            Some(None) => (
                Chain { project, phase: ChainPhase::Server, ..self }.showing(
                    "Project folder: "@ + project,
                ).showing("Modelordner: "@ + models).showing("Checking Ollama..."@),
                ChainStep::EnsureServer,
            ),
        }
    }

    /// The one file was written, or not.
    pub open spec fn local_done(self, report: ActionReport) -> Move {
        let noted = self.noting_all(texts(report.log_lines@));
        let path = match self.envelope.actions[0] {
            Action::WriteFile { path, content: _ } => path,
            _ => ""@,
        };
        if report.had_error || report.changed_files@.len() == 0 {
            noted.over(
                "I could not safely create `"@ + path
                    + "`. Please check that the project folder is correct and the filename is relative."@,
            )
        } else {
            noted.over("Done. I created `"@ + report.changed_files@[0]@ + "`."@)
        }
    }

    /// What is needed is there, or not.
    pub open spec fn after_need(self, result: Result<(), String>) -> Move {
        match (self.phase, result) {
            (ChainPhase::Server, Err(e)) => self.noting("Ollama error: "@ + e@).over(
                "Ollama is not reachable or could not be started.\n\n"@ + e@,
            ),
            (ChainPhase::Server, Ok(_)) => (
                self.noting("Checking models..."@).in_phase(ChainPhase::Models),
                ChainStep::EnsureModels,
            ),
            (ChainPhase::Models, Err(e)) => self.noting("Model check failed: "@ + e@).over(
                "I could not prepare the required local models.\n\n"@ + e@,
            ),
            (ChainPhase::Models, Ok(_)) => (
                self.in_phase(ChainPhase::Context),
                ChainStep::ReadContext,
            ),
            (_, Err(e)) => self.noting("Agent model check failed: "@ + e@).over(
                "I could not prepare the required local agent model.\n\n"@ + e@,
            ),
            (_, Ok(_)) => {
                let question = coder_question(
                    self.project,
                    self.config.user_request@,
                    self.decision.summary,
                    self.snapshot,
                );
                (
                    Chain { question, phase: ChainPhase::Coders, ..self },
                    ChainStep::RunCoders {
                        model: self.first_model(),
                        prompt: question,
                        count: self.count,
                    },
                )
            },
        }
    }

    /// The model of the first coder.
    pub open spec fn first_model(self) -> Seq<char> {
        primary_model(self.decision, self.count as int, self.config.model@)
    }

    /// The project was read: the coordinator is asked.
    pub open spec fn informed(self, snapshot: Seq<char>, memory: Seq<char>) -> Move {
        let remembered = if blank(memory) {
            self
        } else {
            self.noting("Loaded memory context: "@ + decimal(memory.len()) + " chars."@)
        };
        let prompt = coordinator_question(
            self.project,
            self.config.user_request@,
            snapshot,
            memory,
            self.config.context_limit,
        );
        (
            Chain {
                snapshot,
                phase: ChainPhase::Coordinator,
                ..remembered.showing("Coordinator decides whether code changes are needed..."@)
            }.noting(
                "TRAFFIC GPT Router -> "@ + LOCAL_GPT_ROUTER_MODEL@ + " | Prompt:\n"@ + shortened(
                    prompt,
                    4000,
                ),
            ),
            ChainStep::AskCoordinator { prompt },
        )
    }

    /// The log holds what the coordinator said.
    pub open spec fn router_heard(self, raw: Seq<char>) -> Chain {
        self.noting(
            "TRAFFIC "@ + LOCAL_GPT_ROUTER_MODEL@ + " -> GPT Router | Response:\n"@ + shortened(
                raw,
                4000,
            ),
        )
    }

    /// The run with the decision, or with the one that stands in for it.
    pub open spec fn with_decision(self, reply: CoordinatorReply) -> Chain {
        let stand_in = default_decision(self.config.user_request@);
        match reply {
            CoordinatorReply::Failed(e) => Chain {
                decision: stand_in,
                ..self.noting(
                    "TRAFFIC GPT Router <- "@ + LOCAL_GPT_ROUTER_MODEL@ + " (fallback: "@
                        + self.config.model@ + ") failed: "@ + e@,
                )
            },
            CoordinatorReply::Unreadable { raw, error } => Chain {
                decision: stand_in,
                ..self.router_heard(raw@).noting(
                    "Coordinator parser uses fallback: "@ + error@ + " | raw answer: "@ + shortened(
                        raw@,
                        1000,
                    ),
                )
            },
            CoordinatorReply::Read { raw, decision } => Chain {
                decision: decision@,
                ..self.router_heard(raw@)
            },
        }
    }

    /// The decision is there: the request is answered, or the coders are prepared.
    pub open spec fn decided(self) -> Move {
        let d = self.decision;
        let shown = self.showing("Coordinator: "@ + shortened(d.summary, 220));
        if d.reply_now && !d.needs_code {
            shown.over(visible(d.direct_reply))
        } else {
            let count = wanted_coders(self.config.max_parallel_agents, d);
            let next = Chain {
                count: count as usize,
                phase: ChainPhase::CoderModels,
                ..shown.showing("Coder agents are working on candidate solutions..."@)
            };
            (
                next.noting(
                    "Router decision: "@ + decimal(count as nat)
                        + " agent(s), large single coder: "@ + truth(d.use_large_single_coder)
                        + "."@,
                ).noting(
                    "Checking agent models: "@ + joined(
                        model_list(next.first_model(), count),
                        ", "@,
                    ),
                ),
                ChainStep::EnsureCoderModels,
            )
        }
    }

    /// The coders failed: the last attempt is made.
    pub open spec fn emergency(self, error: Seq<char>) -> Move {
        (
            self.noting("Agent manager could not create actions: "@ + error).in_phase(
                ChainPhase::Emergency,
            ),
            ChainStep::RunEmergency { goal: self.decision.summary },
        )
    }

    /// There are actions. Where a change was asked for and they change nothing, the large model
    /// is asked once more.
    pub open spec fn accepted(self, envelope: Envelope) -> Move {
        if self.decision.needs_code && envelope.actions.len() == 0 {
            (
                Chain { envelope, phase: ChainPhase::Retry, ..self }.noting(
                    "Empty actions are not accepted for this requested file change; GPT Coding Agent retries."@,
                ),
                ChainStep::RunCoders {
                    model: LOCAL_GPT_ROUTER_MODEL@,
                    prompt: retry_question(self.question),
                    count: 1,
                },
            )
        } else {
            self.using(envelope)
        }
    }

    /// The actions are carried out, unless there are none or that is switched off.
    pub open spec fn using(self, envelope: Envelope) -> Move {
        let summed = match envelope.summary {
            Some(s) => if blank(s) {
                self
            } else {
                self.noting("Internal summary: "@ + shortened(s, 240))
            },
            None => self,
        };
        let next = Chain { envelope, ..summed };
        if envelope.actions.len() == 0 {
            next.noting("Coordinator applies no file changes."@).settled(Seq::empty(), false)
        } else if self.config.auto_apply_actions {
            (
                next.noting(
                    "Applying "@ + decimal(envelope.actions.len()) + " file action(s)..."@,
                ).in_phase(ChainPhase::Files),
                ChainStep::Apply,
            )
        } else {
            next.noting(
                decimal(envelope.actions.len())
                    + " file action(s) created, but auto-apply is off."@,
            ).settled(Seq::empty(), false)
        }
    }

    /// What the coders came to.
    pub open spec fn after_coders(
        self,
        outcome: Result<Envelope, Seq<char>>,
        lines: Seq<Seq<char>>,
    ) -> Move {
        match (self.phase, outcome) {
            (ChainPhase::Coders, Ok(e)) | (ChainPhase::LargeCoder, Ok(e)) => self.noting_all(
                lines,
            ).accepted(e),
            (ChainPhase::Coders, Err(e)) => if self.first_model() == LOCAL_GPT_ROUTER_MODEL@ {
                self.emergency(e)
            } else {
                (
                    Chain { error: e, phase: ChainPhase::LargeCoder, ..self }.noting(
                        "Primary coder failed; GPT Coding Agent retries: "@ + shortened(e, 300),
                    ),
                    ChainStep::RunCoders {
                        model: LOCAL_GPT_ROUTER_MODEL@,
                        prompt: self.question,
                        count: 1,
                    },
                )
            },
            (ChainPhase::LargeCoder, Err(e)) => self.emergency(
                self.error + "; GPT retry also failed: "@ + e,
            ),
            (ChainPhase::Emergency, Ok(e)) => self.noting_all(lines).accepted(e),
            (ChainPhase::Emergency, Err(e)) => self.noting_all(lines).noting(
                "Emergency coding fallback failed: "@ + e,
            ).left_alone(
                "The GPT and Qwen coding attempts did not produce a safe applicable change. The project folder was left unchanged."@,
            ),
            (_, Ok(e)) => if e.actions.len() > 0 {
                self.noting_all(lines).using(e)
            } else {
                self.noting_all(lines).noting(
                    "GPT Coding Agent also returned no file actions."@,
                ).left_alone(
                    "The coding models returned no applicable file change. The project folder was left unchanged."@,
                )
            },
            (_, Err(e)) => self.noting("GPT Coding Agent retry failed: "@ + e).left_alone(
                "The GPT coding retry failed. The project folder was left unchanged."@,
            ),
        }
    }

    /// The actions were carried out. Where nothing but errors came of it, the repair agent looks
    /// at them.
    pub open spec fn applied(self, report: ActionReport) -> Move {
        let noted = self.noting_all(texts(report.log_lines@));
        let changed = texts(report.changed_files@);
        if self.phase is Files && report.had_error && report.changed_files@.len() == 0 {
            (
                Chain {
                    report: texts(report.log_lines@),
                    changed,
                    had_error: report.had_error,
                    phase: ChainPhase::Writing,
                    ..noted.noting("Repair agent checks blocked file actions..."@)
                },
                ChainStep::Serialize,
            )
        } else {
            noted.settled(changed, report.had_error)
        }
    }

    /// The actions are written down: the repair agent is asked.
    pub open spec fn written(self, text: Option<Seq<char>>) -> Move {
        let raw = match text {
            Some(t) => t,
            None => match self.envelope.summary {
                Some(s) => s,
                None => "Actions could not be serialized."@,
            },
        };
        let prompt = repair_question(self.project, raw, joined(self.report, "\n"@));
        (
            self.noting(
                "TRAFFIC Agent manager -> Repair agent ("@ + self.config.model@ + ") | Prompt:\n"@
                    + shortened(prompt, 4000),
            ).in_phase(ChainPhase::Repair),
            ChainStep::AskRepair { prompt },
        )
    }

    /// The log holds what the repair agent said.
    pub open spec fn repair_heard(self, raw: Seq<char>) -> Chain {
        self.noting(
            "TRAFFIC Repair agent ("@ + self.config.model@ + ") -> Agent manager | Response:\n"@
                + shortened(raw, 4000),
        )
    }

    /// What the repair agent came to.
    pub open spec fn after_repair(self, reply: Reply) -> Move {
        match reply {
            Reply::Failed(e) => self.noting("Repair agent failed: "@ + e@).settled(
                self.changed,
                self.had_error,
            ),
            Reply::Unreadable { raw, error } => self.repair_heard(raw@).noting(
                "Repair agent failed: "@ + error@,
            ).settled(self.changed, self.had_error),
            Reply::Read { raw, envelope, facts } => {
                let wrong = faults(envelope@.actions, facts@);
                if wrong.len() == 0 && envelope@.actions.len() > 0 {
                    (
                        Chain {
                            envelope: envelope@,
                            phase: ChainPhase::RepairedFiles,
                            ..self.repair_heard(raw@).noting(
                                "Repair agent liefert sichere Ersatz-Actions."@,
                            )
                        },
                        ChainStep::Apply,
                    )
                } else {
                    self.repair_heard(raw@).noting(
                        "Repair agent verworfen: "@ + if wrong.len() == 0 {
                            "no file actions"@
                        } else {
                            joined(wrong, "; "@)
                        },
                    ).settled(self.changed, self.had_error)
                }
            },
        }
    }

    /// The files are as they will be: the tests are run, if they are wanted and something was
    /// changed.
    pub open spec fn settled(self, changed: Seq<Seq<char>>, had_error: bool) -> Move {
        let next = Chain { changed, had_error, ..self };
        if self.config.run_tests_after_apply && changed.len() > 0 && !blank(
            self.config.terminal_cmd@,
        ) {
            (
                next.noting("Tester runs: "@ + self.config.terminal_cmd@).in_phase(
                    ChainPhase::Tests,
                ),
                ChainStep::RunTests { command: self.config.terminal_cmd@ },
            )
        } else {
            next.worded(""@)
        }
    }

    /// The answer is put into words: by the library where files were to be changed, by the model
    /// where not.
    pub open spec fn worded(self, test_output: Seq<char>) -> Move {
        let plain = plain_answer(
            self.envelope.summary,
            self.changed,
            self.envelope.actions.len(),
            self.had_error,
            self.config.auto_apply_actions,
            test_output,
        );
        let shown = self.showing("Coordinator writes the final answer..."@);
        if self.envelope.actions.len() > 0 || self.changed.len() > 0 || self.had_error {
            shown.over(plain)
        } else {
            (
                Chain { fallback: plain, phase: ChainPhase::Wording, ..shown },
                ChainStep::AskFinal {
                    prompt: final_question(
                        self.config.user_request@,
                        self.decision.summary,
                        self.envelope.summary,
                        self.changed,
                        self.config.auto_apply_actions,
                        self.had_error,
                        test_output,
                        plain,
                    ),
                },
            )
        }
    }

    /// The run after an event, and what is to be done next.
    pub open spec fn after(self, event: ChainEvent) -> Move {
        match event {
            ChainEvent::Begin => self.begun(),
            ChainEvent::Opened(Err(e)) => self.over(
                "I cannot open the project folder.\n\n"@ + e@,
            ),
            ChainEvent::Opened(Ok((project, models))) => self.opened(project@, models@),
            ChainEvent::Done(result) => self.after_need(result),
            ChainEvent::Context { snapshot, memory } => self.informed(snapshot@, memory@),
            ChainEvent::Decided(reply) => self.with_decision(reply).decided(),
            ChainEvent::Coded { outcome, log_lines } => self.after_coders(
                outcome_view(outcome),
                texts(log_lines@),
            ),
            ChainEvent::Applied(report) => if self.phase is LocalFile {
                self.local_done(report)
            } else {
                self.applied(report)
            },
            ChainEvent::Serialized(text) => self.written(opt_text(text)),
            ChainEvent::Repaired(reply) => self.after_repair(reply),
            ChainEvent::Tested(output) => self.noting("Tester ist fertig."@).worded(output@),
            ChainEvent::Answered(Ok(answer)) => self.over(visible(answer@)),
            ChainEvent::Answered(Err(_)) => self.over(self.fallback),
        }
    }

    /// How far the run is from its end.
    pub open spec fn distance(self) -> int {
        match self.phase {
            ChainPhase::Ready => 18,
            ChainPhase::Opening => 17,
            ChainPhase::LocalFile => 1,
            ChainPhase::Server => 16,
            ChainPhase::Models => 15,
            ChainPhase::Context => 14,
            ChainPhase::Coordinator => 13,
            ChainPhase::CoderModels => 12,
            ChainPhase::Coders => 11,
            ChainPhase::LargeCoder => 10,
            ChainPhase::Emergency => 9,
            ChainPhase::Retry => 8,
            ChainPhase::Files => 7,
            ChainPhase::Writing => 6,
            ChainPhase::Repair => 5,
            ChainPhase::RepairedFiles => 4,
            ChainPhase::Tests => 3,
            ChainPhase::Wording => 2,
            ChainPhase::Over => 0,
        }
    }
}

// ---------------------------------------------------------------------------------------------
// Laws
// ---------------------------------------------------------------------------------------------

/// What holds from one state of a run to the next.
pub open spec fn goes_on(s: Chain, m: Move) -> bool {
    &&& m.0.wf()
    &&& m.0.config == s.config
    &&& s.log.is_prefix_of(m.0.log)
    &&& (m.1 is Finished || m.1 is Abort) == (m.0.phase is Over)
}

/// Every event keeps the run in good order, leaves its settings and the log that there is alone,
/// and brings it nearer to its end; it says that it is finished, or that it stops, exactly where
/// it is over.
pub proof fn the_run_advances(s: Chain, event: ChainEvent)
    requires
        s.wf(),
        s.awaits(event),
    ensures
        goes_on(s, s.after(event)),
        s.after(event).0.distance() < s.distance(),
{
    match event {
        ChainEvent::Begin => {},
        ChainEvent::Opened(_) => {},
        ChainEvent::Done(_) => {},
        ChainEvent::Context { snapshot, memory } => {},
        ChainEvent::Decided(reply) => {
            lemma_decided(s, reply);
        },
        ChainEvent::Coded { outcome, log_lines } => {
            lemma_coded(s, outcome_view(outcome), texts(log_lines@));
        },
        ChainEvent::Applied(report) => {
            lemma_applied(s, report);
        },
        ChainEvent::Serialized(_) => {},
        ChainEvent::Repaired(reply) => {
            lemma_repaired(s, reply);
        },
        ChainEvent::Tested(output) => {
            let noted = s.noting("Tester ist fertig."@);
            lemma_worded(noted, output@);
            lemma_longer(s, noted, noted.worded(output@));
        },
        ChainEvent::Answered(_) => {},
    }
}

/// A run whose log is longer goes on as well.
proof fn lemma_longer(s: Chain, t: Chain, m: Move)
    requires
        s.log.is_prefix_of(t.log),
        s.config == t.config,
        goes_on(t, m),
    ensures
        goes_on(s, m),
{
    assert forall|i: int| 0 <= i < s.log.len() implies s.log[i] == m.0.log[i] by {
        assert(s.log[i] == t.log.subrange(0, s.log.len() as int)[i]);
        assert(t.log[i] == m.0.log.subrange(0, t.log.len() as int)[i]);
    }
    assert(s.log =~= m.0.log.subrange(0, s.log.len() as int));
}

/// What putting the answer into words comes to.
proof fn lemma_worded(s: Chain, output: Seq<char>)
    requires
        1 <= s.count <= 6,
    ensures
        goes_on(s, s.worded(output)),
        s.worded(output).0.distance() <= 2,
        s.worded(output).1 is Finished || s.worded(output).1 is AskFinal,
{
}

/// What the steps behind the files come to.
proof fn lemma_settled(s: Chain, changed: Seq<Seq<char>>, had_error: bool)
    requires
        1 <= s.count <= 6,
    ensures
        goes_on(s, s.settled(changed, had_error)),
        s.settled(changed, had_error).0.distance() <= 3,
        ({
            let step = s.settled(changed, had_error).1;
            step is Finished || step is AskFinal || step is RunTests
        }),
{
    let next = Chain { changed, had_error, ..s };
    lemma_worded(next, ""@);
}

/// What a decision comes to.
proof fn lemma_decided(s: Chain, reply: CoordinatorReply)
    requires
        s.wf(),
        s.phase is Coordinator,
    ensures
        goes_on(s, s.with_decision(reply).decided()),
        s.with_decision(reply).decided().0.distance() < s.distance(),
        ({
            let step = s.with_decision(reply).decided().1;
            step is Finished || step is EnsureCoderModels
        }),
{
    let t = s.with_decision(reply);
    team_size(s.config.max_parallel_agents, t.decision);
    assert(s.log.is_prefix_of(t.log));
    let shown = t.showing("Coordinator: "@ + shortened(t.decision.summary, 220));
    assert(t.log.is_prefix_of(shown.log));
    let working = shown.showing("Coder agents are working on candidate solutions..."@);
    assert(shown.log.is_prefix_of(working.log));
    let m = t.decided();
    assert(t.log.is_prefix_of(m.0.log));
    lemma_longer(s, t, m);
}

/// What using actions comes to.
proof fn lemma_using(s: Chain, e: Envelope)
    requires
        1 <= s.count <= 6,
    ensures
        goes_on(s, s.using(e)),
        s.using(e).0.distance() <= 7,
        ({
            let step = s.using(e).1;
            ||| step is Finished
            ||| step is AskFinal
            ||| step is RunTests
            ||| step is Apply && s.config.auto_apply_actions && e.actions.len() > 0 && s.using(
                e,
            ).0.envelope == e && s.using(e).0.phase is Files
        }),
{
    let summed = match e.summary {
        Some(text) => if blank(text) {
            s
        } else {
            s.noting("Internal summary: "@ + shortened(text, 240))
        },
        None => s,
    };
    let next = Chain { envelope: e, ..summed };
    assert(s.log.is_prefix_of(next.log));
    if e.actions.len() == 0 {
        let noted = next.noting("Coordinator applies no file changes."@);
        lemma_settled(noted, Seq::empty(), false);
        assert(s.log.is_prefix_of(noted.log));
        lemma_longer(s, noted, s.using(e));
    } else if !s.config.auto_apply_actions {
        let noted = next.noting(
            decimal(e.actions.len()) + " file action(s) created, but auto-apply is off."@,
        );
        lemma_settled(noted, Seq::empty(), false);
        assert(s.log.is_prefix_of(noted.log));
        lemma_longer(s, noted, s.using(e));
    }
}

/// What accepting actions comes to.
proof fn lemma_accepted(s: Chain, e: Envelope)
    requires
        1 <= s.count <= 6,
    ensures
        goes_on(s, s.accepted(e)),
        s.accepted(e).0.distance() <= 8,
        ({
            let step = s.accepted(e).1;
            ||| step is Finished
            ||| step is AskFinal
            ||| step is RunTests
            ||| step is RunCoders
            ||| step is Apply && s.config.auto_apply_actions && e.actions.len() > 0 && s.accepted(
                e,
            ).0.envelope == e && s.accepted(e).0.phase is Files
        }),
{
    lemma_using(s, e);
}

/// What the coders come to.
proof fn lemma_coded(s: Chain, outcome: Result<Envelope, Seq<char>>, lines: Seq<Seq<char>>)
    requires
        s.wf(),
        s.phase is Coders || s.phase is LargeCoder || s.phase is Emergency || s.phase is Retry,
    ensures
        goes_on(s, s.after_coders(outcome, lines)),
        s.after_coders(outcome, lines).0.distance() < s.distance(),
        !(s.after_coders(outcome, lines).1 is Serialize),
        s.after_coders(outcome, lines).1 is Apply ==> s.config.auto_apply_actions && (outcome matches
            Ok(e) && e.actions.len() > 0 && s.after_coders(outcome, lines).0.envelope == e),
{
    let noted = s.noting_all(lines);
    assert(s.log.is_prefix_of(noted.log));
    match outcome {
        Ok(e) => {
            lemma_accepted(noted, e);
            lemma_using(noted, e);
            if s.phase is Retry {
                if e.actions.len() > 0 {
                    lemma_longer(s, noted, noted.using(e));
                }
            } else {
                lemma_longer(s, noted, noted.accepted(e));
            }
        },
        Err(_) => {},
    }
}

/// What carrying out actions comes to.
proof fn lemma_applied(s: Chain, report: ActionReport)
    requires
        s.wf(),
        s.phase is LocalFile || s.phase is Files || s.phase is RepairedFiles,
    ensures
        goes_on(s, s.after(ChainEvent::Applied(report))),
        s.after(ChainEvent::Applied(report)).0.distance() < s.distance(),
        !(s.after(ChainEvent::Applied(report)).1 is Apply),
        s.after(ChainEvent::Applied(report)).1 is Serialize ==> s.phase is Files && report.had_error
            && report.changed_files@.len() == 0,
{
    let noted = s.noting_all(texts(report.log_lines@));
    assert(s.log.is_prefix_of(noted.log));
    lemma_settled(noted, texts(report.changed_files@), report.had_error);
    if !(s.phase is LocalFile) {
        lemma_longer(s, noted, noted.settled(texts(report.changed_files@), report.had_error));
    }
}

/// What the repair agent comes to.
proof fn lemma_repaired(s: Chain, reply: Reply)
    requires
        s.wf(),
        s.phase is Repair,
    ensures
        goes_on(s, s.after_repair(reply)),
        s.after_repair(reply).0.distance() < s.distance(),
        !(s.after_repair(reply).1 is Serialize),
        s.after_repair(reply).1 is Apply ==> (reply matches
            Reply::Read { raw: _, envelope, facts } && envelope@.actions.len() > 0 && faults(
            envelope@.actions,
            facts@,
        ).len() == 0 && s.after_repair(reply).0.envelope == envelope@),
{
    match reply {
        Reply::Failed(e) => {
            let t = s.noting("Repair agent failed: "@ + e@);
            lemma_settled(t, s.changed, s.had_error);
            assert(s.log.is_prefix_of(t.log));
            lemma_longer(s, t, t.settled(s.changed, s.had_error));
        },
        Reply::Unreadable { raw, error } => {
            let t = s.repair_heard(raw@).noting("Repair agent failed: "@ + error@);
            lemma_settled(t, s.changed, s.had_error);
            assert(s.log.is_prefix_of(t.log));
            lemma_longer(s, t, t.settled(s.changed, s.had_error));
        },
        Reply::Read { raw, envelope, facts } => {
            let wrong = faults(envelope@.actions, facts@);
            if !(wrong.len() == 0 && envelope@.actions.len() > 0) {
                let t = s.repair_heard(raw@).noting(
                    "Repair agent verworfen: "@ + if wrong.len() == 0 {
                        "no file actions"@
                    } else {
                        joined(wrong, "; "@)
                    },
                );
                lemma_settled(t, s.changed, s.had_error);
                assert(s.log.is_prefix_of(t.log));
                lemma_longer(s, t, t.settled(s.changed, s.had_error));
            }
        },
    }
}

/// Files are touched only for a request for one file, or for actions that the coders or the
/// repair agent handed on, and then only with exactly those actions: those of the repair agent
/// were found without faults, and all others are carried out only where that is switched on.
pub proof fn files_change_only_for_accepted_actions(s: Chain, event: ChainEvent)
    requires
        s.wf(),
        s.awaits(event),
        s.after(event).1 is Apply,
    ensures
        match event {
            ChainEvent::Opened(_) => local_task(
                s.config.user_request@,
                opt_text(s.config.last_file_path),
            ) matches Some(Some(LocalTask::CreateFile { path, content })) && s.after(
                event,
            ).0.envelope.actions == seq![Action::WriteFile { path, content }],
            ChainEvent::Coded { outcome, log_lines: _ } => s.config.auto_apply_actions
                && outcome_view(outcome) == Ok::<Envelope, Seq<char>>(s.after(event).0.envelope)
                && s.after(event).0.envelope.actions.len() > 0,
            ChainEvent::Repaired(Reply::Read { raw: _, envelope, facts }) => s.after(
                event,
            ).0.envelope == envelope@ && envelope@.actions.len() > 0 && faults(
                envelope@.actions,
                facts@,
            ).len() == 0,
            _ => false,
        },
{
    match event {
        ChainEvent::Decided(reply) => {
            lemma_decided(s, reply);
        },
        ChainEvent::Coded { outcome, log_lines } => {
            lemma_coded(s, outcome_view(outcome), texts(log_lines@));
        },
        ChainEvent::Applied(report) => {
            lemma_applied(s, report);
        },
        ChainEvent::Repaired(reply) => {
            lemma_repaired(s, reply);
        },
        ChainEvent::Tested(output) => {
            lemma_worded(s.noting("Tester ist fertig."@), output@);
        },
        _ => {},
    }
}

/// The repair agent is asked about files only after an attempt that changed nothing, which can
/// happen only where changes are applied at all.
pub proof fn repair_follows_a_failed_attempt(s: Chain, event: ChainEvent)
    requires
        s.wf(),
        s.awaits(event),
        s.after(event).1 is Serialize,
    ensures
        s.phase is Files,
        event matches ChainEvent::Applied(report) && report.had_error
            && report.changed_files@.len() == 0,
{
    match event {
        ChainEvent::Decided(reply) => {
            lemma_decided(s, reply);
        },
        ChainEvent::Coded { outcome, log_lines } => {
            lemma_coded(s, outcome_view(outcome), texts(log_lines@));
        },
        ChainEvent::Applied(report) => {
            lemma_applied(s, report);
        },
        ChainEvent::Repaired(reply) => {
            lemma_repaired(s, reply);
        },
        ChainEvent::Tested(output) => {
            lemma_worded(s.noting("Tester ist fertig."@), output@);
        },
        _ => {},
    }
}

/// Small talk is answered at once: nothing is opened, read, asked or written.
pub proof fn small_talk_needs_no_agents(s: Chain)
    requires
        s.phase is Ready,
        small_talk_answer(intent_of(s.config.user_request@)) is Some,
    ensures
        s.after(ChainEvent::Begin).1 == (ChainStep::Finished {
            answer: small_talk_answer(intent_of(s.config.user_request@))->0,
        }),
        s.after(ChainEvent::Begin).0.log == s.log,
{
}

/// A request for one file needs neither the model server nor any agent: the file is written, and
/// that is the end.
pub proof fn one_file_needs_no_agents(
    s: Chain,
    project: String,
    models: String,
    report: ActionReport,
)
    requires
        s.phase is Opening,
        local_task(s.config.user_request@, opt_text(s.config.last_file_path)) matches Some(Some(_)),
    ensures
        ({
            let (t, step) = s.after(ChainEvent::Opened(Ok((project, models))));
            ||| step is Finished
            ||| step is Apply && t.after(ChainEvent::Applied(report)).1 is Finished
        }),
{
}

/// Where a change was asked for, no run ends with an empty set of actions that was accepted at
/// once: the large model is asked again, and if it changes nothing either, the answer says that
/// the project was left unchanged.
pub proof fn empty_actions_are_tried_again(s: Chain, outcome: Result<ActionEnvelope, String>, log_lines: Vec<String>)
    requires
        s.wf(),
        s.phase is Coders || s.phase is LargeCoder || s.phase is Emergency,
        s.decision.needs_code,
        outcome_view(outcome) matches Ok(e) && e.actions.len() == 0,
    ensures
        s.after(ChainEvent::Coded { outcome, log_lines }).0.phase is Retry,
        s.after(ChainEvent::Coded { outcome, log_lines }).1 == (ChainStep::RunCoders {
            model: LOCAL_GPT_ROUTER_MODEL@,
            prompt: retry_question(s.question),
            count: 1,
        }),
{
}

/// Coders that fail are not the end: the large model is asked where it was not yet, and behind it
/// the last attempt is made.
pub proof fn failed_coders_are_followed_by_others(s: Chain, error: String, log_lines: Vec<String>)
    requires
        s.phase is Coders || s.phase is LargeCoder,
    ensures
        ({
            let (t, step) = s.after(ChainEvent::Coded { outcome: Err(error), log_lines });
            if s.phase is Coders && s.first_model() != LOCAL_GPT_ROUTER_MODEL@ {
                t.phase is LargeCoder && step == (ChainStep::RunCoders {
                    model: LOCAL_GPT_ROUTER_MODEL@,
                    prompt: s.question,
                    count: 1,
                })
            } else {
                t.phase is Emergency && step == (ChainStep::RunEmergency {
                    goal: s.decision.summary,
                })
            }
        }),
{
}

/// A step that asks for file actions.
pub open spec fn asks_for_actions(step: ChainStep<Seq<char>>) -> bool {
    step is AskCoordinator || step is RunCoders || step is RunEmergency
}

/// Once files may have been touched, no coder is asked any more: an answer that the project was
/// left unchanged, which follows only on coders, is given only where nothing was touched.
pub proof fn nothing_is_coded_behind_the_files(s: Chain, event: ChainEvent)
    requires
        s.wf(),
        s.awaits(event),
        s.distance() <= 7,
    ensures
        s.after(event).0.distance() < 7,
        !asks_for_actions(s.after(event).1),
{
    the_run_advances(s, event);
    match event {
        ChainEvent::Applied(report) => {
            let noted = s.noting_all(texts(report.log_lines@));
            lemma_settled(noted, texts(report.changed_files@), report.had_error);
        },
        ChainEvent::Repaired(reply) => {
            lemma_settled(
                match reply {
                    Reply::Failed(e) => s.noting("Repair agent failed: "@ + e@),
                    Reply::Unreadable { raw, error } => s.repair_heard(raw@).noting(
                        "Repair agent failed: "@ + error@,
                    ),
                    Reply::Read { raw, envelope, facts } => s.repair_heard(raw@).noting(
                        "Repair agent verworfen: "@ + if faults(envelope@.actions, facts@).len()
                            == 0 {
                            "no file actions"@
                        } else {
                            joined(faults(envelope@.actions, facts@), "; "@)
                        },
                    ),
                },
                s.changed,
                s.had_error,
            );
        },
        ChainEvent::Tested(output) => {
            lemma_worded(s.noting("Tester ist fertig."@), output@);
        },
        _ => {},
    }
}

/// The test command is run only where that is switched on, and only once something was changed.
pub proof fn tests_follow_changes(s: Chain, event: ChainEvent)
    requires
        s.wf(),
        s.awaits(event),
        s.after(event).1 is RunTests,
    ensures
        s.config.run_tests_after_apply,
        s.after(event).0.changed.len() > 0,
        s.after(event).1 == (ChainStep::RunTests { command: s.config.terminal_cmd@ }),
        !blank(s.config.terminal_cmd@),
{
    match event {
        ChainEvent::Decided(reply) => {
            lemma_decided(s, reply);
        },
        ChainEvent::Tested(output) => {
            lemma_worded(s.noting("Tester ist fertig."@), output@);
        },
        _ => {},
    }
}

/// What is remembered of the project reaches the coordinator: its question holds it, up to the
/// length that it is cut at.
pub proof fn the_coordinator_is_reminded(s: Chain, snapshot: String, memory: String)
    requires
        s.phase is Context,
    ensures
        s.after(ChainEvent::Context { snapshot, memory }).1 matches ChainStep::AskCoordinator {
            prompt,
        } && holds(prompt, shortened(memory@, 12000)) && holds(prompt, s.config.user_request@),
{
    the_question_holds_what_was_given(
        s.project,
        s.config.user_request@,
        snapshot@,
        memory@,
        s.config.context_limit,
    );
}

impl Chain {
    /// The run after events.
    pub open spec fn run(self, events: Seq<ChainEvent>) -> Chain
        decreases events.len(),
    {
        if events.len() == 0 {
            self
        } else {
            self.run(events.drop_last()).after(events.last()).0
        }
    }

    /// Each of the events is an answer to what the run waits for when it comes.
    pub open spec fn allows(self, events: Seq<ChainEvent>) -> bool
        decreases events.len(),
    {
        events.len() > 0 ==> self.allows(events.drop_last()) && self.run(
            events.drop_last(),
        ).awaits(events.last())
    }

    /// The run is at its beginning.
    pub open spec fn fresh(self) -> bool {
        self.wf() && self.phase is Ready
    }

    /// What is to be done behind the last of the events.
    pub open spec fn step_behind(self, events: Seq<ChainEvent>) -> ChainStep<Seq<char>> {
        self.run(events.drop_last()).after(events.last()).1
    }

    /// The request is one for a single file.
    pub open spec fn asks_for_one_file(self) -> bool {
        local_task(self.config.user_request@, opt_text(self.config.last_file_path)) matches Some(
            Some(LocalTask::CreateFile { path: _, content: _ }),
        )
    }
}

/// What a reply of the coordinator makes the goal: the summary of the decision, or the request where
/// there is none.
pub open spec fn goal_of(reply: CoordinatorReply, request: Seq<char>) -> Seq<char> {
    match reply {
        CoordinatorReply::Read { raw: _, decision } => decision.summary@,
        _ => request,
    }
}

/// Where the phases up to the coders have what they know from.
#[verifier::rlimit(40)]
proof fn lemma_what_is_known(s: Chain, event: ChainEvent)
    requires
        s.wf(),
        s.awaits(event),
    ensures
        ({
            let t = s.after(event).0;
            match t.phase {
                ChainPhase::Server => event matches ChainEvent::Opened(Ok((project, _)))
                    && t.project == project@,
                ChainPhase::Models => s.phase is Server && t.project == s.project,
                ChainPhase::Context => s.phase is Models && t.project == s.project,
                ChainPhase::Coordinator => s.phase is Context && t.project == s.project && (
                event matches ChainEvent::Context { snapshot, memory: _ } && t.snapshot
                    == snapshot@),
                ChainPhase::CoderModels => s.phase is Coordinator && t.project == s.project
                    && t.snapshot == s.snapshot && (event matches ChainEvent::Decided(reply)
                    && t.decision.summary == goal_of(reply, s.config.user_request@)),
                ChainPhase::Coders => s.phase is CoderModels && t.project == s.project && t.snapshot
                    == s.snapshot && t.decision == s.decision && t.question == coder_question(
                    s.project,
                    s.config.user_request@,
                    s.decision.summary,
                    s.snapshot,
                ),
                ChainPhase::LargeCoder | ChainPhase::Emergency | ChainPhase::Retry => (
                s.phase is Coders || s.phase is LargeCoder || s.phase is Emergency) && t.project
                    == s.project && t.snapshot == s.snapshot && t.decision == s.decision
                    && t.question == s.question,
                _ => true,
            }
        }),
{
    match event {
        ChainEvent::Decided(reply) => {
            lemma_decided(s, reply);
        },
        ChainEvent::Coded { outcome, log_lines } => {
            lemma_coded(s, outcome_view(outcome), texts(log_lines@));
            match outcome_view(outcome) {
                Ok(e) => {
                    lemma_using(s.noting_all(texts(log_lines@)), e);
                },
                Err(_) => {},
            }
        },
        ChainEvent::Applied(report) => {
            lemma_applied(s, report);
        },
        ChainEvent::Repaired(reply) => {
            lemma_repaired(s, reply);
        },
        ChainEvent::Tested(output) => {
            lemma_worded(s.noting("Tester ist fertig."@), output@);
        },
        _ => {},
    }
}

/// The project was opened as it is shown in the run.
pub open spec fn opened_as(event: ChainEvent, project: Seq<char>) -> bool {
    event matches ChainEvent::Opened(Ok((shown, _))) && shown@ == project
}

/// The project was read as it is shown in the run.
pub open spec fn read_as(event: ChainEvent, snapshot: Seq<char>) -> bool {
    event matches ChainEvent::Context { snapshot: text, memory: _ } && text@ == snapshot
}

/// The coordinator set this goal for a request.
pub open spec fn decided_as(event: ChainEvent, request: Seq<char>, goal: Seq<char>) -> bool {
    event matches ChainEvent::Decided(reply) && goal_of(reply, request) == goal
}

/// The phases from the opening of the project to the end of the coders.
pub open spec fn behind_opening(phase: ChainPhase) -> bool {
    phase is Server || phase is Models || phase is Context || behind_reading(phase)
}

/// The phases from the reading of the project to the end of the coders.
pub open spec fn behind_reading(phase: ChainPhase) -> bool {
    phase is Coordinator || behind_decision(phase)
}

/// The phases from the decision to the end of the coders.
pub open spec fn behind_decision(phase: ChainPhase) -> bool {
    phase is CoderModels || at_the_coders(phase)
}

/// The phases of the coders.
pub open spec fn at_the_coders(phase: ChainPhase) -> bool {
    phase is Coders || phase is LargeCoder || phase is Emergency || phase is Retry
}

/// In a run from its beginning, what is known of project and goal comes from its events, and the
/// question for the coders is made of it.
#[verifier::rlimit(40)]
proof fn lemma_all_is_known(s: Chain, events: Seq<ChainEvent>)
    requires
        s.fresh(),
        s.allows(events),
    ensures
        ({
            let t = s.run(events);
            &&& t.wf()
            &&& t.config == s.config
            &&& behind_opening(t.phase) ==> exists|k: int|
                0 <= k < events.len() && opened_as(#[trigger] events[k], t.project)
            &&& behind_reading(t.phase) ==> exists|k: int|
                0 <= k < events.len() && read_as(#[trigger] events[k], t.snapshot)
            &&& behind_decision(t.phase) ==> exists|k: int|
                0 <= k < events.len() && decided_as(
                    #[trigger] events[k],
                    s.config.user_request@,
                    t.decision.summary,
                )
            &&& at_the_coders(t.phase) ==> t.question == coder_question(
                t.project,
                s.config.user_request@,
                t.decision.summary,
                t.snapshot,
            )
        }),
    decreases events.len(),
{
    if events.len() > 0 {
        let before = events.drop_last();
        let last = events.len() - 1;
        let old_state = s.run(before);
        let t = s.run(events);
        let request = s.config.user_request@;
        lemma_all_is_known(s, before);
        the_run_advances(old_state, events.last());
        lemma_what_is_known(old_state, events.last());
        if behind_opening(t.phase) {
            if t.phase is Server {
                assert(opened_as(events[last], t.project));
            } else {
                let k = choose|k: int|
                    0 <= k < before.len() && opened_as(#[trigger] before[k], old_state.project);
                assert(opened_as(events[k], t.project));
            }
        }
        if behind_reading(t.phase) {
            if t.phase is Coordinator {
                assert(read_as(events[last], t.snapshot));
            } else {
                let k = choose|k: int|
                    0 <= k < before.len() && read_as(#[trigger] before[k], old_state.snapshot);
                assert(read_as(events[k], t.snapshot));
            }
        }
        if behind_decision(t.phase) {
            if t.phase is CoderModels {
                assert(decided_as(events[last], request, t.decision.summary));
            } else {
                let k = choose|k: int|
                    0 <= k < before.len() && decided_as(
                        #[trigger] before[k],
                        request,
                        old_state.decision.summary,
                    );
                assert(decided_as(events[k], request, t.decision.summary));
            }
        }
    }
}

/// A step that sets coders to work belongs to one of their phases, and asks their question, or that
/// question and that something has to be changed.
#[verifier::rlimit(40)]
proof fn lemma_coders_are_asked(s: Chain, event: ChainEvent)
    requires
        s.wf(),
        s.awaits(event),
    ensures
        s.after(event).1 matches ChainStep::RunCoders { model: _, prompt, count } ==> at_the_coders(
            s.after(event).0.phase,
        ) && (prompt == s.after(event).0.question || prompt == retry_question(
            s.after(event).0.question,
        )) && 1 <= count <= 6,
{
    match event {
        ChainEvent::Decided(reply) => {
            lemma_decided(s, reply);
        },
        ChainEvent::Coded { outcome, log_lines } => {
            lemma_coded(s, outcome_view(outcome), texts(log_lines@));
            match outcome_view(outcome) {
                Ok(e) => {
                    lemma_using(s.noting_all(texts(log_lines@)), e);
                },
                Err(_) => {},
            }
        },
        ChainEvent::Applied(report) => {
            lemma_applied(s, report);
            let noted = s.noting_all(texts(report.log_lines@));
            lemma_settled(noted, texts(report.changed_files@), report.had_error);
        },
        ChainEvent::Repaired(reply) => {
            lemma_repaired(s, reply);
            nothing_is_coded_behind_the_files(s, event);
        },
        ChainEvent::Tested(output) => {
            lemma_worded(s.noting("Tester ist fertig."@), output@);
        },
        _ => {},
    }
}

/// Over a whole run: whenever coders are set to work, their question holds the request of the user
/// word for word, the project folder as it was opened, the whole project as it was read, and the goal
/// that the coordinator set, each of these under its heading.
#[verifier::rlimit(40)]
pub proof fn coders_get_request_and_project(s: Chain, events: Seq<ChainEvent>)
    requires
        s.fresh(),
        events.len() > 0,
        s.allows(events),
        s.step_behind(events) is RunCoders,
    ensures
        s.step_behind(events) matches ChainStep::RunCoders { model: _, prompt, count } && {
            &&& 1 <= count <= 6
            &&& holds(prompt, s.config.user_request@)
            &&& holds(prompt, "\n\nUser request:\n"@ + s.config.user_request@ + "\n\n"@)
            &&& exists|k: int, project: Seq<char>|
                0 <= k < events.len() && #[trigger] opened_as(events[k], project) && holds(
                    prompt,
                    project,
                )
            &&& exists|k: int, snapshot: Seq<char>|
                0 <= k < events.len() && #[trigger] read_as(events[k], snapshot) && holds(
                    prompt,
                    snapshot,
                ) && holds(prompt, "\n\nProject snapshot:\n"@ + snapshot)
            &&& exists|k: int, goal: Seq<char>|
                0 <= k < events.len() && #[trigger] decided_as(
                    events[k],
                    s.config.user_request@,
                    goal,
                ) && holds(prompt, goal) && holds(
                    prompt,
                    "\n\nCoordinator goal:\n"@ + goal + "\n\n"@,
                )
        },
{
    let before = events.drop_last();
    let t = s.run(events);
    let request = s.config.user_request@;
    lemma_all_is_known(s, before);
    lemma_all_is_known(s, events);
    lemma_coders_are_asked(s.run(before), events.last());
    coders_are_told_everything(t.project, request, t.decision.summary, t.snapshot);
    let project = t.project;
    let snapshot = t.snapshot;
    let goal = t.decision.summary;
    match s.step_behind(events) {
        ChainStep::RunCoders { model: _, prompt, count: _ } => {
            let q = t.question;
            assert(holds(prompt, q)) by {
                assert(q.subrange(0, q.len() as int) =~= q);
                assert(occurs_at(q, q, 0));
                the_question_is_repeated(q);
            }
            lemma_holds_part(prompt, q, request);
            lemma_holds_part(prompt, q, project);
            lemma_holds_part(prompt, q, snapshot);
            lemma_holds_part(prompt, q, goal);
            lemma_holds_part(prompt, q, "\n\nUser request:\n"@ + request + "\n\n"@);
            lemma_holds_part(prompt, q, "\n\nProject snapshot:\n"@ + snapshot);
            lemma_holds_part(prompt, q, "\n\nCoordinator goal:\n"@ + goal + "\n\n"@);
        },
        _ => {},
    }
    let i = choose|k: int| 0 <= k < events.len() && opened_as(#[trigger] events[k], project);
    assert(opened_as(events[i], project));
    let j = choose|k: int| 0 <= k < events.len() && read_as(#[trigger] events[k], snapshot);
    assert(read_as(events[j], snapshot));
    let k = choose|k: int|
        0 <= k < events.len() && decided_as(#[trigger] events[k], request, goal);
    assert(decided_as(events[k], request, goal));
}

/// A run goes its way step by step: small talk aside, the project is opened; then the server and its
/// models are seen to, the project is read, and the coordinator is asked; a request that it answers
/// itself is answered with its reply, and any other is worked on by coders whose models are seen to
/// first.
pub proof fn the_way_to_the_coders(s: Chain, event: ChainEvent)
    requires
        s.wf(),
        s.awaits(event),
    ensures
        ({
            let (t, step) = s.after(event);
            match (s.phase, event) {
                (ChainPhase::Ready, _) => small_talk_answer(intent_of(s.config.user_request@)) is None
                    ==> step is OpenProject,
                (ChainPhase::Opening, ChainEvent::Opened(Ok(_))) => local_task(
                    s.config.user_request@,
                    opt_text(s.config.last_file_path),
                ) == Some(None::<LocalTask>) ==> step is EnsureServer,
                (ChainPhase::Server, ChainEvent::Done(Ok(_))) => step is EnsureModels,
                (ChainPhase::Models, ChainEvent::Done(Ok(_))) => step is ReadContext,
                (ChainPhase::Context, _) => step is AskCoordinator,
                (ChainPhase::Coordinator, ChainEvent::Decided(CoordinatorReply::Read { raw: _, decision }))
                    => if decision.reply_now && !decision.needs_code {
                    step == (ChainStep::Finished { answer: visible(decision.direct_reply@) })
                } else {
                    step is EnsureCoderModels
                },
                (ChainPhase::Coordinator, _) => step is EnsureCoderModels,
                (ChainPhase::CoderModels, ChainEvent::Done(Ok(_))) => step is RunCoders,
                _ => true,
            }
        }),
{
    match event {
        ChainEvent::Decided(reply) => {
            lemma_decided(s, reply);
        },
        _ => {},
    }
}

/// The coordinator is asked with the project as it was read, whole as far as there is room, and with
/// the request, each under its heading.
pub proof fn the_coordinator_sees_the_project(s: Chain, snapshot: String, memory: String)
    requires
        s.phase is Context,
        snapshot@.len() <= s.config.context_limit,
        snapshot@.len() <= 80000,
        memory@.len() <= 12000,
    ensures
        s.after(ChainEvent::Context { snapshot, memory }).1 matches ChainStep::AskCoordinator {
            prompt,
        } && holds(
            prompt,
            "\n\nUser request:\n"@ + s.config.user_request@ + "\n\nProject snapshot:\n"@,
        ) && holds(
            prompt,
            "\n\nProject snapshot:\n"@ + snapshot@ + "\n\nPersistent memory:\n"@,
        ) && holds(prompt, "\n\nPersistent memory:\n"@ + memory@),
{
    the_coordinator_is_told_everything(
        s.project,
        s.config.user_request@,
        snapshot@,
        memory@,
        s.config.context_limit,
    );
}

/// As many coders work as the coordinator and the settings want, the first of them with the chosen
/// model, or alone with the large one where that is wanted.
pub proof fn the_team_works_as_decided(s: Chain, raw: String, decision: CoordinatorDecision)
    requires
        s.wf(),
        s.phase is Coordinator,
        !(decision.reply_now && !decision.needs_code),
    ensures
        ({
            let t = s.after(
                ChainEvent::Decided(CoordinatorReply::Read { raw, decision }),
            ).0;
            let step = t.after(ChainEvent::Done(Ok(()))).1;
            &&& t.decision == decision@
            &&& t.count == wanted_coders(s.config.max_parallel_agents, decision@)
            &&& step matches ChainStep::RunCoders { model, prompt: _, count } && count == t.count && (
            model == if count == 1 && decision@.use_large_single_coder {
                "gpt-oss:20b"@
            } else {
                s.config.model@
            })
        }),
{
    lemma_decided(s, CoordinatorReply::Read { raw, decision });
    team_size(s.config.max_parallel_agents, decision@);
}

/// A request for one file is answered with the file: its name where it was written, and where it was
/// not, that it could not be; a request without a name is answered by asking for one.
#[verifier::rlimit(40)]
pub proof fn one_file_is_reported(s: Chain, report: ActionReport)
    requires
        s.phase is LocalFile,
        s.envelope.actions.len() > 0,
    ensures
        ({
            let step = s.after(ChainEvent::Applied(report)).1;
            &&& !report.had_error && report.changed_files@.len() > 0 ==> (step matches
                ChainStep::Finished { answer } && holds(answer, report.changed_files@[0]@) && begins(
                answer,
                "Done. "@,
            ))
            &&& report.had_error || report.changed_files@.len() == 0 ==> (step matches
                ChainStep::Finished { answer } && (s.envelope.actions[0] matches Action::WriteFile {
                path,
                content: _,
            } ==> holds(answer, path)) && begins(answer, "I could not safely create"@))
        }),
{
    if !report.had_error && report.changed_files@.len() > 0 {
        let file = report.changed_files@[0]@;
        reveal_strlit("Done. I created `");
        reveal_strlit("Done. ");
        let answer = "Done. I created `"@ + file + "`."@;
        lemma_holds_middle("Done. I created `"@, file, "`."@);
        assert(answer.subrange(0, 6) =~= "Done. "@);
    } else {
        reveal_strlit("I could not safely create `");
        reveal_strlit("I could not safely create");
        let path = match s.envelope.actions[0] {
            Action::WriteFile { path, content: _ } => path,
            _ => ""@,
        };
        let tail =
            "`. Please check that the project folder is correct and the filename is relative."@;
        let answer = "I could not safely create `"@ + path + tail;
        lemma_holds_middle("I could not safely create `"@, path, tail);
        assert(answer.subrange(0, 25) =~= "I could not safely create"@);
    }
}

/// What was changed is told: where files were changed and no tests are to be run, or the tests were
/// run, the run ends with an answer that names every changed file, and says where actions were
/// blocked and that tests were run.
#[verifier::rlimit(40)]
pub proof fn changes_are_told(s: Chain, report: ActionReport, output: String, i: int)
    requires
        s.wf(),
        s.phase is Files || s.phase is RepairedFiles,
        s.envelope.actions.len() > 0,
        s.config.auto_apply_actions,
        0 <= i < report.changed_files@.len(),
    ensures
        ({
            let (t, step) = s.after(ChainEvent::Applied(report));
            let tested = t.after(ChainEvent::Tested(output)).1;
            let told = |answer: Seq<char>|
                holds(answer, report.changed_files@[i]@) && (report.had_error ==> holds(
                    answer,
                    "Some actions were blocked for safety or match-count reasons."@,
                ));
            &&& step matches ChainStep::Finished { answer } ==> told(answer)
            &&& step is RunTests ==> (tested matches ChainStep::Finished { answer } && told(answer)
                && (!blank(output@) ==> ends(answer, "Test/build was run."@)))
            &&& step is Finished || step is RunTests
        }),
{
    let changed = texts(report.changed_files@);
    assert(changed[i] == report.changed_files@[i]@);
    answers_say_what_happened(
        s.envelope.summary,
        changed,
        s.envelope.actions.len(),
        report.had_error,
        true,
        ""@,
        i,
    );
    answers_say_what_happened(
        s.envelope.summary,
        changed,
        s.envelope.actions.len(),
        report.had_error,
        true,
        output@,
        i,
    );
}

/// Where the changes are not to be applied, the run ends with an answer that says so, and where all
/// attempts of the coders failed, with one that repeats the request and says that the project was left
/// unchanged.
#[verifier::rlimit(40)]
pub proof fn unchanged_projects_are_told(
    s: Chain,
    outcome: Result<ActionEnvelope, String>,
    log_lines: Vec<String>,
)
    requires
        s.wf(),
        s.phase is Coders || s.phase is LargeCoder || s.phase is Emergency || s.phase is Retry,
    ensures
        ({
            let step = s.after(ChainEvent::Coded { outcome, log_lines }).1;
            &&& !s.config.auto_apply_actions && (outcome matches Ok(e) && e@.actions.len() > 0) ==> (
            step matches ChainStep::Finished { answer } && holds(
                answer,
                "The file actions were created, but auto-apply is off."@,
            ))
            &&& (s.phase is Emergency || s.phase is Retry) && outcome is Err ==> (step matches
                ChainStep::Finished { answer } && holds(answer, trimmed(s.config.user_request@))
                && ends(answer, "The project folder was left unchanged."@))
            &&& s.phase is Retry && (outcome matches Ok(e) && e@.actions.len() == 0) ==> (step matches
                ChainStep::Finished { answer } && holds(answer, trimmed(s.config.user_request@))
                && ends(answer, "The project folder was left unchanged."@))
        }),
{
    match outcome {
        Ok(e) => {
            answers_say_what_happened(
                e@.summary,
                Seq::empty(),
                e@.actions.len(),
                false,
                s.config.auto_apply_actions,
                ""@,
                0,
            );
        },
        Err(_) => {},
    }
    lemma_left_unchanged(s.config.user_request@);
}

/// The answers that a project was left unchanged repeat the request and end alike.
proof fn lemma_left_unchanged(request: Seq<char>)
    ensures
        ({
            let head = "Ich habe verstanden, worum es geht: "@ + trimmed(request) + "\n\n"@;
            let a = head
                + "The GPT and Qwen coding attempts did not produce a safe applicable change. The project folder was left unchanged."@;
            let b = head
                + "The coding models returned no applicable file change. The project folder was left unchanged."@;
            let c = head + "The GPT coding retry failed. The project folder was left unchanged."@;
            let end = "The project folder was left unchanged."@;
            &&& holds(a, trimmed(request)) && ends(a, end)
            &&& holds(b, trimmed(request)) && ends(b, end)
            &&& holds(c, trimmed(request)) && ends(c, end)
        }),
{
    let a =
        "The GPT and Qwen coding attempts did not produce a safe applicable change. The project folder was left unchanged."@;
    let b =
        "The coding models returned no applicable file change. The project folder was left unchanged."@;
    let c = "The GPT coding retry failed. The project folder was left unchanged."@;
    let end = "The project folder was left unchanged."@;
    reveal_strlit("The project folder was left unchanged.");
    assert(a.subrange(a.len() - end.len(), a.len() as int) =~= end) by {
        reveal_strlit(
            "The GPT and Qwen coding attempts did not produce a safe applicable change. The project folder was left unchanged.",
        );
    }
    assert(b.subrange(b.len() - end.len(), b.len() as int) =~= end) by {
        reveal_strlit(
            "The coding models returned no applicable file change. The project folder was left unchanged.",
        );
    }
    assert(c.subrange(c.len() - end.len(), c.len() as int) =~= end) by {
        reveal_strlit("The GPT coding retry failed. The project folder was left unchanged.");
    }
    assert(a.len() >= end.len()) by {
        reveal_strlit(
            "The GPT and Qwen coding attempts did not produce a safe applicable change. The project folder was left unchanged.",
        );
    }
    assert(b.len() >= end.len()) by {
        reveal_strlit(
            "The coding models returned no applicable file change. The project folder was left unchanged.",
        );
    }
    assert(c.len() >= end.len()) by {
        reveal_strlit("The GPT coding retry failed. The project folder was left unchanged.");
    }
    lemma_repeats(request, a, end);
    lemma_repeats(request, b, end);
    lemma_repeats(request, c, end);
}

/// An answer that repeats the request and gives a reason.
proof fn lemma_repeats(request: Seq<char>, reason: Seq<char>, end: Seq<char>)
    requires
        reason.len() >= end.len(),
        reason.subrange(reason.len() - end.len(), reason.len() as int) == end,
    ensures
        ({
            let all = "Ich habe verstanden, worum es geht: "@ + trimmed(request) + "\n\n"@ + reason;
            holds(all, trimmed(request)) && ends(all, end)
        }),
{
    let head = "Ich habe verstanden, worum es geht: "@;
    let all = head + trimmed(request) + "\n\n"@ + reason;
    lemma_holds_middle(head, trimmed(request), "\n\n"@ + reason);
    assert(head + trimmed(request) + ("\n\n"@ + reason) =~= all);
    assert(all.subrange(all.len() - end.len(), all.len() as int) =~= reason.subrange(
        reason.len() - end.len(),
        reason.len() as int,
    ));
}

/// Where nothing was to be changed, the model is asked for an answer to the request; if it gives none,
/// the run ends all the same, with what was to be done and that nothing was changed.
pub proof fn a_run_without_changes_is_answered(
    s: Chain,
    envelope: ActionEnvelope,
    log_lines: Vec<String>,
    error: String,
)
    requires
        s.wf(),
        s.phase is Coders || s.phase is LargeCoder || s.phase is Emergency,
        !s.decision.needs_code,
        envelope@.actions.len() == 0,
    ensures
        ({
            let (t, step) = s.after(ChainEvent::Coded { outcome: Ok(envelope), log_lines });
            &&& step matches ChainStep::AskFinal { prompt } && holds(
                prompt,
                s.config.user_request@ + "\n\nCoordinator goal:\n"@,
            )
            &&& t.after(ChainEvent::Answered(Err(error))).1 matches ChainStep::Finished { answer }
                && holds(answer, "I understood the request. No file was changed in this run."@) && (
            envelope@.summary matches Some(text) ==> !blank(text) ==> begins(answer, trimmed(text)))
        }),
{
    let none = Seq::<Seq<char>>::empty();
    answers_say_what_happened(
        envelope@.summary,
        none,
        0,
        false,
        s.config.auto_apply_actions,
        ""@,
        0,
    );
    the_final_question_tells_what_happened(
        s.config.user_request@,
        s.decision.summary,
        envelope@.summary,
        none,
        s.config.auto_apply_actions,
        false,
        ""@,
        plain_answer(envelope@.summary, none, 0, false, s.config.auto_apply_actions, ""@),
    );
}

/// The repair agent is told what was tried and what went wrong with it: the actions as they were
/// written down, and every line that their attempt left in the log.
pub proof fn the_repair_agent_is_told_what_failed(s: Chain, text: String, i: int)
    requires
        s.phase is Writing,
        text@.len() <= 30000,
        joined(s.report, "\n"@).len() <= 10000,
        0 <= i < s.report.len(),
    ensures
        s.after(ChainEvent::Serialized(Some(text))).1 matches ChainStep::AskRepair { prompt } && holds(
            prompt,
            s.project,
        ) && holds(prompt, text@ + "\n\nError context:\n"@) && holds(prompt, s.report[i]),
{
    let errors = joined(s.report, "\n"@);
    the_repair_agent_is_told_everything(s.project, text@, errors);
    let prompt = repair_question(s.project, text@, errors);
    lemma_joined_holds(s.report, "\n"@, i);
    let none = Seq::<char>::empty();
    let told = "\n\nError context:\n"@ + errors;
    lemma_holds_middle("\n\nError context:\n"@, errors, none);
    assert("\n\nError context:\n"@ + errors + none =~= told);
    lemma_holds_part(prompt, told, errors);
    lemma_holds_part(prompt, errors, s.report[i]);
}

/// Where nothing but errors came of the actions, the log of that attempt is kept for the repair agent.
pub proof fn what_failed_is_kept(s: Chain, report: ActionReport)
    requires
        s.wf(),
        s.phase is Files,
        report.had_error,
        report.changed_files@.len() == 0,
    ensures
        ({
            let (t, step) = s.after(ChainEvent::Applied(report));
            &&& step is Serialize
            &&& t.report == texts(report.log_lines@)
            &&& t.envelope == s.envelope
            &&& t.project == s.project
        }),
{
}

/// What is missing ends the run before anything is asked or changed, and the answer says what failed.
pub proof fn what_is_missing_is_named(s: Chain, error: String)
    requires
        s.wf(),
        s.phase is Opening || s.phase is Server || s.phase is Models || s.phase is CoderModels,
    ensures
        ({
            let event = if s.phase is Opening {
                ChainEvent::Opened(Err(error))
            } else {
                ChainEvent::Done(Err(error))
            };
            s.after(event).1 matches ChainStep::Finished { answer } && ends(answer, error@)
        }),
{
    let event = if s.phase is Opening {
        ChainEvent::Opened(Err(error))
    } else {
        ChainEvent::Done(Err(error))
    };
    match s.after(event).1 {
        ChainStep::Finished { answer } => {
            let n = answer.len() - error@.len();
            assert(answer.subrange(n, answer.len() as int) =~= error@);
        },
        _ => {},
    }
}

/// Actions that were accepted are applied where that is switched on; where something was changed,
/// the tests are run if they are wanted and there is a command for them; and an answer of the model
/// is shown as it shows answers, or else the one that stands in for it.
#[verifier::rlimit(40)]
pub proof fn what_follows_on_actions(s: Chain, event: ChainEvent)
    requires
        s.wf(),
        s.awaits(event),
    ensures
        ({
            let (t, step) = s.after(event);
            match event {
                ChainEvent::Coded { outcome: Ok(e), log_lines: _ } => e@.actions.len() > 0 ==> (
                s.config.auto_apply_actions ==> step is Apply && t.envelope == e@) && (
                !s.config.auto_apply_actions ==> step is Finished),
                ChainEvent::Applied(report) => !(s.phase is LocalFile) && report.changed_files@.len()
                    > 0 ==> if s.config.run_tests_after_apply && !blank(s.config.terminal_cmd@) {
                    step == (ChainStep::RunTests { command: s.config.terminal_cmd@ })
                } else {
                    step is Finished
                },
                ChainEvent::Answered(Ok(answer)) => step == (ChainStep::Finished {
                    answer: visible(answer@),
                }),
                ChainEvent::Answered(Err(_)) => step == (ChainStep::Finished { answer: s.fallback }),
                ChainEvent::Repaired(Reply::Read { raw: _, envelope, facts }) => envelope@.actions.len()
                    > 0 && faults(envelope@.actions, facts@).len() == 0 ==> step is Apply
                    && t.envelope == envelope@,
                _ => true,
            }
        }),
{
    match event {
        ChainEvent::Coded { outcome, log_lines } => {
            lemma_coded(s, outcome_view(outcome), texts(log_lines@));
        },
        _ => {},
    }
}

/// A run of the coders, or the last attempt, handed these actions on, and all answers that it got
/// are among those that were heard.
pub open spec fn worked_out(e: Envelope, heard: Set<Reply>) -> bool {
    ||| exists|s: Coding, events: Seq<CoderEvent>| #[trigger]
        s.hands_on(events, e) && forall|k: int|
            0 <= k < events.len() ==> (reply_in(#[trigger] events[k]) matches Some(reply)
                ==> heard.contains(reply))
    ||| exists|s: Emergency, replies: Seq<Reply>| #[trigger]
        s.hands_on(replies, e) && forall|k: int|
            0 <= k < replies.len() ==> heard.contains(#[trigger] replies[k])
}

/// The actions that an event brings come from runs of the agents whose answers were heard.
pub open spec fn honest(event: ChainEvent, heard: Set<Reply>) -> bool {
    match event {
        ChainEvent::Coded { outcome: Ok(e), log_lines: _ } => worked_out(e@, heard),
        ChainEvent::Repaired(reply) => heard.contains(reply),
        _ => true,
    }
}

/// An answer that was heard holds exactly these actions, and the check finds no fault in them.
pub open spec fn checked(e: Envelope, heard: Set<Reply>) -> bool {
    exists|reply: Reply| heard.contains(reply) && #[trigger] passes(reply, e)
}

/// Actions that were worked out were checked.
proof fn lemma_worked_out(e: Envelope, heard: Set<Reply>)
    requires
        worked_out(e, heard),
        e.actions.len() > 0,
    ensures
        checked(e, heard),
{
    if exists|s: Coding, events: Seq<CoderEvent>| #[trigger]
        s.hands_on(events, e) && forall|k: int|
            0 <= k < events.len() ==> (reply_in(#[trigger] events[k]) matches Some(reply)
                ==> heard.contains(reply)) {
        let (s, events) = choose|s: Coding, events: Seq<CoderEvent>| #[trigger]
            s.hands_on(events, e) && forall|k: int|
                0 <= k < events.len() ==> (reply_in(#[trigger] events[k]) matches Some(reply)
                    ==> heard.contains(reply));
        a_run_hands_on_only_checked_actions(s, events, e);
        let k = choose|k: int|
            0 <= k < events.len() && (reply_in(#[trigger] events[k]) matches Some(reply) && passes(
                reply,
                e,
            ));
        assert(passes(reply_in(events[k])->0, e));
    } else {
        let (s, replies) = choose|s: Emergency, replies: Seq<Reply>| #[trigger]
            s.hands_on(replies, e) && forall|k: int|
                0 <= k < replies.len() ==> heard.contains(#[trigger] replies[k]);
        the_last_attempt_hands_on_only_checked_actions(s, replies, e);
        assert(heard.contains(replies[replies.len() - 1]));
        assert(passes(replies.last(), e));
    }
}

/// The phases in which files are changed follow on each other, and the first of them only where
/// changes are to be applied.
proof fn lemma_phases_of_change(s: Chain, event: ChainEvent)
    requires
        s.wf(),
        s.awaits(event),
    ensures
        match s.after(event).0.phase {
            ChainPhase::Files => s.config.auto_apply_actions,
            ChainPhase::Writing => s.phase is Files,
            ChainPhase::Repair => s.phase is Writing,
            ChainPhase::RepairedFiles => s.phase is Repair,
            _ => true,
        },
{
}

/// In a run from its beginning the phases in which files are changed are reached only where
/// changes are to be applied.
proof fn lemma_switched_on(s: Chain, events: Seq<ChainEvent>)
    requires
        s.fresh(),
        s.allows(events),
    ensures
        s.run(events).wf(),
        s.run(events).config == s.config,
        ({
            let phase = s.run(events).phase;
            phase is Files || phase is Writing || phase is Repair || phase is RepairedFiles
        }) ==> s.config.auto_apply_actions,
    decreases events.len(),
{
    if events.len() > 0 {
        let before = events.drop_last();
        lemma_switched_on(s, before);
        the_run_advances(s.run(before), events.last());
        lemma_phases_of_change(s.run(before), events.last());
    }
}

/// Over a whole run, whatever models and file system answer: actions are applied only for a
/// request for a single file, and then they are that file; or where applying is switched on, and
/// then they are exactly those of an answer that was heard in the run and in which the check found
/// no fault.
pub proof fn only_checked_actions_are_applied(
    s: Chain,
    events: Seq<ChainEvent>,
    heard: Set<Reply>,
)
    requires
        s.fresh(),
        events.len() > 0,
        s.allows(events),
        forall|k: int| 0 <= k < events.len() ==> honest(#[trigger] events[k], heard),
        s.step_behind(events) is Apply,
    ensures
        ({
            let e = s.run(events).envelope;
            ||| local_task(s.config.user_request@, opt_text(s.config.last_file_path)) matches Some(
                Some(LocalTask::CreateFile { path, content }),
            ) && e.actions == seq![Action::WriteFile { path, content }]
            ||| s.config.auto_apply_actions && e.actions.len() > 0 && checked(e, heard)
        }),
{
    let before = events.drop_last();
    let t = s.run(before);
    let event = events.last();
    lemma_switched_on(s, before);
    files_change_only_for_accepted_actions(t, event);
    assert(honest(events[events.len() - 1], heard));
    match event {
        ChainEvent::Coded { outcome, log_lines: _ } => {
            lemma_worked_out(outcome->Ok_0@, heard);
        },
        ChainEvent::Repaired(reply) => {
            assert(passes(reply, s.run(events).envelope));
        },
        _ => {},
    }
}

/// Over a whole run nothing is applied where that is switched off, unless the request is one for a
/// single file.
pub proof fn nothing_is_applied_where_that_is_off(s: Chain, events: Seq<ChainEvent>)
    requires
        s.fresh(),
        events.len() > 0,
        s.allows(events),
        !s.config.auto_apply_actions,
        !s.asks_for_one_file(),
    ensures
        !(s.step_behind(events) is Apply),
{
    let before = events.drop_last();
    lemma_switched_on(s, before);
    if s.step_behind(events) is Apply {
        files_change_only_for_accepted_actions(s.run(before), events.last());
    }
}

/// From the request to the files: where a run hands its actions over to be carried out and the
/// request is not one for a single file, a file of the project is touched only where applying is
/// switched on, only for one of the actions of an answer in which the check found no fault, and
/// only behind the path of that action having been let through, which holds no `..` between its
/// slashes.
pub proof fn every_change_is_a_checked_action(
    s: Chain,
    events: Seq<ChainEvent>,
    heard: Set<Reply>,
    work: Applying,
    done: Seq<ApplyEvent>,
)
    requires
        s.fresh(),
        events.len() > 0,
        s.allows(events),
        forall|k: int| 0 <= k < events.len() ==> honest(#[trigger] events[k], heard),
        s.step_behind(events) is Apply,
        !s.asks_for_one_file(),
        work.wf(),
        work.phase is Ready,
        work.actions == s.run(events).envelope.actions,
        done.len() > 0,
        work.allows(done),
        touches_files(work.run(done.drop_last()).after(done.last()).1),
    ensures
        s.config.auto_apply_actions,
        checked(s.run(events).envelope, heard),
        0 <= work.run(done).at < s.run(events).envelope.actions.len(),
        work.run(done).current() == s.run(events).envelope.actions[work.run(done).at],
        exists|k: int| work.let_through_at(done, k),
        !climbs(path_text(action_path(work.run(done).current()))),
{
    only_checked_actions_are_applied(s, events, heard);
    every_touched_file_was_let_through(work, done);
}

// ---------------------------------------------------------------------------------------------
// The run
// ---------------------------------------------------------------------------------------------

impl ChainRun {
    /// A run with the given settings, before its first step.
    pub fn new(config: AgentRunConfig) -> (r: ChainRun)
        ensures
            r@.wf(),
            r@ == (Chain {
                config,
                phase: ChainPhase::Ready,
                log: Seq::empty(),
                project: ""@,
                snapshot: ""@,
                decision: default_decision(config.user_request@),
                count: 1,
                question: ""@,
                error: ""@,
                envelope: empty_envelope(),
                report: Seq::empty(),
                changed: Seq::empty(),
                had_error: false,
                fallback: ""@,
            }),
    {
        let log_lines: Vec<String> = Vec::new();
        let report_lines: Vec<String> = Vec::new();
        let changed: Vec<String> = Vec::new();
        assert(texts(log_lines@) =~= Seq::<Seq<char>>::empty());
        assert(texts(report_lines@) =~= Seq::<Seq<char>>::empty());
        assert(texts(changed@) =~= Seq::<Seq<char>>::empty());
        let decision = fallback_decision(config.user_request.as_str());
        ChainRun {
            config,
            phase: ChainPhase::Ready,
            log_lines,
            project: "".to_owned(),
            snapshot: "".to_owned(),
            decision,
            count: 1,
            question: "".to_owned(),
            error: "".to_owned(),
            envelope: empty_action_envelope(),
            report_lines,
            changed,
            had_error: false,
            fallback: "".to_owned(),
        }
    }

    /// One more line in the log.
    fn note(&mut self, line: String)
        ensures
            final(self)@ == old(self)@.noting(line@),
    {
        self.log_lines.push(line);
        assert(texts(self.log_lines@) =~= texts(old(self).log_lines@).push(line@));
    }

    /// One more line in the log where progress is shown.
    fn show(&mut self, line: String)
        ensures
            final(self)@ == old(self)@.showing(line@),
    {
        if self.config.show_progress {
            self.note(line);
        }
    }

    /// More lines in the log.
    fn note_all(&mut self, lines: &Vec<String>)
        ensures
            final(self)@ == old(self)@.noting_all(texts(lines@)),
    {
        let n: usize = lines.len();
        let ghost all = texts(lines@);
        let ghost start = self@;
        let mut i: usize = 0;
        assert(self@.log =~= start.log + all.take(0));
        while i < n
            invariant
                i <= n == lines@.len(),
                all == texts(lines@),
                start == old(self)@,
                self@ == start.noting_all(all.take(i as int)),
            decreases n - i,
        {
            self.note(lines[i].as_str().to_owned());
            assert(start.log + all.take(i + 1) =~= (start.log + all.take(i as int)).push(
                all[i as int],
            ));
            i += 1;
        }
        assert(all.take(n as int) =~= all);
    }

    /// Ends the run.
    fn end(&mut self, answer: String) -> (r: ChainStep<String>)
        ensures
            (final(self)@, r@) == old(self)@.over(answer@),
    {
        self.phase = ChainPhase::Over;
        ChainStep::Finished { answer }
    }

    /// Ends the run without a change.
    fn leave_alone(&mut self, reason: &str) -> (r: ChainStep<String>)
        ensures
            (final(self)@, r@) == old(self)@.left_alone(reason@),
    {
        let answer = coordinator_direct_fallback(self.config.user_request.as_str(), reason);
        self.end(answer)
    }

    /// The model of the first coder.
    fn model_of_first(&self) -> (r: String)
        ensures
            r@ == self@.first_model(),
    {
        if self.decision.use_large_single_coder && self.count == 1 {
            LOCAL_GPT_ROUTER_MODEL.to_owned()
        } else {
            self.config.model.as_str().to_owned()
        }
    }

    /// The models that the coders need.
    pub fn required_models(&self) -> (r: Vec<String>)
        ensures
            texts(r@) == model_list(self@.first_model(), self@.count as int),
    {
        agent_models_for_count(self.model_of_first().as_str(), self.count)
    }

    /// The actions that are to be carried out.
    pub fn actions(&self) -> (r: Vec<FileAction>)
        ensures
            actions_view(r@) == self@.envelope.actions,
    {
        self.envelope.copy().actions
    }

    /// The envelope that is to be written as JSON.
    pub fn envelope(&self) -> (r: ActionEnvelope)
        ensures
            r@ == self@.envelope,
    {
        self.envelope.copy()
    }

    /// What was read of the project.
    pub fn snapshot(&self) -> (r: &str)
        ensures
            r@ == self@.snapshot,
    {
        self.snapshot.as_str()
    }

    /// The log of the run.
    pub fn into_log(self) -> (r: Vec<String>)
        ensures
            texts(r@) == self@.log,
    {
        self.log_lines
    }

    /// Begins the run.
    fn begin(&mut self) -> (r: ChainStep<String>)
        ensures
            (final(self)@, r@) == old(self)@.begun(),
    {
        match direct_chat_answer(self.config.user_request.as_str()) {
            Some(answer) => self.end(answer),
            None => {
                self.show("Coordinator checks the request and project folder...".to_owned());
                self.phase = ChainPhase::Opening;
                ChainStep::OpenProject
            },
        }
    }

    /// Goes on with the opened project.
    fn open(&mut self, project: String, models: String) -> (r: ChainStep<String>)
        ensures
            (final(self)@, r@) == old(self)@.opened(project@, models@),
    {
        let fallback: Option<&str> = match &self.config.last_file_path {
            Some(path) => Some(path.as_str()),
            None => None,
        };
        match try_parse_local_file_task(self.config.user_request.as_str(), fallback) {
            None => {
                self.phase = ChainPhase::Over;
                ChainStep::Abort
            },
            Some(Some(LocalFileTask::NeedFileName)) => self.end(
                "Sure. What should the file be called? For example: `create text.txt`.".to_owned(),
            ),
            Some(Some(LocalFileTask::CreateFile { path, content })) => {
                self.note("Local tool: create file.".to_owned());
                let mut actions: Vec<FileAction> = Vec::new();
                let ghost action = Action::WriteFile { path: path@, content: content@ };
                actions.push(FileAction::WriteFile { path, content });
                assert(actions_view(actions@) =~= seq![action]);
                self.envelope = ActionEnvelope { summary: None, actions };
                self.phase = ChainPhase::LocalFile;
                ChainStep::Apply
            },
            Some(None) => {
                let first = cat2("Project folder: ", project.as_str());
                let second = cat2("Modelordner: ", models.as_str());
                self.project = project;
                self.phase = ChainPhase::Server;
                self.show(first);
                self.show(second);
                self.show("Checking Ollama...".to_owned());
                ChainStep::EnsureServer
            },
        }
    }

    /// Ends a run for one file.
    fn local(&mut self, report: ActionReport) -> (r: ChainStep<String>)
        requires
            old(self)@.phase is LocalFile,
            old(self)@.envelope.actions.len() > 0,
        ensures
            (final(self)@, r@) == old(self)@.local_done(report),
    {
        self.note_all(&report.log_lines);
        if report.had_error || report.changed_files.len() == 0 {
            assert(self@.envelope.actions[0] == self.envelope.actions@[0]@);
            let path: &str = match &self.envelope.actions[0] {
                FileAction::WriteFile { path, content: _ } => path.as_str(),
                _ => "",
            };
            let answer = cat3(
                "I could not safely create `",
                path,
                "`. Please check that the project folder is correct and the filename is relative.",
            );
            self.end(answer)
        } else {
            self.end(cat3("Done. I created `", report.changed_files[0].as_str(), "`."))
        }
    }

    /// Goes on with what is needed.
    fn need(&mut self, result: Result<(), String>) -> (r: ChainStep<String>)
        requires
            old(self)@.wf(),
            old(self)@.awaits(ChainEvent::Done(result)),
        ensures
            (final(self)@, r@) == old(self)@.after_need(result),
    {
        match result {
            Err(e) => match self.phase {
                ChainPhase::Server => {
                    self.note(cat2("Ollama error: ", e.as_str()));
                    self.end(
                        cat2("Ollama is not reachable or could not be started.\n\n", e.as_str()),
                    )
                },
                ChainPhase::Models => {
                    self.note(cat2("Model check failed: ", e.as_str()));
                    self.end(
                        cat2("I could not prepare the required local models.\n\n", e.as_str()),
                    )
                },
                _ => {
                    self.note(cat2("Agent model check failed: ", e.as_str()));
                    self.end(
                        cat2("I could not prepare the required local agent model.\n\n", e.as_str()),
                    )
                },
            },
            Ok(_) => match self.phase {
                ChainPhase::Server => {
                    self.note("Checking models...".to_owned());
                    self.phase = ChainPhase::Models;
                    ChainStep::EnsureModels
                },
                ChainPhase::Models => {
                    self.phase = ChainPhase::Context;
                    ChainStep::ReadContext
                },
                _ => {
                    let prompt = coder_prompt(
                        self.project.as_str(),
                        self.config.user_request.as_str(),
                        self.decision.summary.as_str(),
                        self.snapshot.as_str(),
                    );
                    let model = self.model_of_first();
                    self.question = prompt.as_str().to_owned();
                    self.phase = ChainPhase::Coders;
                    ChainStep::RunCoders { model, prompt, count: self.count }
                },
            },
        }
    }

    /// Asks the coordinator.
    fn inform(&mut self, snapshot: String, memory: String) -> (r: ChainStep<String>)
        ensures
            (final(self)@, r@) == old(self)@.informed(snapshot@, memory@),
    {
        let prompt = coordinator_prompt(
            self.project.as_str(),
            self.config.user_request.as_str(),
            snapshot.as_str(),
            memory.as_str(),
            self.config.context_limit,
        );
        if !is_blank(memory.as_str()) {
            self.note(
                cat3(
                    "Loaded memory context: ",
                    to_decimal(memory.as_str().unicode_len() as u128).as_str(),
                    " chars.",
                ),
            );
        }
        self.show("Coordinator decides whether code changes are needed...".to_owned());
        self.snapshot = snapshot;
        self.phase = ChainPhase::Coordinator;
        self.note(
            cat4(
                "TRAFFIC GPT Router -> ",
                LOCAL_GPT_ROUTER_MODEL,
                " | Prompt:\n",
                truncate_text(prompt.as_str(), 4000).as_str(),
            ),
        );
        ChainStep::AskCoordinator { prompt }
    }

    /// Notes what the coordinator said.
    fn hear_router(&mut self, raw: &str)
        ensures
            final(self)@ == old(self)@.router_heard(raw@),
    {
        self.note(
            cat4(
                "TRAFFIC ",
                LOCAL_GPT_ROUTER_MODEL,
                " -> GPT Router | Response:\n",
                truncate_text(raw, 4000).as_str(),
            ),
        );
    }

    /// Takes in the decision.
    fn take_decision(&mut self, reply: CoordinatorReply)
        ensures
            final(self)@ == old(self)@.with_decision(reply),
    {
        match reply {
            CoordinatorReply::Failed(e) => {
                self.note(
                    cat6(
                        "TRAFFIC GPT Router <- ",
                        LOCAL_GPT_ROUTER_MODEL,
                        " (fallback: ",
                        self.config.model.as_str(),
                        ") failed: ",
                        e.as_str(),
                    ),
                );
                self.decision = fallback_decision(self.config.user_request.as_str());
            },
            CoordinatorReply::Unreadable { raw, error } => {
                self.hear_router(raw.as_str());
                self.note(
                    cat4(
                        "Coordinator parser uses fallback: ",
                        error.as_str(),
                        " | raw answer: ",
                        truncate_text(raw.as_str(), 1000).as_str(),
                    ),
                );
                self.decision = fallback_decision(self.config.user_request.as_str());
            },
            CoordinatorReply::Read { raw, decision } => {
                self.hear_router(raw.as_str());
                self.decision = decision;
            },
        }
    }

    /// Acts on the decision.
    fn decide(&mut self) -> (r: ChainStep<String>)
        ensures
            (final(self)@, r@) == old(self)@.decided(),
    {
        self.show(
            cat2("Coordinator: ", truncate_text(self.decision.summary.as_str(), 220).as_str()),
        );
        if self.decision.reply_now && !self.decision.needs_code {
            let answer = clean_visible_answer(self.decision.direct_reply.as_str());
            return self.end(answer);
        }
        self.show("Coder agents are working on candidate solutions...".to_owned());
        let count: usize = recommended_agent_count(self.config.max_parallel_agents, &self.decision);
        self.count = count;
        self.phase = ChainPhase::CoderModels;
        let models = self.required_models();
        self.note(
            cat5(
                "Router decision: ",
                to_decimal(count as u128).as_str(),
                " agent(s), large single coder: ",
                truth_text(self.decision.use_large_single_coder),
                ".",
            ),
        );
        self.note(cat2("Checking agent models: ", join(&models, ", ").as_str()));
        ChainStep::EnsureCoderModels
    }

    /// Makes the last attempt.
    fn try_emergency(&mut self, error: &str) -> (r: ChainStep<String>)
        ensures
            (final(self)@, r@) == old(self)@.emergency(error@),
    {
        self.note(cat2("Agent manager could not create actions: ", error));
        self.phase = ChainPhase::Emergency;
        ChainStep::RunEmergency { goal: self.decision.summary.as_str().to_owned() }
    }

    /// Takes in actions.
    fn accept(&mut self, envelope: ActionEnvelope) -> (r: ChainStep<String>)
        ensures
            (final(self)@, r@) == old(self)@.accepted(envelope@),
    {
        assert(envelope@.actions.len() == envelope.actions@.len());
        if self.decision.needs_code && envelope.actions.len() == 0 {
            self.envelope = envelope;
            self.phase = ChainPhase::Retry;
            self.note(
                "Empty actions are not accepted for this requested file change; GPT Coding Agent retries.".to_owned(),
            );
            ChainStep::RunCoders {
                model: LOCAL_GPT_ROUTER_MODEL.to_owned(),
                prompt: cat2(self.question.as_str(), RETRY_TAIL),
                count: 1,
            }
        } else {
            self.employ(envelope)
        }
    }

    /// Lets actions be carried out.
    fn employ(&mut self, envelope: ActionEnvelope) -> (r: ChainStep<String>)
        ensures
            (final(self)@, r@) == old(self)@.using(envelope@),
    {
        let n: usize = envelope.actions.len();
        assert(envelope@.actions.len() == n);
        if let Some(s) = &envelope.summary {
            if !is_blank(s.as_str()) {
                self.note(cat2("Internal summary: ", truncate_text(s.as_str(), 240).as_str()));
            }
        }
        self.envelope = envelope;
        if n == 0 {
            self.note("Coordinator applies no file changes.".to_owned());
            let none: Vec<String> = Vec::new();
            assert(texts(none@) =~= Seq::<Seq<char>>::empty());
            self.settle(none, false)
        } else if self.config.auto_apply_actions {
            self.note(
                cat3("Applying ", to_decimal(n as u128).as_str(), " file action(s)..."),
            );
            self.phase = ChainPhase::Files;
            ChainStep::Apply
        } else {
            self.note(
                cat2(
                    to_decimal(n as u128).as_str(),
                    " file action(s) created, but auto-apply is off.",
                ),
            );
            let none: Vec<String> = Vec::new();
            assert(texts(none@) =~= Seq::<Seq<char>>::empty());
            self.settle(none, false)
        }
    }

    /// Takes in what the coders came to.
    fn take_coders(&mut self, outcome: Result<ActionEnvelope, String>, lines: Vec<String>) -> (r:
        ChainStep<String>)
        requires
            old(self)@.phase is Coders || old(self)@.phase is LargeCoder || old(
                self,
            )@.phase is Emergency || old(self)@.phase is Retry,
        ensures
            (final(self)@, r@) == old(self)@.after_coders(outcome_view(outcome), texts(lines@)),
    {
        match outcome {
            Ok(e) => match self.phase {
                ChainPhase::Coders | ChainPhase::LargeCoder | ChainPhase::Emergency => {
                    self.note_all(&lines);
                    self.accept(e)
                },
                _ => {
                    self.note_all(&lines);
                    assert(e@.actions.len() == e.actions@.len());
                    if e.actions.len() > 0 {
                        self.employ(e)
                    } else {
                        self.note("GPT Coding Agent also returned no file actions.".to_owned());
                        self.leave_alone(
                            "The coding models returned no applicable file change. The project folder was left unchanged.",
                        )
                    }
                },
            },
            Err(e) => match self.phase {
                ChainPhase::Coders => {
                    if text_is(self.model_of_first().as_str(), LOCAL_GPT_ROUTER_MODEL) {
                        self.try_emergency(e.as_str())
                    } else {
                        self.note(
                            cat2(
                                "Primary coder failed; GPT Coding Agent retries: ",
                                truncate_text(e.as_str(), 300).as_str(),
                            ),
                        );
                        self.error = e;
                        self.phase = ChainPhase::LargeCoder;
                        ChainStep::RunCoders {
                            model: LOCAL_GPT_ROUTER_MODEL.to_owned(),
                            prompt: self.question.as_str().to_owned(),
                            count: 1,
                        }
                    }
                },
                ChainPhase::LargeCoder => {
                    let error = cat3(self.error.as_str(), "; GPT retry also failed: ", e.as_str());
                    self.try_emergency(error.as_str())
                },
                ChainPhase::Emergency => {
                    self.note_all(&lines);
                    self.note(cat2("Emergency coding fallback failed: ", e.as_str()));
                    self.leave_alone(
                        "The GPT and Qwen coding attempts did not produce a safe applicable change. The project folder was left unchanged.",
                    )
                },
                _ => {
                    self.note(cat2("GPT Coding Agent retry failed: ", e.as_str()));
                    self.leave_alone(
                        "The GPT coding retry failed. The project folder was left unchanged.",
                    )
                },
            },
        }
    }

    /// Takes in what was done to the files.
    fn take_report(&mut self, report: ActionReport) -> (r: ChainStep<String>)
        ensures
            (final(self)@, r@) == old(self)@.applied(report),
    {
        self.note_all(&report.log_lines);
        let first = match self.phase {
            ChainPhase::Files => true,
            _ => false,
        };
        if first && report.had_error && report.changed_files.len() == 0 {
            self.note("Repair agent checks blocked file actions...".to_owned());
            self.report_lines = report.log_lines;
            self.changed = report.changed_files;
            self.had_error = report.had_error;
            self.phase = ChainPhase::Writing;
            ChainStep::Serialize
        } else {
            self.settle(report.changed_files, report.had_error)
        }
    }

    /// Asks the repair agent.
    fn ask_repair(&mut self, text: Option<String>) -> (r: ChainStep<String>)
        ensures
            (final(self)@, r@) == old(self)@.written(opt_text(text)),
    {
        let raw = match text {
            Some(t) => t,
            None => match &self.envelope.summary {
                Some(s) => s.as_str().to_owned(),
                None => "Actions could not be serialized.".to_owned(),
            },
        };
        let prompt = repair_prompt(
            self.project.as_str(),
            raw.as_str(),
            join(&self.report_lines, "\n").as_str(),
        );
        self.note(
            cat4(
                "TRAFFIC Agent manager -> Repair agent (",
                self.config.model.as_str(),
                ") | Prompt:\n",
                truncate_text(prompt.as_str(), 4000).as_str(),
            ),
        );
        self.phase = ChainPhase::Repair;
        ChainStep::AskRepair { prompt }
    }

    /// Notes what the repair agent said.
    fn hear_repair(&mut self, raw: &str)
        ensures
            final(self)@ == old(self)@.repair_heard(raw@),
    {
        self.note(
            cat4(
                "TRAFFIC Repair agent (",
                self.config.model.as_str(),
                ") -> Agent manager | Response:\n",
                truncate_text(raw, 4000).as_str(),
            ),
        );
    }

    /// Goes on with what the files were before the repair agent was asked.
    fn settle_as_before(&mut self) -> (r: ChainStep<String>)
        ensures
            (final(self)@, r@) == old(self)@.settled(old(self)@.changed, old(self)@.had_error),
    {
        let mut changed: Vec<String> = Vec::new();
        std::mem::swap(&mut changed, &mut self.changed);
        let had_error = self.had_error;
        let ghost names = texts(changed@);
        self.settle(changed, had_error)
    }

    /// Takes in what the repair agent came to.
    fn take_repair(&mut self, reply: Reply) -> (r: ChainStep<String>)
        requires
            reply.complete(),
        ensures
            (final(self)@, r@) == old(self)@.after_repair(reply),
    {
        match reply {
            Reply::Failed(e) => {
                self.note(cat2("Repair agent failed: ", e.as_str()));
                self.settle_as_before()
            },
            Reply::Unreadable { raw, error } => {
                self.hear_repair(raw.as_str());
                self.note(cat2("Repair agent failed: ", error.as_str()));
                self.settle_as_before()
            },
            Reply::Read { raw, envelope, facts } => {
                self.hear_repair(raw.as_str());
                let wrong = validate_action_envelope(&envelope, &facts);
                assert(texts(wrong@).len() == wrong@.len());
                assert(envelope@.actions.len() == envelope.actions@.len());
                if wrong.len() == 0 && envelope.actions.len() > 0 {
                    self.note("Repair agent liefert sichere Ersatz-Actions.".to_owned());
                    self.envelope = envelope;
                    self.phase = ChainPhase::RepairedFiles;
                    ChainStep::Apply
                } else {
                    let why = if wrong.len() == 0 {
                        "no file actions".to_owned()
                    } else {
                        join(&wrong, "; ")
                    };
                    self.note(cat2("Repair agent verworfen: ", why.as_str()));
                    self.settle_as_before()
                }
            },
        }
    }

    /// Goes on with the files as they are.
    fn settle(&mut self, changed: Vec<String>, had_error: bool) -> (r: ChainStep<String>)
        ensures
            (final(self)@, r@) == old(self)@.settled(texts(changed@), had_error),
    {
        let n: usize = changed.len();
        assert(texts(changed@).len() == n);
        self.changed = changed;
        self.had_error = had_error;
        if self.config.run_tests_after_apply && n > 0 && !is_blank(
            self.config.terminal_cmd.as_str(),
        ) {
            self.note(cat2("Tester runs: ", self.config.terminal_cmd.as_str()));
            self.phase = ChainPhase::Tests;
            ChainStep::RunTests { command: self.config.terminal_cmd.as_str().to_owned() }
        } else {
            self.word("")
        }
    }

    /// Puts the answer into words.
    fn word(&mut self, test_output: &str) -> (r: ChainStep<String>)
        ensures
            (final(self)@, r@) == old(self)@.worded(test_output@),
    {
        let summary: Option<&str> = match &self.envelope.summary {
            Some(s) => Some(s.as_str()),
            None => None,
        };
        let n: usize = self.envelope.actions.len();
        assert(self@.envelope.actions.len() == n);
        assert(self@.changed.len() == self.changed@.len());
        let plain = fallback_final_answer(
            summary,
            &self.changed,
            n,
            self.had_error,
            self.config.auto_apply_actions,
            test_output,
        );
        if n > 0 || self.changed.len() > 0 || self.had_error {
            self.show("Coordinator writes the final answer...".to_owned());
            self.end(plain)
        } else {
            let prompt = final_prompt(
                self.config.user_request.as_str(),
                self.decision.summary.as_str(),
                summary,
                &self.changed,
                self.config.auto_apply_actions,
                self.had_error,
                test_output,
                plain.as_str(),
            );
            self.show("Coordinator writes the final answer...".to_owned());
            self.fallback = plain;
            self.phase = ChainPhase::Wording;
            ChainStep::AskFinal { prompt }
        }
    }

    /// Takes in what came of the last step and says what is to be done next.
    pub fn advance(&mut self, event: ChainEvent) -> (r: ChainStep<String>)
        requires
            old(self)@.wf(),
            old(self)@.awaits(event),
        ensures
            (final(self)@, r@) == old(self)@.after(event),
            final(self)@.wf(),
    {
        proof {
            the_run_advances(self@, event);
        }
        match event {
            ChainEvent::Begin => self.begin(),
            ChainEvent::Opened(Err(e)) => self.end(
                cat2("I cannot open the project folder.\n\n", e.as_str()),
            ),
            ChainEvent::Opened(Ok((project, models))) => self.open(project, models),
            ChainEvent::Done(result) => self.need(result),
            ChainEvent::Context { snapshot, memory } => self.inform(snapshot, memory),
            ChainEvent::Decided(reply) => {
                self.take_decision(reply);
                self.decide()
            },
            ChainEvent::Coded { outcome, log_lines } => self.take_coders(outcome, log_lines),
            ChainEvent::Applied(report) => match self.phase {
                ChainPhase::LocalFile => self.local(report),
                _ => self.take_report(report),
            },
            ChainEvent::Serialized(text) => self.ask_repair(text),
            ChainEvent::Repaired(reply) => self.take_repair(reply),
            ChainEvent::Tested(output) => {
                self.note("Tester ist fertig.".to_owned());
                self.word(output.as_str())
            },
            ChainEvent::Answered(Ok(answer)) => {
                let text = clean_visible_answer(answer.as_str());
                self.end(text)
            },
            ChainEvent::Answered(Err(_)) => {
                let answer = self.fallback.as_str().to_owned();
                self.end(answer)
            },
        }
    }
}

} // verus!

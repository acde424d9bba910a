//! The coders: what each of them is asked, and what is made of their answers.

use vstd::prelude::*;
use crate::actions::{
    best_candidate, candidates, choice_is_unique, chosen, faults, idle, none_chosen, score, score_fits,
    the_best_candidate_is_taken, usable, validate_action_envelope, ActionEnvelope, ActionFacts, Candidate, CoderCandidateResult,
    Envelope,
};
use crate::answer::{shortened, truncate_text};
use crate::models::{agent_model_for_index, coder_model, LOCAL_GPT_ROUTER_MODEL, QWEN_CODER_MODEL};
use crate::numbers::{decimal, to_decimal};
use crate::prompts::{
    emergency_prompt, emergency_question, lemma_holds_middle, lemma_holds_part, lemma_joined_holds,
    repair_prompt, repair_question,
};
use crate::text::{
    begins, blank, cat2, cat3, cat4, cat5, cat6, cat7, holds, is_blank, join, joined, occurs_at, opt_text,
    text_is, texts,
};

verus! {

// ---------------------------------------------------------------------------------------------
// The question for each coder
// ---------------------------------------------------------------------------------------------

/// The name of the coder with the given number.
pub open spec fn coder_name(index: int) -> Seq<char> {
    if index == 0 {
        "Primary Coder Agent"@
    } else if index == 1 {
        "GPT Coding Agent"@
    } else if index == 2 {
        "OpenClaw Orchestration Agent"@
    } else if index == 3 {
        "Qwen-Coder-Agent"@
    } else if index == 4 {
        "DeepSeek-Coder-Agent"@
    } else if index == 5 {
        "StarCoder-Agent"@
    } else {
        "DeepSeek-Gross-Coder-Agent"@
    }
}

/// The role of the coder with the given number.
pub open spec fn coder_role(index: int) -> Seq<char> {
    if index == 0 {
        "Create a robust general solution and use existing project files when they fit."@
    } else if index == 1 {
        "Use GPT reasoning to create a complete, precise coding solution, including shell and PowerShell commands when useful. Return safe file actions as JSON."@
    } else if index == 2 {
        "Think like an autonomous routing agent: split larger tasks into planning, file actions, build/package steps, and verification. Use tools only through safe actions."@
    } else if index == 3 {
        "Create the smallest safe patch as JSON."@
    } else if index == 4 {
        "Create an independent second solution as JSON and pay attention to runnable programs."@
    } else if index == 5 {
        "Check multiple programming languages, build files, and project structure. Good for repository understanding and alternative patches."@
    } else {
        "Use stronger coding reasoning for complex refactors, build problems, EXE packaging, and error chains."@
    }
}

/// The name of the coder with the given number.
pub fn name_of_coder(index: usize) -> (r: &'static str)
    ensures
        r@ == coder_name(index as int),
{
    if index == 0 {
        "Primary Coder Agent"
    } else if index == 1 {
        "GPT Coding Agent"
    } else if index == 2 {
        "OpenClaw Orchestration Agent"
    } else if index == 3 {
        "Qwen-Coder-Agent"
    } else if index == 4 {
        "DeepSeek-Coder-Agent"
    } else if index == 5 {
        "StarCoder-Agent"
    } else {
        "DeepSeek-Gross-Coder-Agent"
    }
}

/// The role of the coder with the given number.
pub fn role_of_coder(index: usize) -> (r: &'static str)
    ensures
        r@ == coder_role(index as int),
{
    if index == 0 {
        "Create a robust general solution and use existing project files when they fit."
    } else if index == 1 {
        "Use GPT reasoning to create a complete, precise coding solution, including shell and PowerShell commands when useful. Return safe file actions as JSON."
    } else if index == 2 {
        "Think like an autonomous routing agent: split larger tasks into planning, file actions, build/package steps, and verification. Use tools only through safe actions."
    } else if index == 3 {
        "Create the smallest safe patch as JSON."
    } else if index == 4 {
        "Create an independent second solution as JSON and pay attention to runnable programs."
    } else if index == 5 {
        "Check multiple programming languages, build files, and project structure. Good for repository understanding and alternative patches."
    } else {
        "Use stronger coding reasoning for complex refactors, build problems, EXE packaging, and error chains."
    }
}

/// What one coder is asked, and which model.
#[derive(Debug)]
pub struct CoderTask<T> {
    pub name: T,
    pub model: T,
    pub prompt: T,
}

impl View for CoderTask<String> {
    type V = CoderTask<Seq<char>>;

    open spec fn view(&self) -> CoderTask<Seq<char>> {
        CoderTask { name: self.name@, model: self.model@, prompt: self.prompt@ }
    }
}

/// What a list of tasks says.
pub open spec fn tasks_view(v: Seq<CoderTask<String>>) -> Seq<CoderTask<Seq<char>>> {
    v.map_values(|t: CoderTask<String>| t@)
}

/// The question for the coder with the given number.
pub open spec fn role_question(question: Seq<char>, index: int) -> Seq<char> {
    question + "\n\nSpecial role for "@ + coder_name(index) + ":\n"@ + coder_role(index)
        + "\n\nReply now only with the JSON object:"@
}

/// The task of the coder with the given number.
pub open spec fn coder_task(question: Seq<char>, model: Seq<char>, index: int) -> CoderTask<
    Seq<char>,
> {
    CoderTask {
        name: coder_name(index),
        model: coder_model(index, model),
        prompt: role_question(question, index),
    }
}

/// The log line for a task.
pub open spec fn task_line(question: Seq<char>, model: Seq<char>, index: int) -> Seq<char> {
    "TRAFFIC Agent manager -> "@ + coder_name(index) + " ("@ + coder_model(index, model)
        + ") | Role: "@ + coder_role(index) + "\nPrompt:\n"@ + shortened(
        role_question(question, index),
        4000,
    )
}

/// How many coders are asked: at least one, at most seven.
pub open spec fn coder_count(requested: usize) -> usize {
    if requested < 1 {
        1
    } else if requested > 7 {
        7
    } else {
        requested
    }
}

/// Every coder is asked the whole question, and told its own role behind it; as many coders are asked
/// as were requested, at least one and at most seven.
pub proof fn every_coder_is_asked(question: Seq<char>, model: Seq<char>, index: int, requested: usize)
    ensures
        begins(coder_task(question, model, index).prompt, question),
        holds(coder_task(question, model, index).prompt, question),
        holds(coder_task(question, model, index).prompt, coder_role(index)),
        coder_task(question, model, index).model == coder_model(index, model),
        coder_task(question, model, index).name == coder_name(index),
        1 <= coder_count(requested) <= 7,
        1 <= requested <= 7 ==> coder_count(requested) == requested,
{
    let prompt = role_question(question, index);
    let between = "\n\nSpecial role for "@ + coder_name(index) + ":\n"@;
    let tail = "\n\nReply now only with the JSON object:"@;
    assert(prompt.subrange(0, question.len() as int) =~= question);
    assert(occurs_at(prompt, question, 0));
    assert(prompt =~= (question + between) + coder_role(index) + tail);
    lemma_holds_middle(question + between, coder_role(index), tail);
}

// ---------------------------------------------------------------------------------------------
// The run
// ---------------------------------------------------------------------------------------------

/// What came of asking a model for file actions.
#[derive(Debug)]
pub enum Reply {
    /// The model gave an error.
    Failed(String),
    /// The model answered, but not with file actions.
    Unreadable { raw: String, error: String },
    /// The model answered with file actions; this is what the file system says of each of them.
    Read { raw: String, envelope: ActionEnvelope, facts: Vec<ActionFacts> },
}

impl Reply {
    /// There are facts for every action.
    pub open spec fn complete(self) -> bool {
        self matches Reply::Read { raw: _, envelope, facts } ==> facts@.len()
            == envelope@.actions.len()
    }
}

/// What came of a step.
#[derive(Debug)]
pub enum CoderEvent {
    /// The coder with this number was heard of.
    Heard { index: usize, reply: Reply },
    /// A coder took too long.
    Silent,
    /// The repair agent was heard of.
    Repaired(Reply),
}

/// What is to be done next.
#[derive(Debug)]
pub enum CoderStep<T> {
    /// Wait for the next coder.
    Listen,
    /// Ask the repair agent.
    Repair { prompt: T },
    /// Nothing more: the outcome is there.
    Finished,
}

impl View for CoderStep<String> {
    type V = CoderStep<Seq<char>>;

    open spec fn view(&self) -> CoderStep<Seq<char>> {
        match self {
            CoderStep::Listen => CoderStep::Listen,
            CoderStep::Repair { prompt } => CoderStep::Repair { prompt: prompt@ },
            CoderStep::Finished => CoderStep::Finished,
        }
    }
}

/// What the run waits for.
#[derive(Clone, Copy, Debug, PartialEq, Eq, Structural)]
pub enum CoderPhase {
    Listening,
    Repairing,
    Over,
}

/// A run of the coders.
#[derive(Debug)]
pub struct CoderRun {
    model: String,
    project_dir: String,
    count: usize,
    heard: usize,
    results: Vec<CoderCandidateResult>,
    first_error: Option<String>,
    repairing: usize,
    phase: CoderPhase,
    log_lines: Vec<String>,
    outcome: Result<ActionEnvelope, String>,
}

/// What a [`CoderRun`] holds.
pub struct Coding {
    /// The model of the first coder, which repairs as well.
    pub model: Seq<char>,
    /// How the project folder is shown.
    pub project_dir: Seq<char>,
    /// How many coders were asked.
    pub count: usize,
    /// How many of them were heard of.
    pub heard: int,
    /// What came of those that answered.
    pub results: Seq<Candidate>,
    /// The first error of a model.
    pub first_error: Option<Seq<char>>,
    /// The result that is being repaired.
    pub repairing: int,
    pub phase: CoderPhase,
    pub log: Seq<Seq<char>>,
    /// The actions that are handed on, or why there are none.
    pub outcome: Result<Envelope, Seq<char>>,
}

/// What an envelope or an error says.
pub open spec fn outcome_view(r: Result<ActionEnvelope, String>) -> Result<Envelope, Seq<char>> {
    match r {
        Ok(e) => Ok(e@),
        Err(e) => Err(e@),
    }
}

impl View for CoderRun {
    type V = Coding;

    closed spec fn view(&self) -> Coding {
        Coding {
            model: self.model@,
            project_dir: self.project_dir@,
            count: self.count,
            heard: self.heard as int,
            results: candidates(self.results@),
            first_error: opt_text(self.first_error),
            repairing: self.repairing as int,
            phase: self.phase,
            log: texts(self.log_lines@),
            outcome: outcome_view(self.outcome),
        }
    }
}

/// The candidate that is taken.
pub open spec fn best(all: Seq<Candidate>) -> Option<int> {
    if none_chosen(all) {
        None
    } else {
        Some(choose|i: int| chosen(all, i))
    }
}

/// What the repair agent is told of the errors of a candidate.
pub open spec fn error_context(c: Candidate) -> Seq<char> {
    let parse = match c.parse_error {
        Some(e) => e,
        None => ""@,
    };
    if c.faults.len() == 0 {
        parse
    } else if parse.len() == 0 {
        joined(c.faults, "\n"@)
    } else {
        parse + "\n"@ + joined(c.faults, "\n"@)
    }
}

/// The first candidate from `k` on that changes nothing.
pub open spec fn first_empty(all: Seq<Candidate>, k: int) -> Option<Envelope>
    decreases all.len() - k,
{
    if k < 0 || k >= all.len() {
        None
    } else {
        match all[k].envelope {
            Some(e) => if e.actions.len() == 0 {
                Some(e)
            } else {
                first_empty(all, k + 1)
            },
            None => first_empty(all, k + 1),
        }
    }
}

/// The log line for an answer that is no set of file actions.
pub open spec fn unread_line(name: Seq<char>, model: Seq<char>, error: Seq<char>) -> Seq<char> {
    name + " ("@ + model + ") returned no usable JSON: "@ + shortened(error, 160)
}

/// The log line for a set of file actions.
pub open spec fn read_line(
    name: Seq<char>,
    model: Seq<char>,
    count: nat,
    faults: Seq<Seq<char>>,
) -> Seq<char> {
    if faults.len() == 0 {
        name + " ("@ + model + ") lieferte "@ + decimal(count) + " validierte Action(s)."@
    } else {
        name + " ("@ + model + ") lieferte "@ + decimal(count)
            + " Action(s), aber die Validierung stoppte: "@ + shortened(joined(faults, "; "@), 220)
    }
}

/// The actions of an envelope are few enough to be scored.
pub open spec fn scorable(e: Envelope) -> bool {
    score_fits(
        Candidate {
            name: ""@,
            model: ""@,
            raw: ""@,
            envelope: Some(e),
            parse_error: None,
            faults: Seq::empty(),
        },
    )
}

impl Coding {
    /// All coders that answered were asked, and what they answered can be scored.
    pub open spec fn wf(self) -> bool {
        &&& 1 <= self.count <= 7
        &&& 0 <= self.heard <= self.count
        &&& self.results.len() <= self.heard
        &&& forall|i: int| 0 <= i < self.results.len() ==> score_fits(#[trigger] self.results[i])
        &&& self.phase is Listening ==> self.heard < self.count
        &&& self.phase is Repairing ==> 0 <= self.repairing < self.results.len()
    }

    /// The event is an answer to what the run waits for.
    pub open spec fn awaits(self, event: CoderEvent) -> bool {
        match event {
            CoderEvent::Heard { index, reply } => self.phase is Listening && index < self.count
                && reply.complete() && (reply matches Reply::Read { raw: _, envelope, facts: _ } ==> scorable(envelope@)),
            CoderEvent::Silent => self.phase is Listening,
            CoderEvent::Repaired(reply) => self.phase is Repairing && reply.complete(),
        }
    }

    /// The run with one more line in the log.
    pub open spec fn noting(self, line: Seq<char>) -> Coding {
        Coding { log: self.log.push(line), ..self }
    }

    /// The run with an error, which counts if it is the first.
    pub open spec fn erring(self, error: Seq<char>) -> Coding {
        Coding {
            first_error: if self.first_error is None {
                Some(error)
            } else {
                self.first_error
            },
            ..self
        }
    }

    /// The run is over.
    pub open spec fn over(self, outcome: Result<Envelope, Seq<char>>) -> (
        Coding,
        CoderStep<Seq<char>>,
    ) {
        (Coding { phase: CoderPhase::Over, outcome, ..self }, CoderStep::Finished)
    }

    /// Nothing could be repaired: a candidate that changes nothing will do, or else the first
    /// error is the outcome.
    pub open spec fn gave_up(self) -> (Coding, CoderStep<Seq<char>>) {
        match first_empty(self.results, 0) {
            Some(e) => self.noting("Agent manager uses a safe empty action list."@).over(Ok(e)),
            None => self.over(
                Err(
                    match self.first_error {
                        Some(e) => e,
                        None => "Kein Coding-Agent lieferte sichere Actions."@,
                    },
                ),
            ),
        }
    }

    /// The candidates from `k` on are repaired, one after the other; those that said nothing are
    /// passed over.
    pub open spec fn repairing_from(self, k: int) -> (Coding, CoderStep<Seq<char>>)
        decreases self.results.len() - k,
    {
        if k < 0 || k >= self.results.len() {
            self.gave_up()
        } else if blank(self.results[k].raw) {
            self.repairing_from(k + 1)
        } else {
            let c = self.results[k];
            let prompt = repair_question(self.project_dir, c.raw, error_context(c));
            (
                Coding { phase: CoderPhase::Repairing, repairing: k, ..self }.noting(
                    "Repair agent checks candidate "@ + c.name + " ("@ + c.model + ")."@,
                ).noting(
                    "TRAFFIC Agent manager -> Repair agent ("@ + self.model + ") | Prompt:\n"@
                        + shortened(prompt, 4000),
                ),
                CoderStep::Repair { prompt },
            )
        }
    }

    /// A coder was heard of. When the last one was, the best candidate is taken, or the
    /// candidates are repaired.
    pub open spec fn heard_one(self) -> (Coding, CoderStep<Seq<char>>) {
        let now = Coding { heard: self.heard + 1, ..self };
        if now.heard < now.count {
            (now, CoderStep::Listen)
        } else {
            match best(now.results) {
                Some(i) => {
                    let c = now.results[i];
                    let e = c.envelope->0;
                    now.noting(
                        "Agent manager selects "@ + c.name + " ("@ + c.model + ") mit "@ + decimal(
                            e.actions.len(),
                        ) + " Action(s)."@,
                    ).over(Ok(e))
                },
                None => now.repairing_from(0),
            }
        }
    }

    /// The candidate was not repaired: the next one is tried.
    pub open spec fn next_repair(self) -> (Coding, CoderStep<Seq<char>>) {
        self.repairing_from(self.repairing + 1)
    }

    /// The log holds what the repair agent said.
    pub open spec fn repair_heard(self, raw: Seq<char>) -> Coding {
        self.noting(
            "TRAFFIC Repair agent ("@ + self.model + ") -> Agent manager | Response:\n"@ + shortened(
                raw,
                4000,
            ),
        )
    }

    /// What follows on an answer of the repair agent.
    pub open spec fn after_repair(self, reply: Reply) -> (Coding, CoderStep<Seq<char>>) {
        match reply {
            Reply::Failed(e) => self.noting("Repair agent could not repair: "@ + e@).next_repair(),
            Reply::Unreadable { raw, error } => self.repair_heard(raw@).noting(
                "Repair agent could not repair: "@ + error@,
            ).next_repair(),
            Reply::Read { raw, envelope, facts } => if faults(envelope@.actions, facts@).len() == 0
                && envelope@.actions.len() > 0 {
                self.repair_heard(raw@).noting(
                    "Repair agent created "@ + decimal(envelope@.actions.len())
                        + " sichere Action(s)."@,
                ).over(Ok(envelope@))
            } else {
                self.repair_heard(raw@).noting(
                    "Repair agent verworfen: "@ + if faults(envelope@.actions, facts@).len() == 0 {
                        "no file actions"@
                    } else {
                        shortened(joined(faults(envelope@.actions, facts@), "; "@), 220)
                    },
                ).next_repair()
            },
        }
    }

    /// The log holds what a coder said.
    pub open spec fn coder_heard(self, index: int, raw: Seq<char>) -> Coding {
        self.noting(
            "TRAFFIC "@ + coder_name(index) + " ("@ + coder_model(index, self.model)
                + ") -> Agent manager | raw response:\n"@ + shortened(raw, 4000),
        )
    }

    /// One more candidate.
    pub open spec fn with_candidate(
        self,
        index: int,
        raw: Seq<char>,
        envelope: Option<Envelope>,
        parse_error: Option<Seq<char>>,
        faults: Seq<Seq<char>>,
    ) -> Coding {
        Coding {
            results: self.results.push(
                Candidate {
                    name: coder_name(index),
                    model: coder_model(index, self.model),
                    raw,
                    envelope,
                    parse_error,
                    faults,
                },
            ),
            ..self
        }
    }

    /// The run with what came of the coder with the given number.
    pub open spec fn with_reply(self, index: int, reply: Reply) -> Coding {
        let name = coder_name(index);
        let model = coder_model(index, self.model);
        match reply {
            Reply::Failed(e) => self.noting(
                "TRAFFIC "@ + name + " ("@ + model + ") -> Agent manager | Error: "@ + shortened(
                    e@,
                    1000,
                ),
            ).noting(name + " ("@ + model + ") not usable: "@ + e@).erring(e@),
            Reply::Unreadable { raw, error } => self.coder_heard(index, raw@).noting(
                unread_line(name, model, error@),
            ).with_candidate(index, raw@, None, Some(error@), Seq::empty()),
            Reply::Read { raw, envelope, facts } => self.coder_heard(index, raw@).noting(
                read_line(name, model, envelope@.actions.len(), faults(envelope@.actions, facts@)),
            ).with_candidate(index, raw@, Some(envelope@), None, faults(envelope@.actions, facts@)),
        }
    }

    /// The run after an event, and what is to be done next.
    pub open spec fn after(self, event: CoderEvent) -> (Coding, CoderStep<Seq<char>>) {
        match event {
            CoderEvent::Heard { index, reply } => self.with_reply(
                index as int,
                reply,
            ).heard_one(),
            CoderEvent::Silent => self.noting(
                "Agent manager: A coder agent took too long to respond and was skipped."@,
            ).erring("Mindestens ein Coder-Agent lief in einen Timeout."@).heard_one(),
            CoderEvent::Repaired(reply) => self.after_repair(reply),
        }
    }
}

// ---------------------------------------------------------------------------------------------
// Laws
// ---------------------------------------------------------------------------------------------

/// A candidate that is an envelope without faults.
pub open spec fn sound(c: Candidate, e: Envelope) -> bool {
    c.faults.len() == 0 && c.envelope == Some(e)
}

/// What repairing comes to.
proof fn lemma_repairing_from(s: Coding, k: int)
    requires
        0 <= k,
    ensures
        ({
            let (t, step) = s.repairing_from(k);
            &&& t.results == s.results
            &&& t.count == s.count
            &&& t.heard == s.heard
            &&& t.model == s.model
            &&& t.phase is Over || t.phase is Repairing
            &&& t.phase is Repairing ==> k <= t.repairing < t.results.len()
            &&& t.phase is Over ==> (t.outcome matches Ok(e) ==> e.actions.len() == 0)
            &&& (step is Finished) == (t.phase is Over)
            &&& step is Repair == t.phase is Repairing
            &&& s.log.is_prefix_of(t.log)
        }),
    decreases s.results.len() - k,
{
    if k < s.results.len() {
        if blank(s.results[k].raw) {
            lemma_repairing_from(s, k + 1);
        }
    } else {
        lemma_first_empty(s.results, 0);
    }
}

/// A candidate found by [`first_empty`] changes nothing.
proof fn lemma_first_empty(all: Seq<Candidate>, k: int)
    ensures
        first_empty(all, k) matches Some(e) ==> e.actions.len() == 0,
    decreases all.len() - k,
{
    if 0 <= k < all.len() {
        lemma_first_empty(all, k + 1);
    }
}

/// What the choice comes to.
proof fn lemma_heard_one(s: Coding)
    requires
        s.phase is Listening,
        0 <= s.heard < s.count,
        !none_chosen(s.results) ==> exists|i: int| chosen(s.results, i),
    ensures
        ({
            let (t, step) = s.heard_one();
            &&& t.results == s.results
            &&& t.count == s.count
            &&& t.heard == s.heard + 1
            &&& t.model == s.model
            &&& t.phase is Listening ==> t.heard < t.count && step is Listen
            &&& t.phase is Repairing ==> 0 <= t.repairing < t.results.len() && step is Repair
            &&& (step is Finished) == (t.phase is Over)
            &&& t.phase is Over ==> (t.outcome matches Ok(e) ==> e.actions.len() == 0 || exists|
                i: int,
            | 0 <= i < s.results.len() && #[trigger] sound(s.results[i], e))
            &&& s.log.is_prefix_of(t.log)
        }),
{
    let now = Coding { heard: s.heard + 1, ..s };
    if now.heard >= now.count {
        match best(now.results) {
            Some(i) => {
                assert(chosen(now.results, i));
                assert(sound(s.results[i], now.results[i].envelope->0));
            },
            None => {
                lemma_repairing_from(now, 0);
            },
        }
    }
}

/// There is a choice wherever one is possible.
proof fn lemma_choice_exists(all: Seq<Candidate>)
    ensures
        none_chosen(all) || exists|i: int| chosen(all, i),
{
    if !none_chosen(all) {
        let w = choose|i: int| 0 <= i < all.len() && (usable(all[i]) || idle(all[i]));
        if exists|i: int| 0 <= i < all.len() && usable(#[trigger] all[i]) {
            let i = lemma_best_usable(all, all.len() as int);
            assert(chosen(all, i));
        } else {
            assert(idle(all[w]));
            let i = lemma_first_idle(all, w);
            assert(chosen(all, i));
        }
    }
}

/// The best usable candidate among the first `n`.
proof fn lemma_best_usable(all: Seq<Candidate>, n: int) -> (i: int)
    requires
        0 <= n <= all.len(),
        exists|k: int| 0 <= k < n && usable(#[trigger] all[k]),
    ensures
        0 <= i < n,
        usable(all[i]),
        forall|j: int|
            0 <= j < n && usable(#[trigger] all[j]) ==> score(all[j])
                <= score(all[i]) && (j > i ==> score(all[j])
                < score(all[i])),
    decreases n,
{
    let last = n - 1;
    if exists|k: int| 0 <= k < last && usable(#[trigger] all[k]) {
        let i = lemma_best_usable(all, last);
        if usable(all[last]) && score(all[last]) >= score(all[i]) {
            last
        } else {
            i
        }
    } else {
        last
    }
}

/// The first candidate that changes nothing, not behind `w`.
proof fn lemma_first_idle(all: Seq<Candidate>, w: int) -> (i: int)
    requires
        0 <= w < all.len(),
        idle(all[w]),
    ensures
        0 <= i <= w,
        idle(all[i]),
        forall|j: int| 0 <= j < i ==> !idle(#[trigger] all[j]),
    decreases w,
{
    if exists|k: int| 0 <= k < w && idle(#[trigger] all[k]) {
        let k = choose|k: int| 0 <= k < w && idle(#[trigger] all[k]);
        lemma_first_idle(all, k)
    } else {
        w
    }
}

/// One of the candidates is taken wherever any of them is without faults.
pub proof fn a_sound_candidate_is_taken(all: Seq<Candidate>, i: int)
    requires
        0 <= i < all.len(),
        all[i].faults.len() == 0,
        all[i].envelope is Some,
    ensures
        best(all) is Some,
        chosen(all, best(all)->0),
{
    assert(usable(all[i]) || idle(all[i]));
    lemma_choice_exists(all);
}

/// A set of actions becomes a candidate together with exactly the faults that the check finds in
/// it, so that a candidate without faults is one that was checked.
pub proof fn candidates_carry_their_faults(s: Coding, index: usize, reply: Reply)
    requires
        reply is Read,
    ensures
        s.with_reply(index as int, reply).results == s.results.push(
            Candidate {
                name: coder_name(index as int),
                model: coder_model(index as int, s.model),
                raw: reply->Read_raw@,
                envelope: Some(reply->envelope@),
                parse_error: None,
                faults: faults(reply->envelope@.actions, reply->facts@),
            },
        ),
{
}

/// Where the last coder was heard of and no candidate can be taken, the repair agent is asked about
/// the first candidate that said anything.
pub proof fn faulty_candidates_are_repaired(s: Coding, index: usize, reply: Reply, k: int)
    requires
        s.wf(),
        s.awaits(CoderEvent::Heard { index, reply }),
        s.heard + 1 == s.count,
        none_chosen(s.with_reply(index as int, reply).results),
        0 <= k < s.with_reply(index as int, reply).results.len(),
        !blank(s.with_reply(index as int, reply).results[k].raw),
        forall|j: int|
            0 <= j < k ==> blank((#[trigger] s.with_reply(index as int, reply).results[j]).raw),
    ensures
        ({
            let c = s.with_reply(index as int, reply).results[k];
            s.after(CoderEvent::Heard { index, reply }).1 == (CoderStep::Repair {
                prompt: repair_question(s.project_dir, c.raw, error_context(c)),
            })
        }),
{
    let told = s.with_reply(index as int, reply);
    let now = Coding { heard: told.heard + 1, ..told };
    assert(now.results == told.results);
    assert(best(now.results) is None);
    assert(now.project_dir == s.project_dir);
    lemma_repairing_starts(now, 0, k);
}

/// Candidates that said nothing are passed over.
proof fn lemma_repairing_starts(s: Coding, i: int, k: int)
    requires
        0 <= i <= k < s.results.len(),
        !blank(s.results[k].raw),
        forall|j: int| i <= j < k ==> blank((#[trigger] s.results[j]).raw),
    ensures
        s.repairing_from(i).1 == (CoderStep::Repair {
            prompt: repair_question(s.project_dir, s.results[k].raw, error_context(s.results[k])),
        }),
    decreases k - i,
{
    if i < k {
        assert(blank(s.results[i].raw));
        lemma_repairing_starts(s, i + 1, k);
    }
}

/// Actions are handed on only if they were checked and have no faults, whether they come from a
/// coder or from the repair agent.
pub proof fn only_checked_actions_are_handed_on(s: Coding, event: CoderEvent)
    requires
        s.wf(),
        s.awaits(event),
        s.after(event).0.phase is Over,
    ensures
        s.after(event).0.outcome matches Ok(e) ==> {
            ||| e.actions.len() == 0
            ||| exists|i: int|
                0 <= i < s.after(event).0.results.len() && #[trigger] sound(
                    s.after(event).0.results[i],
                    e,
                )
            ||| event matches CoderEvent::Repaired(Reply::Read { raw: _, envelope, facts })
                && envelope@ == e && faults(envelope@.actions, facts@).len() == 0
        },
{
    lemma_coding_step(s, event);
}

/// What one event comes to.
proof fn lemma_coding_step(s: Coding, event: CoderEvent)
    requires
        s.wf(),
        s.awaits(event),
    ensures
        ({
            let (t, step) = s.after(event);
            &&& t.wf()
            &&& (step is Finished) == (t.phase is Over)
            &&& (step is Listen) == (t.phase is Listening)
            &&& s.log.is_prefix_of(t.log)
            &&& t.heard > s.heard || (t.phase is Over && s.phase is Repairing) || (t.phase is Repairing
                && s.phase is Repairing && t.repairing > s.repairing)
            &&& t.heard >= s.heard
            &&& t.results.len() >= s.results.len()
            &&& s.phase is Repairing ==> t.results == s.results && t.heard == s.heard
            &&& t.phase is Over ==> (t.outcome matches Ok(e) ==> {
                ||| e.actions.len() == 0
                ||| exists|i: int| 0 <= i < t.results.len() && #[trigger] sound(t.results[i], e)
                ||| event matches CoderEvent::Repaired(Reply::Read { raw: _, envelope, facts })
                    && envelope@ == e && faults(envelope@.actions, facts@).len() == 0
            })
        }),
{
    match event {
        CoderEvent::Heard { index, reply } => {
            let m = s.with_reply(index as int, reply);
            assert(s.log.is_prefix_of(m.log));
            lemma_choice_exists(m.results);
            lemma_heard_one(m);
        },
        CoderEvent::Silent => {
            let m = s.noting(
                "Agent manager: A coder agent took too long to respond and was skipped."@,
            ).erring("Mindestens ein Coder-Agent lief in einen Timeout."@);
            assert(s.log.is_prefix_of(m.log));
            lemma_choice_exists(m.results);
            lemma_heard_one(m);
        },
        CoderEvent::Repaired(reply) => {
            match reply {
                Reply::Failed(e) => {
                    lemma_repairing_from(
                        s.noting("Repair agent could not repair: "@ + e@),
                        s.repairing + 1,
                    );
                },
                Reply::Unreadable { raw, error } => {
                    let m = s.repair_heard(raw@).noting(
                        "Repair agent could not repair: "@ + error@,
                    );
                    assert(s.log.is_prefix_of(m.log));
                    lemma_repairing_from(m, s.repairing + 1);
                },
                Reply::Read { raw, envelope, facts } => {
                    if !(faults(envelope@.actions, facts@).len() == 0 && envelope@.actions.len() > 0) {
                        let m = s.repair_heard(raw@).noting(
                            "Repair agent verworfen: "@ + if faults(envelope@.actions, facts@).len() == 0 {
                                "no file actions"@
                            } else {
                                shortened(joined(faults(envelope@.actions, facts@), "; "@), 220)
                            },
                        );
                        assert(s.log.is_prefix_of(m.log));
                        lemma_repairing_from(m, s.repairing + 1);
                    }
                },
            }
        },
    }
}

/// Every event keeps the run in good order and brings it nearer to its end; it is finished
/// exactly where it is over.
pub proof fn coding_advances(s: Coding, event: CoderEvent)
    requires
        s.wf(),
        s.awaits(event),
    ensures
        s.after(event).0.wf(),
        (s.after(event).1 is Finished) == (s.after(event).0.phase is Over),
        s.after(event).0.heard > s.heard || (s.after(event).0.phase is Over && s.phase is Repairing)
            || (s.after(event).0.phase is Repairing && s.phase is Repairing && s.after(
            event,
        ).0.repairing > s.repairing),
        s.log.is_prefix_of(s.after(event).0.log),
{
    lemma_coding_step(s, event);
}

/// Every coder is waited for: as long as one was not heard of, nothing is decided, whatever the others
/// said or if they said nothing.
pub proof fn every_coder_is_waited_for(s: Coding, event: CoderEvent)
    requires
        s.wf(),
        s.awaits(event),
        s.phase is Listening,
    ensures
        s.after(event).0.heard == s.heard + 1,
        s.heard + 1 < s.count <==> s.after(event).1 is Listen,
        s.heard + 1 < s.count ==> s.after(event).0.phase is Listening,
        s.after(event).0.count == s.count,
        event is Silent ==> s.after(event).0.results == s.results,
{
    let m = match event {
        CoderEvent::Heard { index, reply } => s.with_reply(index as int, reply),
        _ => s.noting(
            "Agent manager: A coder agent took too long to respond and was skipped."@,
        ).erring("Mindestens ein Coder-Agent lief in einen Timeout."@),
    };
    lemma_choice_exists(m.results);
    lemma_heard_one(m);
    let now = Coding { heard: m.heard + 1, ..m };
    lemma_repairing_keeps(now, 0);
}

/// Repairing keeps what was heard.
proof fn lemma_repairing_keeps(s: Coding, k: int)
    ensures
        s.repairing_from(k).0.heard == s.heard,
        s.repairing_from(k).0.count == s.count,
        s.repairing_from(k).0.results == s.results,
        !(s.repairing_from(k).1 is Listen),
    decreases s.results.len() - k,
{
    if 0 <= k < s.results.len() && blank(s.results[k].raw) {
        lemma_repairing_keeps(s, k + 1);
    }
}

/// Once the last coder was heard of, one of the candidates without faults is handed on wherever there
/// is one that changes something: none of them is better.
#[verifier::rlimit(40)]
pub proof fn the_best_answer_is_handed_on(s: Coding, event: CoderEvent, j: int)
    requires
        s.wf(),
        s.awaits(event),
        s.phase is Listening,
        s.heard + 1 == s.count,
        0 <= j < s.after(event).0.results.len(),
        s.after(event).0.results[j].faults.len() == 0,
        s.after(event).0.results[j].envelope matches Some(e) && e.actions.len() > 0,
    ensures
        ({
            let (t, step) = s.after(event);
            &&& step is Finished
            &&& t.outcome matches Ok(e) && exists|i: int|
                0 <= i < t.results.len() && #[trigger] sound(t.results[i], e) && score(t.results[j])
                    <= score(t.results[i])
        }),
{
    let m = match event {
        CoderEvent::Heard { index, reply } => s.with_reply(index as int, reply),
        _ => s.noting(
            "Agent manager: A coder agent took too long to respond and was skipped."@,
        ).erring("Mindestens ein Coder-Agent lief in einen Timeout."@),
    };
    lemma_choice_exists(m.results);
    lemma_heard_one(m);
    let all = m.results;
    assert(usable(all[j]));
    let i = best(all)->0;
    assert(chosen(all, i));
    the_best_candidate_is_taken(all, i, j);
    assert(sound(all[i], all[i].envelope->0));
}

/// An answer becomes a candidate as it is: what the model said, with the actions or the error that
/// were read in it; a model that failed becomes none, and its error counts if it is the first.
pub proof fn answers_become_candidates(s: Coding, index: usize, reply: Reply)
    ensures
        ({
            let t = s.with_reply(index as int, reply);
            match reply {
                Reply::Failed(e) => t.results == s.results && t.first_error == (if s.first_error is None {
                    Some(e@)
                } else {
                    s.first_error
                }),
                Reply::Unreadable { raw, error } => t.results.len() == s.results.len() + 1
                    && t.results.drop_last() == s.results && t.results.last().raw == raw@
                    && t.results.last().envelope is None && t.results.last().parse_error == Some(
                    error@,
                ) && t.first_error == s.first_error,
                Reply::Read { raw, envelope, facts } => t.results.len() == s.results.len() + 1
                    && t.results.drop_last() == s.results && t.results.last().raw == raw@
                    && t.results.last().envelope == Some(envelope@) && t.results.last().faults
                    == faults(envelope@.actions, facts@) && t.first_error == s.first_error,
            }
        }),
{
    let t = s.with_reply(index as int, reply);
    if t.results.len() > s.results.len() {
        assert(t.results.drop_last() =~= s.results);
    }
}

/// An answer of the repair agent that holds actions without faults is handed on. Any other is thrown
/// away: the next candidate that said anything is repaired, told what was wrong with it; and where
/// there is none, no actions are handed on but an empty set that a coder gave, or else the first
/// error.
#[verifier::rlimit(40)]
pub proof fn repairs_are_taken_or_tried_on(s: Coding, reply: Reply, k: int)
    requires
        s.wf(),
        s.awaits(CoderEvent::Repaired(reply)),
    ensures
        ({
            let (t, step) = s.after(CoderEvent::Repaired(reply));
            let good = reply matches Reply::Read { raw: _, envelope, facts } && envelope@.actions.len()
                > 0 && faults(envelope@.actions, facts@).len() == 0;
            &&& good ==> step is Finished && (reply matches Reply::Read { raw: _, envelope, facts: _ }
                && t.outcome == Ok::<Envelope, Seq<char>>(envelope@))
            &&& !good && s.repairing < k < s.results.len() && !blank(s.results[k].raw) && (forall|j: int|
                s.repairing < j < k ==> blank((#[trigger] s.results[j]).raw)) ==> (step matches
                CoderStep::Repair { prompt } && prompt == repair_question(
                s.project_dir,
                s.results[k].raw,
                error_context(s.results[k]),
            ))
            &&& !good && (forall|j: int|
                s.repairing < j < s.results.len() ==> blank((#[trigger] s.results[j]).raw))
                ==> step is Finished && match t.outcome {
                Ok(e) => e.actions.len() == 0 && exists|i: int|
                    0 <= i < s.results.len() && (#[trigger] s.results[i]).envelope == Some(e),
                Err(e) => s.first_error matches Some(first) ==> e == first,
            }
        }),
{
    let m = match reply {
        Reply::Failed(e) => s.noting("Repair agent could not repair: "@ + e@),
        Reply::Unreadable { raw, error } => s.repair_heard(raw@).noting(
            "Repair agent could not repair: "@ + error@,
        ),
        Reply::Read { raw, envelope, facts } => s.repair_heard(raw@).noting(
            "Repair agent verworfen: "@ + if faults(envelope@.actions, facts@).len() == 0 {
                "no file actions"@
            } else {
                shortened(joined(faults(envelope@.actions, facts@), "; "@), 220)
            },
        ),
    };
    assert(m.results == s.results && m.project_dir == s.project_dir && m.repairing == s.repairing
        && m.first_error == s.first_error);
    if s.repairing < k < s.results.len() && !blank(s.results[k].raw) && (forall|j: int|
        s.repairing < j < k ==> blank((#[trigger] s.results[j]).raw)) {
        lemma_repairing_starts(m, s.repairing + 1, k);
    }
    if forall|j: int| s.repairing < j < s.results.len() ==> blank((#[trigger] s.results[j]).raw) {
        lemma_repairing_ends(m, s.repairing + 1);
        lemma_first_empty(s.results, 0);
        lemma_first_empty_there(s.results, 0);
    }
}

/// Where no candidate from `k` on said anything, nothing is repaired.
proof fn lemma_repairing_ends(s: Coding, k: int)
    requires
        0 <= k,
        forall|j: int| k <= j < s.results.len() ==> blank((#[trigger] s.results[j]).raw),
    ensures
        s.repairing_from(k) == s.gave_up(),
    decreases s.results.len() - k,
{
    if k < s.results.len() {
        assert(blank(s.results[k].raw));
        lemma_repairing_ends(s, k + 1);
    }
}

/// What [`first_empty`] finds is there.
proof fn lemma_first_empty_there(all: Seq<Candidate>, k: int)
    ensures
        first_empty(all, k) matches Some(e) ==> exists|i: int|
            0 <= i < all.len() && (#[trigger] all[i]).envelope == Some(e),
    decreases all.len() - k,
{
    if 0 <= k < all.len() {
        lemma_first_empty_there(all, k + 1);
    }
}

/// The repair agent is told every error of a candidate.
pub proof fn all_errors_are_told(c: Candidate, i: int)
    ensures
        c.parse_error matches Some(e) ==> holds(error_context(c), e),
        0 <= i < c.faults.len() ==> holds(error_context(c), c.faults[i]),
{
    reveal_strlit("");
    let parse = match c.parse_error {
        Some(e) => e,
        None => ""@,
    };
    let listed = joined(c.faults, "\n"@);
    let all = error_context(c);
    if c.faults.len() == 0 || parse.len() > 0 {
        assert(all.subrange(0, parse.len() as int) =~= parse);
    } else {
        assert(all.subrange(0, 0) =~= parse);
    }
    assert(occurs_at(all, parse, 0));
    if 0 <= i < c.faults.len() {
        lemma_joined_holds(c.faults, "\n"@, i);
        let n = all.len() - listed.len();
        assert(all.subrange(n, all.len() as int) =~= listed);
        assert(occurs_at(all, listed, n));
        lemma_holds_part(all, listed, c.faults[i]);
    }
}

/// The answer that an event brings.
pub open spec fn reply_in(event: CoderEvent) -> Option<Reply> {
    match event {
        CoderEvent::Heard { index: _, reply } => Some(reply),
        CoderEvent::Silent => None,
        CoderEvent::Repaired(reply) => Some(reply),
    }
}

/// The answer holds exactly these actions, and the check finds no fault in them.
pub open spec fn passes(reply: Reply, e: Envelope) -> bool {
    reply matches Reply::Read { raw: _, envelope, facts } && envelope@ == e && faults(
        envelope@.actions,
        facts@,
    ).len() == 0
}

/// One of the events brings an answer that passes with these actions.
pub open spec fn passed(events: Seq<CoderEvent>, e: Envelope) -> bool {
    exists|k: int|
        0 <= k < events.len() && (reply_in(#[trigger] events[k]) matches Some(reply) && passes(
            reply,
            e,
        ))
}

impl Coding {
    /// No coder was heard of yet.
    pub open spec fn fresh(self) -> bool {
        self.wf() && self.phase is Listening && self.results.len() == 0
    }

    /// The run after events.
    pub open spec fn run(self, events: Seq<CoderEvent>) -> Coding
        decreases events.len(),
    {
        if events.len() == 0 {
            self
        } else {
            self.run(events.drop_last()).after(events.last()).0
        }
    }

    /// Each of the events is an answer to what the run waits for when it comes.
    pub open spec fn allows(self, events: Seq<CoderEvent>) -> bool
        decreases events.len(),
    {
        events.len() > 0 ==> self.allows(events.drop_last()) && self.run(
            events.drop_last(),
        ).awaits(events.last())
    }

    /// A run from its beginning to its end hands on these actions.
    pub open spec fn hands_on(self, events: Seq<CoderEvent>, e: Envelope) -> bool {
        &&& self.fresh()
        &&& self.allows(events)
        &&& self.run(events).phase is Over
        &&& self.run(events).outcome == Ok::<Envelope, Seq<char>>(e)
    }
}

/// More events keep what passed.
proof fn lemma_still_passed(events: Seq<CoderEvent>, e: Envelope)
    requires
        events.len() > 0,
        passed(events.drop_last(), e),
    ensures
        passed(events, e),
{
    let before = events.drop_last();
    let k = choose|k: int|
        0 <= k < before.len() && (reply_in(#[trigger] before[k]) matches Some(reply) && passes(
            reply,
            e,
        ));
    assert(events[k] == before[k]);
}

/// In a run from its beginning every candidate without faults is an answer that passed.
proof fn lemma_candidates_passed(s: Coding, events: Seq<CoderEvent>)
    requires
        s.fresh(),
        s.allows(events),
    ensures
        s.run(events).wf(),
        forall|i: int, e: Envelope|
            0 <= i < s.run(events).results.len() && #[trigger] sound(s.run(events).results[i], e)
                ==> passed(events, e),
    decreases events.len(),
{
    if events.len() > 0 {
        let before = events.drop_last();
        let event = events.last();
        let t = s.run(before);
        lemma_candidates_passed(s, before);
        lemma_coding_step(t, event);
        lemma_new_candidate(t, event);
        let now = s.run(events);
        assert forall|i: int, e: Envelope|
            0 <= i < now.results.len() && #[trigger] sound(now.results[i], e) implies passed(
            events,
            e,
        ) by {
            if i < t.results.len() {
                assert(sound(t.results[i], e));
                lemma_still_passed(events, e);
            } else {
                let last = events.len() - 1;
                assert(reply_in(events[last]) matches Some(reply) && passes(reply, e));
            }
        }
    }
}

/// An event keeps the candidates that there are, and adds at most one: the answer that it brings,
/// with the faults that the check finds in it.
proof fn lemma_new_candidate(s: Coding, event: CoderEvent)
    requires
        s.wf(),
        s.awaits(event),
    ensures
        s.results.len() <= s.after(event).0.results.len() <= s.results.len() + 1,
        forall|i: int|
            0 <= i < s.results.len() ==> #[trigger] s.after(event).0.results[i] == s.results[i],
        s.after(event).0.results.len() > s.results.len() ==> forall|e: Envelope| #[trigger]
            sound(s.after(event).0.results[s.results.len() as int], e) ==> (reply_in(event) matches Some(
                reply,
            ) && passes(reply, e)),
{
    match event {
        CoderEvent::Heard { index, reply } => {
            let m = s.with_reply(index as int, reply);
            lemma_choice_exists(m.results);
            lemma_heard_one(m);
        },
        CoderEvent::Silent => {
            let m = s.noting(
                "Agent manager: A coder agent took too long to respond and was skipped."@,
            ).erring("Mindestens ein Coder-Agent lief in einen Timeout."@);
            lemma_choice_exists(m.results);
            lemma_heard_one(m);
        },
        CoderEvent::Repaired(_) => {
            lemma_coding_step(s, event);
        },
    }
}

/// Over a whole run, whatever the models answer and in whatever order: the actions that are handed
/// on are none, or they are exactly those of an answer of this run in which the check found no
/// fault.
pub proof fn a_run_hands_on_only_checked_actions(s: Coding, events: Seq<CoderEvent>, e: Envelope)
    requires
        s.hands_on(events, e),
    ensures
        e.actions.len() == 0 || passed(events, e),
{
    if events.len() > 0 {
        let before = events.drop_last();
        lemma_candidates_passed(s, before);
        lemma_candidates_passed(s, events);
        only_checked_actions_are_handed_on(s.run(before), events.last());
        assert(events[events.len() - 1] == events.last());
    }
}

// ---------------------------------------------------------------------------------------------
// Functions
// ---------------------------------------------------------------------------------------------

/// What the repair agent is told of the errors of a candidate.
fn errors_of(c: &CoderCandidateResult) -> (r: String)
    ensures
        r@ == error_context(c@),
{
    proof {
        reveal_strlit("");
    }
    let mut out: String = match &c.parse_error {
        Some(e) => e.as_str().to_owned(),
        None => "".to_owned(),
    };
    assert(texts(c.validation_errors@).len() == c.validation_errors@.len());
    if c.validation_errors.len() > 0 {
        let all = join(&c.validation_errors, "\n");
        if out.as_str().is_empty() {
            return all;
        }
        out.append("\n");
        out.append(all.as_str());
    }
    out
}

/// The number of actions in words.
fn count_text(e: &ActionEnvelope) -> (r: String)
    ensures
        r@ == decimal(e@.actions.len()),
{
    to_decimal(e.actions.len() as u128)
}

impl CoderRun {
    /// A run of as many coders as requested, at least one and at most seven, with the task of
    /// each of them.
    pub fn new(model: &str, project_dir: &str, question: &str, requested: usize) -> (r: (
        CoderRun,
        Vec<CoderTask<String>>,
    ))
        ensures
            r.0@.wf(),
            r.0@ == (Coding {
                model: model@,
                project_dir: project_dir@,
                count: coder_count(requested),
                heard: 0,
                results: Seq::empty(),
                first_error: None,
                repairing: 0,
                phase: CoderPhase::Listening,
                log: Seq::new(
                    coder_count(requested) as nat,
                    |i: int| task_line(question@, model@, i),
                ),
                outcome: Err(""@),
            }),
            tasks_view(r.1@) == Seq::new(
                coder_count(requested) as nat,
                |i: int| coder_task(question@, model@, i),
            ),
    {
        let count: usize = if requested < 1 {
            1
        } else if requested > 7 {
            7
        } else {
            requested
        };
        let mut log_lines: Vec<String> = Vec::new();
        let mut tasks: Vec<CoderTask<String>> = Vec::new();
        let mut i: usize = 0;
        while i < count
            invariant
                i <= count <= 7,
                log_lines@.len() == i,
                tasks@.len() == i,
                forall|k: int|
                    0 <= k < i ==> (#[trigger] log_lines@[k])@ == task_line(question@, model@, k),
                forall|k: int|
                    0 <= k < i ==> (#[trigger] tasks@[k])@ == coder_task(question@, model@, k),
            decreases count - i,
        {
            let name = name_of_coder(i);
            let role = role_of_coder(i);
            let own = agent_model_for_index(i, model);
            let prompt = cat6(
                question,
                "\n\nSpecial role for ",
                name,
                ":\n",
                role,
                "\n\nReply now only with the JSON object:",
            );
            let mut line = cat7(
                "TRAFFIC Agent manager -> ",
                name,
                " (",
                own.as_str(),
                ") | Role: ",
                role,
                "\nPrompt:\n",
            );
            line.append(truncate_text(prompt.as_str(), 4000).as_str());
            log_lines.push(line);
            tasks.push(CoderTask { name: name.to_owned(), model: own, prompt });
            i += 1;
        }
        let results: Vec<CoderCandidateResult> = Vec::new();
        assert(candidates(results@) =~= Seq::<Candidate>::empty());
        assert(texts(log_lines@) =~= Seq::new(
            count as nat,
            |i: int| task_line(question@, model@, i),
        ));
        assert(tasks_view(tasks@) =~= Seq::new(
            count as nat,
            |i: int| coder_task(question@, model@, i),
        ));
        let run = CoderRun {
            model: model.to_owned(),
            project_dir: project_dir.to_owned(),
            count,
            heard: 0,
            results,
            first_error: None,
            repairing: 0,
            phase: CoderPhase::Listening,
            log_lines,
            outcome: Err("".to_owned()),
        };
        (run, tasks)
    }

    /// One more line in the log.
    fn note(&mut self, line: String)
        ensures
            final(self)@ == old(self)@.noting(line@),
    {
        self.log_lines.push(line);
        assert(texts(self.log_lines@) =~= texts(old(self).log_lines@).push(line@));
    }

    /// One more error, which counts if it is the first.
    fn err(&mut self, error: &str)
        ensures
            final(self)@ == old(self)@.erring(error@),
    {
        if self.first_error.is_none() {
            self.first_error = Some(error.to_owned());
        }
    }

    /// Ends the run.
    fn end(&mut self, outcome: Result<ActionEnvelope, String>) -> (r: CoderStep<String>)
        ensures
            (final(self)@, r@) == old(self)@.over(outcome_view(outcome)),
    {
        self.phase = CoderPhase::Over;
        self.outcome = outcome;
        CoderStep::Finished
    }

    /// Ends the run without anything repaired.
    fn give_up(&mut self) -> (r: CoderStep<String>)
        ensures
            (final(self)@, r@) == old(self)@.gave_up(),
    {
        let n: usize = self.results.len();
        let mut k: usize = 0;
        while k < n
            invariant
                k <= n == self.results@.len(),
                self@ == old(self)@,
                first_empty(self@.results, 0) == first_empty(self@.results, k as int),
            decreases n - k,
        {
            assert(self@.results[k as int] == self.results@[k as int]@);
            if let Some(e) = &self.results[k].envelope {
                assert(e@.actions.len() == e.actions@.len());
                if e.actions.len() == 0 {
                    let found = e.copy();
                    self.note("Agent manager uses a safe empty action list.".to_owned());
                    return self.end(Ok(found));
                }
            }
            k += 1;
        }
        let error = match &self.first_error {
            Some(e) => e.as_str().to_owned(),
            None => "Kein Coding-Agent lieferte sichere Actions.".to_owned(),
        };
        self.end(Err(error))
    }

    /// Lets the candidates from `k` on be repaired.
    fn repair_from(&mut self, k: usize) -> (r: CoderStep<String>)
        ensures
            (final(self)@, r@) == old(self)@.repairing_from(k as int),
    {
        let n: usize = self.results.len();
        let mut i: usize = k;
        while i < n
            invariant
                k <= i,
                n == self.results@.len(),
                self@ == old(self)@,
                self@.repairing_from(k as int) == self@.repairing_from(i as int),
            decreases n - i,
        {
            assert(self@.results[i as int] == self.results@[i as int]@);
            if !is_blank(self.results[i].raw.as_str()) {
                let c = &self.results[i];
                let prompt = repair_prompt(
                    self.project_dir.as_str(),
                    c.raw.as_str(),
                    errors_of(c).as_str(),
                );
                let first = cat5(
                    "Repair agent checks candidate ",
                    c.name.as_str(),
                    " (",
                    c.model.as_str(),
                    ").",
                );
                let second = cat4(
                    "TRAFFIC Agent manager -> Repair agent (",
                    self.model.as_str(),
                    ") | Prompt:\n",
                    truncate_text(prompt.as_str(), 4000).as_str(),
                );
                self.phase = CoderPhase::Repairing;
                self.repairing = i;
                self.note(first);
                self.note(second);
                return CoderStep::Repair { prompt };
            }
            i += 1;
        }
        self.give_up()
    }

    /// Counts a coder that was heard of.
    fn hear(&mut self) -> (r: CoderStep<String>)
        requires
            0 <= old(self)@.heard < old(self)@.count,
            forall|i: int|
                0 <= i < old(self)@.results.len() ==> score_fits(
                    #[trigger] old(self)@.results[i],
                ),
        ensures
            (final(self)@, r@) == old(self)@.heard_one(),
    {
        self.heard += 1;
        if self.heard < self.count {
            return CoderStep::Listen;
        }
        match best_candidate(&self.results) {
            Some(i) => {
                proof {
                    let all = self@.results;
                    assert(chosen(all, i as int));
                    choice_is_unique(all, i as int, i as int);
                    choice_is_unique(all, i as int, choose|k: int| chosen(all, k));
                }
                let c = &self.results[i];
                assert(c@ == self@.results[i as int]);
                match &c.envelope {
                    Some(e) => {
                        let line = cat7(
                            "Agent manager selects ",
                            c.name.as_str(),
                            " (",
                            c.model.as_str(),
                            ") mit ",
                            count_text(e).as_str(),
                            " Action(s).",
                        );
                        let taken = e.copy();
                        self.note(line);
                        self.end(Ok(taken))
                    },
                    None => CoderStep::Finished,
                }
            },
            None => self.repair_from(0),
        }
    }

    /// Takes in what came of the last step and says what is to be done next.
    pub fn advance(&mut self, event: CoderEvent) -> (r: CoderStep<String>)
        requires
            old(self)@.wf(),
            old(self)@.awaits(event),
        ensures
            (final(self)@, r@) == old(self)@.after(event),
            final(self)@.wf(),
    {
        proof {
            lemma_coding_step(self@, event);
        }
        match event {
            CoderEvent::Heard { index, reply } => {
                self.take_reply(index, reply);
                self.hear()
            },
            CoderEvent::Silent => {
                self.note(
                    "Agent manager: A coder agent took too long to respond and was skipped.".to_owned(),
                );
                self.err("Mindestens ein Coder-Agent lief in einen Timeout.");
                self.hear()
            },
            CoderEvent::Repaired(reply) => {
                let next: usize = self.repairing + 1;
                match reply {
                    Reply::Failed(e) => {
                        self.note(cat2("Repair agent could not repair: ", e.as_str()));
                        self.repair_from(next)
                    },
                    Reply::Unreadable { raw, error } => {
                        self.note_repair(raw.as_str());
                        self.note(cat2("Repair agent could not repair: ", error.as_str()));
                        self.repair_from(next)
                    },
                    Reply::Read { raw, envelope, facts } => {
                        self.note_repair(raw.as_str());
                        let faults = validate_action_envelope(&envelope, &facts);
                        assert(texts(faults@).len() == faults@.len());
                        if faults.len() == 0 && envelope.actions.len() > 0 {
                            self.note(
                                cat3(
                                    "Repair agent created ",
                                    count_text(&envelope).as_str(),
                                    " sichere Action(s).",
                                ),
                            );
                            self.end(Ok(envelope))
                        } else {
                            let why = if faults.len() == 0 {
                                "no file actions".to_owned()
                            } else {
                                truncate_text(join(&faults, "; ").as_str(), 220)
                            };
                            self.note(cat2("Repair agent verworfen: ", why.as_str()));
                            self.repair_from(next)
                        }
                    },
                }
            },
        }
    }

    /// Notes what the repair agent said.
    fn note_repair(&mut self, raw: &str)
        ensures
            final(self)@ == old(self)@.repair_heard(raw@),
    {
        self.note(
            cat4(
                "TRAFFIC Repair agent (",
                self.model.as_str(),
                ") -> Agent manager | Response:\n",
                truncate_text(raw, 4000).as_str(),
            ),
        );
    }

    /// Notes what a coder said.
    fn note_coder(&mut self, name: &str, model: &str, raw: &str)
        ensures
            final(self)@ == old(self)@.noting(
                "TRAFFIC "@ + name@ + " ("@ + model@ + ") -> Agent manager | raw response:\n"@
                    + shortened(raw@, 4000),
            ),
    {
        self.note(
            cat6(
                "TRAFFIC ",
                name,
                " (",
                model,
                ") -> Agent manager | raw response:\n",
                truncate_text(raw, 4000).as_str(),
            ),
        );
    }

    /// One more candidate.
    fn add_candidate(&mut self, candidate: CoderCandidateResult)
        ensures
            final(self)@ == (Coding { results: old(self)@.results.push(candidate@), ..old(self)@ }),
    {
        self.results.push(candidate);
        assert(candidates(self.results@) =~= candidates(old(self).results@).push(candidate@));
    }

    /// Takes in what came of the coder with the given number.
    fn take_reply(&mut self, index: usize, reply: Reply)
        requires
            reply.complete(),
        ensures
            final(self)@ == old(self)@.with_reply(index as int, reply),
    {
        let name = name_of_coder(index);
        let model = agent_model_for_index(index, self.model.as_str());
        match reply {
            Reply::Failed(error) => {
                self.note(
                    cat6(
                        "TRAFFIC ",
                        name,
                        " (",
                        model.as_str(),
                        ") -> Agent manager | Error: ",
                        truncate_text(error.as_str(), 1000).as_str(),
                    ),
                );
                self.note(cat5(name, " (", model.as_str(), ") not usable: ", error.as_str()));
                self.err(error.as_str());
            },
            Reply::Unreadable { raw, error } => {
                self.note_coder(name, model.as_str(), raw.as_str());
                self.note(
                    cat5(
                        name,
                        " (",
                        model.as_str(),
                        ") returned no usable JSON: ",
                        truncate_text(error.as_str(), 160).as_str(),
                    ),
                );
                let validation_errors: Vec<String> = Vec::new();
                assert(texts(validation_errors@) =~= Seq::<Seq<char>>::empty());
                self.add_candidate(
                    CoderCandidateResult {
                        name: name.to_owned(),
                        model,
                        raw,
                        envelope: None,
                        parse_error: Some(error),
                        validation_errors,
                    },
                );
            },
            Reply::Read { raw, envelope, facts } => {
                self.note_coder(name, model.as_str(), raw.as_str());
                let faults = validate_action_envelope(&envelope, &facts);
                assert(texts(faults@).len() == faults@.len());
                let line = if faults.len() == 0 {
                    cat6(
                        name,
                        " (",
                        model.as_str(),
                        ") lieferte ",
                        count_text(&envelope).as_str(),
                        " validierte Action(s).",
                    )
                } else {
                    cat7(
                        name,
                        " (",
                        model.as_str(),
                        ") lieferte ",
                        count_text(&envelope).as_str(),
                        " Action(s), aber die Validierung stoppte: ",
                        truncate_text(join(&faults, "; ").as_str(), 220).as_str(),
                    )
                };
                self.note(line);
                self.add_candidate(
                    CoderCandidateResult {
                        name: name.to_owned(),
                        model,
                        raw,
                        envelope: Some(envelope),
                        parse_error: None,
                        validation_errors: faults,
                    },
                );
            },
        }
    }

    /// The actions that are handed on, or why there are none, and the log.
    pub fn into_outcome(self) -> (r: (Result<ActionEnvelope, String>, Vec<String>))
        ensures
            outcome_view(r.0) == self@.outcome,
            texts(r.1@) == self@.log,
    {
        (self.outcome, self.log_lines)
    }
}

// ---------------------------------------------------------------------------------------------
// A second model where the first fails
// ---------------------------------------------------------------------------------------------

/// What follows on the answer of a model that has a second one behind it.
#[derive(Debug)]
pub enum FallbackStep {
    /// This is what came of it.
    Done(Result<String, String>),
    /// The second model is to be asked as well.
    AskFallback,
}

/// The second model is asked where the first gave an error, unless they are the same.
pub fn ollama_generate_with_fallback(
    model: &str,
    fallback_model: &str,
    first: Result<String, String>,
) -> (r: FallbackStep)
    ensures
        match first {
            Ok(_) => r == FallbackStep::Done(first),
            Err(_) => if model@ == fallback_model@ {
                r == FallbackStep::Done(first)
            } else {
                r is AskFallback
            },
        },
{
    match first {
        Ok(answer) => FallbackStep::Done(Ok(answer)),
        Err(e) => if text_is(model, fallback_model) {
            FallbackStep::Done(Err(e))
        } else {
            FallbackStep::AskFallback
        },
    }
}

/// What comes of the second model, or of both where it fails as well.
pub fn fallback_outcome(
    first_error: &str,
    fallback_model: &str,
    second: Result<String, String>,
) -> (r: Result<String, String>)
    ensures
        match second {
            Ok(answer) => r == Ok::<String, String>(answer),
            Err(e) => r matches Err(text) && text@ == first_error@ + "; fallback "@
                + fallback_model@ + " also failed: "@ + e@,
        },
{
    match second {
        Ok(answer) => Ok(answer),
        Err(e) => Err(
            cat5(first_error, "; fallback ", fallback_model, " also failed: ", e.as_str()),
        ),
    }
}

// ---------------------------------------------------------------------------------------------
// The last attempt
// ---------------------------------------------------------------------------------------------

/// What is to be done next in the last attempt.
#[derive(Debug)]
pub enum EmergencyStep<T> {
    /// Ask this model.
    Ask { model: T, prompt: T },
    /// Nothing more: the outcome is there.
    Finished,
}

impl View for EmergencyStep<String> {
    type V = EmergencyStep<Seq<char>>;

    open spec fn view(&self) -> EmergencyStep<Seq<char>> {
        match self {
            EmergencyStep::Ask { model, prompt } => EmergencyStep::Ask {
                model: model@,
                prompt: prompt@,
            },
            EmergencyStep::Finished => EmergencyStep::Finished,
        }
    }
}

/// The last attempt: two models are asked, one after the other.
#[derive(Debug)]
pub struct EmergencyRun {
    prompt: String,
    at: usize,
    errors: Vec<String>,
    log_lines: Vec<String>,
    outcome: Result<ActionEnvelope, String>,
}

/// What an [`EmergencyRun`] holds.
pub struct Emergency {
    pub prompt: Seq<char>,
    /// How many models were asked and heard of; two or more where the attempt is over.
    pub at: int,
    pub errors: Seq<Seq<char>>,
    pub log: Seq<Seq<char>>,
    pub outcome: Result<Envelope, Seq<char>>,
}

impl View for EmergencyRun {
    type V = Emergency;

    closed spec fn view(&self) -> Emergency {
        Emergency {
            prompt: self.prompt@,
            at: self.at as int,
            errors: texts(self.errors@),
            log: texts(self.log_lines@),
            outcome: outcome_view(self.outcome),
        }
    }
}

/// The models of the last attempt.
pub open spec fn emergency_model(at: int) -> Seq<char> {
    if at == 0 {
        LOCAL_GPT_ROUTER_MODEL@
    } else {
        QWEN_CODER_MODEL@
    }
}

impl Emergency {
    /// The attempt goes on.
    pub open spec fn open(self) -> bool {
        0 <= self.at < 2
    }

    /// The next model is asked, or the attempt failed.
    pub open spec fn asking(self) -> (Emergency, EmergencyStep<Seq<char>>) {
        if self.at < 2 {
            let model = emergency_model(self.at);
            (
                Emergency { log: self.log.push("Emergency coder -> "@ + model), ..self },
                EmergencyStep::Ask { model, prompt: self.prompt },
            )
        } else {
            (
                Emergency { outcome: Err(joined(self.errors, " | "@)), ..self },
                EmergencyStep::Finished,
            )
        }
    }

    /// The model that was asked failed.
    pub open spec fn failed(self, error: Seq<char>) -> (Emergency, EmergencyStep<Seq<char>>) {
        Emergency { errors: self.errors.push(error), at: self.at + 1, ..self }.asking()
    }

    /// The log holds what the model said.
    pub open spec fn heard(self, raw: Seq<char>) -> Emergency {
        Emergency {
            log: self.log.push(
                "Emergency coder "@ + emergency_model(self.at) + " response:\n"@ + shortened(
                    raw,
                    4000,
                ),
            ),
            ..self
        }
    }

    /// The attempt after an answer, and what is to be done next.
    pub open spec fn after(self, reply: Reply) -> (Emergency, EmergencyStep<Seq<char>>) {
        let model = emergency_model(self.at);
        match reply {
            Reply::Failed(e) => self.failed(model + " request: "@ + e@),
            Reply::Unreadable { raw, error } => self.heard(raw@).failed(
                model + " JSON parse: "@ + error@,
            ),
            Reply::Read { raw, envelope, facts } => if faults(envelope@.actions, facts@).len() == 0
                && envelope@.actions.len() > 0 {
                (
                    Emergency { at: 2, outcome: Ok(envelope@), ..self.heard(raw@) },
                    EmergencyStep::Finished,
                )
            } else {
                self.heard(raw@).failed(
                    model + " returned unusable actions: "@ + if faults(envelope@.actions, facts@).len() == 0 {
                        "empty action list"@
                    } else {
                        joined(faults(envelope@.actions, facts@), "; "@)
                    },
                )
            },
        }
    }
}

/// The last attempt hands on nothing but checked actions, at least one of them.
pub proof fn emergency_actions_are_checked(s: Emergency, reply: Reply)
    requires
        s.open(),
        s.outcome is Err,
    ensures
        s.after(reply).0.outcome matches Ok(e) ==> e.actions.len() > 0 && (reply matches
            Reply::Read { raw: _, envelope, facts } && envelope@ == e && faults(envelope@.actions, facts@).len() == 0),
        (s.after(reply).1 is Finished) == !s.after(reply).0.open(),
        s.after(reply).0.at > s.at,
{
}

/// The last attempt asks the large model first and then the small one, each of them the same question;
/// actions without faults are handed on at once, and where neither gives any, the error says why of
/// both.
#[verifier::rlimit(40)]
pub proof fn the_last_attempt_asks_twice(s: Emergency, reply: Reply)
    requires
        s.open(),
    ensures
        ({
            let (t, step) = s.after(reply);
            let good = reply matches Reply::Read { raw: _, envelope, facts } && envelope@.actions.len()
                > 0 && faults(envelope@.actions, facts@).len() == 0;
            &&& good ==> step is Finished && (reply matches Reply::Read { raw: _, envelope, facts: _ }
                && t.outcome == Ok::<Envelope, Seq<char>>(envelope@))
            &&& !good && s.at == 0 ==> step == (EmergencyStep::Ask {
                model: "qwen2.5-coder:1.5b"@,
                prompt: s.prompt,
            })
            &&& !good && s.at == 1 ==> step is Finished && (t.outcome matches Err(e) && forall|i: int|
                0 <= i < s.errors.len() ==> holds(e, #[trigger] s.errors[i]))
            &&& !good && s.at == 1 ==> (t.outcome matches Err(e) && match reply {
                Reply::Failed(error) => holds(e, error@),
                Reply::Unreadable { raw: _, error } => holds(e, error@),
                _ => true,
            })
            &&& !good ==> t.errors.len() == s.errors.len() + 1 && t.errors.drop_last() == s.errors
        }),
        s.at == 0 ==> s.asking().1 == (EmergencyStep::Ask {
            model: "gpt-oss:20b"@,
            prompt: s.prompt,
        }),
{
    let (t, step) = s.after(reply);
    let good = reply matches Reply::Read { raw: _, envelope, facts } && envelope@.actions.len() > 0
        && faults(envelope@.actions, facts@).len() == 0;
    if !good {
        assert(t.errors.drop_last() =~= s.errors);
        if s.at == 1 {
            let e = joined(t.errors, " | "@);
            assert(t.outcome == Err::<Envelope, Seq<char>>(e));
            assert forall|i: int| 0 <= i < s.errors.len() implies holds(e, #[trigger] s.errors[i]) by {
                lemma_joined_holds(t.errors, " | "@, i);
                assert(t.errors[i] == s.errors[i]);
            }
            let last = t.errors.len() - 1;
            lemma_joined_holds(t.errors, " | "@, last);
            let said = match reply {
                Reply::Failed(error) => error@,
                Reply::Unreadable { raw: _, error } => error@,
                _ => Seq::empty(),
            };
            let line = t.errors[last];
            let n = line.len() - said.len();
            if !(reply is Read) {
                assert(line.subrange(n, line.len() as int) =~= said);
                assert(occurs_at(line, said, n));
                lemma_holds_part(e, line, said);
            }
        }
    }
}

impl Emergency {
    /// The attempt after answers.
    pub open spec fn run(self, replies: Seq<Reply>) -> Emergency
        decreases replies.len(),
    {
        if replies.len() == 0 {
            self
        } else {
            self.run(replies.drop_last()).after(replies.last()).0
        }
    }

    /// Each of the answers comes while the attempt goes on.
    pub open spec fn allows(self, replies: Seq<Reply>) -> bool
        decreases replies.len(),
    {
        replies.len() > 0 ==> self.allows(replies.drop_last()) && self.run(
            replies.drop_last(),
        ).open()
    }

    /// An attempt from its beginning to its end hands on these actions.
    pub open spec fn hands_on(self, replies: Seq<Reply>, e: Envelope) -> bool {
        &&& self.open()
        &&& self.outcome is Err
        &&& self.allows(replies)
        &&& !self.run(replies).open()
        &&& self.run(replies).outcome == Ok::<Envelope, Seq<char>>(e)
    }
}

/// While the attempt goes on, it has come to nothing.
proof fn lemma_nothing_yet(s: Emergency, replies: Seq<Reply>)
    requires
        s.open(),
        s.outcome is Err,
        s.allows(replies),
        s.run(replies).open(),
    ensures
        s.run(replies).outcome is Err,
    decreases replies.len(),
{
    if replies.len() > 0 {
        lemma_nothing_yet(s, replies.drop_last());
    }
}

/// Over the whole last attempt, whatever the models answer: the actions that are handed on are at
/// least one, and exactly those of its last answer, in which the check found no fault.
pub proof fn the_last_attempt_hands_on_only_checked_actions(
    s: Emergency,
    replies: Seq<Reply>,
    e: Envelope,
)
    requires
        s.hands_on(replies, e),
    ensures
        e.actions.len() > 0,
        replies.len() > 0,
        passes(replies.last(), e),
{
    if replies.len() > 0 {
        let before = replies.drop_last();
        lemma_nothing_yet(s, before);
        emergency_actions_are_checked(s.run(before), replies.last());
    }
}

impl EmergencyRun {
    /// The last attempt, with its first step.
    pub fn new(request: &str, goal: &str, snapshot: &str, limit: usize) -> (r: (
        EmergencyRun,
        EmergencyStep<String>,
    ))
        ensures
            (r.0@, r.1@) == (Emergency {
                prompt: emergency_question(request@, goal@, snapshot@, limit),
                at: 0,
                errors: Seq::empty(),
                log: Seq::empty(),
                outcome: Err(""@),
            }).asking(),
    {
        let errors: Vec<String> = Vec::new();
        let log_lines: Vec<String> = Vec::new();
        assert(texts(errors@) =~= Seq::<Seq<char>>::empty());
        assert(texts(log_lines@) =~= Seq::<Seq<char>>::empty());
        let mut run = EmergencyRun {
            prompt: emergency_prompt(request, goal, snapshot, limit),
            at: 0,
            errors,
            log_lines,
            outcome: Err("".to_owned()),
        };
        let step = run.ask();
        (run, step)
    }

    /// The model that is asked.
    fn model(&self) -> (r: &'static str)
        ensures
            r@ == emergency_model(self@.at),
    {
        if self.at == 0 {
            LOCAL_GPT_ROUTER_MODEL
        } else {
            QWEN_CODER_MODEL
        }
    }

    /// One more line in the log.
    fn note(&mut self, line: String)
        ensures
            final(self)@ == (Emergency { log: old(self)@.log.push(line@), ..old(self)@ }),
    {
        self.log_lines.push(line);
        assert(texts(self.log_lines@) =~= texts(old(self).log_lines@).push(line@));
    }

    /// Asks the next model, or gives up.
    fn ask(&mut self) -> (r: EmergencyStep<String>)
        ensures
            (final(self)@, r@) == old(self)@.asking(),
    {
        if self.at < 2 {
            let model = self.model();
            self.note(cat2("Emergency coder -> ", model));
            EmergencyStep::Ask {
                model: model.to_owned(),
                prompt: self.prompt.as_str().to_owned(),
            }
        } else {
            self.outcome = Err(join(&self.errors, " | "));
            EmergencyStep::Finished
        }
    }

    /// The model that was asked failed.
    fn fail(&mut self, error: String) -> (r: EmergencyStep<String>)
        requires
            old(self)@.open(),
        ensures
            (final(self)@, r@) == old(self)@.failed(error@),
    {
        self.errors.push(error);
        assert(texts(self.errors@) =~= texts(old(self).errors@).push(error@));
        self.at += 1;
        self.ask()
    }

    /// Notes what the model said.
    fn hear(&mut self, raw: &str)
        ensures
            final(self)@ == old(self)@.heard(raw@),
    {
        let line = cat4(
            "Emergency coder ",
            self.model(),
            " response:\n",
            truncate_text(raw, 4000).as_str(),
        );
        self.note(line);
    }

    /// Takes in what came of the last step and says what is to be done next.
    pub fn advance(&mut self, reply: Reply) -> (r: EmergencyStep<String>)
        requires
            old(self)@.open(),
            reply.complete(),
        ensures
            (final(self)@, r@) == old(self)@.after(reply),
    {
        let model = self.model();
        match reply {
            Reply::Failed(e) => self.fail(cat3(model, " request: ", e.as_str())),
            Reply::Unreadable { raw, error } => {
                self.hear(raw.as_str());
                self.fail(cat3(model, " JSON parse: ", error.as_str()))
            },
            Reply::Read { raw, envelope, facts } => {
                self.hear(raw.as_str());
                let faults = validate_action_envelope(&envelope, &facts);
                assert(texts(faults@).len() == faults@.len());
                if faults.len() == 0 && envelope.actions.len() > 0 {
                    self.at = 2;
                    self.outcome = Ok(envelope);
                    EmergencyStep::Finished
                } else {
                    let why = if faults.len() == 0 {
                        "empty action list".to_owned()
                    } else {
                        join(&faults, "; ")
                    };
                    self.fail(cat3(model, " returned unusable actions: ", why.as_str()))
                }
            },
        }
    }

    /// The actions that are handed on, or why there are none, and the log.
    pub fn into_outcome(self) -> (r: (Result<ActionEnvelope, String>, Vec<String>))
        ensures
            outcome_view(r.0) == self@.outcome,
            texts(r.1@) == self@.log,
    {
        (self.outcome, self.log_lines)
    }
}

} // verus!

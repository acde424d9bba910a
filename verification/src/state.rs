//! The state of the program: what the window shows and what the user can do with it.

use vstd::prelude::*;
use crate::answer::{
    chat_title, clean_visible_answer, folder_name, sanitize_project_folder_name, shortened,
    title_from_message, truncate_text, visible,
};
use crate::chain::AgentRunConfig;
use crate::chars::{is_space, CharClass};
use crate::graph::{
    blocks_view, connection_exists, default_block_fields, has_id, has_link, links_view, new_block,
    normalize_agent_graph, AgentBlock, AgentBlockKind, AgentConnection, AgentGraph, Block, Graph, Link,
};
use crate::numbers::{
    clock_text, decimal, field_value, fields_are_kept_between_their_bounds, now_hhmmss,
    parse_usize_field, to_decimal,
};
use crate::request::requested_path;
use crate::session::{
    chat_about, find_chat_about, find_project, find_session, last_file, last_file_from_messages,
    lemma_session_from, messages_view, project_from, projects_view, session_from,
    sessions_view, welcome, welcome_message, ChatMsg, ChatSession, Message, Project, ProjectEntry,
    Saved, SavedState, Session,
};
use crate::text::{
    begins, cat2, cat4, cat5, ends, lemma_trimmed_bare, only_the_edges_are_trimmed, opt_text, text_is,
    texts, trim, trim_by, trimmed, trimmed_by,
};

verus! {

/// The part of the window that is shown.
#[derive(Clone, Copy, Debug, PartialEq, Eq, Structural)]
pub enum AppView {
    Chat,
    Agents,
    Log,
}

/// The state of the program.
#[derive(Debug)]
pub struct LocalAiApp {
    pub project_dir: String,
    pub terminal_cmd: String,
    pub context_limit: String,
    pub ollama_path: String,
    pub model: String,
    pub input: String,
    pub projects: Vec<ProjectEntry>,
    pub sessions: Vec<ChatSession>,
    pub active_project_id: String,
    pub active_session_id: String,
    pub new_project_name: String,
    pub new_project_path: String,
    pub agent_graph: AgentGraph,
    pub active_view: AppView,
    pub selected_block_id: Option<u64>,
    pub connecting_from: Option<u64>,
    pub show_python_code: bool,
    pub python_code: String,
    pub graph_status: String,
    pub log: Vec<String>,
    pub dropped_files: Vec<String>,
    pub busy: bool,
    pub active_run_id: u64,
    pub show_agent_progress: bool,
    pub auto_apply_actions: bool,
    pub run_tests_after_apply: bool,
    pub max_parallel_agents: String,
}

/// What a [`LocalAiApp`] holds.
pub struct Program {
    pub project_dir: Seq<char>,
    pub terminal_cmd: Seq<char>,
    pub context_limit: Seq<char>,
    pub ollama_path: Seq<char>,
    pub model: Seq<char>,
    pub input: Seq<char>,
    pub projects: Seq<Project>,
    pub sessions: Seq<Session>,
    pub active_project_id: Seq<char>,
    pub active_session_id: Seq<char>,
    pub new_project_name: Seq<char>,
    pub new_project_path: Seq<char>,
    pub graph: Graph,
    pub active_view: AppView,
    pub selected_block_id: Option<u64>,
    pub connecting_from: Option<u64>,
    pub show_python_code: bool,
    pub python_code: Seq<char>,
    pub graph_status: Seq<char>,
    pub log: Seq<Seq<char>>,
    pub dropped_files: Seq<Seq<char>>,
    pub busy: bool,
    pub active_run_id: u64,
    pub show_agent_progress: bool,
    pub auto_apply_actions: bool,
    pub run_tests_after_apply: bool,
    pub max_parallel_agents: Seq<char>,
}

impl View for LocalAiApp {
    type V = Program;

    open spec fn view(&self) -> Program {
        Program {
            project_dir: self.project_dir@,
            terminal_cmd: self.terminal_cmd@,
            context_limit: self.context_limit@,
            ollama_path: self.ollama_path@,
            model: self.model@,
            input: self.input@,
            projects: projects_view(self.projects@),
            sessions: sessions_view(self.sessions@),
            active_project_id: self.active_project_id@,
            active_session_id: self.active_session_id@,
            new_project_name: self.new_project_name@,
            new_project_path: self.new_project_path@,
            graph: self.agent_graph@,
            active_view: self.active_view,
            selected_block_id: self.selected_block_id,
            connecting_from: self.connecting_from,
            show_python_code: self.show_python_code,
            python_code: self.python_code@,
            graph_status: self.graph_status@,
            log: texts(self.log@),
            dropped_files: texts(self.dropped_files@),
            busy: self.busy,
            active_run_id: self.active_run_id,
            show_agent_progress: self.show_agent_progress,
            auto_apply_actions: self.auto_apply_actions,
            run_tests_after_apply: self.run_tests_after_apply,
            max_parallel_agents: self.max_parallel_agents@,
        }
    }
}

// ---------------------------------------------------------------------------------------------
// What the actions of the user mean
// ---------------------------------------------------------------------------------------------

/// A new chat about a project.
pub open spec fn new_session(project: Project, millis: u128, now: u64) -> Session {
    Session {
        id: "chat-"@ + decimal(millis as nat),
        title: "New task"@,
        project_id: project.id,
        project_dir: project.path,
        messages: seq![welcome()],
        updated_at: now,
    }
}

/// The chat with one more message.
pub open spec fn with_message(s: Session, who: Seq<char>, text: Seq<char>, now: u64) -> Session {
    Session { messages: s.messages.push(Message { who, text }), updated_at: now, ..s }
}

/// The chat with a title taken from a message, where it has none of its own.
pub open spec fn titled(s: Session, text: Seq<char>) -> Session {
    if s.title == "New task"@ || s.title == "Neue Task"@ {
        Session { title: chat_title(text), ..s }
    } else {
        s
    }
}

/// A message of the user.
pub open spec fn from_user(m: Message) -> bool {
    m.who == "You"@ || m.who == "Du"@
}

/// What a list of pairs of texts says.
pub open spec fn pairs_view(v: Seq<(String, String)>) -> Seq<(Seq<char>, Seq<char>)> {
    v.map_values(|p: (String, String)| (p.0@, p.1@))
}

/// The number that comes after a number.
pub open spec fn next_run(id: u64) -> u64 {
    if id == u64::MAX {
        0
    } else {
        (id + 1) as u64
    }
}

/// The settings of a run.
pub struct RunSettings {
    pub project_dir: Seq<char>,
    pub model: Seq<char>,
    pub ollama_path: Seq<char>,
    pub terminal_cmd: Seq<char>,
    pub user_request: Seq<char>,
    pub last_file: Option<Seq<char>>,
    pub show_progress: bool,
    pub auto_apply: bool,
    pub run_tests: bool,
    pub context_limit: usize,
    pub max_agents: usize,
}

/// What the settings of a run say, apart from where the memory is.
pub open spec fn settings_of(config: AgentRunConfig) -> RunSettings {
    RunSettings {
        project_dir: config.project_dir@,
        model: config.model@,
        ollama_path: config.ollama_path@,
        terminal_cmd: config.terminal_cmd@,
        user_request: config.user_request@,
        last_file: opt_text(config.last_file_path),
        show_progress: config.show_progress,
        auto_apply: config.auto_apply_actions,
        run_tests: config.run_tests_after_apply,
        context_limit: config.context_limit,
        max_agents: config.max_parallel_agents,
    }
}

impl Program {
    /// There is a project.
    pub open spec fn wf(self) -> bool {
        self.projects.len() > 0
    }

    /// The chat that is shown.
    pub open spec fn active_index(self) -> Option<int> {
        session_from(self.sessions, self.active_session_id, 0)
    }

    /// The chat that is written into: the one that is shown, or else the first.
    pub open spec fn chat_index(self) -> int {
        match self.active_index() {
            Some(i) => i,
            None => 0,
        }
    }

    /// There is a chat to write into, or a project to open one about.
    pub open spec fn can_chat(self) -> bool {
        self.projects.len() > 0 || self.sessions.len() > 0
    }

    /// With one more line in the log.
    pub open spec fn logging(self, now: u64, message: Seq<char>) -> Program {
        Program {
            log: self.log.push("["@ + clock_text(now as nat) + "] "@ + message),
            ..self
        }
    }

    /// The project that a new chat is about: the chosen one, or the first.
    pub open spec fn chat_project(self) -> Project {
        match project_from(self.projects, self.active_project_id, 0) {
            Some(i) => self.projects[i],
            None => self.projects[0],
        }
    }

    /// With a new chat in front, which is shown.
    pub open spec fn with_new_chat(self, millis: u128, now: u64) -> Program {
        if self.projects.len() == 0 {
            self
        } else {
            let project = self.chat_project();
            let session = new_session(project, millis, now);
            Program {
                active_project_id: project.id,
                active_session_id: session.id,
                project_dir: project.path,
                new_project_path: ""@,
                sessions: self.sessions.insert(0, session),
                ..self
            }
        }
    }

    /// With a chat that is shown.
    pub open spec fn with_chat(self, millis: u128, now: u64) -> Program {
        if self.active_index() is Some {
            self
        } else {
            self.with_new_chat(millis, now)
        }
    }

    /// With another chat shown, if nothing is running and it is there.
    pub open spec fn showing_chat(self, id: Seq<char>) -> Program {
        match session_from(self.sessions, id, 0) {
            Some(i) => if self.busy {
                self
            } else {
                Program {
                    active_session_id: self.sessions[i].id,
                    active_project_id: self.sessions[i].project_id,
                    project_dir: self.sessions[i].project_dir,
                    new_project_path: ""@,
                    ..self
                }
            },
            None => self,
        }
    }

    /// With another project chosen, if nothing is running and it is there: the first chat about
    /// it is shown, or a new one.
    pub open spec fn choosing_project(self, id: Seq<char>, millis: u128, now: u64) -> Program {
        match project_from(self.projects, id, 0) {
            Some(i) => if self.busy {
                self
            } else {
                let chosen = Program {
                    active_project_id: self.projects[i].id,
                    project_dir: self.projects[i].path,
                    new_project_path: ""@,
                    ..self
                };
                match chat_about(self.sessions, self.projects[i].id, 0) {
                    Some(k) => Program { active_session_id: self.sessions[k].id, ..chosen },
                    None => chosen.with_new_chat(millis, now),
                }
            },
            None => self,
        }
    }

    /// The name that the user gave for a new project.
    pub open spec fn requested_name(self) -> Seq<char> {
        trimmed(self.new_project_name)
    }

    /// The folder that the user gave for a new project.
    pub open spec fn requested_path(self) -> Seq<char> {
        trimmed_by(trimmed(self.new_project_path), CharClass::Quote)
    }

    /// With a new project, a chat about it, and a line in the log.
    pub open spec fn with_project(
        self,
        folder: Option<Seq<char>>,
        path: Seq<char>,
        millis: u128,
        now: u64,
    ) -> Program {
        let name = if self.requested_name().len() > 0 {
            self.requested_name()
        } else {
            match folder {
                Some(f) => f,
                None => "Project"@,
            }
        };
        let id = "project-"@ + decimal(millis as nat);
        Program {
            projects: self.projects.push(Project { id, name, path }),
            active_project_id: id,
            project_dir: path,
            new_project_name: ""@,
            new_project_path: ""@,
            ..self
        }.with_new_chat(millis, now).logging(
            now,
            "Project added: "@ + name + " ("@ + path + ")"@,
        )
    }

    /// The part of the state that is kept.
    pub open spec fn kept(self) -> Saved {
        Saved {
            projects: self.projects,
            sessions: self.sessions,
            active_project_id: self.active_project_id,
            active_session_id: self.active_session_id,
            graph: self.graph,
        }
    }

    /// What is to become of a new project.
    pub open spec fn project_plan(self) -> ProjectPlan<Seq<char>> {
        if self.busy {
            ProjectPlan::Wait
        } else if self.requested_path().len() > 0 {
            ProjectPlan::At(self.requested_path())
        } else if self.requested_name().len() > 0 {
            ProjectPlan::InCurrentFolder(folder_name(self.requested_name()))
        } else {
            ProjectPlan::Incomplete
        }
    }

    /// With one more block, which is selected.
    pub open spec fn with_block(self, kind: AgentBlockKind, x: u32, y: u32) -> Program {
        let id = if self.graph.next_id >= 1 {
            self.graph.next_id
        } else {
            1
        };
        Program {
            graph: Graph {
                blocks: self.graph.blocks.push(new_block(kind, id, x, y)),
                next_id: (id + 1) as u64,
                ..self.graph
            },
            selected_block_id: Some(id),
            ..self
        }
    }

    /// A connection that can be drawn to a block.
    pub open spec fn can_connect(self, to: u64) -> bool {
        self.connecting_from is Some && self.connecting_from->0 != to && !has_link(
            self.graph.links,
            self.connecting_from->0,
            to,
        )
    }

    /// With a block selected, and connected where a connection was begun.
    pub open spec fn touching(self, block: u64) -> Program {
        Program {
            graph: if self.can_connect(block) {
                Graph {
                    links: self.graph.links.push(
                        Link { from: self.connecting_from->0, to: block, label: "delegiert"@ },
                    ),
                    ..self.graph
                }
            } else {
                self.graph
            },
            connecting_from: None,
            selected_block_id: Some(block),
            ..self
        }
    }

    /// Without the block that is selected, and without its connections.
    pub open spec fn without_block(self) -> Program {
        match self.selected_block_id {
            None => self,
            Some(id) => Program {
                graph: Graph {
                    blocks: self.graph.blocks.filter(|b: Block| b.id != id),
                    links: self.graph.links.filter(|l: Link| l.from != id && l.to != id),
                    ..self.graph
                },
                selected_block_id: None,
                connecting_from: None,
                ..self
            },
        }
    }

    /// What the user did on the canvas: begin a connection, touch a block, or click beside all.
    pub open spec fn after_canvas(
        self,
        started: Option<u64>,
        released: Option<u64>,
        clicked: Option<u64>,
        beside: bool,
    ) -> Program {
        match started {
            Some(id) => Program {
                selected_block_id: Some(id),
                connecting_from: Some(id),
                graph_status: "Drag or click the target block now."@,
                ..self
            },
            None => match if released is Some {
                released
            } else {
                clicked
            } {
                Some(id) => self.touching(id),
                None => if beside {
                    Program { selected_block_id: None, connecting_from: None, ..self }
                } else {
                    self
                },
            },
        }
    }

    /// With a path that was dropped on the window: a folder becomes the folder of a new project,
    /// a file is named in the message.
    pub open spec fn with_dropped(self, path: Seq<char>, is_folder: bool, now: u64) -> Program {
        let taken = if is_folder {
            Program { new_project_path: path, ..self }
        } else {
            Program {
                input: if trimmed(self.input).len() == 0 {
                    self.input + ("Attached file: "@ + path)
                } else {
                    self.input + "\n"@ + ("Attached file: "@ + path)
                },
                ..self
            }
        };
        Program { dropped_files: self.dropped_files.push(path), ..taken }.logging(
            now,
            "File dropped: "@ + path,
        )
    }

    /// The chats about the chosen project: the number and the title of each.
    pub open spec fn listed_chats(self) -> Seq<(Seq<char>, Seq<char>)> {
        let project = self.active_project_id;
        self.sessions.filter(|s: Session| s.project_id == project).map_values(
            |s: Session| (s.id, s.title),
        )
    }

    /// The chat that is shown holds a message of the user.
    pub open spec fn started(self) -> bool {
        self.active_index() is Some && exists|i: int|
            0 <= i < self.sessions[self.active_index()->0].messages.len() && from_user(
                #[trigger] self.sessions[self.active_index()->0].messages[i],
            )
    }

    /// The message that would be sent.
    pub open spec fn message(self) -> Seq<char> {
        trimmed(self.input)
    }

    /// A message can be sent.
    pub open spec fn can_send(self) -> bool {
        self.message().len() > 0 && !self.busy
    }

    /// With the message in the chat and a run begun.
    pub open spec fn sending(self, millis: u128, now: u64) -> Program {
        let text = self.message();
        let open = Program { input: ""@, ..self }.with_chat(millis, now);
        let i = open.chat_index();
        let id = next_run(self.active_run_id);
        Program {
            sessions: open.sessions.update(
                i,
                titled(with_message(open.sessions[i], "You"@, text, now), text),
            ),
            busy: true,
            active_run_id: id,
            ..open
        }.logging(
            now,
            "TRAFFIC User -> Coordinator | Request:\n"@ + shortened(text, 2000),
        ).logging(now, "Coordinator started. Run id: "@ + decimal(id as nat))
    }

    /// The settings of the run that a message begins.
    pub open spec fn settings(self, millis: u128, now: u64) -> RunSettings {
        let sent = self.sending(millis, now);
        let chat = sent.sessions[sent.chat_index()];
        RunSettings {
            project_dir: chat.project_dir,
            model: self.model,
            ollama_path: self.ollama_path,
            terminal_cmd: self.terminal_cmd,
            user_request: self.message(),
            last_file: last_file(chat.messages),
            show_progress: self.show_agent_progress,
            auto_apply: self.auto_apply_actions,
            run_tests: self.run_tests_after_apply,
            context_limit: field_value(self.context_limit, 50000, 4000, 200000),
            max_agents: field_value(self.max_parallel_agents, 2, 1, 6),
        }
    }

    /// With a graph that was read from its text, or with the reason why there is none.
    pub open spec fn importing(self, parsed: Result<AgentGraph, String>) -> Program {
        match parsed {
            Ok(g) => Program {
                graph: g@.normal(),
                selected_block_id: None,
                connecting_from: None,
                graph_status: "Python code was imported into blocks."@,
                ..self
            },
            Err(e) => Program {
                graph_status: "Code could not be imported: "@ + e@,
                ..self
            },
        }
    }

    /// Without the connection with the given number.
    pub open spec fn without_link(self, index: int) -> Program {
        Program {
            graph: Graph { links: self.graph.links.remove(index), ..self.graph },
            ..self
        }
    }

    /// With the run that is going on given up.
    pub open spec fn stopping(self, now: u64) -> Program {
        if self.busy {
            Program { active_run_id: next_run(self.active_run_id), busy: false, ..self }.logging(
                now,
                "Stop requested. The current background result will be ignored."@,
            )
        } else {
            self
        }
    }

    /// With the answer of a run in the chat.
    pub open spec fn answered(self, answer: Seq<char>, millis: u128, now: u64) -> Program {
        let open = Program { busy: false, ..self }.with_chat(millis, now);
        let i = open.chat_index();
        Program {
            sessions: open.sessions.update(
                i,
                with_message(open.sessions[i], "Assistant"@, visible(answer), now),
            ),
            ..open
        }
    }

    /// With the log of a run.
    pub open spec fn logging_all(self, lines: Seq<Seq<char>>, now: u64) -> Program
        decreases lines.len(),
    {
        if lines.len() == 0 {
            self
        } else {
            self.logging_all(lines.drop_last(), now).logging(now, lines.last())
        }
    }
}

// ---------------------------------------------------------------------------------------------
// Laws
// ---------------------------------------------------------------------------------------------

/// A new chat is found again under its number, in front.
proof fn lemma_new_chat_is_found(p: Program, millis: u128, now: u64)
    requires
        p.wf(),
    ensures
        p.with_new_chat(millis, now).active_index() == Some(0int),
        p.with_new_chat(millis, now).sessions.len() == p.sessions.len() + 1,
{
    let t = p.with_new_chat(millis, now);
    assert(t.sessions[0] == new_session(p.chat_project(), millis, now));
}

/// There is always a chat to write into, and where there is a project, it is one that is shown.
pub proof fn there_is_always_a_chat(p: Program, millis: u128, now: u64)
    requires
        p.can_chat(),
    ensures
        0 <= p.with_chat(millis, now).chat_index() < p.with_chat(millis, now).sessions.len(),
        p.with_chat(millis, now).can_chat(),
        p.wf() ==> p.with_chat(millis, now).active_index() is Some,
        p.wf() ==> p.with_chat(millis, now).wf(),
{
    lemma_session_from(p.sessions, p.active_session_id, 0);
    if p.active_index() is None && p.wf() {
        lemma_new_chat_is_found(p, millis, now);
    }
}

/// What a run comes to is never taken for what another run comes to that was begun or given up
/// since: their numbers differ.
pub proof fn given_up_runs_are_ignored(p: Program, now: u64)
    requires
        p.busy,
    ensures
        p.stopping(now).active_run_id != p.active_run_id,
        !p.stopping(now).busy,
{
}

/// A new run has another number than the one before.
pub proof fn runs_have_their_own_numbers(p: Program, millis: u128, now: u64)
    requires
        p.can_chat(),
        p.can_send(),
    ensures
        p.sending(millis, now).active_run_id != p.active_run_id,
        p.sending(millis, now).busy,
{
}

/// While a run is going on, nothing can be sent, and neither chat nor project can be changed.
pub proof fn a_busy_program_waits(p: Program, id: Seq<char>, millis: u128, now: u64)
    requires
        p.busy,
    ensures
        !p.can_send(),
        p.showing_chat(id) == p,
        p.choosing_project(id, millis, now) == p,
{
}

/// Whatever the user does, there is still a project to work on, and none is ever lost.
pub proof fn projects_are_never_lost(
    p: Program,
    id: Seq<char>,
    folder: Option<Seq<char>>,
    path: Seq<char>,
    is_folder: bool,
    answer: Seq<char>,
    millis: u128,
    now: u64,
)
    ensures
        p.with_new_chat(millis, now).projects == p.projects,
        p.showing_chat(id).projects == p.projects,
        p.choosing_project(id, millis, now).projects == p.projects,
        p.projects.is_prefix_of(p.with_project(folder, path, millis, now).projects),
        p.with_project(folder, path, millis, now).wf(),
        p.with_dropped(path, is_folder, now).projects == p.projects,
        p.sending(millis, now).projects == p.projects,
        p.stopping(now).projects == p.projects,
        p.answered(answer, millis, now).projects == p.projects,
{
}

/// A message that is sent stands last in the chat that is written into, and nothing else of what was
/// said changes; so does the answer that follows on it. Where no chat is shown, one is opened in
/// front of the others.
pub proof fn chats_only_grow(p: Program, answer: Seq<char>, millis: u128, now: u64)
    requires
        p.can_chat(),
        p.can_send(),
    ensures
        ({
            let open = p.with_chat(millis, now);
            let i = open.chat_index();
            let sent = p.sending(millis, now);
            let told = p.answered(answer, millis, now);
            &&& open.sessions == p.sessions || open.sessions == seq![
                new_session(p.chat_project(), millis, now),
            ] + p.sessions
            &&& sent.sessions.len() == open.sessions.len()
            &&& sent.sessions[i].messages == open.sessions[i].messages.push(
                Message { who: "You"@, text: p.message() },
            )
            &&& told.sessions.len() == open.sessions.len()
            &&& told.sessions[i].messages == open.sessions[i].messages.push(
                Message { who: "Assistant"@, text: visible(answer) },
            )
            &&& forall|k: int|
                0 <= k < open.sessions.len() && k != i ==> #[trigger] sent.sessions[k]
                    == open.sessions[k]
            &&& forall|k: int|
                0 <= k < open.sessions.len() && k != i ==> #[trigger] told.sessions[k]
                    == open.sessions[k]
        }),
{
    let open = p.with_chat(millis, now);
    there_is_always_a_chat(p, millis, now);
    let typed = Program { input: ""@, ..p }.with_chat(millis, now);
    let idle = Program { busy: false, ..p }.with_chat(millis, now);
    assert(typed.sessions == open.sessions && typed.chat_index() == open.chat_index());
    assert(idle.sessions == open.sessions && idle.chat_index() == open.chat_index());
    if p.active_index() is None && p.wf() {
        assert(open.sessions =~= seq![new_session(p.chat_project(), millis, now)] + p.sessions);
    }
}

/// A chat or project that the user chooses is the one that is shown from there on, with its own folder,
/// and nothing of what is kept changes; a project without a chat gets one.
#[verifier::rlimit(40)]
pub proof fn what_is_chosen_is_shown(p: Program, i: int, millis: u128, now: u64)
    requires
        !p.busy,
    ensures
        0 <= i < p.sessions.len() && (forall|j: int|
            0 <= j < i ==> (#[trigger] p.sessions[j]).id != p.sessions[i].id) ==> {
            let t = p.showing_chat(p.sessions[i].id);
            &&& t.active_index() == Some(i)
            &&& t.active_project_id == p.sessions[i].project_id
            &&& t.project_dir == p.sessions[i].project_dir
            &&& t.sessions == p.sessions
            &&& t.projects == p.projects
            &&& t.input == p.input
        },
        0 <= i < p.projects.len() && (forall|j: int|
            0 <= j < i ==> (#[trigger] p.projects[j]).id != p.projects[i].id) ==> {
            let t = p.choosing_project(p.projects[i].id, millis, now);
            &&& t.active_project_id == p.projects[i].id
            &&& t.project_dir == p.projects[i].path
            &&& t.projects == p.projects
            &&& exists|k: int|
                0 <= k < t.sessions.len() && (#[trigger] t.sessions[k]).project_id
                    == p.projects[i].id && t.sessions[k].id == t.active_session_id
            &&& t.sessions == p.sessions || t.sessions == seq![
                new_session(p.projects[i], millis, now),
            ] + p.sessions
            &&& (exists|k: int|
                0 <= k < p.sessions.len() && (#[trigger] p.sessions[k]).project_id
                    == p.projects[i].id) ==> t.sessions == p.sessions
        },
{
    if 0 <= i < p.sessions.len() && (forall|j: int|
        0 <= j < i ==> (#[trigger] p.sessions[j]).id != p.sessions[i].id) {
        lemma_first_chat(p.sessions, 0, i);
    }
    if 0 <= i < p.projects.len() && (forall|j: int|
        0 <= j < i ==> (#[trigger] p.projects[j]).id != p.projects[i].id) {
        let id = p.projects[i].id;
        lemma_first_project(p.projects, 0, i);
        lemma_chat_about(p.sessions, id, 0);
        let t = p.choosing_project(id, millis, now);
        match chat_about(p.sessions, id, 0) {
            Some(k) => {
                assert(t.sessions[k].id == t.active_session_id);
            },
            None => {
                assert(t.sessions[0] == new_session(p.projects[i], millis, now));
                assert(t.sessions =~= seq![new_session(p.projects[i], millis, now)] + p.sessions);
            },
        }
    }
}

/// The first chat with its number is found.
proof fn lemma_first_chat(sessions: Seq<Session>, from: int, i: int)
    requires
        0 <= from <= i < sessions.len(),
        forall|j: int| from <= j < i ==> (#[trigger] sessions[j]).id != sessions[i].id,
    ensures
        session_from(sessions, sessions[i].id, from) == Some(i),
    decreases i - from,
{
    if from < i {
        assert(sessions[from].id != sessions[i].id);
        lemma_first_chat(sessions, from + 1, i);
    }
}

/// The first project with its number is found.
proof fn lemma_first_project(projects: Seq<Project>, from: int, i: int)
    requires
        0 <= from <= i < projects.len(),
        forall|j: int| from <= j < i ==> (#[trigger] projects[j]).id != projects[i].id,
    ensures
        project_from(projects, projects[i].id, from) == Some(i),
    decreases i - from,
{
    if from < i {
        assert(projects[from].id != projects[i].id);
        lemma_first_project(projects, from + 1, i);
    }
}

/// A chat that is found is about the project, and one is found if there is any.
proof fn lemma_chat_about(sessions: Seq<Session>, id: Seq<char>, from: int)
    requires
        0 <= from,
    ensures
        match chat_about(sessions, id, from) {
            Some(i) => from <= i < sessions.len() && sessions[i].project_id == id,
            None => forall|i: int|
                from <= i < sessions.len() ==> (#[trigger] sessions[i]).project_id != id,
        },
    decreases sessions.len() - from,
{
    if from < sessions.len() && sessions[from].project_id != id {
        lemma_chat_about(sessions, id, from + 1);
    }
}

/// A new project is called as the user asked, or else like its folder, and lies where its folder is; it
/// stands behind the others, is chosen, and a chat about it is shown, as long as its number is new.
#[verifier::rlimit(40)]
pub proof fn new_projects_are_as_asked(
    p: Program,
    folder: Option<Seq<char>>,
    path: Seq<char>,
    millis: u128,
    now: u64,
)
    requires
        forall|i: int|
            0 <= i < p.projects.len() ==> (#[trigger] p.projects[i]).id != "project-"@ + decimal(
                millis as nat,
            ),
    ensures
        ({
            let t = p.with_project(folder, path, millis, now);
            let added = t.projects.last();
            &&& t.projects.drop_last() == p.projects
            &&& added.path == path
            &&& trimmed(p.new_project_name).len() > 0 ==> added.name == trimmed(p.new_project_name)
            &&& trimmed(p.new_project_name).len() == 0 ==> (folder matches Some(f) ==> added.name == f)
            &&& t.active_project_id == added.id
            &&& t.project_dir == path
            &&& t.sessions.len() == p.sessions.len() + 1
            &&& t.sessions.skip(1) == p.sessions
            &&& t.sessions[0].project_id == added.id
            &&& t.sessions[0].project_dir == path
            &&& t.active_index() == Some(0int)
        }),
{
    let t = p.with_project(folder, path, millis, now);
    let n = p.projects.len() as int;
    let added = t.projects[n];
    assert(t.projects.drop_last() =~= p.projects);
    assert forall|j: int| 0 <= j < n implies (#[trigger] t.projects[j]).id != added.id by {
        assert(t.projects[j] == p.projects[j]);
    }
    lemma_first_project(t.projects, 0, n);
    assert(t.sessions.skip(1) =~= p.sessions);
}

/// A new project gets the folder that the user gave, quotes around it or not, and without one a folder
/// called like the project; nothing happens while a run is going on, or without name and folder.
pub proof fn projects_get_the_folder_that_was_given(p: Program, path: Seq<char>, name: Seq<char>)
    requires
        path.len() > 0 ==> !is_space(path[0]) && !is_space(path.last()) && path[0] != '"'
            && path.last() != '"',
        name.len() > 0 ==> !is_space(name[0]) && !is_space(name.last()),
    ensures
        p.busy ==> p.project_plan() is Wait,
        !p.busy && path.len() > 0 && (p.new_project_path == path || p.new_project_path == seq!['"']
            + path + seq!['"']) ==> p.project_plan() == ProjectPlan::At(path),
        !p.busy && p.new_project_path.len() == 0 && name.len() > 0 && p.new_project_name == name
            ==> p.project_plan() == ProjectPlan::InCurrentFolder(folder_name(name)),
        !p.busy && p.new_project_path.len() == 0 && p.new_project_name.len() == 0
            ==> p.project_plan() is Incomplete,
{
    let quote = seq!['"'];
    let quoted = quote + path + quote;
    lemma_trimmed_bare(path, CharClass::Space);
    lemma_trimmed_bare(path, CharClass::Quote);
    assert(quoted[0] == '"' && quoted.last() == '"');
    lemma_trimmed_bare(quoted, CharClass::Space);
    only_the_edges_are_trimmed(quote, path, quote, CharClass::Quote);
    lemma_trimmed_bare(name, CharClass::Space);
    let none = Seq::<char>::empty();
    lemma_trimmed_bare(none, CharClass::Space);
    lemma_trimmed_bare(none, CharClass::Quote);
    if p.new_project_path.len() == 0 {
        assert(p.new_project_path =~= none);
    }
    if p.new_project_name.len() == 0 {
        assert(p.new_project_name =~= none);
    }
}

/// Removing a block leaves every other block, and every connection that does not touch it, and adds
/// none; where no block is selected, nothing is removed.
pub proof fn other_blocks_stay(p: Program, i: int)
    ensures
        p.selected_block_id is None ==> p.without_block() == p,
        p.selected_block_id matches Some(id) ==> {
            let g = p.without_block().graph;
            &&& 0 <= i < p.graph.blocks.len() && p.graph.blocks[i].id != id ==> g.blocks.contains(
                p.graph.blocks[i],
            )
            &&& 0 <= i < g.blocks.len() ==> p.graph.blocks.contains(g.blocks[i])
            &&& 0 <= i < p.graph.links.len() && p.graph.links[i].from != id && p.graph.links[i].to
                != id ==> g.links.contains(p.graph.links[i])
            &&& 0 <= i < g.links.len() ==> p.graph.links.contains(g.links[i])
            &&& g.next_id == p.graph.next_id
        },
        p.without_block().sessions == p.sessions,
{
    match p.selected_block_id {
        Some(id) => {
            let g = p.without_block().graph;
            let fb = |b: Block| b.id != id;
            let fl = |l: Link| l.from != id && l.to != id;
            if 0 <= i < p.graph.blocks.len() && p.graph.blocks[i].id != id {
                p.graph.blocks.lemma_filter_contains(fb, i);
            }
            if 0 <= i < p.graph.links.len() && p.graph.links[i].from != id && p.graph.links[i].to
                != id {
                p.graph.links.lemma_filter_contains(fl, i);
            }
            if 0 <= i < g.blocks.len() {
                p.graph.blocks.lemma_filter_contains_rev(fb, g.blocks[i]);
            }
            if 0 <= i < g.links.len() {
                p.graph.links.lemma_filter_contains_rev(fl, g.links[i]);
            }
        },
        None => {},
    }
}

/// A block that is added stands behind the others, of the kind and at the place that was asked for, and
/// is selected; nothing else in the graph changes.
pub proof fn added_blocks_stand_last(p: Program, kind: AgentBlockKind, x: u32, y: u32)
    requires
        p.graph.next_id < u64::MAX,
    ensures
        ({
            let t = p.with_block(kind, x, y);
            let b = t.graph.blocks.last();
            &&& t.graph.blocks.drop_last() == p.graph.blocks
            &&& b.kind == kind && b.x == x && b.y == y
            &&& t.selected_block_id == Some(b.id)
            &&& t.graph.next_id > b.id
            &&& t.graph.links == p.graph.links
        }),
{
    assert(p.with_block(kind, x, y).graph.blocks.drop_last() =~= p.graph.blocks);
}

/// Two clicks connect: a connection that is begun at one block and ended at another joins the two,
/// in that direction, unless they are joined already, and everything else in the graph stays.
pub proof fn two_clicks_connect(p: Program, from: u64, to: u64, beside: bool)
    requires
        from != to,
    ensures
        ({
            let begun = p.after_canvas(Some(from), None, None, beside);
            let clicked = begun.after_canvas(None, None, Some(to), beside);
            let released = begun.after_canvas(None, Some(to), Some(from), beside);
            &&& begun.connecting_from == Some(from)
            &&& begun.graph == p.graph
            &&& has_link(clicked.graph.links, from, to)
            &&& has_link(p.graph.links, from, to) ==> clicked.graph == p.graph
            &&& !has_link(p.graph.links, from, to) ==> clicked.graph.links.drop_last()
                == p.graph.links && clicked.graph.links.last().from == from
                && clicked.graph.links.last().to == to
            &&& clicked.graph.blocks == p.graph.blocks
            &&& clicked.connecting_from is None
            &&& clicked.selected_block_id == Some(to)
            &&& released == clicked
        }),
        p.connecting_from is None ==> p.touching(to).graph == p.graph,
        p.after_canvas(None, None, None, true).selected_block_id is None,
        p.after_canvas(None, None, None, true).graph == p.graph,
        p.after_canvas(None, None, None, false) == p,
{
    let begun = p.after_canvas(Some(from), None, None, beside);
    let clicked = begun.after_canvas(None, None, Some(to), beside);
    if !has_link(p.graph.links, from, to) {
        let n = p.graph.links.len() as int;
        assert(clicked.graph.links[n].from == from && clicked.graph.links[n].to == to);
        assert(clicked.graph.links.drop_last() =~= p.graph.links);
    }
}

/// A folder that is dropped on the window is taken for a new project, a file is named in the message
/// behind what was typed; either is noted.
pub proof fn dropped_paths_are_taken(p: Program, path: Seq<char>, now: u64)
    ensures
        p.with_dropped(path, true, now).new_project_path == path,
        p.with_dropped(path, true, now).input == p.input,
        p.with_dropped(path, false, now).new_project_path == p.new_project_path,
        begins(p.with_dropped(path, false, now).input, p.input),
        ends(p.with_dropped(path, false, now).input, "Attached file: "@ + path),
        p.with_dropped(path, false, now).dropped_files == p.dropped_files.push(path),
        p.with_dropped(path, true, now).dropped_files == p.dropped_files.push(path),
        p.with_dropped(path, false, now).sessions == p.sessions,
{
    let t = p.with_dropped(path, false, now).input;
    let note = "Attached file: "@ + path;
    assert(t.subrange(0, p.input.len() as int) =~= p.input);
    assert(t.subrange(t.len() - note.len(), t.len() as int) =~= note);
}

/// The chats that are listed are those about the chosen project, each by its number and title, and no
/// others.
pub proof fn chats_are_listed_by_project(p: Program, i: int)
    ensures
        0 <= i < p.sessions.len() && p.sessions[i].project_id == p.active_project_id
            ==> p.listed_chats().contains((p.sessions[i].id, p.sessions[i].title)),
        0 <= i < p.listed_chats().len() ==> exists|k: int|
            0 <= k < p.sessions.len() && (#[trigger] p.sessions[k]).project_id == p.active_project_id
                && p.listed_chats()[i] == (p.sessions[k].id, p.sessions[k].title),
{
    let project = p.active_project_id;
    let f = |s: Session| s.project_id == project;
    let kept = p.sessions.filter(f);
    if 0 <= i < p.sessions.len() && p.sessions[i].project_id == project {
        p.sessions.lemma_filter_contains(f, i);
        let k = choose|k: int| 0 <= k < kept.len() && kept[k] == p.sessions[i];
        assert(p.listed_chats()[k] == (p.sessions[i].id, p.sessions[i].title));
    }
    if 0 <= i < p.listed_chats().len() {
        p.sessions.lemma_filter_pred(f, i);
        p.sessions.lemma_filter_contains_rev(f, kept[i]);
        let k = choose|k: int| 0 <= k < p.sessions.len() && p.sessions[k] == kept[i];
        assert(p.sessions[k].project_id == project);
    }
}

/// Sending takes the message out of the field and gives a chat without a title of its own one from
/// the message; a chat that was named keeps its name; and the log only grows.
#[verifier::rlimit(40)]
pub proof fn sending_takes_the_message(p: Program, answer: Seq<char>, millis: u128, now: u64)
    requires
        p.can_chat(),
        p.can_send(),
    ensures
        ({
            let open = p.with_chat(millis, now);
            let i = open.chat_index();
            let sent = p.sending(millis, now);
            let told = p.answered(answer, millis, now);
            &&& sent.input.len() == 0
            &&& sent.sessions[i].id == open.sessions[i].id
            &&& sent.sessions[i].project_dir == open.sessions[i].project_dir
            &&& open.sessions[i].title == "New task"@ ==> sent.sessions[i].title == chat_title(
                p.message(),
            )
            &&& open.sessions[i].title != "New task"@ && open.sessions[i].title != "Neue Task"@
                ==> sent.sessions[i].title == open.sessions[i].title
            &&& told.sessions[i].title == open.sessions[i].title
            &&& p.log.is_prefix_of(sent.log)
            &&& !told.busy
            &&& told.active_run_id == p.active_run_id
            &&& p.active_run_id < u64::MAX ==> sent.active_run_id == p.active_run_id + 1
            &&& sent.graph == p.graph
            &&& told.graph == p.graph
        }),
{
    reveal_strlit("");
    there_is_always_a_chat(p, millis, now);
    let open = p.with_chat(millis, now);
    let typed = Program { input: ""@, ..p }.with_chat(millis, now);
    let idle = Program { busy: false, ..p }.with_chat(millis, now);
    assert(typed.sessions == open.sessions && typed.chat_index() == open.chat_index());
    assert(idle.sessions == open.sessions && idle.chat_index() == open.chat_index());
}

/// A run works on the message as it was typed, without the white space around it, in the folder of the
/// chat that the message stands in, with the settings of the window: numbers count as they are typed
/// where they are allowed. A file that the message names is the one that the run is about.
#[verifier::rlimit(40)]
pub proof fn runs_work_on_the_message(p: Program, millis: u128, now: u64, limit: nat, agents: nat)
    requires
        p.can_chat(),
        p.can_send(),
    ensures
        ({
            let r = p.settings(millis, now);
            let open = p.with_chat(millis, now);
            &&& r.user_request == trimmed(p.input)
            &&& r.project_dir == open.sessions[open.chat_index()].project_dir
            &&& r.model == p.model
            &&& r.terminal_cmd == p.terminal_cmd
            &&& r.auto_apply == p.auto_apply_actions
            &&& r.run_tests == p.run_tests_after_apply
            &&& r.show_progress == p.show_agent_progress
            &&& requested_path(trimmed(p.input)) is Some ==> r.last_file == requested_path(
                trimmed(p.input),
            )
            &&& 4000 <= limit <= 200000 && p.context_limit == decimal(limit) ==> r.context_limit
                == limit
            &&& 1 <= agents <= 6 && p.max_parallel_agents == decimal(agents) ==> r.max_agents
                == agents
        }),
{
    there_is_always_a_chat(p, millis, now);
    let open = p.with_chat(millis, now);
    let i = open.chat_index();
    let typed = Program { input: ""@, ..p }.with_chat(millis, now);
    assert(typed.sessions == open.sessions && typed.chat_index() == i);
    let sent = p.sending(millis, now);
    let chat = titled(with_message(open.sessions[i], "You"@, p.message(), now), p.message());
    assert(sent.sessions == open.sessions.update(i, chat));
    lemma_session_from(open.sessions, open.active_session_id, 0);
    lemma_update_keeps_active(open, i, chat);
    assert(sent.chat_index() == i);
    assert(chat.messages.last().text == p.message());
    let none = Seq::<char>::empty();
    if limit <= 200000 {
        fields_are_kept_between_their_bounds(none, limit, none, 50000, 4000, 200000);
        assert(none + decimal(limit) + none =~= decimal(limit));
    }
    if agents <= 6 {
        fields_are_kept_between_their_bounds(none, agents, none, 2, 1, 6);
        assert(none + decimal(agents) + none =~= decimal(agents));
    }
}

/// A new chat is about its project and lies in its folder, bears no title of its own yet, and begins
/// with a greeting; and a chat is begun once the user said something in it.
pub proof fn new_chats_begin_with_a_greeting(p: Program, project: Project, millis: u128, now: u64, i: int)
    ensures
        ({
            let s = new_session(project, millis, now);
            &&& s.project_id == project.id
            &&& s.project_dir == project.path
            &&& s.title == "New task"@
            &&& s.messages.len() == 1
            &&& s.messages[0].who == "Assistant"@
            &&& s.updated_at == now
        }),
        p.active_index() matches Some(k) ==> 0 <= i < p.sessions[k].messages.len() && (
        p.sessions[k].messages[i].who == "You"@ || p.sessions[k].messages[i].who == "Du"@)
            ==> p.started(),
        p.active_index() matches Some(k) ==> (forall|j: int|
            0 <= j < p.sessions[k].messages.len() ==> (#[trigger] p.sessions[k].messages[j]).who
                != "You"@ && p.sessions[k].messages[j].who != "Du"@) ==> !p.started(),
{
    if p.active_index() is Some {
        let k = p.active_index()->0;
        if 0 <= i < p.sessions[k].messages.len() && (p.sessions[k].messages[i].who == "You"@
            || p.sessions[k].messages[i].who == "Du"@) {
            assert(from_user(p.sessions[k].messages[i]));
        }
    }
}

/// A graph that was read takes the place of the one that was there, set in order; one that could not be
/// read leaves it alone, and it is said why; and a connection that is removed is the only one that goes.
pub proof fn graphs_are_taken_over_whole(p: Program, parsed: Result<AgentGraph, String>, i: int, j: int)
    ensures
        parsed matches Ok(g) ==> p.importing(parsed).graph == g@.normal(),
        parsed matches Err(e) ==> p.importing(parsed).graph == p.graph && ends(
            p.importing(parsed).graph_status,
            e@,
        ),
        p.importing(parsed).sessions == p.sessions,
        0 <= i < p.graph.links.len() ==> {
            let t = p.without_link(i).graph;
            &&& t.links.len() == p.graph.links.len() - 1
            &&& 0 <= j < i ==> t.links[j] == p.graph.links[j]
            &&& i <= j < t.links.len() ==> t.links[j] == p.graph.links[j + 1]
            &&& t.blocks == p.graph.blocks
        },
{
    match parsed {
        Err(e) => {
            let s = p.importing(parsed).graph_status;
            assert(s.subrange(s.len() - e@.len(), s.len() as int) =~= e@);
        },
        Ok(_) => {},
    }
}

/// A block is called by its title, and a block that is not there by its number.
pub proof fn blocks_are_called_by_their_titles(blocks: Seq<Block>, id: u64, from: int, i: int)
    requires
        0 <= from <= i,
        forall|j: int| from <= j < i && j < blocks.len() ==> (#[trigger] blocks[j]).id != id,
    ensures
        i < blocks.len() && blocks[i].id == id ==> target_name(blocks, id, from) == blocks[i].title,
        i >= blocks.len() ==> target_name(blocks, id, from) == "Block "@ + decimal(id as nat),
    decreases i - from,
{
    if from < i && from < blocks.len() {
        assert(blocks[from].id != id);
        blocks_are_called_by_their_titles(blocks, id, from + 1, i);
    }
}

/// The log keeps what it holds, and every new line stands last in it, with the time before it; many
/// lines are added one by one.
pub proof fn the_log_only_grows(p: Program, lines: Seq<Seq<char>>, line: Seq<char>, now: u64)
    ensures
        p.logging(now, line).log.drop_last() == p.log,
        ends(p.logging(now, line).log.last(), line),
        begins(p.logging(now, line).log.last(), "["@ + clock_text(now as nat) + "]"@),
        p.logging_all(lines.push(line), now) == p.logging_all(lines, now).logging(now, line),
        p.logging_all(Seq::empty(), now) == p,
        p.logging_all(lines, now).log.len() == p.log.len() + lines.len(),
        p.logging_all(lines, now).sessions == p.sessions,
    decreases lines.len(),
{
    let last = p.logging(now, line).log.last();
    let front = "["@ + clock_text(now as nat) + "]"@;
    assert(p.logging(now, line).log.drop_last() =~= p.log);
    assert(last.subrange(last.len() - line.len(), last.len() as int) =~= line);
    reveal_strlit("] ");
    reveal_strlit("]");
    assert(last.subrange(0, front.len() as int) =~= front);
    assert(lines.push(line).drop_last() =~= lines);
    if lines.len() > 0 {
        the_log_only_grows(p, lines.drop_last(), lines.last(), now);
    }
}

/// All connections of a graph join two different blocks of it.
pub open spec fn whole(g: Graph) -> bool {
    forall|i: int| 0 <= i < g.links.len() ==> g.joins(#[trigger] g.links[i])
}

/// Adding, connecting and removing blocks never leaves a connection without its blocks.
pub proof fn graphs_stay_whole(p: Program, kind: AgentBlockKind, x: u32, y: u32, block: u64)
    requires
        whole(p.graph),
        has_id(p.graph.blocks, block),
        p.connecting_from matches Some(from) ==> has_id(p.graph.blocks, from),
    ensures
        whole(p.with_block(kind, x, y).graph),
        whole(p.touching(block).graph),
        whole(p.without_block().graph),
{
    let added = p.with_block(kind, x, y).graph;
    assert forall|i: int| 0 <= i < added.links.len() implies added.joins(
        #[trigger] added.links[i],
    ) by {
        let l = added.links[i];
        assert(p.graph.joins(p.graph.links[i]));
        lemma_push_keeps_id(p.graph.blocks, added.blocks.last(), l.from);
        lemma_push_keeps_id(p.graph.blocks, added.blocks.last(), l.to);
    }
    let drawn = p.touching(block).graph;
    assert forall|i: int| 0 <= i < drawn.links.len() implies drawn.joins(
        #[trigger] drawn.links[i],
    ) by {
        if i < p.graph.links.len() {
            assert(p.graph.joins(p.graph.links[i]));
        }
    }
    if p.selected_block_id is Some {
        let id = p.selected_block_id->0;
        let left = p.without_block().graph;
        let fl = |l: Link| l.from != id && l.to != id;
        assert forall|i: int| 0 <= i < left.links.len() implies left.joins(
            #[trigger] left.links[i],
        ) by {
            let l = left.links[i];
            p.graph.links.lemma_filter_pred(fl, i);
            p.graph.links.lemma_filter_contains_rev(fl, l);
            let k = choose|k: int| 0 <= k < p.graph.links.len() && p.graph.links[k] == l;
            assert(p.graph.joins(p.graph.links[k]));
            lemma_filter_keeps_id(p.graph.blocks, id, l.from);
            lemma_filter_keeps_id(p.graph.blocks, id, l.to);
        }
    }
}

/// A block that is there stays there when another one is added.
proof fn lemma_push_keeps_id(blocks: Seq<Block>, b: Block, id: u64)
    requires
        has_id(blocks, id),
    ensures
        has_id(blocks.push(b), id),
{
    let i = choose|i: int| 0 <= i < blocks.len() && (#[trigger] blocks[i]).id == id;
    assert(blocks.push(b)[i].id == id);
}

/// A block that is there stays there when another one is removed.
proof fn lemma_filter_keeps_id(blocks: Seq<Block>, gone: u64, id: u64)
    requires
        has_id(blocks, id),
        id != gone,
    ensures
        has_id(blocks.filter(|b: Block| b.id != gone), id),
{
    let f = |b: Block| b.id != gone;
    let i = choose|i: int| 0 <= i < blocks.len() && (#[trigger] blocks[i]).id == id;
    blocks.lemma_filter_contains(f, i);
    let kept = blocks.filter(f);
    let k = choose|k: int| 0 <= k < kept.len() && kept[k] == blocks[i];
    assert(kept[k].id == id);
}

/// Removing a block leaves neither the block nor a connection from it or to it.
pub proof fn removed_blocks_leave_nothing_behind(p: Program, id: u64)
    requires
        p.selected_block_id == Some(id),
    ensures
        !has_id(p.without_block().graph.blocks, id),
        forall|i: int| 0 <= i < p.without_block().graph.links.len() ==> ({
            let l = #[trigger] p.without_block().graph.links[i];
            l.from != id && l.to != id
        }),
{
    let g = p.without_block().graph;
    let fb = |b: Block| b.id != id;
    let fl = |l: Link| l.from != id && l.to != id;
    if has_id(g.blocks, id) {
        let i = choose|i: int| 0 <= i < g.blocks.len() && (#[trigger] g.blocks[i]).id == id;
        p.graph.blocks.lemma_filter_pred(fb, i);
    }
    assert forall|i: int| 0 <= i < g.links.len() implies ({
        let l = #[trigger] g.links[i];
        l.from != id && l.to != id
    }) by {
        p.graph.links.lemma_filter_pred(fl, i);
    }
}

/// No two connections join the same blocks in the same direction.
pub open spec fn no_double_links(g: Graph) -> bool {
    forall|i: int, j: int|
        0 <= i < j < g.links.len() ==> !((#[trigger] g.links[i]).from == (
        #[trigger] g.links[j]).from && g.links[i].to == g.links[j].to)
}

/// Touching a block never draws a connection twice, nor one from a block to itself.
pub proof fn connections_are_drawn_once(p: Program, block: u64)
    requires
        no_double_links(p.graph),
    ensures
        no_double_links(p.touching(block).graph),
        forall|i: int|
            p.graph.links.len() <= i < p.touching(block).graph.links.len() ==> (
            #[trigger] p.touching(block).graph.links[i]).from != p.touching(block).graph.links[i].to,
{
    let g = p.touching(block).graph;
    if p.can_connect(block) {
        let from = p.connecting_from->0;
        assert forall|i: int, j: int| 0 <= i < j < g.links.len() implies !((
        #[trigger] g.links[i]).from == (#[trigger] g.links[j]).from && g.links[i].to
            == g.links[j].to) by {
            assert(g.links[i] == p.graph.links[i]);
            if j < p.graph.links.len() {
                assert(g.links[j] == p.graph.links[j]);
            } else if g.links[i].from == from && g.links[i].to == block {
                assert(has_link(p.graph.links, from, block));
            }
        }
    }
}

/// A new block has a number that no other block has, as long as the next number is above all.
pub proof fn new_blocks_have_their_own_numbers(p: Program, kind: AgentBlockKind, x: u32, y: u32)
    requires
        p.graph.next_id < u64::MAX,
        forall|i: int|
            0 <= i < p.graph.blocks.len() ==> (#[trigger] p.graph.blocks[i]).id < p.graph.next_id,
    ensures
        !has_id(p.graph.blocks, p.with_block(kind, x, y).selected_block_id->0),
        forall|i: int|
            0 <= i < p.with_block(kind, x, y).graph.blocks.len() ==> (
            #[trigger] p.with_block(kind, x, y).graph.blocks[i]).id < p.with_block(
                kind,
                x,
                y,
            ).graph.next_id,
{
}

// ---------------------------------------------------------------------------------------------
// Functions
// ---------------------------------------------------------------------------------------------

/// What is to become of a new project.
#[derive(Debug)]
pub enum ProjectPlan<T> {
    /// Nothing: a run is going on.
    Wait,
    /// Neither name nor folder is given.
    Incomplete,
    /// It gets a folder of this name in the current folder.
    InCurrentFolder(T),
    /// It has this folder.
    At(T),
}

impl View for ProjectPlan<String> {
    type V = ProjectPlan<Seq<char>>;

    open spec fn view(&self) -> ProjectPlan<Seq<char>> {
        match self {
            ProjectPlan::Wait => ProjectPlan::Wait,
            ProjectPlan::Incomplete => ProjectPlan::Incomplete,
            ProjectPlan::InCurrentFolder(name) => ProjectPlan::InCurrentFolder(name@),
            ProjectPlan::At(path) => ProjectPlan::At(path@),
        }
    }
}

impl LocalAiApp {
    /// The program with a state that was kept, before anything is shown.
    pub fn new(state: SavedState, fallback_dir: String, ollama_path: String, python_code: String) -> (r:
        LocalAiApp)
        ensures
            r@ == (Program {
                project_dir: match project_from(
                    state@.projects,
                    state@.active_project_id,
                    0,
                ) {
                    Some(i) => state@.projects[i].path,
                    None => fallback_dir@,
                },
                terminal_cmd: "cargo check"@,
                context_limit: "50000"@,
                ollama_path: ollama_path@,
                model: crate::models::DEFAULT_AGENT_MODEL@,
                input: ""@,
                projects: state@.projects,
                sessions: state@.sessions,
                active_project_id: state@.active_project_id,
                active_session_id: state@.active_session_id,
                new_project_name: ""@,
                new_project_path: ""@,
                graph: state@.graph,
                active_view: AppView::Chat,
                selected_block_id: None,
                connecting_from: None,
                show_python_code: false,
                python_code: python_code@,
                graph_status: "Agent graph ready."@,
                log: Seq::empty(),
                dropped_files: Seq::empty(),
                busy: false,
                active_run_id: 0,
                show_agent_progress: true,
                auto_apply_actions: true,
                run_tests_after_apply: false,
                max_parallel_agents: "6"@,
            }),
            r@.kept() == state@,
    {
        let project_dir = match find_project(&state.projects, state.active_project_id.as_str()) {
            Some(i) => {
                assert(state@.projects[i as int] == state.projects@[i as int]@);
                state.projects[i].path.as_str().to_owned()
            },
            None => fallback_dir,
        };
        let log: Vec<String> = Vec::new();
        let dropped_files: Vec<String> = Vec::new();
        assert(texts(log@) =~= Seq::<Seq<char>>::empty());
        assert(texts(dropped_files@) =~= Seq::<Seq<char>>::empty());
        LocalAiApp {
            project_dir,
            terminal_cmd: "cargo check".to_owned(),
            context_limit: "50000".to_owned(),
            ollama_path,
            model: crate::models::DEFAULT_AGENT_MODEL.to_owned(),
            input: "".to_owned(),
            projects: state.projects,
            sessions: state.sessions,
            active_project_id: state.active_project_id,
            active_session_id: state.active_session_id,
            new_project_name: "".to_owned(),
            new_project_path: "".to_owned(),
            agent_graph: state.agent_graph,
            active_view: AppView::Chat,
            selected_block_id: None,
            connecting_from: None,
            show_python_code: false,
            python_code,
            graph_status: "Agent graph ready.".to_owned(),
            log,
            dropped_files,
            busy: false,
            active_run_id: 0,
            show_agent_progress: true,
            auto_apply_actions: true,
            run_tests_after_apply: false,
            max_parallel_agents: "6".to_owned(),
        }
    }

    /// The part of the state that is kept.
    pub fn saved_state(&self) -> (r: SavedState)
        ensures
            r@.projects == self@.projects,
            r@.sessions == self@.sessions,
            r@.active_project_id == self@.active_project_id,
            r@.active_session_id == self@.active_session_id,
            r@.graph == self@.graph,
            r@ == self@.kept(),
    {
        let n: usize = self.projects.len();
        let mut projects: Vec<ProjectEntry> = Vec::new();
        let mut i: usize = 0;
        while i < n
            invariant
                i <= n == self.projects@.len(),
                projects@.len() == i,
                forall|k: int| 0 <= k < i ==> (#[trigger] projects@[k])@ == self.projects@[k]@,
            decreases n - i,
        {
            projects.push(self.projects[i].copy());
            i += 1;
        }
        let m: usize = self.sessions.len();
        let mut sessions: Vec<ChatSession> = Vec::new();
        let mut j: usize = 0;
        while j < m
            invariant
                j <= m == self.sessions@.len(),
                sessions@.len() == j,
                forall|k: int| 0 <= k < j ==> (#[trigger] sessions@[k])@ == self.sessions@[k]@,
            decreases m - j,
        {
            sessions.push(self.sessions[j].copy());
            j += 1;
        }
        assert(projects_view(projects@) =~= self@.projects);
        assert(sessions_view(sessions@) =~= self@.sessions);
        SavedState {
            projects,
            sessions,
            active_project_id: self.active_project_id.as_str().to_owned(),
            active_session_id: self.active_session_id.as_str().to_owned(),
            agent_graph: self.agent_graph.copy(),
        }
    }

    /// Adds a line to the log, with the time of day.
    pub fn log(&mut self, now_secs: u64, message: &str)
        ensures
            final(self)@ == old(self)@.logging(now_secs, message@),
    {
        let line = cat4("[", now_hhmmss(now_secs).as_str(), "] ", message);
        self.log.push(line);
        assert(texts(self.log@) =~= texts(old(self).log@).push(line@));
    }

    /// The number of the chat that is shown.
    pub fn active_session_index(&self) -> (r: Option<usize>)
        ensures
            match r {
                Some(i) => self@.active_index() == Some(i as int) && i < self.sessions@.len(),
                None => self@.active_index() is None,
            },
    {
        find_session(&self.sessions, self.active_session_id.as_str())
    }

    /// The chat that is shown.
    pub fn active_session(&self) -> (r: Option<&ChatSession>)
        ensures
            match r {
                Some(s) => self@.active_index() is Some && *s
                    == self.sessions@[self@.active_index()->0],
                None => self@.active_index() is None,
            },
    {
        match self.active_session_index() {
            Some(i) => Some(&self.sessions[i]),
            None => None,
        }
    }

    /// Opens a new chat about the chosen project, or about the first one.
    pub fn create_session_for_active_project(&mut self, millis: u128, now_secs: u64)
        ensures
            final(self)@ == old(self)@.with_new_chat(millis, now_secs),
    {
        let ghost start = self@;
        let count: usize = self.projects.len();
        assert(start.projects.len() == count);
        if count == 0 {
            return;
        }
        let k: usize = match find_project(&self.projects, self.active_project_id.as_str()) {
            Some(i) => i,
            None => 0,
        };
        assert(start.chat_project() == self.projects@[k as int]@);
        let project = self.projects[k].copy();
        let id = cat2("chat-", to_decimal(millis).as_str());
        let mut messages: Vec<ChatMsg> = Vec::new();
        messages.push(welcome_message());
        assert(messages_view(messages@) =~= seq![welcome()]);
        let session = ChatSession {
            id: id.as_str().to_owned(),
            title: "New task".to_owned(),
            project_id: project.id.as_str().to_owned(),
            project_dir: project.path.as_str().to_owned(),
            messages,
            updated_at: now_secs,
        };
        let ghost added = session@;
        self.active_project_id = project.id;
        self.active_session_id = id;
        self.project_dir = project.path;
        self.new_project_path = "".to_owned();
        self.sessions.insert(0, session);
        assert(sessions_view(self.sessions@) =~= start.sessions.insert(0, added));
    }

    /// The number of the chat that is written into, after opening one where none is shown.
    pub fn ensure_active_session_index(&mut self, millis: u128, now_secs: u64) -> (r: usize)
        ensures
            final(self)@ == old(self)@.with_chat(millis, now_secs),
            r == final(self)@.chat_index(),
            old(self)@.can_chat() ==> r < final(self).sessions@.len(),
    {
        proof {
            if self@.can_chat() {
                there_is_always_a_chat(self@, millis, now_secs);
            }
        }
        match self.active_session_index() {
            Some(i) => i,
            None => {
                proof {
                    if self@.wf() {
                        lemma_new_chat_is_found(self@, millis, now_secs);
                    }
                }
                self.create_session_for_active_project(millis, now_secs);
                0
            },
        }
    }

    /// Shows another chat. Whether anything was to be kept is the result.
    pub fn set_active_session(&mut self, session_id: &str) -> (r: bool)
        ensures
            final(self)@ == old(self)@.showing_chat(session_id@),
            r == (!old(self)@.busy && session_from(
                old(self)@.sessions,
                session_id@,
                0,
            ) is Some),
    {
        if self.busy {
            return false;
        }
        match find_session(&self.sessions, session_id) {
            Some(i) => {
                assert(self@.sessions[i as int] == self.sessions@[i as int]@);
                self.active_session_id = self.sessions[i].id.as_str().to_owned();
                self.active_project_id = self.sessions[i].project_id.as_str().to_owned();
                self.project_dir = self.sessions[i].project_dir.as_str().to_owned();
                self.new_project_path = "".to_owned();
                true
            },
            None => false,
        }
    }

    /// Chooses another project. Whether anything was to be kept is the result.
    pub fn set_active_project(&mut self, project_id: &str, millis: u128, now_secs: u64) -> (r: bool)
        ensures
            final(self)@ == old(self)@.choosing_project(project_id@, millis, now_secs),
            r == (!old(self)@.busy && project_from(
                old(self)@.projects,
                project_id@,
                0,
            ) is Some),
    {
        if self.busy {
            return false;
        }
        match find_project(&self.projects, project_id) {
            Some(i) => {
                assert(self@.projects[i as int] == self.projects@[i as int]@);
                self.active_project_id = self.projects[i].id.as_str().to_owned();
                self.project_dir = self.projects[i].path.as_str().to_owned();
                self.new_project_path = "".to_owned();
                match find_chat_about(&self.sessions, self.active_project_id.as_str()) {
                    Some(k) => {
                        assert(self@.sessions[k as int] == self.sessions@[k as int]@);
                        self.active_session_id = self.sessions[k].id.as_str().to_owned();
                    },
                    None => {
                        self.create_session_for_active_project(millis, now_secs);
                    },
                }
                true
            },
            None => false,
        }
    }

    /// What is to become of a new project.
    pub fn create_project_from_fields(&self) -> (r: ProjectPlan<String>)
        ensures
            r@ == self@.project_plan(),
            r@ == if self@.busy {
                ProjectPlan::Wait
            } else if self@.requested_path().len() > 0 {
                ProjectPlan::At(self@.requested_path())
            } else if self@.requested_name().len() > 0 {
                ProjectPlan::InCurrentFolder(folder_name(self@.requested_name()))
            } else {
                ProjectPlan::Incomplete
            },
    {
        if self.busy {
            return ProjectPlan::Wait;
        }
        let name = trim(self.new_project_name.as_str());
        let path = trim_by(trim(self.new_project_path.as_str()), CharClass::Quote);
        if !path.is_empty() {
            ProjectPlan::At(path.to_owned())
        } else if !name.is_empty() {
            ProjectPlan::InCurrentFolder(sanitize_project_folder_name(name))
        } else {
            ProjectPlan::Incomplete
        }
    }

    /// Adds a project whose folder is there, given the name of the folder, if it has one, and how
    /// its path is shown.
    pub fn add_project(
        &mut self,
        folder: Option<String>,
        path: String,
        millis: u128,
        now_secs: u64,
    )
        ensures
            final(self)@ == old(self)@.with_project(opt_text(folder), path@, millis, now_secs),
    {
        let ghost start = self@;
        let asked = trim(self.new_project_name.as_str());
        let name = if !asked.is_empty() {
            asked.to_owned()
        } else {
            match folder {
                Some(f) => f,
                None => "Project".to_owned(),
            }
        };
        let id = cat2("project-", to_decimal(millis).as_str());
        let line = cat5("Project added: ", name.as_str(), " (", path.as_str(), ")");
        let project = ProjectEntry {
            id: id.as_str().to_owned(),
            name,
            path: path.as_str().to_owned(),
        };
        let ghost added = project@;
        self.projects.push(project);
        assert(projects_view(self.projects@) =~= start.projects.push(added));
        self.active_project_id = id;
        self.project_dir = path;
        self.new_project_name = "".to_owned();
        self.new_project_path = "".to_owned();
        self.create_session_for_active_project(millis, now_secs);
        self.log(now_secs, line.as_str());
    }

    /// Takes over a graph that was read from its text, or says why there is none. Whether
    /// anything was to be kept is the result.
    pub fn import_graph_from_python(&mut self, parsed: Result<AgentGraph, String>) -> (r: bool)
        requires
            parsed matches Ok(g) ==> g@.has_room(),
        ensures
            r == (parsed is Ok),
            final(self)@ == old(self)@.importing(parsed),
            final(self)@ == match parsed {
                Ok(g) => Program {
                    graph: g@.normal(),
                    selected_block_id: None,
                    connecting_from: None,
                    graph_status: "Python code was imported into blocks."@,
                    ..old(self)@
                },
                Err(e) => Program {
                    graph_status: "Code could not be imported: "@ + e@,
                    ..old(self)@
                },
            },
    {
        match parsed {
            Ok(g) => {
                let mut graph = g;
                normalize_agent_graph(&mut graph);
                self.agent_graph = graph;
                self.selected_block_id = None;
                self.connecting_from = None;
                self.graph_status = "Python code was imported into blocks.".to_owned();
                true
            },
            Err(e) => {
                self.graph_status = cat2("Code could not be imported: ", e.as_str());
                false
            },
        }
    }

    /// Adds a block at the given place and selects it.
    pub fn add_agent_block(&mut self, kind: AgentBlockKind, x: u32, y: u32)
        requires
            old(self)@.graph.next_id < u64::MAX,
        ensures
            final(self)@ == old(self)@.with_block(kind, x, y),
    {
        let ghost start = self@;
        let id: u64 = if self.agent_graph.next_id >= 1 {
            self.agent_graph.next_id
        } else {
            1
        };
        self.agent_graph.next_id = id + 1;
        self.agent_graph.blocks.push(default_block_fields(kind, id, x, y));
        self.selected_block_id = Some(id);
        assert(self@.graph.blocks =~= start.graph.blocks.push(new_block(kind, id, x, y)));
    }

    /// Selects a block, and connects it where a connection was begun. Whether the graph changed
    /// is the result.
    pub fn connect_or_select_block(&mut self, block_id: u64) -> (r: bool)
        ensures
            final(self)@ == old(self)@.touching(block_id),
            r == old(self)@.can_connect(block_id),
    {
        let ghost start = self@;
        let mut changed = false;
        if let Some(from) = self.connecting_from {
            if from != block_id && !connection_exists(
                &self.agent_graph.connections,
                from,
                block_id,
            ) {
                self.agent_graph.connections.push(
                    AgentConnection { from, to: block_id, label: "delegiert".to_owned() },
                );
                assert(self@.graph.links =~= start.graph.links.push(
                    Link { from, to: block_id, label: "delegiert"@ },
                ));
                changed = true;
            }
            self.connecting_from = None;
        }
        self.selected_block_id = Some(block_id);
        changed
    }

    /// Removes the selected block and its connections. Whether there was one is the result.
    pub fn remove_selected_block(&mut self) -> (r: bool)
        ensures
            final(self)@ == old(self)@.without_block(),
            r == (old(self)@.selected_block_id is Some),
    {
        let id: u64 = match self.selected_block_id {
            Some(id) => id,
            None => {
                return false;
            },
        };
        self.agent_graph.blocks = other_blocks(&self.agent_graph.blocks, id);
        self.agent_graph.connections = other_connections(&self.agent_graph.connections, id);
        self.selected_block_id = None;
        self.connecting_from = None;
        true
    }

    /// Acts on what the user did on the canvas. Whether the graph changed is the result.
    pub fn act_on_canvas(
        &mut self,
        started: Option<u64>,
        released: Option<u64>,
        clicked: Option<u64>,
        beside: bool,
    ) -> (r: bool)
        ensures
            final(self)@ == old(self)@.after_canvas(started, released, clicked, beside),
            r == (final(self)@.graph.links.len() != old(self)@.graph.links.len()),
    {
        match started {
            Some(id) => {
                self.selected_block_id = Some(id);
                self.connecting_from = Some(id);
                self.graph_status = "Drag or click the target block now.".to_owned();
                false
            },
            None => {
                let touched: Option<u64> = if released.is_some() {
                    released
                } else {
                    clicked
                };
                match touched {
                    Some(id) => self.connect_or_select_block(id),
                    None => {
                        if beside {
                            self.selected_block_id = None;
                            self.connecting_from = None;
                        }
                        false
                    },
                }
            },
        }
    }

    /// Begins a connection at the selected block.
    pub fn start_connection(&mut self, block_id: u64)
        ensures
            final(self)@ == (Program {
                connecting_from: Some(block_id),
                graph_status: "Select the target block for the connection."@,
                ..old(self)@
            }),
    {
        self.connecting_from = Some(block_id);
        self.graph_status = "Select the target block for the connection.".to_owned();
    }

    /// Removes the connection with the given number.
    pub fn remove_connection(&mut self, index: usize)
        requires
            index < old(self)@.graph.links.len(),
        ensures
            final(self)@ == old(self)@.without_link(index as int),
            final(self)@ == (Program {
                graph: Graph {
                    links: old(self)@.graph.links.remove(index as int),
                    ..old(self)@.graph
                },
                ..old(self)@
            }),
    {
        let ghost start = self@;
        assert(self.agent_graph.connections@.len() == start.graph.links.len());
        let _ = self.agent_graph.connections.remove(index);
        assert(self@.graph.links =~= start.graph.links.remove(index as int));
    }

    /// How the block at the end of a connection is called.
    pub fn target_title(&self, id: u64) -> (r: String)
        ensures
            r@ == target_name(self@.graph.blocks, id, 0),
    {
        let n: usize = self.agent_graph.blocks.len();
        let ghost all = self@.graph.blocks;
        let mut i: usize = 0;
        while i < n
            invariant
                i <= n == self.agent_graph.blocks@.len(),
                all == self@.graph.blocks,
                target_name(all, id, 0) == target_name(all, id, i as int),
            decreases n - i,
        {
            assert(all[i as int] == self.agent_graph.blocks@[i as int]@);
            if self.agent_graph.blocks[i].id == id {
                return self.agent_graph.blocks[i].title.as_str().to_owned();
            }
            i += 1;
        }
        cat2("Block ", to_decimal(id as u128).as_str())
    }

    /// Takes in a path that was dropped on the window.
    pub fn drop_path(&mut self, path: &str, is_folder: bool, now_secs: u64)
        ensures
            final(self)@ == old(self)@.with_dropped(path@, is_folder, now_secs),
    {
        let ghost start = self@;
        if is_folder {
            self.new_project_path = path.to_owned();
        } else {
            let mut input: String = self.input.as_str().to_owned();
            if !trim(self.input.as_str()).is_empty() {
                input.append("\n");
            }
            input.append(cat2("Attached file: ", path).as_str());
            self.input = input;
        }
        self.dropped_files.push(path.to_owned());
        assert(texts(self.dropped_files@) =~= start.dropped_files.push(path@));
        self.log(now_secs, cat2("File dropped: ", path).as_str());
    }

    /// The chats about the chosen project: the number and the title of each.
    pub fn listed_chats(&self) -> (r: Vec<(String, String)>)
        ensures
            pairs_view(r@) == self@.listed_chats(),
    {
        let n: usize = self.sessions.len();
        let ghost all = self@.sessions;
        let ghost project = self@.active_project_id;
        let ghost f = |s: Session| s.project_id == project;
        let ghost shown = |s: Session| (s.id, s.title);
        let mut out: Vec<(String, String)> = Vec::new();
        let mut i: usize = 0;
        proof {
            reveal(Seq::filter);
            assert(all.take(0) =~= Seq::<Session>::empty());
            assert(pairs_view(out@) =~= all.take(0).filter(f).map_values(shown));
        }
        while i < n
            invariant
                i <= n == self.sessions@.len(),
                all == self@.sessions,
                project == self@.active_project_id,
                f == (|s: Session| s.project_id == project),
                shown == (|s: Session| (s.id, s.title)),
                pairs_view(out@) == all.take(i as int).filter(f).map_values(shown),
            decreases n - i,
        {
            let session = &self.sessions[i];
            let ghost before = out@;
            proof {
                reveal(Seq::filter);
                assert(all.take(i + 1).drop_last() =~= all.take(i as int));
                assert(all.take(i + 1).last() == session@);
            }
            if text_is(session.project_id.as_str(), self.active_project_id.as_str()) {
                out.push((session.id.as_str().to_owned(), session.title.as_str().to_owned()));
                proof {
                    let kept = all.take(i as int).filter(f);
                    assert(kept.push(session@).map_values(shown) =~= kept.map_values(shown).push(
                        shown(session@),
                    ));
                    assert(pairs_view(out@) =~= pairs_view(before).push(shown(session@)));
                }
            }
            i += 1;
        }
        assert(all.take(n as int) =~= all);
        out
    }

    /// Whether the chat that is shown holds a message of the user.
    pub fn chat_started(&self) -> (r: bool)
        ensures
            r == self@.started(),
    {
        let k: usize = match self.active_session_index() {
            Some(k) => k,
            None => {
                return false;
            },
        };
        let session = &self.sessions[k];
        assert(self@.sessions[k as int] == session@);
        let n: usize = session.messages.len();
        let ghost all = session@.messages;
        let mut i: usize = 0;
        while i < n
            invariant
                i <= n == session.messages@.len(),
                all == session@.messages,
                self@.active_index() == Some(k as int),
                self@.sessions[k as int].messages == all,
                forall|j: int| 0 <= j < i ==> !from_user(#[trigger] all[j]),
            decreases n - i,
        {
            assert(all[i as int] == session.messages@[i as int]@);
            if text_is(session.messages[i].who.as_str(), "You") || text_is(
                session.messages[i].who.as_str(),
                "Du",
            ) {
                assert(from_user(self@.sessions[self@.active_index()->0].messages[i as int]));
                return true;
            }
            i += 1;
        }
        false
    }

    /// The settings for a run of the message that is about to be sent.
    fn run_config(&self, session: &ChatSession, text: &str, memory_dir: String) -> (r:
        AgentRunConfig)
        ensures
            r.project_dir@ == session@.project_dir,
            r.memory_dir == memory_dir,
            r.model@ == self@.model,
            r.ollama_path@ == self@.ollama_path,
            r.terminal_cmd@ == self@.terminal_cmd,
            r.user_request@ == text@,
            opt_text(r.last_file_path) == last_file(session@.messages),
            r.show_progress == self@.show_agent_progress,
            r.auto_apply_actions == self@.auto_apply_actions,
            r.run_tests_after_apply == self@.run_tests_after_apply,
            r.context_limit == field_value(self@.context_limit, 50000, 4000, 200000),
            r.max_parallel_agents == field_value(self@.max_parallel_agents, 2, 1, 6),
    {
        AgentRunConfig {
            project_dir: session.project_dir.as_str().to_owned(),
            memory_dir,
            model: self.model.as_str().to_owned(),
            ollama_path: self.ollama_path.as_str().to_owned(),
            terminal_cmd: self.terminal_cmd.as_str().to_owned(),
            user_request: text.to_owned(),
            last_file_path: last_file_from_messages(&session.messages),
            show_progress: self.show_agent_progress,
            auto_apply_actions: self.auto_apply_actions,
            run_tests_after_apply: self.run_tests_after_apply,
            context_limit: parse_usize_field(self.context_limit.as_str(), 50000, 4000, 200000),
            max_parallel_agents: parse_usize_field(self.max_parallel_agents.as_str(), 2, 1, 6),
        }
    }

    /// Sends the message that the user typed: the number and the settings of the run that is to
    /// be started, or `None` where there is nothing to send or a run is going on.
    pub fn send_user_message(&mut self, memory_dir: String, millis: u128, now_secs: u64) -> (r:
        Option<(u64, AgentRunConfig)>)
        requires
            old(self)@.can_send() ==> old(self)@.can_chat(),
        ensures
            r is Some == old(self)@.can_send(),
            r matches Some((_, config)) ==> settings_of(config) == old(self)@.settings(
                millis,
                now_secs,
            ),
            !old(self)@.can_send() ==> final(self)@ == old(self)@,
            old(self)@.can_send() ==> final(self)@ == old(self)@.sending(millis, now_secs),
            r matches Some((id, config)) ==> ({
                let chat = final(self)@.sessions[final(self)@.chat_index()];
                &&& id == final(self)@.active_run_id
                &&& config.project_dir@ == chat.project_dir
                &&& config.memory_dir == memory_dir
                &&& config.model@ == old(self)@.model
                &&& config.ollama_path@ == old(self)@.ollama_path
                &&& config.terminal_cmd@ == old(self)@.terminal_cmd
                &&& config.user_request@ == old(self)@.message()
                &&& opt_text(config.last_file_path) == last_file(chat.messages)
                &&& config.show_progress == old(self)@.show_agent_progress
                &&& config.auto_apply_actions == old(self)@.auto_apply_actions
                &&& config.run_tests_after_apply == old(self)@.run_tests_after_apply
                &&& config.context_limit == field_value(
                    old(self)@.context_limit,
                    50000,
                    4000,
                    200000,
                )
                &&& config.max_parallel_agents == field_value(
                    old(self)@.max_parallel_agents,
                    2,
                    1,
                    6,
                )
            }),
    {
        let text = trim(self.input.as_str()).to_owned();
        if text.as_str().is_empty() || self.busy {
            return None;
        }
        let ghost start = self@;
        self.input = "".to_owned();
        let i: usize = self.ensure_active_session_index(millis, now_secs);
        let ghost open = self@;
        assert(open.sessions[i as int] == self.sessions@[i as int]@);
        let mut session = self.sessions[i].copy();
        let ghost before = session@;
        session.messages.push(ChatMsg { who: "You".to_owned(), text: text.as_str().to_owned() });
        assert(messages_view(session.messages@) =~= before.messages.push(
            Message { who: "You"@, text: text@ },
        ));
        if text_is(session.title.as_str(), "New task") || text_is(
            session.title.as_str(),
            "Neue Task",
        ) {
            session.title = title_from_message(text.as_str());
        }
        session.updated_at = now_secs;
        assert(session@ == titled(with_message(before, "You"@, text@, now_secs), text@));
        let config = self.run_config(&session, text.as_str(), memory_dir);
        let ghost chat = session@;
        self.sessions.set(i, session);
        assert(sessions_view(self.sessions@) =~= open.sessions.update(i as int, chat));
        self.busy = true;
        self.active_run_id = if self.active_run_id == u64::MAX {
            0
        } else {
            self.active_run_id + 1
        };
        let id: u64 = self.active_run_id;
        let first = cat2(
            "TRAFFIC User -> Coordinator | Request:\n",
            truncate_text(text.as_str(), 2000).as_str(),
        );
        let second = cat2("Coordinator started. Run id: ", to_decimal(id as u128).as_str());
        self.log(now_secs, first.as_str());
        self.log(now_secs, second.as_str());
        proof {
            let done = self@;
            assert(done == start.sending(millis, now_secs));
            lemma_update_keeps_active(open, i as int, chat);
        }
        Some((id, config))
    }

    /// Gives up the run that is going on. Whether there was one is the result.
    pub fn stop_current_task(&mut self, now_secs: u64) -> (r: bool)
        ensures
            final(self)@ == old(self)@.stopping(now_secs),
            r == old(self)@.busy,
    {
        if !self.busy {
            return false;
        }
        self.active_run_id = if self.active_run_id == u64::MAX {
            0
        } else {
            self.active_run_id + 1
        };
        self.busy = false;
        self.log(now_secs, "Stop requested. The current background result will be ignored.");
        true
    }

    /// Takes in what a run came to: the number of the chat that the answer went into, or `None`
    /// where the run is not the one that is going on.
    pub fn poll_agent_result(
        &mut self,
        run_id: u64,
        final_answer: &str,
        millis: u128,
        now_secs: u64,
    ) -> (r: Option<usize>)
        requires
            run_id == old(self)@.active_run_id ==> old(self)@.can_chat(),
        ensures
            run_id != old(self)@.active_run_id ==> r is None && final(self)@ == old(self)@,
            run_id == old(self)@.active_run_id ==> final(self)@ == old(self)@.answered(
                final_answer@,
                millis,
                now_secs,
            ),
            run_id == old(self)@.active_run_id ==> (r matches Some(i) && i
                < final(self).sessions@.len() && final(self)@.chat_index() == i),
    {
        if run_id != self.active_run_id {
            return None;
        }
        let ghost start = self@;
        self.busy = false;
        let i: usize = self.ensure_active_session_index(millis, now_secs);
        let ghost open = self@;
        assert(open.sessions[i as int] == self.sessions@[i as int]@);
        let mut session = self.sessions[i].copy();
        let ghost before = session@;
        let answer = clean_visible_answer(final_answer);
        session.messages.push(ChatMsg { who: "Assistant".to_owned(), text: answer });
        assert(messages_view(session.messages@) =~= before.messages.push(
            Message { who: "Assistant"@, text: visible(final_answer@) },
        ));
        session.updated_at = now_secs;
        let ghost chat = session@;
        self.sessions.set(i, session);
        assert(sessions_view(self.sessions@) =~= open.sessions.update(i as int, chat));
        proof {
            lemma_update_keeps_active(open, i as int, chat);
        }
        Some(i)
    }

    /// Adds the log of a run to the log.
    pub fn log_all(&mut self, lines: &Vec<String>, now_secs: u64)
        ensures
            final(self)@ == old(self)@.logging_all(texts(lines@), now_secs),
    {
        let n: usize = lines.len();
        let ghost all = texts(lines@);
        let ghost start = self@;
        let mut i: usize = 0;
        while i < n
            invariant
                i <= n == lines@.len(),
                all == texts(lines@),
                start == old(self)@,
                self@ == start.logging_all(all.take(i as int), now_secs),
            decreases n - i,
        {
            self.log(now_secs, lines[i].as_str());
            assert(all.take(i + 1).drop_last() =~= all.take(i as int));
            assert(all.take(i + 1).last() == lines@[i as int]@);
            i += 1;
        }
        assert(all.take(n as int) =~= all);
    }
}

/// A chat that stays under its number leaves the chat that is shown where it was.
proof fn lemma_update_keeps_active(p: Program, i: int, s: Session)
    requires
        0 <= i < p.sessions.len(),
        s.id == p.sessions[i].id,
    ensures
        session_from(p.sessions.update(i, s), p.active_session_id, 0) == p.active_index(),
{
    lemma_update_from(p.sessions, p.active_session_id, i, s, 0);
}

/// [`lemma_update_keeps_active`] from any position on.
proof fn lemma_update_from(all: Seq<Session>, id: Seq<char>, i: int, s: Session, from: int)
    requires
        0 <= from,
        0 <= i < all.len(),
        s.id == all[i].id,
    ensures
        session_from(all.update(i, s), id, from) == session_from(all, id, from),
    decreases all.len() - from,
{
    if from < all.len() {
        lemma_update_from(all, id, i, s, from + 1);
    }
}

/// How the block with the given number is called, from `from` on.
pub open spec fn target_name(blocks: Seq<Block>, id: u64, from: int) -> Seq<char>
    decreases blocks.len() - from,
{
    if from < 0 || from >= blocks.len() {
        "Block "@ + decimal(id as nat)
    } else if blocks[from].id == id {
        blocks[from].title
    } else {
        target_name(blocks, id, from + 1)
    }
}

/// The blocks with other numbers.
fn other_blocks(blocks: &Vec<AgentBlock>, id: u64) -> (r: Vec<AgentBlock>)
    ensures
        blocks_view(r@) == blocks_view(blocks@).filter(|b: Block| b.id != id),
{
    let n: usize = blocks.len();
    let ghost all = blocks_view(blocks@);
    let ghost f = |b: Block| b.id != id;
    let mut out: Vec<AgentBlock> = Vec::new();
    let mut i: usize = 0;
    proof {
        reveal(Seq::filter);
        assert(all.take(0) =~= Seq::<Block>::empty());
        assert(blocks_view(out@) =~= all.take(0).filter(f));
    }
    while i < n
        invariant
            i <= n == blocks@.len(),
            all == blocks_view(blocks@),
            f == (|b: Block| b.id != id),
            blocks_view(out@) == all.take(i as int).filter(f),
        decreases n - i,
    {
        let ghost before = out@;
        proof {
            reveal(Seq::filter);
            assert(all.take(i + 1).drop_last() =~= all.take(i as int));
            assert(all.take(i + 1).last() == blocks@[i as int]@);
        }
        if blocks[i].id != id {
            out.push(blocks[i].copy());
            assert(blocks_view(out@) =~= blocks_view(before).push(blocks@[i as int]@));
        }
        i += 1;
    }
    assert(all.take(n as int) =~= all);
    out
}

/// The connections that do not touch a block.
fn other_connections(connections: &Vec<AgentConnection>, id: u64) -> (r: Vec<AgentConnection>)
    ensures
        links_view(r@) == links_view(connections@).filter(|l: Link| l.from != id && l.to != id),
{
    let n: usize = connections.len();
    let ghost all = links_view(connections@);
    let ghost f = |l: Link| l.from != id && l.to != id;
    let mut out: Vec<AgentConnection> = Vec::new();
    let mut i: usize = 0;
    proof {
        reveal(Seq::filter);
        assert(all.take(0) =~= Seq::<Link>::empty());
        assert(links_view(out@) =~= all.take(0).filter(f));
    }
    while i < n
        invariant
            i <= n == connections@.len(),
            all == links_view(connections@),
            f == (|l: Link| l.from != id && l.to != id),
            links_view(out@) == all.take(i as int).filter(f),
        decreases n - i,
    {
        let ghost before = out@;
        proof {
            reveal(Seq::filter);
            assert(all.take(i + 1).drop_last() =~= all.take(i as int));
            assert(all.take(i + 1).last() == connections@[i as int]@);
        }
        if connections[i].from != id && connections[i].to != id {
            out.push(connections[i].copy());
            assert(links_view(out@) =~= links_view(before).push(connections@[i as int]@));
        }
        i += 1;
    }
    assert(all.take(n as int) =~= all);
    out
}

} // verus!

//! Projects, chats, and the state that is kept between two starts of the program.

use vstd::prelude::*;
use crate::graph::{
    default_agent_graph, normalize_agent_graph, starting_graph, AgentGraph, Graph,
};
use crate::request::{extract_requested_file_path, requested_path};
use crate::text::{opt_text, text_is};

verus! {

// ---------------------------------------------------------------------------------------------
// Types
// ---------------------------------------------------------------------------------------------

/// A message of a chat.
#[derive(Debug)]
pub struct ChatMsg {
    pub who: String,
    pub text: String,
}

/// What a [`ChatMsg`] says.
pub struct Message {
    pub who: Seq<char>,
    pub text: Seq<char>,
}

impl View for ChatMsg {
    type V = Message;

    open spec fn view(&self) -> Message {
        Message { who: self.who@, text: self.text@ }
    }
}

/// What a list of messages says.
pub open spec fn messages_view(v: Seq<ChatMsg>) -> Seq<Message> {
    v.map_values(|m: ChatMsg| m@)
}

/// A project folder.
#[derive(Debug)]
pub struct ProjectEntry {
    pub id: String,
    pub name: String,
    pub path: String,
}

/// What a [`ProjectEntry`] says.
pub struct Project {
    pub id: Seq<char>,
    pub name: Seq<char>,
    pub path: Seq<char>,
}

impl View for ProjectEntry {
    type V = Project;

    open spec fn view(&self) -> Project {
        Project { id: self.id@, name: self.name@, path: self.path@ }
    }
}

/// What a list of projects says.
pub open spec fn projects_view(v: Seq<ProjectEntry>) -> Seq<Project> {
    v.map_values(|p: ProjectEntry| p@)
}

/// A chat about a project.
#[derive(Debug)]
pub struct ChatSession {
    pub id: String,
    pub title: String,
    pub project_id: String,
    pub project_dir: String,
    pub messages: Vec<ChatMsg>,
    pub updated_at: u64,
}

/// What a [`ChatSession`] says.
pub struct Session {
    pub id: Seq<char>,
    pub title: Seq<char>,
    pub project_id: Seq<char>,
    pub project_dir: Seq<char>,
    pub messages: Seq<Message>,
    pub updated_at: u64,
}

impl View for ChatSession {
    type V = Session;

    open spec fn view(&self) -> Session {
        Session {
            id: self.id@,
            title: self.title@,
            project_id: self.project_id@,
            project_dir: self.project_dir@,
            messages: messages_view(self.messages@),
            updated_at: self.updated_at,
        }
    }
}

/// What a list of chats says.
pub open spec fn sessions_view(v: Seq<ChatSession>) -> Seq<Session> {
    v.map_values(|s: ChatSession| s@)
}

/// The state that is kept.
#[derive(Debug)]
pub struct SavedState {
    pub projects: Vec<ProjectEntry>,
    pub sessions: Vec<ChatSession>,
    pub active_project_id: String,
    pub active_session_id: String,
    pub agent_graph: AgentGraph,
}

/// What a [`SavedState`] says.
pub struct Saved {
    pub projects: Seq<Project>,
    pub sessions: Seq<Session>,
    pub active_project_id: Seq<char>,
    pub active_session_id: Seq<char>,
    pub graph: Graph,
}

impl View for SavedState {
    type V = Saved;

    open spec fn view(&self) -> Saved {
        Saved {
            projects: projects_view(self.projects@),
            sessions: sessions_view(self.sessions@),
            active_project_id: self.active_project_id@,
            active_session_id: self.active_session_id@,
            graph: self.agent_graph@,
        }
    }
}

impl ChatMsg {
    /// The same message once more.
    pub fn copy(&self) -> (r: ChatMsg)
        ensures
            r@ == self@,
    {
        ChatMsg { who: self.who.as_str().to_owned(), text: self.text.as_str().to_owned() }
    }
}

impl ProjectEntry {
    /// The same project once more.
    pub fn copy(&self) -> (r: ProjectEntry)
        ensures
            r@ == self@,
    {
        ProjectEntry {
            id: self.id.as_str().to_owned(),
            name: self.name.as_str().to_owned(),
            path: self.path.as_str().to_owned(),
        }
    }
}

impl ChatSession {
    /// The same chat once more.
    pub fn copy(&self) -> (r: ChatSession)
        ensures
            r@ == self@,
    {
        let n: usize = self.messages.len();
        let mut messages: Vec<ChatMsg> = Vec::new();
        let mut i: usize = 0;
        while i < n
            invariant
                i <= n == self.messages@.len(),
                messages@.len() == i,
                forall|k: int| 0 <= k < i ==> (#[trigger] messages@[k])@ == self.messages@[k]@,
            decreases n - i,
        {
            messages.push(self.messages[i].copy());
            i += 1;
        }
        assert(messages_view(messages@) =~= messages_view(self.messages@));
        ChatSession {
            id: self.id.as_str().to_owned(),
            title: self.title.as_str().to_owned(),
            project_id: self.project_id.as_str().to_owned(),
            project_dir: self.project_dir.as_str().to_owned(),
            messages,
            updated_at: self.updated_at,
        }
    }
}

// ---------------------------------------------------------------------------------------------
// Messages
// ---------------------------------------------------------------------------------------------

/// The file that the latest message with one names.
pub open spec fn last_file(messages: Seq<Message>) -> Option<Seq<char>>
    decreases messages.len(),
{
    if messages.len() == 0 {
        None
    } else {
        match requested_path(messages.last().text) {
            Some(path) => Some(path),
            None => last_file(messages.drop_last()),
        }
    }
}

/// The file that a chat is about is the one that was named last, whatever was said behind that; a chat
/// in which none was named is about none.
pub proof fn the_file_named_last_counts(before: Seq<Message>, m: Message, behind: Seq<Message>)
    requires
        forall|i: int| 0 <= i < behind.len() ==> requested_path((#[trigger] behind[i]).text) is None,
    ensures
        requested_path(m.text) is Some ==> last_file(before + seq![m] + behind) == requested_path(
            m.text,
        ),
        last_file(behind) is None,
    decreases behind.len(),
{
    let all = before + seq![m] + behind;
    if behind.len() == 0 {
        assert(all.last() == m);
    } else {
        assert(requested_path(behind[behind.len() - 1].text) is None);
        let shorter = behind.drop_last();
        assert forall|i: int| 0 <= i < shorter.len() implies requested_path(
            (#[trigger] shorter[i]).text,
        ) is None by {
            assert(requested_path(behind[i].text) is None);
        }
        assert(all.drop_last() =~= before + seq![m] + shorter);
        the_file_named_last_counts(before, m, shorter);
    }
}

/// The file that the latest message with one names.
pub fn last_file_from_messages(messages: &Vec<ChatMsg>) -> (r: Option<String>)
    ensures
        opt_text(r) == last_file(messages_view(messages@)),
{
    let mut n: usize = messages.len();
    let ghost all = messages_view(messages@);
    assert(all.take(n as int) =~= all);
    while n > 0
        invariant
            n <= messages@.len(),
            all == messages_view(messages@),
            last_file(all) == last_file(all.take(n as int)),
        decreases n,
    {
        n -= 1;
        assert(all.take(n + 1).last() == messages@[n as int]@);
        assert(all.take(n + 1).drop_last() =~= all.take(n as int));
        if let Some(path) = extract_requested_file_path(messages[n].text.as_str()) {
            return Some(path);
        }
    }
    None
}

/// The message that a new chat begins with.
pub open spec fn welcome() -> Message {
    Message {
        who: "Assistant"@,
        text: "Ready. You are talking to the coordinator. It decides internally which planning, coding, and review agents are needed, compares their results, and answers normally."@,
    }
}

/// The message that a new chat begins with.
pub fn welcome_message() -> (r: ChatMsg)
    ensures
        r@ == welcome(),
{
    ChatMsg {
        who: "Assistant".to_owned(),
        text: "Ready. You are talking to the coordinator. It decides internally which planning, coding, and review agents are needed, compares their results, and answers normally.".to_owned(),
    }
}

// ---------------------------------------------------------------------------------------------
// Looking up
// ---------------------------------------------------------------------------------------------

/// The first project from `from` on with the given number.
pub open spec fn project_from(projects: Seq<Project>, id: Seq<char>, from: int) -> Option<int>
    decreases projects.len() - from,
{
    if from < 0 || from >= projects.len() {
        None
    } else if projects[from].id == id {
        Some(from)
    } else {
        project_from(projects, id, from + 1)
    }
}

/// The first chat from `from` on with the given number.
pub open spec fn session_from(sessions: Seq<Session>, id: Seq<char>, from: int) -> Option<int>
    decreases sessions.len() - from,
{
    if from < 0 || from >= sessions.len() {
        None
    } else if sessions[from].id == id {
        Some(from)
    } else {
        session_from(sessions, id, from + 1)
    }
}

/// The first chat from `from` on about the given project.
pub open spec fn chat_about(sessions: Seq<Session>, project_id: Seq<char>, from: int) -> Option<int>
    decreases sessions.len() - from,
{
    if from < 0 || from >= sessions.len() {
        None
    } else if sessions[from].project_id == project_id {
        Some(from)
    } else {
        chat_about(sessions, project_id, from + 1)
    }
}

/// What is found is what was looked for.
pub proof fn lemma_project_from(projects: Seq<Project>, id: Seq<char>, from: int)
    requires
        0 <= from,
    ensures
        match project_from(projects, id, from) {
            Some(i) => from <= i < projects.len() && projects[i].id == id,
            None => forall|i: int| from <= i < projects.len() ==> (#[trigger] projects[i]).id != id,
        },
    decreases projects.len() - from,
{
    if from < projects.len() && projects[from].id != id {
        lemma_project_from(projects, id, from + 1);
    }
}

/// What is found is what was looked for.
pub proof fn lemma_session_from(sessions: Seq<Session>, id: Seq<char>, from: int)
    requires
        0 <= from,
    ensures
        match session_from(sessions, id, from) {
            Some(i) => from <= i < sessions.len() && sessions[i].id == id,
            None => forall|i: int| from <= i < sessions.len() ==> (#[trigger] sessions[i]).id != id,
        },
    decreases sessions.len() - from,
{
    if from < sessions.len() && sessions[from].id != id {
        lemma_session_from(sessions, id, from + 1);
    }
}

/// The first project with the given number.
pub fn find_project(projects: &Vec<ProjectEntry>, id: &str) -> (r: Option<usize>)
    ensures
        match r {
            Some(i) => project_from(projects_view(projects@), id@, 0) == Some(i as int) && i
                < projects@.len(),
            None => project_from(projects_view(projects@), id@, 0) is None,
        },
{
    let n: usize = projects.len();
    let ghost all = projects_view(projects@);
    let mut i: usize = 0;
    while i < n
        invariant
            i <= n == projects@.len(),
            all == projects_view(projects@),
            project_from(all, id@, 0) == project_from(all, id@, i as int),
        decreases n - i,
    {
        assert(all[i as int] == projects@[i as int]@);
        if text_is(projects[i].id.as_str(), id) {
            return Some(i);
        }
        i += 1;
    }
    None
}

/// The first chat with the given number.
pub fn find_session(sessions: &Vec<ChatSession>, id: &str) -> (r: Option<usize>)
    ensures
        match r {
            Some(i) => session_from(sessions_view(sessions@), id@, 0) == Some(i as int) && i
                < sessions@.len(),
            None => session_from(sessions_view(sessions@), id@, 0) is None,
        },
{
    let n: usize = sessions.len();
    let ghost all = sessions_view(sessions@);
    let mut i: usize = 0;
    while i < n
        invariant
            i <= n == sessions@.len(),
            all == sessions_view(sessions@),
            session_from(all, id@, 0) == session_from(all, id@, i as int),
        decreases n - i,
    {
        assert(all[i as int] == sessions@[i as int]@);
        if text_is(sessions[i].id.as_str(), id) {
            return Some(i);
        }
        i += 1;
    }
    None
}

/// The first chat about the given project.
pub fn find_chat_about(sessions: &Vec<ChatSession>, project_id: &str) -> (r: Option<usize>)
    ensures
        match r {
            Some(i) => chat_about(sessions_view(sessions@), project_id@, 0) == Some(i as int) && i
                < sessions@.len(),
            None => chat_about(sessions_view(sessions@), project_id@, 0) is None,
        },
{
    let n: usize = sessions.len();
    let ghost all = sessions_view(sessions@);
    let mut i: usize = 0;
    while i < n
        invariant
            i <= n == sessions@.len(),
            all == sessions_view(sessions@),
            chat_about(all, project_id@, 0) == chat_about(all, project_id@, i as int),
        decreases n - i,
    {
        assert(all[i as int] == sessions@[i as int]@);
        if text_is(sessions[i].project_id.as_str(), project_id) {
            return Some(i);
        }
        i += 1;
    }
    None
}

// ---------------------------------------------------------------------------------------------
// What a new installation begins with
// ---------------------------------------------------------------------------------------------

/// The project that a new installation begins with.
pub open spec fn first_project(name: Option<Seq<char>>, path: Seq<char>) -> Project {
    Project {
        id: "project-default"@,
        name: match name {
            Some(n) => n,
            None => "Project"@,
        },
        path,
    }
}

/// The project that a new installation begins with, given the name of its folder, if it has one,
/// and how its path is shown.
pub fn default_project(folder_name: Option<String>, path: String) -> (r: ProjectEntry)
    ensures
        r@ == first_project(opt_text(folder_name), path@),
{
    let name = match folder_name {
        Some(n) => n,
        None => "Project".to_owned(),
    };
    ProjectEntry { id: "project-default".to_owned(), name, path }
}

/// The chat that a project begins with.
pub open spec fn first_session(project: Project, now: u64) -> Session {
    Session {
        id: "chat-default"@,
        title: "New task"@,
        project_id: project.id,
        project_dir: project.path,
        messages: seq![welcome()],
        updated_at: now,
    }
}

/// The chat that a project begins with.
pub fn default_session(project: &ProjectEntry, now_secs: u64) -> (r: ChatSession)
    ensures
        r@ == first_session(project@, now_secs),
{
    let mut messages: Vec<ChatMsg> = Vec::new();
    messages.push(welcome_message());
    assert(messages_view(messages@) =~= seq![welcome()]);
    ChatSession {
        id: "chat-default".to_owned(),
        title: "New task".to_owned(),
        project_id: project.id.as_str().to_owned(),
        project_dir: project.path.as_str().to_owned(),
        messages,
        updated_at: now_secs,
    }
}

/// The state that a new installation begins with.
pub fn default_saved_state(project: ProjectEntry, now_secs: u64) -> (r: SavedState)
    ensures
        r@ == (Saved {
            projects: seq![project@],
            sessions: seq![first_session(project@, now_secs)],
            active_project_id: project@.id,
            active_session_id: "chat-default"@,
            graph: starting_graph(),
        }),
{
    let session = default_session(&project, now_secs);
    let active_project_id = project.id.as_str().to_owned();
    let active_session_id = session.id.as_str().to_owned();
    let ghost p = project@;
    let ghost s = session@;
    let mut projects: Vec<ProjectEntry> = Vec::new();
    projects.push(project);
    let mut sessions: Vec<ChatSession> = Vec::new();
    sessions.push(session);
    assert(projects_view(projects@) =~= seq![p]);
    assert(sessions_view(sessions@) =~= seq![s]);
    SavedState {
        projects,
        sessions,
        active_project_id,
        active_session_id,
        agent_graph: default_agent_graph(),
    }
}

// ---------------------------------------------------------------------------------------------
// The order of the chats
// ---------------------------------------------------------------------------------------------

/// How many chats at the front were changed after the given time.
pub open spec fn newer(sessions: Seq<Session>, time: u64) -> int
    decreases sessions.len(),
{
    if sessions.len() > 0 && sessions[0].updated_at > time {
        1 + newer(sessions.skip(1), time)
    } else {
        0
    }
}

/// The chats with those changed last in front; chats changed at the same time keep their order.
pub open spec fn newest_first(sessions: Seq<Session>) -> Seq<Session>
    decreases sessions.len(),
{
    if sessions.len() == 0 {
        sessions
    } else {
        let rest = newest_first(sessions.skip(1));
        rest.insert(newer(rest, sessions[0].updated_at), sessions[0])
    }
}

/// No chat was changed before one that stands behind it.
pub open spec fn is_newest_first(sessions: Seq<Session>) -> bool {
    forall|i: int, j: int|
        0 <= i <= j < sessions.len() ==> (#[trigger] sessions[i]).updated_at >= (
        #[trigger] sessions[j]).updated_at
}

/// What [`newer`] counts.
proof fn lemma_newer(sessions: Seq<Session>, time: u64)
    ensures
        0 <= newer(sessions, time) <= sessions.len(),
        forall|i: int|
            0 <= i < newer(sessions, time) ==> (#[trigger] sessions[i]).updated_at > time,
        newer(sessions, time) < sessions.len() ==> sessions[newer(
            sessions,
            time,
        )].updated_at <= time,
    decreases sessions.len(),
{
    if sessions.len() > 0 && sessions[0].updated_at > time {
        let rest = sessions.skip(1);
        lemma_newer(rest, time);
        assert forall|i: int| 0 <= i < newer(sessions, time) implies (
        #[trigger] sessions[i]).updated_at > time by {
            if i > 0 {
                assert(rest[i - 1] == sessions[i]);
            }
        }
        if newer(rest, time) < rest.len() {
            assert(rest[newer(rest, time)] == sessions[newer(rest, time) + 1]);
        }
    }
}

/// Sorting the chats puts those changed last in front and keeps all of them.
pub proof fn sorted_chats_are_the_same_chats(sessions: Seq<Session>)
    ensures
        is_newest_first(newest_first(sessions)),
        newest_first(sessions).len() == sessions.len(),
        newest_first(sessions).to_multiset() == sessions.to_multiset(),
    decreases sessions.len(),
{
    if sessions.len() > 0 {
        let tail = sessions.skip(1);
        let rest = newest_first(tail);
        let x = sessions[0];
        let p = newer(rest, x.updated_at);
        sorted_chats_are_the_same_chats(tail);
        lemma_newer(rest, x.updated_at);
        let r = rest.insert(p, x);
        assert forall|i: int, j: int| 0 <= i <= j < r.len() implies (
        #[trigger] r[i]).updated_at >= (#[trigger] r[j]).updated_at by {
            let a = if i < p {
                rest[i]
            } else if i == p {
                x
            } else {
                rest[i - 1]
            };
            let b = if j < p {
                rest[j]
            } else if j == p {
                x
            } else {
                rest[j - 1]
            };
            assert(r[i] == a && r[j] == b);
            if i == p && j > p {
                assert(rest[p].updated_at >= rest[j - 1].updated_at);
            }
        }
        vstd::seq_lib::to_multiset_insert(rest, p, x);
        vstd::seq_lib::to_multiset_insert(tail, 0, x);
        assert(tail.insert(0, x) =~= sessions);
    }
}

/// The chats that were changed at the given time.
pub open spec fn changed_at(sessions: Seq<Session>, time: u64) -> Seq<Session> {
    sessions.filter(|s: Session| s.updated_at == time)
}

/// Sorting the chats leaves those that were changed at the same time in the order in which they
/// stood.
pub proof fn sorting_keeps_the_order_of_equals(sessions: Seq<Session>, time: u64)
    ensures
        changed_at(newest_first(sessions), time) == changed_at(sessions, time),
    decreases sessions.len(),
{
    let f = |s: Session| s.updated_at == time;
    if sessions.len() > 0 {
        let tail = sessions.skip(1);
        let rest = newest_first(tail);
        let x = sessions[0];
        let p = newer(rest, x.updated_at);
        sorting_keeps_the_order_of_equals(tail, time);
        lemma_newer(rest, x.updated_at);
        let front = rest.take(p);
        let back = rest.skip(p);
        assert(rest.insert(p, x) =~= front + seq![x] + back);
        assert(rest =~= front + back);
        assert(sessions =~= seq![x] + tail);
        Seq::filter_distributes_over_add(front, back, f);
        Seq::filter_distributes_over_add(front + seq![x], back, f);
        Seq::filter_distributes_over_add(front, seq![x], f);
        Seq::filter_distributes_over_add(seq![x], tail, f);
        if x.updated_at == time {
            assert forall|i: int| 0 <= i < front.len() implies !f(#[trigger] front[i]) by {
                assert(front[i] == rest[i]);
            }
            front.lemma_all_neg_filter_empty(f);
            assert(front.filter(f) =~= Seq::<Session>::empty());
            assert(front.filter(f) + seq![x].filter(f) + back.filter(f) =~= seq![x].filter(f) + (
            front.filter(f) + back.filter(f)));
        } else {
            let one = seq![x];
            assert forall|i: int| 0 <= i < one.len() implies !f(#[trigger] one[i]) by {}
            one.lemma_all_neg_filter_empty(f);
            assert(one.filter(f) =~= Seq::<Session>::empty());
            assert(front.filter(f) + one.filter(f) + back.filter(f) =~= front.filter(f)
                + back.filter(f));
            assert(one.filter(f) + tail.filter(f) =~= tail.filter(f));
        }
    }
}

/// The chats with those changed last in front.
fn sort_sessions(sessions: Vec<ChatSession>) -> (r: Vec<ChatSession>)
    ensures
        sessions_view(r@) == newest_first(sessions_view(sessions@)),
{
    let mut left = sessions;
    let ghost all = sessions_view(left@);
    let mut out: Vec<ChatSession> = Vec::new();
    assert(sessions_view(out@) =~= all.skip(all.len() as int));
    assert(newest_first(all.skip(all.len() as int)) == all.skip(all.len() as int));
    while left.len() > 0
        invariant
            left@.len() <= all.len(),
            sessions_view(left@) == all.take(left@.len() as int),
            sessions_view(out@) == newest_first(all.skip(left@.len() as int)),
        decreases left.len(),
    {
        let ghost n = left@.len() as int;
        let ghost before = left@;
        if let Some(x) = left.pop() {
            let ghost added = x@;
            let ghost rest = sessions_view(out@);
            assert(added == sessions_view(before)[n - 1]);
            assert(added == all[n - 1]);
            assert(sessions_view(left@) =~= all.take(n - 1));
            assert(all.skip(n - 1).skip(1) =~= all.skip(n));
            let m: usize = out.len();
            let mut p: usize = 0;
            assert(rest.skip(0) =~= rest);
            while p < m && out[p].updated_at > x.updated_at
                invariant
                    p <= m == out@.len(),
                    rest == sessions_view(out@),
                    newer(rest, x.updated_at) == p + newer(rest.skip(p as int), x.updated_at),
                decreases m - p,
            {
                assert(rest.skip(p as int)[0] == out@[p as int]@);
                assert(rest.skip(p as int).skip(1) =~= rest.skip(p + 1));
                p += 1;
            }
            proof {
                if p < m {
                    assert(rest.skip(p as int)[0] == out@[p as int]@);
                }
            }
            assert(newer(rest, x.updated_at) == p);
            out.insert(p, x);
            assert(sessions_view(out@) =~= rest.insert(p as int, added));
        }
    }
    assert(all.skip(0) =~= all);
    out
}

// ---------------------------------------------------------------------------------------------
// Setting a kept state in order
// ---------------------------------------------------------------------------------------------

/// A chat that has at least one message.
pub open spec fn welcomed(s: Session) -> Session {
    if s.messages.len() == 0 {
        Session { messages: seq![welcome()], ..s }
    } else {
        s
    }
}

/// A graph that is there.
pub open spec fn graph_or_start(g: Graph) -> Graph {
    if g.blocks.len() == 0 {
        starting_graph()
    } else {
        g
    }
}

/// A kept state in order: there is a project and a chat, both are chosen, every chat has a
/// message, the chats changed last come first, and the graph is in order.
pub open spec fn state_in_order(s: Saved, default: Project, now: u64) -> Saved {
    let projects = if s.projects.len() == 0 {
        seq![default]
    } else {
        s.projects
    };
    let active_project_id = if project_from(projects, s.active_project_id, 0) is Some {
        s.active_project_id
    } else {
        projects[0].id
    };
    let sessions = if s.sessions.len() == 0 {
        seq![first_session(projects[project_from(projects, active_project_id, 0)->0], now)]
    } else {
        s.sessions
    };
    let sorted = newest_first(sessions.map_values(|x: Session| welcomed(x)));
    Saved {
        projects,
        sessions: sorted,
        active_project_id,
        active_session_id: if session_from(sorted, s.active_session_id, 0) is Some {
            s.active_session_id
        } else {
            sorted[0].id
        },
        graph: graph_or_start(s.graph).normal(),
    }
}

/// Whatever was kept, the state in order has a chosen project and a chosen chat, every chat has
/// a message, and the chats changed last come first.
pub proof fn kept_states_are_usable(s: Saved, default: Project, now: u64)
    ensures
        ({
            let t = state_in_order(s, default, now);
            &&& t.projects.len() > 0
            &&& t.sessions.len() > 0
            &&& project_from(t.projects, t.active_project_id, 0) is Some
            &&& session_from(t.sessions, t.active_session_id, 0) is Some
            &&& is_newest_first(t.sessions)
            &&& forall|i: int| 0 <= i < t.sessions.len() ==> (
            #[trigger] t.sessions[i]).messages.len() > 0
        }),
{
    let t = state_in_order(s, default, now);
    let sessions = if s.sessions.len() == 0 {
        seq![first_session(t.projects[project_from(t.projects, t.active_project_id, 0)->0], now)]
    } else {
        s.sessions
    };
    let greeted = sessions.map_values(|x: Session| welcomed(x));
    sorted_chats_are_the_same_chats(greeted);
    lemma_session_from(t.sessions, t.active_session_id, 0);
    lemma_project_from(t.projects, t.active_project_id, 0);
    assert forall|i: int| 0 <= i < t.sessions.len() implies (
    #[trigger] t.sessions[i]).messages.len() > 0 by {
        let x = t.sessions[i];
        vstd::seq_lib::to_multiset_contains(t.sessions, x);
        assert(t.sessions.contains(x));
        vstd::seq_lib::to_multiset_contains(greeted, x);
        assert(greeted.contains(x));
        let k = greeted.index_of(x);
        assert(greeted[k] == welcomed(sessions[k]));
    }
    assert(t.sessions[0].id == t.sessions[0].id);
    assert(t.projects[0].id == t.projects[0].id);
}

/// Nothing that was kept is lost when it is set in order: the projects stay as they are, every chat
/// stays with all its messages, and what was chosen stays chosen as long as it is there.
#[verifier::rlimit(40)]
pub proof fn what_was_kept_is_not_lost(s: Saved, default: Project, now: u64, i: int)
    ensures
        ({
            let t = state_in_order(s, default, now);
            &&& s.projects.len() > 0 ==> t.projects == s.projects
            &&& s.projects.len() == 0 ==> t.projects == seq![default]
            &&& s.sessions.len() > 0 ==> t.sessions.len() == s.sessions.len()
            &&& 0 <= i < s.sessions.len() && s.sessions[i].messages.len() > 0
                ==> t.sessions.contains(s.sessions[i])
            &&& 0 <= i < s.sessions.len() ==> exists|j: int|
                0 <= j < t.sessions.len() && same_chat(#[trigger] t.sessions[j], s.sessions[i])
            &&& 0 <= i < s.projects.len() && s.projects[i].id == s.active_project_id
                ==> t.active_project_id == s.active_project_id
            &&& 0 <= i < s.sessions.len() && s.sessions[i].id == s.active_session_id
                ==> t.active_session_id == s.active_session_id
            &&& s.sessions.len() == 0 ==> t.sessions.len() == 1 && t.sessions[0].project_id
                == t.active_project_id
        }),
{
    let t = state_in_order(s, default, now);
    let chosen = project_from(t.projects, t.active_project_id, 0);
    let sessions = if s.sessions.len() == 0 {
        seq![first_session(t.projects[chosen->0], now)]
    } else {
        s.sessions
    };
    let greeted = sessions.map_values(|x: Session| welcomed(x));
    sorted_chats_are_the_same_chats(greeted);
    lemma_project_from(t.projects, s.active_project_id, 0);
    lemma_project_from(t.projects, t.active_project_id, 0);
    assert(t.projects[0].id == t.projects[0].id);
    lemma_session_from(t.sessions, s.active_session_id, 0);
    if 0 <= i < s.sessions.len() {
        let x = greeted[i];
        assert(x == welcomed(s.sessions[i]));
        assert(greeted.contains(x));
        vstd::seq_lib::to_multiset_contains(greeted, x);
        vstd::seq_lib::to_multiset_contains(t.sessions, x);
        assert(t.sessions.contains(x));
        let j = t.sessions.index_of(x);
        assert(same_chat(t.sessions[j], s.sessions[i]));
    }
    if s.sessions.len() == 0 {
        let x = t.sessions[0];
        assert(t.sessions.contains(x));
        vstd::seq_lib::to_multiset_contains(t.sessions, x);
        vstd::seq_lib::to_multiset_contains(greeted, x);
        assert(greeted.contains(x));
        assert(greeted[0] == welcomed(sessions[0]));
    }
}

/// A chat and what became of it: all but a greeting in an empty one is the same.
pub open spec fn same_chat(t: Session, s: Session) -> bool {
    &&& t.id == s.id
    &&& t.title == s.title
    &&& t.project_id == s.project_id
    &&& t.project_dir == s.project_dir
    &&& t.updated_at == s.updated_at
    &&& s.messages.len() > 0 ==> t.messages == s.messages
}

/// Sets a kept state in order.
pub fn normalize_saved_state(state: SavedState, default: ProjectEntry, now_secs: u64) -> (r:
    SavedState)
    requires
        graph_or_start(state@.graph).has_room(),
    ensures
        r@ == state_in_order(state@, default@, now_secs),
{
    let SavedState {
        mut projects,
        mut sessions,
        mut active_project_id,
        mut active_session_id,
        mut agent_graph,
    } = state;
    let ghost s = state@;
    if projects.len() == 0 {
        projects.push(default);
        assert(projects_view(projects@) =~= seq![default@]);
    }
    let ghost all_projects = projects_view(projects@);
    if find_project(&projects, active_project_id.as_str()).is_none() {
        active_project_id = projects[0].id.as_str().to_owned();
    }
    let ghost chosen = active_project_id@;
    proof {
        lemma_project_from(all_projects, chosen, 0);
        assert(all_projects[0].id == projects@[0]@.id);
    }
    if sessions.len() == 0 {
        if let Some(i) = find_project(&projects, active_project_id.as_str()) {
            sessions.push(default_session(&projects[i], now_secs));
            assert(sessions_view(sessions@) =~= seq![
                first_session(all_projects[project_from(all_projects, chosen, 0)->0], now_secs),
            ]);
        }
    }
    let ghost before = sessions_view(sessions@);
    if agent_graph.blocks.len() == 0 {
        agent_graph = default_agent_graph();
    }
    assert(agent_graph@ == graph_or_start(s.graph));
    normalize_agent_graph(&mut agent_graph);
    let n: usize = sessions.len();
    let mut greeted: Vec<ChatSession> = Vec::new();
    let mut i: usize = 0;
    while i < n
        invariant
            i <= n == sessions@.len(),
            greeted@.len() == i,
            forall|k: int|
                0 <= k < i ==> (#[trigger] greeted@[k])@ == welcomed(sessions@[k]@),
        decreases n - i,
    {
        let mut session = sessions[i].copy();
        assert(session@.messages.len() == session.messages@.len());
        if session.messages.len() == 0 {
            session.messages.push(welcome_message());
            assert(messages_view(session.messages@) =~= seq![welcome()]);
        }
        greeted.push(session);
        i += 1;
    }
    assert(sessions_view(greeted@) =~= before.map_values(|x: Session| welcomed(x)));
    let sorted = sort_sessions(greeted);
    proof {
        sorted_chats_are_the_same_chats(before.map_values(|x: Session| welcomed(x)));
    }
    assert(sessions_view(sorted@).len() == sorted@.len());
    if find_session(&sorted, active_session_id.as_str()).is_none() {
        assert(sessions_view(sorted@)[0] == sorted@[0]@);
        active_session_id = sorted[0].id.as_str().to_owned();
    }
    SavedState { projects, sessions: sorted, active_project_id, active_session_id, agent_graph }
}

} // verus!

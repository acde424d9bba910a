//! What is remembered of a run, and what goes into the training data.

use vstd::prelude::*;
use crate::answer::{
    code_text, exit_code_text, is_actual_error_log_line, reports_failure, shortened, truncate_text,
};
use crate::numbers::{decimal, to_decimal};
use crate::prompts::{lemma_holds_middle, lemma_holds_part, lemma_joined_holds};
use crate::session::{messages_view, ChatMsg, Message};
use crate::text::{
    begins, cat2, cat7, ends, holds, join, joined, occurs_at, text_is, texts,
};

verus! {

/// A run whose log reports a failure.
pub open spec fn failed(lines: Seq<Seq<char>>) -> bool {
    exists|i: int| 0 <= i < lines.len() && reports_failure(#[trigger] lines[i])
}

/// Whether the log of a run reports a failure.
pub fn run_failed(lines: &Vec<String>) -> (r: bool)
    ensures
        r == failed(texts(lines@)),
{
    let n: usize = lines.len();
    let ghost all = texts(lines@);
    let mut i: usize = 0;
    while i < n
        invariant
            i <= n == lines@.len(),
            all == texts(lines@),
            forall|k: int| 0 <= k < i ==> !reports_failure(#[trigger] all[k]),
        decreases n - i,
    {
        assert(all[i as int] == lines@[i as int]@);
        if is_actual_error_log_line(lines[i].as_str()) {
            return true;
        }
        i += 1;
    }
    false
}

/// A message in the form in which models are trained.
#[derive(Debug)]
pub struct TrainingMessage<T> {
    pub role: T,
    pub content: T,
}

impl View for TrainingMessage<String> {
    type V = TrainingMessage<Seq<char>>;

    open spec fn view(&self) -> TrainingMessage<Seq<char>> {
        TrainingMessage { role: self.role@, content: self.content@ }
    }
}

/// What a list of training messages says.
pub open spec fn training_view(v: Seq<TrainingMessage<String>>) -> Seq<TrainingMessage<Seq<char>>> {
    v.map_values(|m: TrainingMessage<String>| m@)
}

/// The role of a speaker, for those that have one.
pub open spec fn role_of(who: Seq<char>) -> Option<Seq<char>> {
    if who == "You"@ {
        Some("user"@)
    } else if who == "Assistant"@ {
        Some("assistant"@)
    } else {
        None
    }
}

/// The messages of a chat in the form in which models are trained; speakers without a role are
/// left out.
pub open spec fn training_form(messages: Seq<Message>) -> Seq<TrainingMessage<Seq<char>>>
    decreases messages.len(),
{
    if messages.len() == 0 {
        Seq::empty()
    } else {
        let before = training_form(messages.drop_last());
        match role_of(messages.last().who) {
            Some(role) => before.push(TrainingMessage { role, content: messages.last().text }),
            None => before,
        }
    }
}

/// The training data of a chat holds what the user and the assistant said, word for word and in
/// order, and nothing of anyone else: it is the data of the messages one by one.
pub proof fn what_was_said_is_trained_on(a: Seq<Message>, m: Message, b: Seq<Message>)
    ensures
        training_form(a + b) == training_form(a) + training_form(b),
        training_form(seq![m]) == if m.who == "You"@ {
            seq![TrainingMessage { role: "user"@, content: m.text }]
        } else if m.who == "Assistant"@ {
            seq![TrainingMessage { role: "assistant"@, content: m.text }]
        } else {
            Seq::empty()
        },
    decreases b.len(),
{
    let one = seq![m];
    assert(one.drop_last() =~= Seq::<Message>::empty());
    assert(training_form(one.drop_last()) =~= Seq::<TrainingMessage<Seq<char>>>::empty());
    assert(one.last() == m);
    if b.len() == 0 {
        assert(a + b =~= a);
        assert(training_form(a) + training_form(b) =~= training_form(a));
    } else {
        assert((a + b).drop_last() =~= a + b.drop_last());
        what_was_said_is_trained_on(a, m, b.drop_last());
        assert(training_form(a + b) =~= training_form(a) + training_form(b));
    }
}

/// The messages of a chat in the form in which models are trained.
pub fn training_messages(messages: &Vec<ChatMsg>) -> (r: Vec<TrainingMessage<String>>)
    ensures
        training_view(r@) == training_form(messages_view(messages@)),
{
    let n: usize = messages.len();
    let ghost all = messages_view(messages@);
    let mut out: Vec<TrainingMessage<String>> = Vec::new();
    let mut i: usize = 0;
    assert(training_view(out@) =~= Seq::<TrainingMessage<Seq<char>>>::empty());
    while i < n
        invariant
            i <= n == messages@.len(),
            all == messages_view(messages@),
            training_view(out@) == training_form(all.take(i as int)),
        decreases n - i,
    {
        let message = &messages[i];
        let ghost before = out@;
        proof {
            assert(all.take(i + 1).drop_last() =~= all.take(i as int));
            assert(all.take(i + 1).last() == message@);
        }
        let role: Option<&'static str> = if text_is(message.who.as_str(), "You") {
            Some("user")
        } else if text_is(message.who.as_str(), "Assistant") {
            Some("assistant")
        } else {
            None
        };
        if let Some(name) = role {
            let entry = TrainingMessage {
                role: name.to_owned(),
                content: message.text.as_str().to_owned(),
            };
            let ghost added = entry@;
            out.push(entry);
            assert(training_view(out@) =~= training_view(before).push(added));
        }
        i += 1;
    }
    assert(all.take(n as int) =~= all);
    out
}

/// What goes into the training data for chats after a run, if anything.
pub open spec fn trained_on(messages: Seq<Message>, lines: Seq<Seq<char>>) -> Option<
    Seq<TrainingMessage<Seq<char>>>,
> {
    if failed(lines) {
        None
    } else {
        Some(training_form(messages))
    }
}

/// Failures are never trained on: a run with a line in its log that reports one gives nothing to the
/// training data, and any other gives all that was said in it.
pub proof fn failures_are_not_trained_on(messages: Seq<Message>, lines: Seq<Seq<char>>, i: int)
    ensures
        0 <= i < lines.len() && reports_failure(lines[i]) ==> trained_on(messages, lines) is None,
        (forall|k: int| 0 <= k < lines.len() ==> !reports_failure(#[trigger] lines[k]))
            ==> trained_on(messages, lines) == Some(training_form(messages)),
{
}

/// How a run is recorded besides in the list of all runs.
#[derive(Debug)]
pub struct RunRecord {
    /// Whether the log of the run reports a failure.
    pub had_error: bool,
    /// What goes into the training data for chats, if anything.
    pub fine_tuning: Option<Vec<TrainingMessage<String>>>,
}

/// Where a run is recorded: a failed one among the failures, any other among the successes and in
/// the training data for chats.
pub fn persist_run_dataset(messages: &Vec<ChatMsg>, log_lines: &Vec<String>) -> (r: RunRecord)
    ensures
        r.had_error == failed(texts(log_lines@)),
        match r.fine_tuning {
            Some(v) => !r.had_error && training_view(v@) == training_form(
                messages_view(messages@),
            ),
            None => r.had_error,
        },
        match r.fine_tuning {
            Some(v) => trained_on(messages_view(messages@), texts(log_lines@)) == Some(
                training_view(v@),
            ),
            None => trained_on(messages_view(messages@), texts(log_lines@)) is None,
        },
{
    if run_failed(log_lines) {
        RunRecord { had_error: true, fine_tuning: None }
    } else {
        RunRecord { had_error: false, fine_tuning: Some(training_messages(messages)) }
    }
}

/// The text of the latest message of a speaker.
pub open spec fn latest_of(messages: Seq<Message>, who: Seq<char>) -> Option<Seq<char>>
    decreases messages.len(),
{
    if messages.len() == 0 {
        None
    } else if messages.last().who == who {
        Some(messages.last().text)
    } else {
        latest_of(messages.drop_last(), who)
    }
}

/// The latest message of a speaker is the last one of theirs, whatever others said behind it; a
/// speaker who said nothing has none.
pub proof fn the_latest_message_is_the_last_one(
    before: Seq<Message>,
    m: Message,
    behind: Seq<Message>,
    who: Seq<char>,
)
    requires
        forall|i: int| 0 <= i < behind.len() ==> (#[trigger] behind[i]).who != who,
    ensures
        m.who == who ==> latest_of(before + seq![m] + behind, who) == Some(m.text),
        latest_of(behind, who) is None,
    decreases behind.len(),
{
    let all = before + seq![m] + behind;
    if behind.len() == 0 {
        assert(all.last() == m);
    } else {
        assert(behind[behind.len() - 1].who != who);
        let shorter = behind.drop_last();
        assert forall|i: int| 0 <= i < shorter.len() implies (#[trigger] shorter[i]).who != who by {
            assert(behind[i].who != who);
        }
        assert(all.drop_last() =~= before + seq![m] + shorter);
        the_latest_message_is_the_last_one(before, m, shorter, who);
    }
}

/// The text of the latest message of a speaker.
pub fn latest_message<'a>(messages: &'a Vec<ChatMsg>, who: &str) -> (r: Option<&'a str>)
    ensures
        match r {
            Some(t) => latest_of(messages_view(messages@), who@) == Some(t@),
            None => latest_of(messages_view(messages@), who@) is None,
        },
{
    let mut n: usize = messages.len();
    let ghost all = messages_view(messages@);
    assert(all.take(n as int) =~= all);
    while n > 0
        invariant
            n <= messages@.len(),
            all == messages_view(messages@),
            latest_of(all, who@) == latest_of(all.take(n as int), who@),
        decreases n,
    {
        n -= 1;
        assert(all.take(n + 1).last() == messages@[n as int]@);
        assert(all.take(n + 1).drop_last() =~= all.take(n as int));
        if text_is(messages[n].who.as_str(), who) {
            return Some(messages[n].text.as_str());
        }
    }
    None
}

/// The lines of a log that report failures, each cut after 500 characters.
pub open spec fn failures(lines: Seq<Seq<char>>) -> Seq<Seq<char>> {
    lines.filter(|l: Seq<char>| reports_failure(l)).map_values(|l: Seq<char>| shortened(l, 500))
}

/// The lines of a log that report failures, each cut after 500 characters.
pub fn failure_lines(lines: &Vec<String>) -> (r: Vec<String>)
    ensures
        texts(r@) == failures(texts(lines@)),
{
    let n: usize = lines.len();
    let ghost all = texts(lines@);
    let ghost f = |l: Seq<char>| reports_failure(l);
    let ghost cut = |l: Seq<char>| shortened(l, 500);
    let mut out: Vec<String> = Vec::new();
    let mut i: usize = 0;
    proof {
        reveal(Seq::filter);
        assert(all.take(0) =~= Seq::<Seq<char>>::empty());
        assert(texts(out@) =~= all.take(0).filter(f).map_values(cut));
    }
    while i < n
        invariant
            i <= n == lines@.len(),
            all == texts(lines@),
            f == (|l: Seq<char>| reports_failure(l)),
            cut == (|l: Seq<char>| shortened(l, 500)),
            texts(out@) == all.take(i as int).filter(f).map_values(cut),
        decreases n - i,
    {
        let line = lines[i].as_str();
        let ghost before = out@;
        proof {
            reveal(Seq::filter);
            assert(all.take(i + 1).drop_last() =~= all.take(i as int));
            assert(all.take(i + 1).last() == line@);
        }
        if is_actual_error_log_line(line) {
            out.push(truncate_text(line, 500));
            proof {
                let kept = all.take(i as int).filter(f);
                assert(kept.push(line@).map_values(cut) =~= kept.map_values(cut).push(
                    shortened(line@, 500),
                ));
                assert(texts(out@) =~= texts(before).push(shortened(line@, 500)));
            }
        }
        i += 1;
    }
    assert(all.take(n as int) =~= all);
    out
}

/// The text of what is remembered of a project after a run.
pub open spec fn memory_text(
    now: u64,
    session_id: Seq<char>,
    user: Seq<char>,
    assistant: Seq<char>,
    errors: Seq<Seq<char>>,
) -> Seq<char> {
    "# Current project memory\n\nUpdated: "@ + decimal(now as nat) + "\nSession: "@ + session_id
        + "\n\n## Last user request\n"@ + shortened(user, 4000) + "\n\n## Last answer\n"@ + shortened(
        assistant,
        4000,
    ) + "\n\n## Errors to avoid\n"@ + if errors.len() == 0 {
        "None"@
    } else {
        joined(errors, "\n"@)
    } + "\n"@
}

/// What is remembered of a run tells the session, the request and the answer, each under its heading,
/// and every failure; a run without any is told to have none.
pub proof fn runs_are_remembered(
    now: u64,
    session_id: Seq<char>,
    user: Seq<char>,
    assistant: Seq<char>,
    errors: Seq<Seq<char>>,
    i: int,
)
    requires
        user.len() <= 4000,
        assistant.len() <= 4000,
    ensures
        ({
            let text = memory_text(now, session_id, user, assistant, errors);
            &&& holds(text, "Updated: "@ + decimal(now as nat) + "\n"@)
            &&& holds(text, "\nSession: "@ + session_id)
            &&& holds(text, "\n\n## Last user request\n"@ + user)
            &&& holds(text, "\n\n## Last answer\n"@ + assistant)
            &&& 0 <= i < errors.len() ==> holds(text, errors[i])
            &&& errors.len() == 0 ==> ends(text, "\n\n## Errors to avoid\nNone\n"@)
        }),
{
    let told = if errors.len() == 0 {
        "None"@
    } else {
        joined(errors, "\n"@)
    };
    let text = memory_text(now, session_id, user, assistant, errors);
    lemma_told(
        "# Current project memory\n\nUpdated: "@,
        decimal(now as nat),
        "\nSession: "@,
        session_id,
        "\n\n## Last user request\n"@,
        user,
        "\n\n## Last answer\n"@,
        assistant,
        "\n\n## Errors to avoid\n"@,
        told,
        "\n"@,
    );
    lemma_updated(decimal(now as nat), text);
    if 0 <= i < errors.len() {
        lemma_joined_holds(errors, "\n"@, i);
        lemma_holds_part(text, told, errors[i]);
    }
    lemma_no_errors();
}

/// How it is written that there is nothing to avoid.
proof fn lemma_no_errors()
    ensures
        "\n\n## Errors to avoid\n"@ + "None"@ + "\n"@ == "\n\n## Errors to avoid\nNone\n"@,
{
    reveal_strlit("\n\n## Errors to avoid\n");
    reveal_strlit("None");
    reveal_strlit("\n");
    reveal_strlit("\n\n## Errors to avoid\nNone\n");
    assert("\n\n## Errors to avoid\n"@ + "None"@ + "\n"@ =~= "\n\n## Errors to avoid\nNone\n"@);
}

/// A text ends with what is put behind it.
proof fn lemma_at_the_end(front: Seq<char>, end: Seq<char>)
    ensures
        ends(front + end, end),
{
    let s = front + end;
    assert(s.subrange(s.len() - end.len(), s.len() as int) =~= end);
}

/// A text holds what stands between two others.
proof fn lemma_after(front: Seq<char>, part: Seq<char>, behind: Seq<char>)
    ensures
        holds(front + part + behind, part),
{
    lemma_holds_middle(front, part, behind);
}

/// The time stands behind its word.
proof fn lemma_updated(time: Seq<char>, text: Seq<char>)
    requires
        begins(text, "# Current project memory\n\nUpdated: "@ + time + "\nSession: "@),
    ensures
        holds(text, "Updated: "@ + time + "\n"@),
{
    reveal_strlit("# Current project memory\n\nUpdated: ");
    reveal_strlit("\nSession: ");
    reveal_strlit("Updated: ");
    reveal_strlit("\n");
    let head = "# Current project memory\n\nUpdated: "@ + time + "\nSession: "@;
    let part = "Updated: "@ + time + "\n"@;
    assert(head.subrange(26, 26int + part.len()) =~= part);
    assert(text.subrange(26, 26int + part.len()) =~= head.subrange(26, 26int + part.len()));
    assert(occurs_at(text, part, 26));
}

/// What a text of so many parts holds, and how it begins and ends.
#[verifier::rlimit(40)]
proof fn lemma_told(
    title: Seq<char>,
    time: Seq<char>,
    s: Seq<char>,
    id: Seq<char>,
    u: Seq<char>,
    user: Seq<char>,
    a: Seq<char>,
    assistant: Seq<char>,
    e: Seq<char>,
    told: Seq<char>,
    end: Seq<char>,
)
    ensures
        ({
            let all = title + time + s + id + u + user + a + assistant + e + told + end;
            &&& holds(all, s + id)
            &&& holds(all, u + user)
            &&& holds(all, a + assistant)
            &&& holds(all, told)
            &&& begins(all, title + time + s)
            &&& ends(all, e + told + end)
        }),
{
    let t1 = title + time;
    let t2 = t1 + s + id;
    let t3 = t2 + u + user;
    let t4 = t3 + a + assistant;
    let all = t4 + e + told + end;
    lemma_pair_held(t1, s, id);
    lemma_pair_held(t2, u, user);
    lemma_pair_held(t3, a, assistant);
    lemma_after(t4 + e, told, end);
    lemma_kept(t2, u, user, s + id);
    lemma_kept(t3, a, assistant, s + id);
    lemma_kept(t3, a, assistant, u + user);
    lemma_kept(t4, e, told + end, s + id);
    lemma_kept(t4, e, told + end, u + user);
    lemma_kept(t4, e, told + end, a + assistant);
    assert(t4 + e + (told + end) =~= all);
    assert(t4 + (e + told + end) =~= all);
    lemma_at_the_end(t4, e + told + end);
    lemma_at_the_front(t1 + s, id + u + user + a + assistant + e + told + end);
    assert(t1 + s + (id + u + user + a + assistant + e + told + end) =~= all);
}

/// A text begins with what is put in front of it.
proof fn lemma_at_the_front(front: Seq<char>, rest: Seq<char>)
    ensures
        begins(front + rest, front),
{
    assert((front + rest).subrange(0, front.len() as int) =~= front);
}

/// Two parts at the end are held together.
proof fn lemma_pair_held(front: Seq<char>, a: Seq<char>, b: Seq<char>)
    ensures
        holds(front + a + b, a + b),
{
    lemma_at_the_end(front, a + b);
    assert(front + (a + b) =~= front + a + b);
}

/// What a text holds is held where more is put behind it.
proof fn lemma_kept(front: Seq<char>, a: Seq<char>, b: Seq<char>, part: Seq<char>)
    requires
        holds(front, part),
    ensures
        holds(front + a + b, part),
{
    let none = Seq::<char>::empty();
    lemma_after(none, front, a + b);
    assert(none + front + (a + b) =~= front + a + b);
    lemma_holds_part(front + a + b, front, part);
}

/// The failures of a log are those of its lines one by one, in order: each line that reports one, as
/// it is where it is short, and no other.
pub proof fn failures_are_kept_in_order(a: Seq<Seq<char>>, line: Seq<char>, b: Seq<Seq<char>>)
    ensures
        failures(a + b) == failures(a) + failures(b),
        !reports_failure(line) ==> failures(seq![line]).len() == 0,
        reports_failure(line) && line.len() <= 500 ==> failures(seq![line]) == seq![line],
        reports_failure(line) && line.len() > 500 ==> failures(seq![line]).len() == 1 && failures(
            seq![line],
        )[0].take(500) == line.take(500),
{
    let f = |l: Seq<char>| reports_failure(l);
    let cut = |l: Seq<char>| shortened(l, 500);
    Seq::filter_distributes_over_add(a, b, f);
    assert(failures(a + b) =~= failures(a) + failures(b));
    reveal(Seq::filter);
    let one = seq![line];
    assert(one.drop_last() =~= Seq::<Seq<char>>::empty());
    assert(one.drop_last().filter(f) =~= Seq::<Seq<char>>::empty());
    if reports_failure(line) {
        assert(one.filter(f) =~= one);
        assert(failures(one)[0] == shortened(line, 500));
        if line.len() <= 500 {
            assert(failures(one) =~= one);
        } else {
            assert(failures(one)[0].take(500) =~= line.take(500));
        }
    } else {
        assert(one.filter(f) =~= Seq::<Seq<char>>::empty());
    }
}

/// What is remembered after a run.
#[derive(Debug)]
pub struct MemoryRecord {
    /// What the user asked last.
    pub user: String,
    /// What was answered last.
    pub assistant: String,
    /// What went wrong.
    pub errors: Vec<String>,
    /// The text for the next run.
    pub text: String,
}

/// The request that is remembered of a chat: the latest one.
pub open spec fn last_request(messages: Seq<Message>) -> Seq<char> {
    match latest_of(messages, "You"@) {
        Some(t) => t,
        None => ""@,
    }
}

/// The answer that is remembered of a chat: the latest one, or else that of the run.
pub open spec fn last_answer(messages: Seq<Message>, final_answer: Seq<char>) -> Seq<char> {
    match latest_of(messages, "Assistant"@) {
        Some(t) => t,
        None => final_answer,
    }
}

/// What the user said last and what was answered last are remembered, each whoever spoke behind it.
pub proof fn the_last_words_are_remembered(
    before: Seq<Message>,
    m: Message,
    behind: Seq<Message>,
    final_answer: Seq<char>,
)
    ensures
        m.who == "You"@ && (forall|i: int|
            0 <= i < behind.len() ==> (#[trigger] behind[i]).who != "You"@) ==> last_request(
            before + seq![m] + behind,
        ) == m.text,
        m.who == "Assistant"@ && (forall|i: int|
            0 <= i < behind.len() ==> (#[trigger] behind[i]).who != "Assistant"@) ==> last_answer(
            before + seq![m] + behind,
            final_answer,
        ) == m.text,
        (forall|i: int| 0 <= i < behind.len() ==> (#[trigger] behind[i]).who != "Assistant"@)
            ==> last_answer(behind, final_answer) == final_answer,
{
    if forall|i: int| 0 <= i < behind.len() ==> (#[trigger] behind[i]).who != "You"@ {
        the_latest_message_is_the_last_one(before, m, behind, "You"@);
    }
    if forall|i: int| 0 <= i < behind.len() ==> (#[trigger] behind[i]).who != "Assistant"@ {
        the_latest_message_is_the_last_one(before, m, behind, "Assistant"@);
    }
}

/// What is remembered after a run: the latest request, the latest answer, or else the answer of
/// the run, and what went wrong.
pub fn update_memory_after_run(
    messages: &Vec<ChatMsg>,
    final_answer: &str,
    log_lines: &Vec<String>,
    session_id: &str,
    now_secs: u64,
) -> (r: MemoryRecord)
    ensures
        r.user@ == match latest_of(messages_view(messages@), "You"@) {
            Some(t) => t,
            None => ""@,
        },
        r.assistant@ == match latest_of(messages_view(messages@), "Assistant"@) {
            Some(t) => t,
            None => final_answer@,
        },
        r.user@ == last_request(messages_view(messages@)),
        r.assistant@ == last_answer(messages_view(messages@), final_answer@),
        texts(r.errors@) == failures(texts(log_lines@)),
        r.text@ == memory_text(
            now_secs,
            session_id@,
            r.user@,
            r.assistant@,
            failures(texts(log_lines@)),
        ),
{
    let user: &str = match latest_message(messages, "You") {
        Some(t) => t,
        None => "",
    };
    let assistant: &str = match latest_message(messages, "Assistant") {
        Some(t) => t,
        None => final_answer,
    };
    let errors = failure_lines(log_lines);
    assert(texts(errors@).len() == errors@.len());
    let mut text = cat7(
        "# Current project memory\n\nUpdated: ",
        to_decimal(now_secs as u128).as_str(),
        "\nSession: ",
        session_id,
        "\n\n## Last user request\n",
        truncate_text(user, 4000).as_str(),
        "\n\n## Last answer\n",
    );
    text.append(truncate_text(assistant, 4000).as_str());
    text.append("\n\n## Errors to avoid\n");
    if errors.len() == 0 {
        text.append("None");
    } else {
        text.append(join(&errors, "\n").as_str());
    }
    text.append("\n");
    MemoryRecord { user: user.to_owned(), assistant: assistant.to_owned(), errors, text }
}

/// A run with a failure in its log is not remembered as one without: the list of what went wrong
/// is empty exactly where nothing did.
pub proof fn failures_are_remembered(lines: Seq<Seq<char>>)
    ensures
        (failures(lines).len() == 0) == !failed(lines),
{
    let f = |l: Seq<char>| reports_failure(l);
    let kept = lines.filter(f);
    if failed(lines) {
        let i = choose|i: int| 0 <= i < lines.len() && reports_failure(#[trigger] lines[i]);
        lines.lemma_filter_contains(f, i);
        assert(kept.len() > 0);
    } else {
        assert forall|i: int| 0 <= i < lines.len() implies !f(#[trigger] lines[i]) by {}
        lines.lemma_all_neg_filter_empty(f);
    }
}

/// What becomes of a short training.
#[derive(Clone, Copy, Debug, PartialEq, Eq, Structural)]
pub enum TrainingStart {
    /// There is nothing to train on.
    NoExamples,
    /// The trainer is beside the data.
    BesideData,
    /// The trainer is in the current folder.
    InCurrentFolder,
    /// There is no trainer.
    NoTrainer,
}

/// What becomes of a short training.
pub open spec fn training_start(
    examples: bool,
    beside_data: bool,
    in_current_folder: bool,
) -> TrainingStart {
    if !examples {
        TrainingStart::NoExamples
    } else if beside_data {
        TrainingStart::BesideData
    } else if in_current_folder {
        TrainingStart::InCurrentFolder
    } else {
        TrainingStart::NoTrainer
    }
}

/// A training starts exactly where there is something to train on and a trainer, and that beside the
/// data comes first.
pub proof fn trainings_need_examples_and_a_trainer(
    examples: bool,
    beside_data: bool,
    in_current_folder: bool,
)
    ensures
        ({
            let start = training_start(examples, beside_data, in_current_folder);
            let starts = start is BesideData || start is InCurrentFolder;
            &&& starts <==> examples && (beside_data || in_current_folder)
            &&& start is BesideData <==> examples && beside_data
            &&& start is NoExamples <==> !examples
        }),
{
}

/// What becomes of a short training.
pub fn start_short_training(examples: bool, beside_data: bool, in_current_folder: bool) -> (r:
    TrainingStart)
    ensures
        r == training_start(examples, beside_data, in_current_folder),
        r == if !examples {
            TrainingStart::NoExamples
        } else if beside_data {
            TrainingStart::BesideData
        } else if in_current_folder {
            TrainingStart::InCurrentFolder
        } else {
            TrainingStart::NoTrainer
        },
{
    if !examples {
        TrainingStart::NoExamples
    } else if beside_data {
        TrainingStart::BesideData
    } else if in_current_folder {
        TrainingStart::InCurrentFolder
    } else {
        TrainingStart::NoTrainer
    }
}

/// What the log says of a short training, where `trainer` is where it was looked for last.
pub fn training_line(start: TrainingStart, trainer: &str) -> (r: String)
    ensures
        r@ == match start {
            TrainingStart::NoExamples => "Short training skipped: no successful training example exists yet."@,
            TrainingStart::NoTrainer => "Short training could not start: trainer missing at "@
                + trainer@,
            _ => "Short LoRA training started in the background (1 step)."@,
        },
{
    match start {
        TrainingStart::NoExamples => "Short training skipped: no successful training example exists yet.".to_owned(),
        TrainingStart::NoTrainer => cat2(
            "Short training could not start: trainer missing at ",
            trainer,
        ),
        _ => "Short LoRA training started in the background (1 step).".to_owned(),
    }
}

/// How a short training ended.
#[derive(Debug)]
pub enum TrainingEnd {
    Completed,
    Failed(Option<i32>),
    NotStarted(String),
}

/// How the status of a short training is written down.
pub fn training_status(end: &TrainingEnd) -> (r: String)
    ensures
        r@ == match *end {
            TrainingEnd::Completed => "training completed"@,
            TrainingEnd::Failed(code) => "training failed with exit code "@ + code_text(code),
            TrainingEnd::NotStarted(e) => "training could not start: "@ + e@,
        },
{
    match end {
        TrainingEnd::Completed => "training completed".to_owned(),
        TrainingEnd::Failed(code) => cat2(
            "training failed with exit code ",
            exit_code_text(*code).as_str(),
        ),
        TrainingEnd::NotStarted(e) => cat2("training could not start: ", e.as_str()),
    }
}

} // verus!

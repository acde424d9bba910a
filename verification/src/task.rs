//! Requests that only ask for one file to be written: they are carried out without any agent.

use vstd::prelude::*;
use crate::content::{
    content_stands_behind_its_phrase, content_stands_behind_the_verb, ends_content,
    extract_followup_write_content, extract_requested_file_content, followup_content,
    introduces_content, plain_behind_verb, plain_content, plain_content_is_kept, requested_content,
    try_extract_followup_write_content, try_extract_requested_file_content,
    without_a_phrase_there_is_no_content,
};
use crate::intent::{intent_of, normalize_for_intent};
use crate::outside::lowered;
use crate::request::{extract_requested_file_path, looks_like_file_path, path_like, requested_path};
use crate::text::{
    all_ascii, ascii_lower, char_replaced, contains, ends, ends_with, holds,
    lemma_char_replaced_none, occurs_at, opt_str, opt_text, replace_char, to_ascii_lower,
};

verus! {

/// A request that is carried out without any agent.
#[derive(Debug)]
pub enum LocalFileTask {
    /// Write `content` into the file `path`.
    CreateFile { path: String, content: String },
    /// The request does not say which file is meant.
    NeedFileName,
}

/// What a [`LocalFileTask`] says.
pub enum LocalTask {
    CreateFile { path: Seq<char>, content: Seq<char> },
    NeedFileName,
}

impl View for LocalFileTask {
    type V = LocalTask;

    open spec fn view(&self) -> LocalTask {
        match self {
            LocalFileTask::CreateFile { path, content } => LocalTask::CreateFile {
                path: path@,
                content: content@,
            },
            LocalFileTask::NeedFileName => LocalTask::NeedFileName,
        }
    }
}

/// What kind of request it is, apart from the content.
#[derive(Debug)]
pub enum TaskShape {
    /// The agents have to look at it.
    ForAgents,
    /// A file is to be written, but not said which.
    NeedFileName,
    /// The file with this path is to be written.
    Write(String),
}

/// What a [`TaskShape`] says.
pub enum Shape {
    ForAgents,
    NeedFileName,
    Write(Seq<char>),
}

impl View for TaskShape {
    type V = Shape;

    open spec fn view(&self) -> Shape {
        match self {
            TaskShape::ForAgents => Shape::ForAgents,
            TaskShape::NeedFileName => Shape::NeedFileName,
            TaskShape::Write(path) => Shape::Write(path@),
        }
    }
}

/// A request for a program or for code, which the agents have to look at.
pub open spec fn wants_code(intent: Seq<char>, explicit: Option<Seq<char>>) -> bool {
    ||| holds(intent, "exe"@)
    ||| holds(intent, "app"@)
    ||| holds(intent, "programm"@)
    ||| holds(intent, "code"@)
    ||| holds(intent, "python"@)
    ||| holds(intent, "pyinstaller"@)
    ||| explicit is Some && ends(ascii_lower(explicit->0), ".py"@)
}

/// A request that speaks of a file.
pub open spec fn mentions_file(intent: Seq<char>, explicit: Option<Seq<char>>) -> bool {
    ||| holds(intent, "datei"@)
    ||| holds(intent, "file"@)
    ||| holds(intent, ".txt"@)
    ||| holds(intent, ".md"@)
    ||| holds(intent, ".json"@)
    ||| holds(intent, ".rs"@)
    ||| explicit is Some
}

/// A request to create or to write.
pub open spec fn wants_creation(intent: Seq<char>) -> bool {
    ||| holds(intent, "erstell"@)
    ||| holds(intent, "anleg"@)
    ||| holds(intent, "lege"@)
    ||| holds(intent, "mach"@)
    ||| holds(intent, "schreib"@)
    ||| holds(intent, "speicher"@)
    ||| holds(intent, "create"@)
    ||| holds(intent, "make"@)
    ||| holds(intent, "write"@)
    ||| holds(intent, "save"@)
}

/// A request to write into the file that was spoken of before.
pub open spec fn wants_followup(intent: Seq<char>, fallback: Option<Seq<char>>) -> bool {
    fallback is Some && (holds(intent, "schreib"@) || holds(intent, "rein"@) || holds(
        intent,
        "write"@,
    ) || holds(intent, "add"@))
}

/// What kind of request it is: `explicit` is the file it names, `fallback` the file that was
/// spoken of before.
pub open spec fn shape_of(
    intent: Seq<char>,
    explicit: Option<Seq<char>>,
    fallback: Option<Seq<char>>,
) -> Shape {
    if wants_code(intent, explicit) {
        Shape::ForAgents
    } else if !wants_creation(intent) && !wants_followup(intent, fallback) {
        Shape::ForAgents
    } else if !mentions_file(intent, explicit) && !wants_followup(intent, fallback) {
        Shape::ForAgents
    } else if explicit is Some {
        Shape::Write(explicit->0)
    } else if fallback is Some {
        Shape::Write(fallback->0)
    } else {
        Shape::NeedFileName
    }
}

/// The file spoken of before, where it looks like a file path.
pub open spec fn usable_fallback(fallback: Option<Seq<char>>) -> Option<Seq<char>> {
    match fallback {
        Some(p) => if path_like(lowered(char_replaced(p, '\\', "/"@))) {
            Some(p)
        } else {
            None
        },
        None => None,
    }
}

/// A file that was spoken of before is taken where it looks like a file path, as it was named, and
/// nothing else is.
pub proof fn files_spoken_of_before_are_taken(path: Seq<char>)
    ensures
        !path.contains('\\') && path_like(lowered(path)) ==> usable_fallback(Some(path)) == Some(path),
        !path.contains('\\') && !path_like(lowered(path)) ==> usable_fallback(Some(path)) is None,
        usable_fallback(Some(path)) matches Some(p) ==> p == path,
        usable_fallback(None) is None,
{
    if !path.contains('\\') {
        assert forall|i: int| 0 <= i < path.len() implies #[trigger] path[i] != '\\' by {
            assert(path.contains(path[i]));
        }
        lemma_char_replaced_none(path, '\\', "/"@);
    }
}

/// The content that a request asks for; nothing where it gives none. `None` where the request
/// cannot be cut at the offsets found in its form in small letters.
pub open spec fn content_of(request: Seq<char>) -> Option<Seq<char>> {
    match requested_content(request) {
        None => None,
        Some(Some(c)) => Some(c),
        Some(None) => match followup_content(request) {
            None => None,
            Some(Some(c)) => Some(c),
            Some(None) => Some(Seq::empty()),
        },
    }
}

/// The task that a request asks for, to be carried out without any agent; `Some(None)` where the
/// agents have to look at it, and `None` where its content cannot be cut out.
pub open spec fn local_task(
    request: Seq<char>,
    fallback: Option<Seq<char>>,
) -> Option<Option<LocalTask>> {
    match shape_of(intent_of(request), requested_path(request), usable_fallback(fallback)) {
        Shape::ForAgents => Some(None),
        Shape::NeedFileName => Some(Some(LocalTask::NeedFileName)),
        Shape::Write(path) => match content_of(request) {
            Some(content) => Some(Some(LocalTask::CreateFile { path, content })),
            None => None,
        },
    }
}

/// Content that a phrase such as "with the content" gives is what is written, whatever verb the
/// request uses; what stands behind "write" or "add" counts only where no such phrase gives content;
/// and where neither gives any, the file is empty.
pub proof fn what_a_phrase_gives_comes_first(request: Seq<char>, fallback: Option<Seq<char>>)
    requires
        shape_of(intent_of(request), requested_path(request), usable_fallback(fallback)) is Write,
    ensures
        ({
            let path = shape_of(
                intent_of(request),
                requested_path(request),
                usable_fallback(fallback),
            )->Write_0;
            let task = local_task(request, fallback);
            &&& requested_content(request) matches Some(Some(c)) ==> task == Some(
                Some(LocalTask::CreateFile { path, content: c }),
            )
            &&& requested_content(request) == Some(None::<Seq<char>>) && (followup_content(request)
                matches Some(Some(_))) ==> task == Some(
                Some(LocalTask::CreateFile { path, content: followup_content(request)->0->0 }),
            )
            &&& requested_content(request) == Some(None::<Seq<char>>) && followup_content(request)
                == Some(None::<Seq<char>>) ==> task == Some(
                Some(LocalTask::CreateFile { path, content: ""@ }),
            )
        }),
{
    reveal_strlit("");
    assert(""@ =~= Seq::<char>::empty());
}

/// A request in ASCII that says "with the content", or another such phrase once, is answered with a
/// file that holds what stands behind the phrase, whatever stands in front of it.
#[verifier::rlimit(40)]
pub proof fn content_behind_a_phrase_is_written(
    front: Seq<char>,
    phrase: Seq<char>,
    c: Seq<char>,
    fallback: Option<Seq<char>>,
)
    requires
        all_ascii(front + phrase + c),
        plain_content(c),
        forall|p: Seq<char>| #[trigger] ends_content(p) ==> !holds(ascii_lower(c), p),
        introduces_content(ascii_lower(phrase)),
        forall|p: Seq<char>, j: int|
            introduces_content(p) && #[trigger] occurs_at(ascii_lower(front + phrase + c), p, j)
                ==> p == ascii_lower(phrase) && j >= front.len(),
    ensures
        ({
            let request = front + phrase + c;
            shape_of(
                intent_of(request),
                requested_path(request),
                usable_fallback(fallback),
            ) matches Shape::Write(path) ==> local_task(request, fallback) == Some(
                Some(LocalTask::CreateFile { path, content: c }),
            )
        }),
{
    content_stands_behind_its_phrase(front, phrase, c);
    plain_content_is_kept(c);
}

/// A request in ASCII without such a phrase that says "write" or "add" is answered with a file that
/// holds what stands behind the verb.
#[verifier::rlimit(40)]
pub proof fn content_behind_the_verb_is_written(
    front: Seq<char>,
    verb: Seq<char>,
    c: Seq<char>,
    fallback: Option<Seq<char>>,
)
    requires
        ascii_lower(verb) == "write "@ || (ascii_lower(verb) == "add "@ && !holds(
            ascii_lower(front + verb + c),
            "write "@,
        )),
        all_ascii(front + verb + c),
        plain_behind_verb(c),
        forall|j: int|
            occurs_at(ascii_lower(front + verb + c), ascii_lower(verb), j) ==> j <= front.len(),
        forall|p: Seq<char>| #[trigger] introduces_content(p) ==> !holds(
            ascii_lower(front + verb + c),
            p,
        ),
    ensures
        ({
            let request = front + verb + c;
            shape_of(
                intent_of(request),
                requested_path(request),
                usable_fallback(fallback),
            ) matches Shape::Write(path) ==> local_task(request, fallback) == Some(
                Some(LocalTask::CreateFile { path, content: c }),
            )
        }),
{
    content_stands_behind_the_verb(front, verb, c);
    without_a_phrase_there_is_no_content(front + verb + c);
}

/// A word that asks for a file to be made or written.
pub open spec fn asks_to_write(word: Seq<char>) -> bool {
    ||| word == "create"@
    ||| word == "make"@
    ||| word == "write"@
    ||| word == "save"@
    ||| word == "erstell"@
    ||| word == "anleg"@
    ||| word == "lege"@
    ||| word == "mach"@
    ||| word == "schreib"@
    ||| word == "speicher"@
}

/// A word that speaks of a program or of code.
pub open spec fn speaks_of_code(word: Seq<char>) -> bool {
    ||| word == "exe"@
    ||| word == "app"@
    ||| word == "programm"@
    ||| word == "code"@
    ||| word == "python"@
    ||| word == "pyinstaller"@
}

/// A request to write a file that it names, or else the one spoken of before, is carried out with
/// that file, unless it speaks of a program or of code or the file is a script: then the agents look
/// at it.
pub proof fn requests_for_a_file_write_that_file(
    request: Seq<char>,
    fallback: Option<Seq<char>>,
    word: Seq<char>,
)
    requires
        asks_to_write(word),
        holds(intent_of(request), word),
    ensures
        ({
            let intent = intent_of(request);
            let task = local_task(request, fallback);
            let named = requested_path(request);
            let coded = (exists|w: Seq<char>| #[trigger] speaks_of_code(w) && holds(intent, w)) || (
            named matches Some(p) && ends(ascii_lower(p), ".py"@));
            &&& coded ==> task == Some(None::<LocalTask>)
            &&& !coded && named is Some ==> task is None || (task matches Some(
                Some(LocalTask::CreateFile { path, content: _ }),
            ) && path == named->0)
            &&& !coded && named is None && usable_fallback(fallback) is Some && (holds(
                intent,
                "file"@,
            ) || holds(intent, "datei"@) || word == "write"@ || word == "schreib"@) ==> task is None
                || (task matches Some(Some(LocalTask::CreateFile { path, content: _ })) && path
                == fallback->0)
            &&& !coded && named is None && usable_fallback(fallback) is None && (holds(
                intent,
                "file"@,
            ) || holds(intent, "datei"@)) ==> task == Some(Some(LocalTask::NeedFileName))
        }),
{
    let intent = intent_of(request);
    let named = requested_path(request);
    if wants_code(intent, named) && !(named is Some && ends(ascii_lower(named->0), ".py"@)) {
        assert(speaks_of_code("exe"@) && speaks_of_code("app"@) && speaks_of_code("programm"@)
            && speaks_of_code("code"@) && speaks_of_code("python"@) && speaks_of_code(
            "pyinstaller"@,
        ));
    }
}

/// A request that asks for nothing to be made or written is left to the agents, unless it adds to a
/// file that was spoken of before.
pub proof fn other_requests_are_left_to_the_agents(
    request: Seq<char>,
    fallback: Option<Seq<char>>,
)
    requires
        forall|w: Seq<char>| #[trigger] asks_to_write(w) ==> !holds(intent_of(request), w),
        usable_fallback(fallback) is None || (!holds(intent_of(request), "rein"@) && !holds(
            intent_of(request),
            "add"@,
        )),
    ensures
        local_task(request, fallback) == Some(None::<LocalTask>),
{
    assert(asks_to_write("create"@) && asks_to_write("make"@) && asks_to_write("write"@)
        && asks_to_write("save"@) && asks_to_write("erstell"@) && asks_to_write("anleg"@)
        && asks_to_write("lege"@) && asks_to_write("mach"@) && asks_to_write("schreib"@)
        && asks_to_write("speicher"@));
}

/// What an optional task says.
pub open spec fn opt_task(o: Option<LocalFileTask>) -> Option<LocalTask> {
    match o {
        Some(t) => Some(t@),
        None => None,
    }
}

/// What kind of request it is: `explicit` is the file it names, `fallback` the file that was
/// spoken of before.
pub fn task_shape(intent: &str, explicit: Option<String>, fallback: Option<&str>) -> (r: TaskShape)
    ensures
        r@ == shape_of(intent@, opt_text(explicit), opt_str(fallback)),
{
    let names_script = match &explicit {
        Some(path) => {
            let lower = to_ascii_lower(path.as_str());
            ends_with(lower.as_str(), ".py")
        },
        None => false,
    };
    if contains(intent, "exe") || contains(intent, "app") || contains(intent, "programm")
        || contains(intent, "code") || contains(intent, "python") || contains(intent, "pyinstaller")
        || names_script {
        return TaskShape::ForAgents;
    }
    let mentions = contains(intent, "datei") || contains(intent, "file") || contains(intent, ".txt")
        || contains(intent, ".md") || contains(intent, ".json") || contains(intent, ".rs")
        || explicit.is_some();
    let create = contains(intent, "erstell") || contains(intent, "anleg") || contains(intent, "lege")
        || contains(intent, "mach") || contains(intent, "schreib") || contains(intent, "speicher")
        || contains(intent, "create") || contains(intent, "make") || contains(intent, "write")
        || contains(intent, "save");
    let followup = fallback.is_some() && (contains(intent, "schreib") || contains(intent, "rein")
        || contains(intent, "write") || contains(intent, "add"));
    if !create && !followup {
        return TaskShape::ForAgents;
    }
    if !mentions && !followup {
        return TaskShape::ForAgents;
    }
    match explicit {
        Some(path) => TaskShape::Write(path),
        None => match fallback {
            Some(path) => TaskShape::Write(path.to_owned()),
            None => TaskShape::NeedFileName,
        },
    }
}

/// What kind of request it is.
fn request_shape(user_request: &str, fallback_path: Option<&str>) -> (r: TaskShape)
    ensures
        r@ == shape_of(
            intent_of(user_request@),
            requested_path(user_request@),
            usable_fallback(opt_str(fallback_path)),
        ),
{
    let intent = normalize_for_intent(user_request);
    let explicit = extract_requested_file_path(user_request);
    let fallback = match fallback_path {
        Some(path) => {
            let slashed = replace_char(path, '\\', "/");
            if looks_like_file_path(slashed.as_str()) {
                Some(path)
            } else {
                None
            }
        },
        None => None,
    };
    task_shape(intent.as_str(), explicit, fallback)
}

/// The task that a request asks for, to be carried out without any agent; `None` where the agents
/// have to look at it.
pub fn parse_local_file_task(user_request: &str, fallback_path: Option<&str>) -> (r: Option<
    LocalFileTask,
>)
    requires
        local_task(user_request@, opt_str(fallback_path)) is Some,
    ensures
        Some(opt_task(r)) == local_task(user_request@, opt_str(fallback_path)),
{
    match request_shape(user_request, fallback_path) {
        TaskShape::ForAgents => None,
        TaskShape::NeedFileName => Some(LocalFileTask::NeedFileName),
        TaskShape::Write(path) => {
            let content = match extract_requested_file_content(user_request) {
                Some(content) => content,
                None => match extract_followup_write_content(user_request) {
                    Some(content) => content,
                    None => String::new(),
                },
            };
            Some(LocalFileTask::CreateFile { path, content })
        },
    }
}

/// The task that a request asks for, or `None` where its content cannot be cut out of it.
pub fn try_parse_local_file_task(user_request: &str, fallback_path: Option<&str>) -> (r: Option<
    Option<LocalFileTask>,
>)
    ensures
        match r {
            Some(task) => local_task(user_request@, opt_str(fallback_path)) == Some(opt_task(task)),
            None => local_task(user_request@, opt_str(fallback_path)) is None,
        },
{
    let cut = match request_shape(user_request, fallback_path) {
        TaskShape::Write(_) => match try_extract_requested_file_content(user_request) {
            None => false,
            Some(Some(_)) => true,
            Some(None) => try_extract_followup_write_content(user_request).is_some(),
        },
        _ => true,
    };
    if cut {
        Some(parse_local_file_task(user_request, fallback_path))
    } else {
        None
    }
}

} // verus!

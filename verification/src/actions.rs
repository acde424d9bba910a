//! File actions: their checks before anything is written, and the choice between candidates.

use vstd::prelude::*;
use crate::models::{DEEPSEEK_CODER_MODEL, QWEN_CODER_MODEL};
use crate::numbers::{decimal, to_decimal};
use crate::paths::{
    accepted_paths_stay_inside, clean_source, is_python_name, path_verdict, python_name,
    safe_project_path, scripts_are_known_by_their_ending, source_text, within, PathFacts,
};
use crate::text::{begins, cat2, count_matches, count_of, opt_text, text_is, texts};

verus! {

/// A change to one file.
#[derive(Debug)]
pub enum FileAction {
    /// Write `content` into the file `path`.
    WriteFile { path: String, content: String },
    /// Copy the file `source` to `path`.
    CopyFile { source: String, path: String },
    /// Make a program of the Python script `path`.
    PackagePythonExe { path: String },
    /// Replace the one occurrence of `find` in the file `path` by `replace`.
    ReplaceText { path: String, find: String, replace: String },
    /// Append `content` to the file `path`.
    AppendFile { path: String, content: String },
}

/// What a [`FileAction`] says.
pub enum Action {
    WriteFile { path: Seq<char>, content: Seq<char> },
    CopyFile { source: Seq<char>, path: Seq<char> },
    PackagePythonExe { path: Seq<char> },
    ReplaceText { path: Seq<char>, find: Seq<char>, replace: Seq<char> },
    AppendFile { path: Seq<char>, content: Seq<char> },
}

impl View for FileAction {
    type V = Action;

    open spec fn view(&self) -> Action {
        match self {
            FileAction::WriteFile { path, content } => Action::WriteFile {
                path: path@,
                content: content@,
            },
            FileAction::CopyFile { source, path } => Action::CopyFile {
                source: source@,
                path: path@,
            },
            FileAction::PackagePythonExe { path } => Action::PackagePythonExe { path: path@ },
            FileAction::ReplaceText { path, find, replace } => Action::ReplaceText {
                path: path@,
                find: find@,
                replace: replace@,
            },
            FileAction::AppendFile { path, content } => Action::AppendFile {
                path: path@,
                content: content@,
            },
        }
    }
}

/// What a list of actions says.
pub open spec fn actions_view(v: Seq<FileAction>) -> Seq<Action> {
    v.map_values(|a: FileAction| a@)
}

impl FileAction {
    /// The same action once more.
    pub fn copy(&self) -> (r: FileAction)
        ensures
            r@ == self@,
    {
        match self {
            FileAction::WriteFile { path, content } => FileAction::WriteFile {
                path: path.as_str().to_owned(),
                content: content.as_str().to_owned(),
            },
            FileAction::CopyFile { source, path } => FileAction::CopyFile {
                source: source.as_str().to_owned(),
                path: path.as_str().to_owned(),
            },
            FileAction::PackagePythonExe { path } => FileAction::PackagePythonExe {
                path: path.as_str().to_owned(),
            },
            FileAction::ReplaceText { path, find, replace } => FileAction::ReplaceText {
                path: path.as_str().to_owned(),
                find: find.as_str().to_owned(),
                replace: replace.as_str().to_owned(),
            },
            FileAction::AppendFile { path, content } => FileAction::AppendFile {
                path: path.as_str().to_owned(),
                content: content.as_str().to_owned(),
            },
        }
    }
}

/// What a coder answers with: file actions and a summary of them.
#[derive(Debug)]
pub struct ActionEnvelope {
    pub summary: Option<String>,
    pub actions: Vec<FileAction>,
}

/// What an [`ActionEnvelope`] says.
pub struct Envelope {
    pub summary: Option<Seq<char>>,
    pub actions: Seq<Action>,
}

impl View for ActionEnvelope {
    type V = Envelope;

    open spec fn view(&self) -> Envelope {
        Envelope {
            summary: opt_text(self.summary),
            actions: actions_view(self.actions@),
        }
    }
}

impl ActionEnvelope {
    /// The same envelope once more.
    pub fn copy(&self) -> (r: ActionEnvelope)
        ensures
            r@ == self@,
    {
        let n: usize = self.actions.len();
        let mut actions: Vec<FileAction> = Vec::new();
        let mut i: usize = 0;
        while i < n
            invariant
                i <= n == self.actions@.len(),
                actions@.len() == i,
                forall|k: int| 0 <= k < i ==> (#[trigger] actions@[k])@ == self.actions@[k]@,
            decreases n - i,
        {
            actions.push(self.actions[i].copy());
            i += 1;
        }
        assert(actions_view(actions@) =~= actions_view(self.actions@));
        let summary = match &self.summary {
            Some(s) => Some(s.as_str().to_owned()),
            None => None,
        };
        ActionEnvelope { summary, actions }
    }
}

/// The envelope of a coder that found nothing it could safely change.
pub open spec fn empty_envelope() -> Envelope {
    Envelope { summary: Some("No safe file change created."@), actions: Seq::empty() }
}

/// The envelope of a coder that found nothing it could safely change.
pub fn empty_action_envelope() -> (r: ActionEnvelope)
    ensures
        r@ == empty_envelope(),
{
    let actions: Vec<FileAction> = Vec::new();
    assert(actions_view(actions@) =~= Seq::empty());
    ActionEnvelope { summary: Some("No safe file change created.".to_owned()), actions }
}

// ---------------------------------------------------------------------------------------------
// Checking
// ---------------------------------------------------------------------------------------------

/// What the file system says of the files that an action names.
#[derive(Debug)]
pub struct ActionFacts {
    /// What the file system says of the path of the target.
    pub place: PathFacts,
    /// The names that make up the target.
    pub target: Vec<String>,
    /// Whether the target exists.
    pub target_exists: bool,
    /// Whether the source of a copy exists.
    pub source_exists: bool,
    /// Whether the source of a copy is a file.
    pub source_is_file: bool,
    /// The text in the target, or why it could not be read.
    pub text: Result<String, String>,
}

/// What has to be looked up before an action can be checked.
#[derive(Debug)]
pub struct WantedFacts {
    /// The path of the target.
    pub path: String,
    /// The source of a copy.
    pub source: Option<String>,
    /// Whether it matters that the target exists.
    pub exists: bool,
    /// Whether the text in the target matters.
    pub text: bool,
}

/// The path that an action names.
pub open spec fn action_path(a: Action) -> Seq<char> {
    match a {
        Action::WriteFile { path, content: _ } => path,
        Action::CopyFile { source: _, path } => path,
        Action::PackagePythonExe { path } => path,
        Action::ReplaceText { path, find: _, replace: _ } => path,
        Action::AppendFile { path, content: _ } => path,
    }
}

/// The path that an action names.
pub fn path_of(action: &FileAction) -> (r: &str)
    ensures
        r@ == action_path(action@),
{
    match action {
        FileAction::WriteFile { path, content: _ } => path.as_str(),
        FileAction::CopyFile { source: _, path } => path.as_str(),
        FileAction::PackagePythonExe { path } => path.as_str(),
        FileAction::ReplaceText { path, find: _, replace: _ } => path.as_str(),
        FileAction::AppendFile { path, content: _ } => path.as_str(),
    }
}

/// What has to be looked up before an action can be checked.
pub fn wanted_facts(action: &FileAction) -> (r: WantedFacts)
    ensures
        r.path@ == action_path(action@),
        opt_text(r.source) == match action@ {
            Action::CopyFile { source, path: _ } => Some(source_text(source)),
            _ => None,
        },
        r.exists == (action@ is PackagePythonExe),
        r.text == match action@ {
            Action::ReplaceText { path: _, find, replace: _ } => find.len() > 0,
            _ => false,
        },
{
    match action {
        FileAction::WriteFile { path, content: _ } => WantedFacts {
            path: path.as_str().to_owned(),
            source: None,
            exists: false,
            text: false,
        },
        FileAction::CopyFile { source, path } => WantedFacts {
            path: path.as_str().to_owned(),
            source: Some(clean_source(source.as_str())),
            exists: false,
            text: false,
        },
        FileAction::PackagePythonExe { path } => WantedFacts {
            path: path.as_str().to_owned(),
            source: None,
            exists: true,
            text: false,
        },
        FileAction::ReplaceText { path, find, replace: _ } => WantedFacts {
            path: path.as_str().to_owned(),
            source: None,
            exists: false,
            text: !find.as_str().is_empty(),
        },
        FileAction::AppendFile { path, content: _ } => WantedFacts {
            path: path.as_str().to_owned(),
            source: None,
            exists: false,
            text: false,
        },
    }
}

/// The target of an action, or why its path is refused.
pub open spec fn target_of(a: Action, f: ActionFacts) -> Result<Seq<Seq<char>>, Seq<char>> {
    match path_verdict(action_path(a), f.place) {
        Ok(_) => Ok(texts(f.target@)),
        Err(e) => Err(e),
    }
}

/// The target that an action leaves behind, as far as later actions may count on it.
pub open spec fn leaves_target(a: Action, f: ActionFacts) -> Option<Seq<Seq<char>>> {
    match target_of(a, f) {
        Err(_) => None,
        Ok(target) => match a {
            Action::WriteFile { .. } => Some(target),
            Action::CopyFile { .. } => if f.source_exists && f.source_is_file {
                Some(target)
            } else {
                None
            },
            _ => None,
        },
    }
}

/// The targets that the given actions leave behind, in order.
pub open spec fn targets_left(actions: Seq<Action>, facts: Seq<ActionFacts>) -> Seq<Seq<Seq<char>>>
    decreases actions.len(),
{
    if actions.len() == 0 || facts.len() != actions.len() {
        Seq::empty()
    } else {
        let before = targets_left(actions.drop_last(), facts.drop_last());
        match leaves_target(actions.last(), facts.last()) {
            Some(target) => before.push(target),
            None => before,
        }
    }
}

/// The file that a target names.
pub open spec fn file_of(target: Seq<Seq<char>>) -> Seq<char> {
    if target.len() == 0 {
        ""@
    } else {
        target.last()
    }
}

/// What is wrong with an action, where `available` are the targets that earlier actions leave.
pub open spec fn fault(a: Action, f: ActionFacts, available: Seq<Seq<Seq<char>>>) -> Option<
    Seq<char>,
> {
    match a {
        Action::WriteFile { path: _, content: _ } => match target_of(a, f) {
            Ok(_) => None,
            Err(e) => Some("write_file: "@ + e),
        },
        Action::CopyFile { source, path: _ } => if !f.source_exists {
            Some("copy_file: source does not exist: "@ + source)
        } else if !f.source_is_file {
            Some("copy_file: source is not a file: "@ + source)
        } else {
            match target_of(a, f) {
                Ok(_) => None,
                Err(e) => Some("copy_file target: "@ + e),
            }
        },
        Action::AppendFile { path: _, content: _ } => match target_of(a, f) {
            Ok(_) => None,
            Err(e) => Some("append_file: "@ + e),
        },
        Action::PackagePythonExe { path } => match target_of(a, f) {
            Err(e) => Some("package_python_exe: "@ + e),
            Ok(target) => if !python_name(file_of(target)) {
                Some("package_python_exe: "@ + path + " is not a .py file"@)
            } else if !f.target_exists && !available.contains(target) {
                Some(
                    "package_python_exe: "@ + path
                        + " does not exist and is not written beforehand"@,
                )
            } else {
                None
            },
        },
        Action::ReplaceText { path, find, replace: _ } => if find.len() == 0 {
            Some("replace_text: empty search text"@)
        } else {
            match target_of(a, f) {
                Err(e) => Some("replace_text: "@ + e),
                Ok(_) => match f.text {
                    Err(e) => Some("replace_text: file not readable "@ + path + ": "@ + e@),
                    Ok(text) => if count_of(text@, find) == 1 {
                        None
                    } else {
                        Some(
                            "replace_text: "@ + decimal(count_of(text@, find)) + " matches in "@
                                + path + " (expected: 1)"@,
                        )
                    },
                },
            }
        },
    }
}

/// What is wrong with the given actions, in order, each fault with the number of its action.
pub open spec fn faults(actions: Seq<Action>, facts: Seq<ActionFacts>) -> Seq<Seq<char>>
    decreases actions.len(),
{
    if actions.len() == 0 || facts.len() != actions.len() {
        Seq::empty()
    } else {
        let before = faults(actions.drop_last(), facts.drop_last());
        let available = targets_left(actions.drop_last(), facts.drop_last());
        match fault(actions.last(), facts.last(), available) {
            Some(what) => before.push("Action "@ + decimal(actions.len()) + " "@ + what),
            None => before,
        }
    }
}

/// What a list of targets says.
pub open spec fn targets_view(v: Seq<Vec<String>>) -> Seq<Seq<Seq<char>>> {
    v.map_values(|t: Vec<String>| texts(t@))
}

/// Whether two targets are the same.
fn same_target(a: &Vec<String>, b: &Vec<String>) -> (r: bool)
    ensures
        r == (texts(a@) == texts(b@)),
{
    let n: usize = a.len();
    if n != b.len() {
        assert(texts(a@).len() != texts(b@).len());
        return false;
    }
    let mut i: usize = 0;
    while i < n
        invariant
            i <= n == a@.len(),
            n == b@.len(),
            forall|k: int| 0 <= k < i ==> #[trigger] texts(a@)[k] == texts(b@)[k],
        decreases n - i,
    {
        if !text_is(a[i].as_str(), b[i].as_str()) {
            assert(texts(a@)[i as int] != texts(b@)[i as int]);
            return false;
        }
        i += 1;
    }
    assert(texts(a@) =~= texts(b@));
    true
}

/// The same names once more.
fn copy_names(v: &Vec<String>) -> (r: Vec<String>)
    ensures
        texts(r@) == texts(v@),
{
    let n: usize = v.len();
    let mut out: Vec<String> = Vec::new();
    let mut i: usize = 0;
    while i < n
        invariant
            i <= n == v@.len(),
            out@.len() == i,
            forall|k: int| 0 <= k < i ==> (#[trigger] out@[k])@ == v@[k]@,
        decreases n - i,
    {
        out.push(v[i].as_str().to_owned());
        i += 1;
    }
    assert(texts(out@) =~= texts(v@));
    out
}

/// Whether a target is among the given ones.
fn has_target(all: &Vec<Vec<String>>, target: &Vec<String>) -> (r: bool)
    ensures
        r == targets_view(all@).contains(texts(target@)),
{
    let n: usize = all.len();
    let ghost view = targets_view(all@);
    let mut i: usize = 0;
    while i < n
        invariant
            i <= n == all@.len(),
            view == targets_view(all@),
            forall|k: int| 0 <= k < i ==> #[trigger] view[k] != texts(target@),
        decreases n - i,
    {
        assert(view[i as int] == texts(all@[i as int]@));
        if same_target(&all[i], target) {
            return true;
        }
        i += 1;
    }
    false
}

/// What is wrong with an action, where `available` are the targets that earlier actions leave.
fn fault_of(action: &FileAction, facts: &ActionFacts, available: &Vec<Vec<String>>) -> (r: Option<
    String,
>)
    ensures
        opt_text(r) == fault(action@, *facts, targets_view(available@)),
{
    let verdict = safe_project_path(path_of(action), &facts.place);
    match action {
        FileAction::WriteFile { path: _, content: _ } => match &verdict {
            Ok(_) => None,
            Err(e) => Some(cat2("write_file: ", e.as_str())),
        },
        FileAction::CopyFile { source, path: _ } => if !facts.source_exists {
            Some(cat2("copy_file: source does not exist: ", source.as_str()))
        } else if !facts.source_is_file {
            Some(cat2("copy_file: source is not a file: ", source.as_str()))
        } else {
            match &verdict {
                Ok(_) => None,
                Err(e) => Some(cat2("copy_file target: ", e.as_str())),
            }
        },
        FileAction::AppendFile { path: _, content: _ } => match &verdict {
            Ok(_) => None,
            Err(e) => Some(cat2("append_file: ", e.as_str())),
        },
        FileAction::PackagePythonExe { path } => match &verdict {
            Err(e) => Some(cat2("package_python_exe: ", e.as_str())),
            Ok(_) => {
                let target = &facts.target;
                let count: usize = target.len();
                assert(texts(target@).len() == count);
                let name: &str = if count == 0 {
                    ""
                } else {
                    assert(texts(target@).last() == target@[count - 1]@);
                    target[count - 1].as_str()
                };
                if !is_python_name(name) {
                    let mut out = cat2("package_python_exe: ", path.as_str());
                    out.append(" is not a .py file");
                    Some(out)
                } else if !facts.target_exists && !has_target(available, target) {
                    let mut out = cat2("package_python_exe: ", path.as_str());
                    out.append(" does not exist and is not written beforehand");
                    Some(out)
                } else {
                    None
                }
            },
        },
        FileAction::ReplaceText { path, find, replace: _ } => if find.as_str().is_empty() {
            Some("replace_text: empty search text".to_owned())
        } else {
            match &verdict {
                Err(e) => Some(cat2("replace_text: ", e.as_str())),
                Ok(_) => match &facts.text {
                    Err(e) => {
                        let mut out = cat2("replace_text: file not readable ", path.as_str());
                        out.append(": ");
                        out.append(e.as_str());
                        Some(out)
                    },
                    Ok(text) => {
                        let count: usize = count_matches(text.as_str(), find.as_str());
                        if count == 1 {
                            None
                        } else {
                            let mut out = cat2(
                                "replace_text: ",
                                to_decimal(count as u128).as_str(),
                            );
                            out.append(" matches in ");
                            out.append(path.as_str());
                            out.append(" (expected: 1)");
                            Some(out)
                        }
                    },
                },
            }
        },
    }
}

/// What is wrong with the actions of an envelope, given what the file system says of each.
pub fn validate_action_envelope(envelope: &ActionEnvelope, facts: &Vec<ActionFacts>) -> (r: Vec<
    String,
>)
    requires
        facts@.len() == envelope.actions@.len(),
    ensures
        texts(r@) == faults(actions_view(envelope.actions@), facts@),
{
    let n: usize = envelope.actions.len();
    let ghost all = actions_view(envelope.actions@);
    let mut errors: Vec<String> = Vec::new();
    let mut available: Vec<Vec<String>> = Vec::new();
    let mut i: usize = 0;
    assert(texts(errors@) =~= Seq::<Seq<char>>::empty());
    assert(targets_view(available@) =~= Seq::<Seq<Seq<char>>>::empty());
    while i < n
        invariant
            i <= n == envelope.actions@.len(),
            n == facts@.len(),
            all == actions_view(envelope.actions@),
            texts(errors@) == faults(all.take(i as int), facts@.take(i as int)),
            targets_view(available@) == targets_left(all.take(i as int), facts@.take(i as int)),
        decreases n - i,
    {
        let action = &envelope.actions[i];
        let fact = &facts[i];
        proof {
            assert(all.take(i + 1).drop_last() =~= all.take(i as int));
            assert(facts@.take(i + 1).drop_last() =~= facts@.take(i as int));
            assert(all.take(i + 1).last() == action@);
            assert(facts@.take(i + 1).last() == *fact);
        }
        let ghost errors_before = errors@;
        if let Some(what) = fault_of(action, fact, &available) {
            let mut line: String = "Action ".to_owned();
            line.append(to_decimal((i as u128) + 1).as_str());
            line.append(" ");
            line.append(what.as_str());
            let ghost text = line@;
            errors.push(line);
            assert(texts(errors@) =~= texts(errors_before).push(text));
        }
        let left: Option<Vec<String>> = match safe_project_path(path_of(action), &fact.place) {
            Err(_) => None,
            Ok(_) => match action {
                FileAction::WriteFile { path: _, content: _ } => Some(copy_names(&fact.target)),
                FileAction::CopyFile { source: _, path: _ } => if fact.source_exists
                    && fact.source_is_file {
                    Some(copy_names(&fact.target))
                } else {
                    None
                },
                _ => None,
            },
        };
        let ghost available_before = available@;
        if let Some(target) = left {
            let ghost names = texts(target@);
            available.push(target);
            assert(targets_view(available@) =~= targets_view(available_before).push(names));
        }
        i += 1;
    }
    assert(all.take(n as int) =~= all);
    assert(facts@.take(n as int) =~= facts@);
    errors
}

/// An action has a fault exactly where the list of faults grows by it.
proof fn lemma_faults_grow(actions: Seq<Action>, facts: Seq<ActionFacts>, i: int)
    requires
        facts.len() == actions.len(),
        0 <= i < actions.len(),
    ensures
        faults(actions, facts).len() == 0 ==> fault(
            actions[i],
            facts[i],
            targets_left(actions.take(i), facts.take(i)),
        ) is None,
    decreases actions.len(),
{
    let a = actions.drop_last();
    let f = facts.drop_last();
    if i < a.len() {
        lemma_faults_grow(a, f, i);
        assert(a.take(i) =~= actions.take(i));
        assert(f.take(i) =~= facts.take(i));
    } else {
        assert(actions.take(i) =~= a);
        assert(facts.take(i) =~= f);
    }
}

/// Where an envelope has no faults, every action's path was let through and leads into the project
/// folder, every copy has a file to copy, and every replacement has exactly one place to go.
pub proof fn faultless_actions_are_safe(actions: Seq<Action>, facts: Seq<ActionFacts>, i: int)
    requires
        facts.len() == actions.len(),
        faults(actions, facts).len() == 0,
        0 <= i < actions.len(),
    ensures
        path_verdict(action_path(actions[i]), facts[i].place) is Ok,
        facts[i].place.parent is Ok,
        within(texts(facts[i].place.root@), texts(facts[i].place.parent->Ok_0@)),
        actions[i] is CopyFile ==> facts[i].source_exists && facts[i].source_is_file,
        actions[i] matches Action::ReplaceText { path: _, find, replace: _ } ==> find.len() > 0
            && facts[i].text is Ok && count_of(facts[i].text->Ok_0@, find) == 1,
{
    lemma_faults_grow(actions, facts, i);
    accepted_paths_stay_inside(action_path(actions[i]), facts[i].place);
}

/// One of the actions before the given one writes the same file, or copies one there.
pub open spec fn made_before(actions: Seq<Action>, facts: Seq<ActionFacts>, i: int) -> bool {
    exists|j: int|
        0 <= j < i && texts((#[trigger] facts[j]).target@) == texts(facts[i].target@)
            && path_verdict(action_path(actions[j]), facts[j].place) is Ok && (actions[j] is WriteFile
            || (actions[j] is CopyFile && facts[j].source_exists && facts[j].source_is_file))
}

/// An action that can be carried out: its path is let through, and what it works on is there.
pub open spec fn can_be_done(actions: Seq<Action>, facts: Seq<ActionFacts>, i: int) -> bool {
    let f = facts[i];
    path_verdict(action_path(actions[i]), f.place) is Ok && match actions[i] {
        Action::WriteFile { .. } => true,
        Action::AppendFile { .. } => true,
        Action::CopyFile { .. } => f.source_exists && f.source_is_file,
        Action::ReplaceText { path: _, find, replace: _ } => find.len() > 0 && (f.text matches Ok(
            text,
        ) && count_of(text@, find) == 1),
        Action::PackagePythonExe { .. } => f.target@.len() > 0 && python_name(f.target@.last()@) && (
        f.target_exists || made_before(actions, facts, i)),
    }
}

/// A target is left by the actions exactly where one of them leaves it.
proof fn lemma_targets_left(actions: Seq<Action>, facts: Seq<ActionFacts>, t: Seq<Seq<char>>)
    requires
        facts.len() == actions.len(),
    ensures
        targets_left(actions, facts).contains(t) <==> exists|j: int|
            0 <= j < actions.len() && leaves_target(#[trigger] actions[j], facts[j]) == Some(t),
    decreases actions.len(),
{
    if actions.len() > 0 {
        let a = actions.drop_last();
        let f = facts.drop_last();
        let before = targets_left(a, f);
        lemma_targets_left(a, f, t);
        let last = actions.len() - 1;
        match leaves_target(actions.last(), facts.last()) {
            Some(target) => {
                assert(before.push(target)[before.len() as int] == target);
                if before.contains(t) {
                    let k = before.index_of(t);
                    assert(before.push(target)[k] == t);
                }
                if before.push(target).contains(t) && target != t {
                    let k = before.push(target).index_of(t);
                    assert(before[k] == t);
                }
            },
            None => {},
        }
        if exists|j: int| 0 <= j < a.len() && leaves_target(#[trigger] a[j], f[j]) == Some(t) {
            let j = choose|j: int|
                0 <= j < a.len() && leaves_target(#[trigger] a[j], f[j]) == Some(t);
            assert(leaves_target(actions[j], facts[j]) == Some(t));
        }
        if exists|j: int|
            0 <= j < actions.len() && leaves_target(#[trigger] actions[j], facts[j]) == Some(t) {
            let j = choose|j: int|
                0 <= j < actions.len() && leaves_target(#[trigger] actions[j], facts[j]) == Some(t);
            if j < last {
                assert(leaves_target(a[j], f[j]) == Some(t));
            }
        }
    } else {
        assert(!targets_left(actions, facts).contains(t));
    }
}

/// The check finds a fault in an action exactly where it cannot be carried out, and names its kind.
#[verifier::rlimit(40)]
proof fn lemma_fault(actions: Seq<Action>, facts: Seq<ActionFacts>, i: int)
    requires
        facts.len() == actions.len(),
        0 <= i < actions.len(),
    ensures
        ({
            let what = fault(actions[i], facts[i], targets_left(actions.take(i), facts.take(i)));
            &&& what is None <==> can_be_done(actions, facts, i)
            &&& what matches Some(w) ==> begins(
                w,
                match actions[i] {
                    Action::WriteFile { .. } => "write_file"@,
                    Action::CopyFile { .. } => "copy_file"@,
                    Action::PackagePythonExe { .. } => "package_python_exe"@,
                    Action::ReplaceText { .. } => "replace_text"@,
                    Action::AppendFile { .. } => "append_file"@,
                },
            )
        }),
{
    let a = actions[i];
    let f = facts[i];
    let before = targets_left(actions.take(i), facts.take(i));
    let target = texts(f.target@);
    lemma_targets_left(actions.take(i), facts.take(i), target);
    if before.contains(target) {
        let j = choose|j: int|
            0 <= j < i && leaves_target(#[trigger] actions.take(i)[j], facts.take(i)[j]) == Some(
                target,
            );
        assert(actions.take(i)[j] == actions[j]);
        assert(texts(facts[j].target@) == target);
        assert(made_before(actions, facts, i));
    }
    if made_before(actions, facts, i) {
        let j = choose|j: int|
            0 <= j < i && texts((#[trigger] facts[j]).target@) == texts(facts[i].target@)
                && path_verdict(action_path(actions[j]), facts[j].place) is Ok && (
            actions[j] is WriteFile || (actions[j] is CopyFile && facts[j].source_exists
                && facts[j].source_is_file));
        assert(leaves_target(actions.take(i)[j], facts.take(i)[j]) == Some(target));
    }
    if a is PackagePythonExe {
        if f.target@.len() > 0 {
            assert(target.last() == f.target@.last()@);
        } else {
            reveal_strlit("");
            scripts_are_known_by_their_ending(""@);
        }
    }
    lemma_kinds_named(a, f, before);
}

/// A fault begins with the kind of its action.
proof fn lemma_kinds_named(a: Action, f: ActionFacts, before: Seq<Seq<Seq<char>>>)
    ensures
        fault(a, f, before) matches Some(w) ==> begins(
            w,
            match a {
                Action::WriteFile { .. } => "write_file"@,
                Action::CopyFile { .. } => "copy_file"@,
                Action::PackagePythonExe { .. } => "package_python_exe"@,
                Action::ReplaceText { .. } => "replace_text"@,
                Action::AppendFile { .. } => "append_file"@,
            },
        ),
{
    match fault(a, f, before) {
        Some(w) => {
            match a {
                Action::WriteFile { .. } => {
                    reveal_strlit("write_file");
                    reveal_strlit("write_file: ");
                    assert(w.subrange(0, 10) =~= "write_file"@);
                },
                Action::CopyFile { .. } => {
                    reveal_strlit("copy_file");
                    reveal_strlit("copy_file: source does not exist: ");
                    reveal_strlit("copy_file: source is not a file: ");
                    reveal_strlit("copy_file target: ");
                    assert(w.subrange(0, 9) =~= "copy_file"@);
                },
                Action::PackagePythonExe { .. } => {
                    reveal_strlit("package_python_exe");
                    reveal_strlit("package_python_exe: ");
                    assert(w.subrange(0, 18) =~= "package_python_exe"@);
                },
                Action::ReplaceText { .. } => {
                    reveal_strlit("replace_text");
                    reveal_strlit("replace_text: ");
                    reveal_strlit("replace_text: empty search text");
                    reveal_strlit("replace_text: file not readable ");
                    assert(w.subrange(0, 12) =~= "replace_text"@);
                },
                Action::AppendFile { .. } => {
                    reveal_strlit("append_file");
                    reveal_strlit("append_file: ");
                    assert(w.subrange(0, 11) =~= "append_file"@);
                },
            }
        },
        None => {},
    }
}

/// The check is complete and right, action by action: the actions up to one have the faults that
/// those before it have, and one more exactly where that action cannot be carried out, which names
/// it by its number and its kind.
#[verifier::rlimit(40)]
pub proof fn faults_are_found_one_by_one(actions: Seq<Action>, facts: Seq<ActionFacts>, i: int)
    requires
        facts.len() == actions.len(),
        0 <= i < actions.len(),
    ensures
        ({
            let before = faults(actions.take(i), facts.take(i));
            let all = faults(actions.take(i + 1), facts.take(i + 1));
            if can_be_done(actions, facts, i) {
                all == before
            } else {
                &&& all.len() == before.len() + 1
                &&& all.drop_last() == before
                &&& begins(
                    all.last(),
                    "Action "@ + decimal((i + 1) as nat) + " "@ + match actions[i] {
                        Action::WriteFile { .. } => "write_file"@,
                        Action::CopyFile { .. } => "copy_file"@,
                        Action::PackagePythonExe { .. } => "package_python_exe"@,
                        Action::ReplaceText { .. } => "replace_text"@,
                        Action::AppendFile { .. } => "append_file"@,
                    },
                )
            }
        }),
{
    assert(actions.take(i + 1).drop_last() =~= actions.take(i));
    assert(facts.take(i + 1).drop_last() =~= facts.take(i));
    assert(actions.take(i + 1).last() == actions[i]);
    assert(facts.take(i + 1).last() == facts[i]);
    lemma_fault(actions, facts, i);
    let before = faults(actions.take(i), facts.take(i));
    match fault(actions[i], facts[i], targets_left(actions.take(i), facts.take(i))) {
        Some(w) => {
            let head = "Action "@ + decimal((i + 1) as nat) + " "@;
            let kind = match actions[i] {
                Action::WriteFile { .. } => "write_file"@,
                Action::CopyFile { .. } => "copy_file"@,
                Action::PackagePythonExe { .. } => "package_python_exe"@,
                Action::ReplaceText { .. } => "replace_text"@,
                Action::AppendFile { .. } => "append_file"@,
            };
            assert(before.push(head + w).drop_last() =~= before);
            assert forall|k: int| 0 <= k < kind.len() implies w[k] == kind[k] by {
                assert(w.subrange(0, kind.len() as int)[k] == kind[k]);
            }
            assert((head + w).subrange(0, (head + kind).len() as int) =~= head + kind);
        },
        None => {},
    }
}

/// An envelope has no faults exactly where each of its actions can be carried out: nothing that is
/// unsafe is let through, and nothing that is safe is refused.
pub proof fn safe_actions_are_let_through(actions: Seq<Action>, facts: Seq<ActionFacts>)
    requires
        facts.len() == actions.len(),
    ensures
        faults(actions, facts).len() == 0 <==> forall|i: int|
            0 <= i < actions.len() ==> can_be_done(actions, facts, i),
{
    lemma_no_faults(actions, facts, actions.len() as int);
    assert(actions.take(actions.len() as int) =~= actions);
    assert(facts.take(facts.len() as int) =~= facts);
}

/// [`safe_actions_are_let_through`] for the first `n` actions.
proof fn lemma_no_faults(actions: Seq<Action>, facts: Seq<ActionFacts>, n: int)
    requires
        facts.len() == actions.len(),
        0 <= n <= actions.len(),
    ensures
        faults(actions.take(n), facts.take(n)).len() == 0 <==> forall|i: int|
            0 <= i < n ==> can_be_done(actions, facts, i),
    decreases n,
{
    if n > 0 {
        lemma_no_faults(actions, facts, n - 1);
        faults_are_found_one_by_one(actions, facts, n - 1);
    }
}

// ---------------------------------------------------------------------------------------------
// Choosing
// ---------------------------------------------------------------------------------------------

/// What came of one coder.
#[derive(Debug)]
pub struct CoderCandidateResult {
    pub name: String,
    pub model: String,
    pub raw: String,
    pub envelope: Option<ActionEnvelope>,
    pub parse_error: Option<String>,
    pub validation_errors: Vec<String>,
}

/// What a [`CoderCandidateResult`] says.
pub struct Candidate {
    pub name: Seq<char>,
    pub model: Seq<char>,
    pub raw: Seq<char>,
    pub envelope: Option<Envelope>,
    pub parse_error: Option<Seq<char>>,
    pub faults: Seq<Seq<char>>,
}

impl View for CoderCandidateResult {
    type V = Candidate;

    open spec fn view(&self) -> Candidate {
        Candidate {
            name: self.name@,
            model: self.model@,
            raw: self.raw@,
            envelope: opt_envelope(self.envelope),
            parse_error: opt_text(self.parse_error),
            faults: texts(self.validation_errors@),
        }
    }
}

/// What an optional envelope says.
pub open spec fn opt_envelope(o: Option<ActionEnvelope>) -> Option<Envelope> {
    match o {
        Some(e) => Some(e@),
        None => None,
    }
}

/// What a list of candidates says.
pub open spec fn candidates(v: Seq<CoderCandidateResult>) -> Seq<Candidate> {
    v.map_values(|c: CoderCandidateResult| c@)
}

/// The number of replacements among the actions.
pub open spec fn replacements(actions: Seq<Action>) -> nat {
    actions.filter(|a: Action| a is ReplaceText).len()
}

/// The number of files written among the actions.
pub open spec fn writes(actions: Seq<Action>) -> nat {
    actions.filter(|a: Action| a is WriteFile).len()
}

/// The number of programs made among the actions.
pub open spec fn packagings(actions: Seq<Action>) -> nat {
    actions.filter(|a: Action| a is PackagePythonExe).len()
}

/// How good a candidate is: many actions, rather replacements and programs than whole files, and
/// a little more for the two small coding models.
pub open spec fn score(c: Candidate) -> int {
    match c.envelope {
        None => -1000,
        Some(e) => {
            let actions = e.actions;
            100 + 10 * actions.len() + 3 * replacements(actions) + 4 * packagings(actions) - writes(
                actions,
            ) + if c.model == QWEN_CODER_MODEL@ || c.model == DEEPSEEK_CODER_MODEL@ {
                2int
            } else {
                0int
            }
        },
    }
}

/// The score of a candidate can be counted in 32 bits on the way to it.
pub open spec fn score_fits(c: Candidate) -> bool {
    match c.envelope {
        None => true,
        Some(e) => {
            let actions = e.actions;
            102 + 10 * actions.len() + 3 * replacements(actions) + 4 * packagings(actions)
                <= i32::MAX
        },
    }
}

/// One more action among those that are counted.
proof fn lemma_filter_push(s: Seq<Action>, a: Action, f: spec_fn(Action) -> bool)
    ensures
        s.push(a).filter(f).len() == s.filter(f).len() + if f(a) {
            1int
        } else {
            0int
        },
{
    reveal(Seq::filter);
    assert(s.push(a).drop_last() =~= s);
}

/// There are no more replacements, programs and files than actions.
proof fn lemma_counts(actions: Seq<Action>)
    ensures
        replacements(actions) + packagings(actions) + writes(actions) <= actions.len(),
    decreases actions.len(),
{
    reveal(Seq::filter);
    if actions.len() > 0 {
        lemma_counts(actions.drop_last());
        let s = actions.drop_last();
        assert(s.push(actions.last()) =~= actions);
        lemma_filter_push(s, actions.last(), |a: Action| a is ReplaceText);
        lemma_filter_push(s, actions.last(), |a: Action| a is WriteFile);
        lemma_filter_push(s, actions.last(), |a: Action| a is PackagePythonExe);
    }
}

/// How good a candidate is.
pub fn coder_candidate_score(result: &CoderCandidateResult) -> (r: i32)
    requires
        score_fits(result@),
    ensures
        r == score(result@),
{
    match &result.envelope {
        None => -1000,
        Some(envelope) => {
            let n: usize = envelope.actions.len();
            let ghost all = actions_view(envelope.actions@);
            let mut replaced: i64 = 0;
            let mut written: i64 = 0;
            let mut packed: i64 = 0;
            let mut i: usize = 0;
            proof {
                reveal(Seq::filter);
                assert(all.take(0) =~= Seq::<Action>::empty());
                lemma_counts(all);
            }
            while i < n
                invariant
                    i <= n == envelope.actions@.len(),
                    all == actions_view(envelope.actions@),
                    replaced == replacements(all.take(i as int)),
                    written == writes(all.take(i as int)),
                    packed == packagings(all.take(i as int)),
                    n <= i32::MAX,
                    0 <= replaced <= i,
                    0 <= written <= i,
                    0 <= packed <= i,
                decreases n - i,
            {
                let action = &envelope.actions[i];
                proof {
                    let s = all.take(i as int);
                    assert(all.take(i + 1) =~= s.push(action@));
                    lemma_filter_push(s, action@, |a: Action| a is ReplaceText);
                    lemma_filter_push(s, action@, |a: Action| a is WriteFile);
                    lemma_filter_push(s, action@, |a: Action| a is PackagePythonExe);
                }
                match action {
                    FileAction::ReplaceText { path: _, find: _, replace: _ } => {
                        replaced += 1;
                    },
                    FileAction::WriteFile { path: _, content: _ } => {
                        written += 1;
                    },
                    FileAction::PackagePythonExe { path: _ } => {
                        packed += 1;
                    },
                    _ => {},
                }
                i += 1;
            }
            assert(all.take(n as int) =~= all);
            let bonus: i64 = if text_is(result.model.as_str(), QWEN_CODER_MODEL) || text_is(
                result.model.as_str(),
                DEEPSEEK_CODER_MODEL,
            ) {
                2
            } else {
                0
            };
            (100 + 10 * (n as i64) + 3 * replaced + 4 * packed - written + bonus) as i32
        },
    }
}

/// A candidate without faults that changes something.
pub open spec fn usable(c: Candidate) -> bool {
    c.faults.len() == 0 && c.envelope is Some && c.envelope->0.actions.len() > 0
}

/// A candidate without faults that changes nothing.
pub open spec fn idle(c: Candidate) -> bool {
    c.faults.len() == 0 && c.envelope is Some && c.envelope->0.actions.len() == 0
}

/// The candidate that is taken: the last of those with the best score among the usable ones, or
/// the first that changes nothing where none is usable.
pub open spec fn chosen(all: Seq<Candidate>, i: int) -> bool {
    &&& 0 <= i < all.len()
    &&& if usable(all[i]) {
        forall|j: int|
            0 <= j < all.len() && usable(#[trigger] all[j]) ==> score(all[j]) <= score(all[i]) && (j
                > i ==> score(all[j]) < score(all[i]))
    } else {
        &&& idle(all[i])
        &&& forall|j: int| 0 <= j < all.len() ==> !usable(#[trigger] all[j])
        &&& forall|j: int| 0 <= j < i ==> !idle(#[trigger] all[j])
    }
}

/// No candidate can be taken.
pub open spec fn none_chosen(all: Seq<Candidate>) -> bool {
    forall|i: int| 0 <= i < all.len() ==> !usable(#[trigger] all[i]) && !idle(all[i])
}

/// At most one candidate is taken, and one is unless none can be.
pub proof fn choice_is_unique(all: Seq<Candidate>, i: int, j: int)
    requires
        chosen(all, i),
        chosen(all, j),
    ensures
        i == j,
        !none_chosen(all),
{
}

/// A candidate with faults is never taken.
pub proof fn faulty_candidates_are_not_taken(all: Seq<Candidate>, i: int)
    requires
        chosen(all, i),
    ensures
        all[i].faults.len() == 0,
        all[i].envelope is Some,
{
}

/// The candidate that is taken is the best there is: it was read and has no faults; it changes
/// something wherever any candidate without faults does; and none of those is better, or as good and
/// heard of later.
pub proof fn the_best_candidate_is_taken(all: Seq<Candidate>, i: int, j: int)
    requires
        chosen(all, i),
        0 <= j < all.len(),
        all[j].faults.len() == 0,
        all[j].envelope is Some,
    ensures
        0 <= i < all.len(),
        all[i].faults.len() == 0,
        all[i].envelope is Some,
        all[j].envelope->0.actions.len() > 0 ==> {
            &&& all[i].envelope->0.actions.len() > 0
            &&& score(all[j]) <= score(all[i])
            &&& j > i ==> score(all[j]) < score(all[i])
        },
        all[j].envelope->0.actions.len() == 0 && all[i].envelope->0.actions.len() == 0 ==> i <= j,
{
    assert(usable(all[j]) || idle(all[j]));
}

/// Every action makes a candidate better: a program most, then a replacement, then what is copied or
/// appended, and a whole file least. One of the two small coding models counts a little more, and a
/// candidate that was not read is worse than any other.
pub proof fn every_action_counts(c: Candidate, e: Envelope, a: Action)
    requires
        c.envelope == Some(e),
    ensures
        ({
            let more = Candidate {
                envelope: Some(Envelope { actions: e.actions.push(a), ..e }),
                ..c
            };
            let small = c.model == "qwen2.5-coder:1.5b"@ || c.model == "deepseek-coder:1.3b"@;
            &&& score(more) - score(c) == match a {
                Action::PackagePythonExe { .. } => 14int,
                Action::ReplaceText { .. } => 13int,
                Action::CopyFile { .. } => 10int,
                Action::AppendFile { .. } => 10int,
                Action::WriteFile { .. } => 9int,
            }
            &&& e.actions.len() == 0 ==> score(c) == if small {
                102int
            } else {
                100int
            }
            &&& score(Candidate { envelope: None, ..c }) == -1000
            &&& score(c) >= 100
        }),
{
    lemma_filter_push(e.actions, a, |x: Action| x is ReplaceText);
    lemma_filter_push(e.actions, a, |x: Action| x is WriteFile);
    lemma_filter_push(e.actions, a, |x: Action| x is PackagePythonExe);
    lemma_counts(e.actions);
    if e.actions.len() == 0 {
        reveal(Seq::filter);
    }
}

/// The number of the candidate that is taken.
pub fn best_candidate(results: &Vec<CoderCandidateResult>) -> (r: Option<usize>)
    requires
        forall|i: int|
            0 <= i < results@.len() ==> score_fits(#[trigger] candidates(results@)[i]),
    ensures
        match r {
            Some(i) => chosen(candidates(results@), i as int),
            None => none_chosen(candidates(results@)),
        },
{
    let n: usize = results.len();
    let ghost all = candidates(results@);
    let mut best: Option<usize> = None;
    let mut top: i32 = 0;
    let mut empty: Option<usize> = None;
    let mut i: usize = 0;
    while i < n
        invariant
            i <= n == results@.len(),
            all == candidates(results@),
            all.len() == n,
            forall|k: int| 0 <= k < n ==> score_fits(#[trigger] all[k]),
            match best {
                Some(b) => b < i && usable(all[b as int]) && top == score(all[b as int])
                    && forall|j: int|
                    0 <= j < i && usable(#[trigger] all[j]) ==> score(all[j]) <= top && (j > b
                        ==> score(all[j]) < top),
                None => forall|j: int| 0 <= j < i ==> !usable(#[trigger] all[j]),
            },
            match empty {
                Some(e) => e < i && idle(all[e as int]) && forall|j: int|
                    0 <= j < e ==> !idle(#[trigger] all[j]),
                None => forall|j: int| 0 <= j < i ==> !idle(#[trigger] all[j]),
            },
        decreases n - i,
    {
        let c = &results[i];
        assert(all[i as int] == c@);
        assert(c@.faults.len() == c.validation_errors@.len());
        if c.validation_errors.len() == 0 {
            if let Some(envelope) = &c.envelope {
                assert(c@.envelope->0.actions.len() == envelope.actions@.len());
                if envelope.actions.len() > 0 {
                    let s: i32 = coder_candidate_score(c);
                    if best.is_none() || s >= top {
                        best = Some(i);
                        top = s;
                    }
                } else if empty.is_none() {
                    empty = Some(i);
                }
            }
        }
        i += 1;
    }
    match best {
        Some(b) => Some(b),
        None => empty,
    }
}

/// The candidate that is taken.
pub fn select_best_valid_coder_candidate(results: &Vec<CoderCandidateResult>) -> (r: Option<
    &CoderCandidateResult,
>)
    requires
        forall|i: int|
            0 <= i < results@.len() ==> score_fits(#[trigger] candidates(results@)[i]),
    ensures
        match r {
            Some(c) => exists|i: int|
                #[trigger] chosen(candidates(results@), i) && *c == results@[i],
            None => none_chosen(candidates(results@)),
        },
{
    match best_candidate(results) {
        Some(i) => Some(&results[i]),
        None => None,
    }
}

} // verus!

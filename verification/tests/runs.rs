use std::collections::BTreeMap;
use std::path::{Component, Path};

use local_coding_ai::actions::{
    validate_action_envelope, wanted_facts, ActionEnvelope, ActionFacts, FileAction,
};
use local_coding_ai::apply::{ActionReport, ApplyEvent, ApplyRun, ApplyStep};
use local_coding_ai::chain::{
    AgentRunConfig, ChainEvent, ChainRun, ChainStep, CoordinatorReply,
};
use local_coding_ai::coders::{CoderEvent, CoderRun, CoderStep, Reply};
use local_coding_ai::coordinator::CoordinatorDecision;
use local_coding_ai::models::{DEFAULT_AGENT_MODEL, LOCAL_GPT_ROUTER_MODEL};
use local_coding_ai::paths::{project_path_text, safe_project_path, PathFacts, PathPart};
use local_coding_ai::task::{parse_local_file_task, LocalFileTask};

// A file system in memory, with one project folder.

struct Disk {
    root: String,
    files: BTreeMap<String, String>,
}

fn names(path: &str) -> Vec<String> {
    let mut all: Vec<String> = Vec::new();
    for part in Path::new(path).components() {
        match part {
            Component::Normal(name) => all.push(name.to_string_lossy().into_owned()),
            Component::RootDir => all.push("/".to_string()),
            Component::ParentDir => {
                all.pop();
            }
            _ => {}
        }
    }
    all
}

impl Disk {
    fn new(name: &str) -> Disk {
        Disk { root: format!("/projects/{}", name), files: BTreeMap::new() }
    }

    fn full(&self, path: &str) -> String {
        Path::new(&self.root).join(path).to_string_lossy().into_owned()
    }

    fn read(&self, path: &str) -> Option<&String> {
        self.files.get(&self.full(path))
    }

    fn put(&mut self, path: &str, text: &str) {
        let full = self.full(path);
        self.files.insert(full, text.to_string());
    }

    /// The deepest folder above the path that exists: folders hold files, or lead to the project.
    fn parent(&self, full: &str) -> Vec<String> {
        let mut folders: Vec<Vec<String>> = vec![names(&self.root)];
        for file in self.files.keys() {
            folders.push(names(file));
        }
        let mut at = names(full);
        at.pop();
        while at.len() > 1 && !folders.iter().any(|folder| folder.starts_with(&at)) {
            at.pop();
        }
        at
    }

    fn locate(&self, path: &str) -> (String, PathFacts) {
        let text = project_path_text(path);
        let mut parts: Vec<PathPart> = Vec::new();
        for part in Path::new(&text).components() {
            parts.push(match part {
                Component::Prefix(_) => PathPart::Prefix,
                Component::RootDir => PathPart::Root,
                Component::CurDir => PathPart::Current,
                Component::ParentDir => PathPart::Parent,
                Component::Normal(_) => PathPart::Normal,
            });
        }
        let facts = PathFacts {
            absolute: Path::new(&text).is_absolute(),
            parts,
            root: names(&self.root),
            parent: Ok(self.parent(&self.full(&text))),
        };
        (self.full(&text), facts)
    }

    fn resolve(&self, path: &str) -> Result<String, String> {
        let (full, facts) = self.locate(path);
        safe_project_path(path, &facts).map(|_| full)
    }

    fn facts(&self, envelope: &ActionEnvelope) -> Vec<ActionFacts> {
        let mut all: Vec<ActionFacts> = Vec::new();
        for action in &envelope.actions {
            let wanted = wanted_facts(action);
            let (target, place) = self.locate(&wanted.path);
            let file = self.files.get(&target);
            let source = wanted.source.map(|source| self.files.contains_key(&source));
            all.push(ActionFacts {
                target_exists: file.is_some(),
                source_exists: source == Some(true),
                source_is_file: source == Some(true),
                text: match file {
                    Some(text) => Ok(text.clone()),
                    None => Err("not found".to_string()),
                },
                target: names(&target),
                place,
            });
        }
        all
    }

    fn validate(&self, envelope: &ActionEnvelope) -> Vec<String> {
        validate_action_envelope(envelope, &self.facts(envelope))
    }

    fn apply(&mut self, actions: Vec<FileAction>) -> ActionReport {
        let mut run = ApplyRun::new(actions);
        let mut target = String::new();
        let mut step = run.advance(ApplyEvent::Begin);
        loop {
            let event = match step {
                ApplyStep::CheckSource { source } => {
                    ApplyEvent::Checked(self.files.contains_key(&source))
                }
                ApplyStep::Resolve { path } => {
                    let (full, facts) = self.locate(&path);
                    target = full;
                    ApplyEvent::Located(facts)
                }
                ApplyStep::MakeFolder | ApplyStep::Open => ApplyEvent::Done(Ok(())),
                ApplyStep::Read => ApplyEvent::Text(
                    self.files.get(&target).cloned().ok_or_else(|| "not found".to_string()),
                ),
                ApplyStep::Write { content } => {
                    self.files.insert(target.clone(), content);
                    ApplyEvent::Done(Ok(()))
                }
                ApplyStep::Copy { source } => {
                    let text = self.files[&source].clone();
                    self.files.insert(target.clone(), text);
                    ApplyEvent::Done(Ok(()))
                }
                ApplyStep::Append { content } => {
                    self.files.entry(target.clone()).or_default().push_str(&content);
                    ApplyEvent::Done(Ok(()))
                }
                ApplyStep::Pack { .. } => ApplyEvent::Packed {
                    log_lines: vec!["packing".to_string()],
                    answer: "No Python.".to_string(),
                    stem: Some("app".to_string()),
                },
                ApplyStep::CheckProgram { path } => {
                    ApplyEvent::Checked(self.read(&path).is_some())
                }
                ApplyStep::Finished => return run.report(),
            };
            step = run.advance(event);
        }
    }

    /// Runs a chain that needs no models.
    fn run(&mut self, config: AgentRunConfig) -> (String, Vec<String>) {
        let mut run = ChainRun::new(config);
        let mut step = run.advance(ChainEvent::Begin);
        loop {
            let event = match step {
                ChainStep::OpenProject => {
                    ChainEvent::Opened(Ok((self.root.clone(), "models".to_string())))
                }
                ChainStep::Apply => ChainEvent::Applied(self.apply(run.actions())),
                ChainStep::Finished { answer } => return (answer, run.into_log()),
                other => panic!("{:?}", other),
            };
            step = run.advance(event);
        }
    }
}

fn smoke_config(root: &str, request: &str, last_file_path: Option<&str>) -> AgentRunConfig {
    AgentRunConfig {
        project_dir: root.to_string(),
        memory_dir: format!("{}/memory", root),
        model: DEFAULT_AGENT_MODEL.to_string(),
        ollama_path: "Not found".to_string(),
        terminal_cmd: String::new(),
        user_request: request.to_string(),
        last_file_path: last_file_path.map(str::to_string),
        show_progress: true,
        auto_apply_actions: true,
        run_tests_after_apply: false,
        context_limit: 50_000,
        max_parallel_agents: 2,
    }
}

/// Carries out a file task and gives the answer of the run that does so.
fn run_task(disk: &mut Disk, request: &str, last_file: Option<&str>) -> String {
    match parse_local_file_task(request, last_file).unwrap() {
        LocalFileTask::CreateFile { .. } => {}
        other => panic!("{:?}", other),
    }
    let config = smoke_config(&disk.root, request, last_file);
    disk.run(config).0
}

fn write(path: &str, content: &str) -> FileAction {
    FileAction::WriteFile { path: path.to_string(), content: content.to_string() }
}

fn replace(path: &str, find: &str, with: &str) -> FileAction {
    FileAction::ReplaceText {
        path: path.to_string(),
        find: find.to_string(),
        replace: with.to_string(),
    }
}

fn envelope(actions: Vec<FileAction>) -> ActionEnvelope {
    ActionEnvelope { summary: None, actions }
}

// Files

#[test]
fn local_file_task_creates_requested_txt_file() {
    let mut disk = Disk::new("create_txt");
    let answer = run_task(&mut disk, "Please create the text.txt file", None);

    assert!(disk.read("text.txt").is_some());
    assert!(answer.contains("text.txt"));
}

#[test]
fn local_file_task_uses_named_content_before_file_name_clause() {
    let mut disk = Disk::new("create_txt_with_content");
    let answer = run_task(
        &mut disk,
        "Please create a .txt file with the content test and the name test.txt",
        None,
    );

    assert!(answer.contains("test.txt"));
    assert_eq!(disk.read("test.txt").unwrap(), "test");
}

#[test]
fn run_agent_chain_smoke_creates_test_file_without_ollama() {
    let mut disk = Disk::new("chain_smoke_create");
    let config = smoke_config(
        &disk.root,
        "Please create a .txt file with the content test and the name test.txt",
        None,
    );
    let (answer, log_lines) = disk.run(config);

    assert_eq!(disk.read("test.txt").unwrap(), "test");
    assert!(answer.contains("test.txt"));
    assert!(log_lines.iter().any(|line| line.contains("Local tool")));
    assert!(!log_lines.iter().any(|line| line.contains("Ollama")));
}

#[test]
fn followup_write_uses_last_mentioned_file() {
    let mut disk = Disk::new("followup_write");
    let answer = run_task(
        &mut disk,
        "The file does not contain test. Write test into it.",
        Some("test.txt"),
    );

    assert!(answer.contains("test.txt"));
    assert_eq!(disk.read("test.txt").unwrap(), "test");
}

#[test]
fn run_agent_chain_smoke_followup_writes_last_file_without_ollama() {
    let mut disk = Disk::new("chain_smoke_followup");
    let config = smoke_config(
        &disk.root,
        "The file does not contain test. Write test into it.",
        Some("test.txt"),
    );
    let (answer, log_lines) = disk.run(config);

    assert_eq!(disk.read("test.txt").unwrap(), "test");
    assert!(answer.contains("test.txt"));
    assert!(!log_lines.iter().any(|line| line.contains("Ollama")));
}

#[test]
fn package_python_exe_action_can_follow_write_file() {
    let disk = Disk::new("package_action_validation");
    let envelope = envelope(vec![
        write("sample_app.py", "print('OK')\n"),
        FileAction::PackagePythonExe { path: "sample_app.py".to_string() },
    ]);

    let errors = disk.validate(&envelope);

    assert!(errors.is_empty(), "{:?}", errors);
}

#[test]
fn package_python_exe_action_rejects_missing_script() {
    let disk = Disk::new("package_action_missing");
    let envelope =
        envelope(vec![FileAction::PackagePythonExe { path: "missing.py".to_string() }]);

    let errors = disk.validate(&envelope);

    assert!(!errors.is_empty());
    assert_eq!(
        errors,
        vec!["Action 1 package_python_exe: missing.py does not exist and is not written beforehand"]
    );
}

#[test]
fn absolute_path_inside_project_is_allowed_after_normalization() {
    let mut disk = Disk::new("absolute_inside");
    let target = format!("{}/inside.txt", disk.root);

    let report = disk.apply(vec![write(&target, "ok")]);

    assert!(!report.had_error);
    assert_eq!(disk.files[&target], "ok");
}

#[test]
fn agent_manager_validation_rejects_absolute_path_outside_project() {
    let disk = Disk::new("validation_outside");
    let envelope = envelope(vec![write("/projects/outside.txt", "nope")]);

    let errors = disk.validate(&envelope);

    assert!(!errors.is_empty());
    assert_eq!(
        errors,
        vec!["Action 1 write_file: Absolute path is outside the project folder: /projects/outside.txt"]
    );
}

#[test]
fn agent_manager_validation_requires_single_replace_match() {
    let mut disk = Disk::new("validation_replace");
    disk.put("sample.txt", "eins\neins\n");
    let envelope = envelope(vec![replace("sample.txt", "eins", "zwei")]);

    let errors = disk.validate(&envelope);

    assert!(!errors.is_empty());
    assert_eq!(errors, vec!["Action 1 replace_text: 2 matches in sample.txt (expected: 1)"]);
}

#[test]
fn every_fault_is_named() {
    let mut disk = Disk::new("faults");
    disk.put("a.txt", "x");
    let envelope = envelope(vec![
        write(" ", ""),
        write("a/../b.txt", ""),
        FileAction::CopyFile { source: "gone.txt".to_string(), path: "b.txt".to_string() },
        FileAction::PackagePythonExe { path: "a.txt".to_string() },
        replace("a.txt", "", "y"),
        replace("none.txt", "x", "y"),
        replace("a.txt", "x", "y"),
        FileAction::AppendFile { path: "/elsewhere.txt".to_string(), content: String::new() },
    ]);
    assert_eq!(
        disk.validate(&envelope),
        vec![
            "Action 1 write_file: Empty file path is not allowed.",
            "Action 2 write_file: Paths with '..' are blocked: a/../b.txt",
            "Action 3 copy_file: source does not exist: gone.txt",
            "Action 4 package_python_exe: a.txt is not a .py file",
            "Action 5 replace_text: empty search text",
            "Action 6 replace_text: file not readable none.txt: not found",
            "Action 8 append_file: Absolute path is outside the project folder: /elsewhere.txt",
        ]
    );
}

#[test]
fn climbing_paths_are_refused_even_where_they_stay_inside() {
    let disk = Disk::new("climbing");
    assert_eq!(
        disk.resolve("/projects/climbing/x/../y.txt").unwrap_err(),
        "Paths with '..' are blocked: /projects/climbing/x/../y.txt"
    );
    assert_eq!(disk.resolve("'x\\y.txt'").unwrap(), "/projects/climbing/x/y.txt");
    assert_eq!(disk.resolve("./y.txt").unwrap(), "/projects/climbing/./y.txt");
}

#[test]
fn climbing_texts_are_refused_whatever_their_components() {
    let facts = PathFacts {
        absolute: false,
        parts: vec![PathPart::Normal],
        root: vec!["p".to_string()],
        parent: Ok(vec!["p".to_string()]),
    };
    for path in ["..", "../x", "x/..", "x/../y", "x\\..\\y", " '../x' ", "/.."] {
        let error = safe_project_path(path, &facts).unwrap_err();
        assert_eq!(error, format!("Paths with '..' are blocked: {}", project_path_text(path)));
    }
    for path in ["x", "..x", "x..", "x/...", "./x", "a..b/c", "x/. ./y"] {
        assert_eq!(safe_project_path(path, &facts).unwrap(), path);
    }
}

#[test]
fn unreadable_folders_are_refused() {
    let facts = PathFacts {
        absolute: false,
        parts: vec![PathPart::Normal],
        root: vec!["p".to_string()],
        parent: Err("no access".to_string()),
    };
    assert_eq!(
        safe_project_path("x", &facts).unwrap_err(),
        "Target path could not be checked: no access"
    );
    let outside = PathFacts { parent: Ok(vec!["q".to_string()]), ..facts };
    assert_eq!(
        safe_project_path("x", &outside).unwrap_err(),
        "Target is outside the project folder: x"
    );
    let drive = PathFacts { parts: vec![PathPart::Prefix], ..outside };
    assert_eq!(
        safe_project_path("c:x", &drive).unwrap_err(),
        "Non-relative path is blocked: c:x"
    );
}

#[test]
fn all_kinds_of_actions_are_carried_out() {
    let mut disk = Disk::new("apply");
    disk.files.insert("/from.txt".to_string(), "copied".to_string());
    disk.put("b.txt", "one two one");
    disk.put("dist/app.exe", "");
    let report = disk.apply(vec![
        write("a.txt", "new"),
        FileAction::CopyFile { source: "\"/from.txt\"".to_string(), path: "c.txt".to_string() },
        replace("b.txt", "two", "2"),
        FileAction::AppendFile { path: "a.txt".to_string(), content: "er".to_string() },
        FileAction::PackagePythonExe { path: "app.py".to_string() },
    ]);
    assert!(!report.had_error);
    assert_eq!(report.changed_files, vec!["a.txt", "b.txt", "c.txt", "dist/app.exe"]);
    assert_eq!(
        report.log_lines,
        vec![
            "File written: a.txt",
            "File copied: /from.txt -> c.txt",
            "Text replaced: b.txt",
            "Text appended: a.txt",
            "packing",
            "Python-EXE gepackt: dist/app.exe",
        ]
    );
    assert_eq!(disk.read("a.txt").unwrap(), "newer");
    assert_eq!(disk.read("b.txt").unwrap(), "one 2 one");
    assert_eq!(disk.read("c.txt").unwrap(), "copied");
}

#[test]
fn refused_actions_change_nothing() {
    let mut disk = Disk::new("refused");
    disk.put("b.txt", "one two one");
    let before = disk.files.clone();
    let report = disk.apply(vec![
        write("../a.txt", "new"),
        FileAction::CopyFile { source: "/from.txt".to_string(), path: "c.txt".to_string() },
        replace("b.txt", "", "2"),
        replace("b.txt", "one", "1"),
        replace("none.txt", "one", "1"),
        FileAction::PackagePythonExe { path: "app.py".to_string() },
    ]);
    assert!(report.had_error);
    assert!(report.changed_files.is_empty());
    assert_eq!(disk.files, before);
    assert_eq!(
        report.log_lines,
        vec![
            "write_file blocked: Paths with '..' are blocked: ../a.txt",
            "copy_file blocked: source is not available: /from.txt",
            "replace_text blocked: empty search text in b.txt",
            "replace_text blocked: 2 matches in b.txt (expected: 1)",
            "replace_text could not read file: none.txt: not found",
            "packing",
            "package_python_exe failed: No Python.",
        ]
    );
}

#[test]
fn failed_changes_are_logged() {
    let mut run = ApplyRun::new(vec![
        write("a", "x"),
        write("b", "x"),
        FileAction::CopyFile { source: "s".to_string(), path: "c".to_string() },
        FileAction::AppendFile { path: "d".to_string(), content: "x".to_string() },
        FileAction::AppendFile { path: "e".to_string(), content: "x".to_string() },
    ]);
    let error = || Err("disk full".to_string());
    let inside = || ApplyEvent::Located(Disk::new("failed").locate("x").1);
    run.advance(ApplyEvent::Begin);
    run.advance(inside());
    run.advance(ApplyEvent::Done(error()));
    run.advance(inside());
    run.advance(ApplyEvent::Done(Ok(())));
    run.advance(ApplyEvent::Done(error()));
    run.advance(ApplyEvent::Checked(true));
    run.advance(inside());
    run.advance(ApplyEvent::Done(error()));
    run.advance(inside());
    run.advance(ApplyEvent::Done(Ok(())));
    run.advance(ApplyEvent::Done(error()));
    run.advance(inside());
    run.advance(ApplyEvent::Done(Ok(())));
    run.advance(ApplyEvent::Done(Ok(())));
    assert!(matches!(run.advance(ApplyEvent::Done(error())), ApplyStep::Finished));
    assert_eq!(
        run.report().log_lines,
        vec![
            "write_file failed (folder): a: disk full",
            "write_file failed: b: disk full",
            "copy_file failed creating folder for c: disk full",
            "append_file failed: d: disk full",
            "append_file write failed: e: disk full",
        ]
    );
}

// Chains

fn decision(needs_code: bool) -> CoordinatorDecision {
    CoordinatorDecision {
        reply_now: !needs_code,
        needs_code,
        summary: "the goal".to_string(),
        direct_reply: "All done.".to_string(),
        recommended_agent_count: 2,
        use_large_single_coder: false,
    }
}

/// A chain for a request that needs the models, up to the question for the coordinator.
fn asked(config: AgentRunConfig) -> ChainRun {
    let mut run = ChainRun::new(config);
    assert!(matches!(run.advance(ChainEvent::Begin), ChainStep::OpenProject));
    let opened = ChainEvent::Opened(Ok(("/p".to_string(), "/m".to_string())));
    assert!(matches!(run.advance(opened), ChainStep::EnsureServer));
    assert!(matches!(run.advance(ChainEvent::Done(Ok(()))), ChainStep::EnsureModels));
    assert!(matches!(run.advance(ChainEvent::Done(Ok(()))), ChainStep::ReadContext));
    let context =
        ChainEvent::Context { snapshot: "files".to_string(), memory: "lessons".to_string() };
    match run.advance(context) {
        ChainStep::AskCoordinator { prompt } => assert!(prompt.contains("files")),
        other => panic!("{:?}", other),
    }
    run
}

/// A chain whose coders are at work.
fn coding(config: AgentRunConfig) -> ChainRun {
    let mut run = asked(config);
    let reply = CoordinatorReply::Read { raw: "{}".to_string(), decision: decision(true) };
    assert!(matches!(run.advance(ChainEvent::Decided(reply)), ChainStep::EnsureCoderModels));
    match run.advance(ChainEvent::Done(Ok(()))) {
        ChainStep::RunCoders { model, prompt, count } => {
            assert_eq!(model, DEFAULT_AGENT_MODEL);
            assert!(prompt.contains("the goal"));
            assert_eq!(count, 2);
        }
        other => panic!("{:?}", other),
    }
    run
}

fn work() -> AgentRunConfig {
    smoke_config("/p", "Please refactor the parser", None)
}

fn coded(outcome: Result<ActionEnvelope, &str>) -> ChainEvent {
    ChainEvent::Coded {
        outcome: outcome.map_err(str::to_string),
        log_lines: vec!["coders".to_string()],
    }
}

fn answer_of(step: ChainStep<String>) -> String {
    match step {
        ChainStep::Finished { answer } => answer,
        other => panic!("{:?}", other),
    }
}

#[test]
fn small_talk_is_answered_at_once() {
    let mut run = ChainRun::new(smoke_config("/p", "hallo", None));
    let answer = answer_of(run.advance(ChainEvent::Begin));
    assert!(answer.starts_with("Hello."));
    assert!(run.into_log().is_empty());
}

#[test]
fn a_file_without_a_name_is_asked_for() {
    let mut run = ChainRun::new(smoke_config("/p", "create a file", None));
    run.advance(ChainEvent::Begin);
    let opened = ChainEvent::Opened(Ok(("/p".to_string(), "/m".to_string())));
    assert_eq!(
        answer_of(run.advance(opened)),
        "Sure. What should the file be called? For example: `create text.txt`."
    );
}

#[test]
fn a_file_outside_is_not_created() {
    let mut disk = Disk::new("outside");
    let config = smoke_config(&disk.root, "create ../text.txt", None);
    let (answer, log_lines) = disk.run(config);
    assert_eq!(
        answer,
        "I could not safely create `../text.txt`. Please check that the project folder is correct and the filename is relative."
    );
    assert_eq!(
        log_lines[log_lines.len() - 1],
        "write_file blocked: Paths with '..' are blocked: ../text.txt"
    );
    assert!(disk.files.is_empty());
}

#[test]
fn what_is_missing_ends_the_run() {
    let mut run = ChainRun::new(work());
    run.advance(ChainEvent::Begin);
    assert_eq!(
        answer_of(run.advance(ChainEvent::Opened(Err("gone".to_string())))),
        "I cannot open the project folder.\n\ngone"
    );

    let mut run = ChainRun::new(work());
    run.advance(ChainEvent::Begin);
    run.advance(ChainEvent::Opened(Ok(("/p".to_string(), "/m".to_string()))));
    assert_eq!(
        answer_of(run.advance(ChainEvent::Done(Err("down".to_string())))),
        "Ollama is not reachable or could not be started.\n\ndown"
    );
    assert_eq!(
        run.into_log(),
        vec![
            "Coordinator checks the request and project folder...",
            "Project folder: /p",
            "Modelordner: /m",
            "Checking Ollama...",
            "Ollama error: down",
        ]
    );
}

#[test]
fn the_coordinator_may_answer_itself() {
    let mut run = asked(work());
    let reply = CoordinatorReply::Read { raw: "{}".to_string(), decision: decision(false) };
    assert_eq!(answer_of(run.advance(ChainEvent::Decided(reply))), "All done.");
}

#[test]
fn an_unreadable_decision_is_replaced() {
    let mut run = asked(work());
    let reply = CoordinatorReply::Unreadable { raw: "??".to_string(), error: "bad".to_string() };
    let step = run.advance(ChainEvent::Decided(reply));
    assert!(matches!(step, ChainStep::EnsureCoderModels));
    assert!(run
        .into_log()
        .contains(&"Coordinator parser uses fallback: bad | raw answer: ??".to_string()));
}

#[test]
fn accepted_actions_are_applied() {
    let mut run = coding(work());
    let step = run.advance(coded(Ok(envelope(vec![write("a.txt", "x")]))));
    assert!(matches!(step, ChainStep::Apply));
    assert_eq!(run.actions().len(), 1);
    let report = ActionReport {
        log_lines: vec!["File written: a.txt".to_string()],
        changed_files: vec!["a.txt".to_string()],
        had_error: false,
    };
    let answer = answer_of(run.advance(ChainEvent::Applied(report)));
    assert_eq!(answer, "Changed: a.txt.");
    assert!(run.into_log().contains(&"Applying 1 file action(s)...".to_string()));
}

/// What two coders came to, the first of them out of bounds.
fn two_coders(disk: &Disk) -> (Result<ActionEnvelope, String>, Vec<String>) {
    let (mut coders, _) = CoderRun::new(DEFAULT_AGENT_MODEL, &disk.root, "q", 2);
    let answers =
        vec![envelope(vec![write("../b.txt", "out")]), envelope(vec![write("a.txt", "x")])];
    let mut step = CoderStep::Listen;
    for (index, answer) in answers.into_iter().enumerate() {
        assert!(matches!(step, CoderStep::Listen));
        let facts = disk.facts(&answer);
        let reply = Reply::Read { raw: "{}".to_string(), envelope: answer, facts };
        step = coders.advance(CoderEvent::Heard { index, reply });
    }
    assert!(matches!(step, CoderStep::Finished));
    coders.into_outcome()
}

#[test]
fn only_checked_actions_are_applied_over_a_run() {
    let mut disk = Disk::new("checked");
    let mut run = coding(work());
    let (outcome, log_lines) = two_coders(&disk);
    assert!(matches!(run.advance(ChainEvent::Coded { outcome, log_lines }), ChainStep::Apply));
    assert_eq!(disk.validate(&run.envelope()), Vec::<String>::new());
    let report = disk.apply(run.actions());
    assert_eq!(answer_of(run.advance(ChainEvent::Applied(report))), "Changed: a.txt.");
    assert_eq!(disk.files.len(), 1);
    assert_eq!(disk.read("a.txt").unwrap(), "x");
}

#[test]
fn nothing_is_applied_over_a_run_where_that_is_off() {
    let disk = Disk::new("off");
    let mut config = work();
    config.auto_apply_actions = false;
    let mut run = coding(config);
    let (outcome, log_lines) = two_coders(&disk);
    assert_eq!(
        answer_of(run.advance(ChainEvent::Coded { outcome, log_lines })),
        "The file actions were created, but auto-apply is off."
    );
    assert_eq!(run.actions().len(), 1);
}

#[test]
fn switched_off_actions_are_not_applied() {
    let mut config = work();
    config.auto_apply_actions = false;
    let mut run = coding(config);
    let step = run.advance(coded(Ok(envelope(vec![write("a.txt", "x")]))));
    assert_eq!(
        answer_of(step),
        "The file actions were created, but auto-apply is off."
    );
}

#[test]
fn tests_run_after_changes() {
    let mut config = work();
    config.run_tests_after_apply = true;
    config.terminal_cmd = "cargo test".to_string();
    let mut run = coding(config);
    run.advance(coded(Ok(envelope(vec![write("a.txt", "x")]))));
    let report = ActionReport {
        log_lines: Vec::new(),
        changed_files: vec!["a.txt".to_string()],
        had_error: false,
    };
    match run.advance(ChainEvent::Applied(report)) {
        ChainStep::RunTests { command } => assert_eq!(command, "cargo test"),
        other => panic!("{:?}", other),
    }
    let answer = answer_of(run.advance(ChainEvent::Tested("ok".to_string())));
    assert!(answer.ends_with("Test/build was run."));
}

#[test]
fn failed_coders_are_followed_by_the_large_model_and_the_last_attempt() {
    let mut run = coding(work());
    match run.advance(coded(Err("nothing"))) {
        ChainStep::RunCoders { model, count, .. } => {
            assert_eq!(model, LOCAL_GPT_ROUTER_MODEL);
            assert_eq!(count, 1);
        }
        other => panic!("{:?}", other),
    }
    match run.advance(coded(Err("again"))) {
        ChainStep::RunEmergency { goal } => assert_eq!(goal, "the goal"),
        other => panic!("{:?}", other),
    }
    let answer = answer_of(run.advance(coded(Err("never"))));
    assert!(answer.ends_with("The project folder was left unchanged."));
    let log_lines = run.into_log();
    assert!(log_lines.contains(
        &"Agent manager could not create actions: nothing; GPT retry also failed: again"
            .to_string()
    ));
    assert!(log_lines.contains(&"Emergency coding fallback failed: never".to_string()));
}

#[test]
fn empty_actions_are_asked_for_again() {
    let mut run = coding(work());
    match run.advance(coded(Ok(envelope(Vec::new())))) {
        ChainStep::RunCoders { model, count, .. } => {
            assert_eq!(model, LOCAL_GPT_ROUTER_MODEL);
            assert_eq!(count, 1);
        }
        other => panic!("{:?}", other),
    }
    let answer = answer_of(run.advance(coded(Ok(envelope(Vec::new())))));
    assert!(answer.contains("The coding models returned no applicable file change."));
}

#[test]
fn blocked_actions_are_repaired_once() {
    let disk = Disk::new("repair");
    let mut run = coding(work());
    run.advance(coded(Ok(envelope(vec![write("../a.txt", "x")]))));
    let blocked = || ActionReport {
        log_lines: vec!["write_file blocked: x".to_string()],
        changed_files: Vec::new(),
        had_error: true,
    };
    assert!(matches!(run.advance(ChainEvent::Applied(blocked())), ChainStep::Serialize));
    match run.advance(ChainEvent::Serialized(Some("[json]".to_string()))) {
        ChainStep::AskRepair { prompt } => {
            assert!(prompt.contains("[json]"));
            assert!(prompt.contains("write_file blocked: x"));
        }
        other => panic!("{:?}", other),
    }
    let better = envelope(vec![write("a.txt", "x")]);
    let facts = disk.facts(&better);
    let reply = Reply::Read { raw: "raw".to_string(), envelope: better, facts };
    assert!(matches!(run.advance(ChainEvent::Repaired(reply)), ChainStep::Apply));
    let answer = answer_of(run.advance(ChainEvent::Applied(blocked())));
    assert!(answer.contains("Some actions were blocked"));
}

#[test]
fn the_model_words_an_answer_without_changes() {
    let mut run = asked(work());
    let mut plain = decision(false);
    plain.reply_now = false;
    let reply = CoordinatorReply::Read { raw: "{}".to_string(), decision: plain };
    run.advance(ChainEvent::Decided(reply));
    run.advance(ChainEvent::Done(Ok(())));
    match run.advance(coded(Ok(envelope(Vec::new())))) {
        ChainStep::AskFinal { prompt } => assert!(prompt.contains("the goal")),
        other => panic!("{:?}", other),
    }
    let answered = ChainEvent::Answered(Ok("{\"response\":\"Nothing to do.\"}".to_string()));
    assert_eq!(answer_of(run.advance(answered)), "Nothing to do.");
}

#[test]
fn files_get_what_was_asked_for() {
    let mut disk = Disk::new("content");
    disk.put("a.txt", "old");
    let report = disk.apply(vec![
        write("b.txt", "content"),
        replace("a.txt", "old", "new"),
        write("/elsewhere/c.txt", "content"),
    ]);
    assert!(report.had_error);
    assert_eq!(report.changed_files, vec!["a.txt", "b.txt"]);
    assert_eq!(disk.read("b.txt").unwrap(), "content");
    assert_eq!(disk.read("a.txt").unwrap(), "new");
    assert_eq!(disk.files.len(), 2);
}

#[test]
fn the_coordinator_is_reminded_of_the_last_run() {
    let mut run = ChainRun::new(work());
    run.advance(ChainEvent::Begin);
    run.advance(ChainEvent::Opened(Ok(("/p".to_string(), "/m".to_string()))));
    run.advance(ChainEvent::Done(Ok(())));
    run.advance(ChainEvent::Done(Ok(())));
    let context =
        ChainEvent::Context { snapshot: String::new(), memory: "m".repeat(12_001) };
    match run.advance(context) {
        ChainStep::AskCoordinator { prompt } => {
            assert!(prompt.contains("Please refactor the parser"));
            assert!(prompt.contains(&format!("{}\n[shortened]", "m".repeat(12_000))));
        }
        other => panic!("{:?}", other),
    }
    assert!(run.into_log().contains(&"Loaded memory context: 12001 chars.".to_string()));
}

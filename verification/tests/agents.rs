use local_coding_ai::actions::{
    best_candidate, coder_candidate_score, empty_action_envelope,
    select_best_valid_coder_candidate, ActionEnvelope, ActionFacts, CoderCandidateResult,
    FileAction,
};
use local_coding_ai::coders::{
    fallback_outcome, name_of_coder, ollama_generate_with_fallback, role_of_coder, CoderEvent,
    CoderRun, CoderStep, EmergencyRun, EmergencyStep, FallbackStep, Reply,
};
use local_coding_ai::coordinator::{
    default_recommended_agent_count, fallback_decision, recommended_agent_count,
};
use local_coding_ai::envelope::{
    decision_error, decision_texts, envelope_error, envelope_texts, extract_first_json_object,
};
use local_coding_ai::models::{
    DEFAULT_AGENT_MODEL, LOCAL_GPT_ROUTER_MODEL, QWEN_CODER_MODEL, STARCODER_MODEL,
};
use local_coding_ai::packaging::{
    is_left_out, is_too_large, python_candidate, work_folder, CommandOutcome, PackEvent, PackRun,
    PackStep,
};
use local_coding_ai::paths::{PathFacts, PathPart};
use serde_json::Value;

// What a model said

/// The actions in the first of the texts that holds a set of file actions.
fn parsed_actions(raw: &str) -> Vec<Value> {
    for text in envelope_texts(raw) {
        if let Ok(value) = serde_json::from_str::<Value>(&text) {
            if let Some(actions) = value.get("actions").and_then(Value::as_array) {
                return actions.clone();
            }
        }
    }
    panic!("no envelope in {}", raw)
}

#[test]
fn parse_action_envelope_supports_package_python_exe() {
    let raw = r#"{
            "summary":"pack",
            "actions":[
                {"op":"write_file","path":"app.py","content":"print('OK')\n"},
                {"op":"package_python_exe","path":"app.py"}
            ]
        }"#;

    let actions = parsed_actions(raw);

    assert_eq!(actions.len(), 2);
    assert_eq!(actions[1].get("op").and_then(Value::as_str), Some("package_python_exe"));
}

#[test]
fn bad_windows_backslashes_in_action_json_are_repaired() {
    let raw = r#"{
            "summary":"x",
            "actions":[{"op":"write_file","path":"C:\Users\tarek\Desktop\file.txt","content":"ok"}]
        }"#;

    let actions = parsed_actions(raw);

    assert_eq!(actions.len(), 1);
    assert_eq!(
        actions[0].get("path").and_then(Value::as_str),
        Some("C:/Users/tarek/Desktop/file.txt")
    );
}

#[test]
fn texts_are_tried_in_order() {
    assert_eq!(
        envelope_texts(" say {\"a\":\"\\n\"} ok "),
        vec![
            "say {\"a\":\"\\n\"} ok",
            "say {\"a\":\"/n\"} ok",
            "{\"a\":\"/n\"}",
            "{\"a\":\"\\n\"}",
        ]
    );
    assert_eq!(envelope_texts("plain"), vec!["plain"]);
    assert_eq!(decision_texts(" x {} "), vec!["x {}", "{}"]);
}

#[test]
fn braces_in_strings_do_not_count() {
    assert_eq!(
        extract_first_json_object(r#"so: {"a":"}\"{","b":{}} and {}"#).unwrap(),
        r#"{"a":"}\"{","b":{}}"#
    );
    assert!(extract_first_json_object("{\"a\":1").is_none());
    assert!(extract_first_json_object("nothing").is_none());
    let whole = extract_first_json_object("x{y{}}z").unwrap();
    assert_eq!(extract_first_json_object(&whole).unwrap(), whole);
}

#[test]
fn unreadable_answers_are_quoted() {
    let long = format!("{{{}}}", "y".repeat(700));
    assert_eq!(
        envelope_error(&long, "bad json"),
        format!(
            "JSON parser error: bad json\nJSON start:\n{{{}\n[shortened]",
            "y".repeat(599)
        )
    );
    assert_eq!(envelope_error("plain", "bad json"), "no JSON block found");
    assert_eq!(decision_error("{}", "bad json"), "Coordinator JSON parser error: bad json");
    assert_eq!(decision_error("plain", "bad json"), "no coordinator decision found");
}

// Candidates

fn write(path: &str) -> FileAction {
    FileAction::WriteFile { path: path.to_string(), content: String::new() }
}

fn candidate(model: &str, actions: Vec<FileAction>, faults: &[&str]) -> CoderCandidateResult {
    CoderCandidateResult {
        name: "Coder".to_string(),
        model: model.to_string(),
        raw: "raw".to_string(),
        envelope: Some(ActionEnvelope { summary: None, actions }),
        parse_error: None,
        validation_errors: faults.iter().map(|s| s.to_string()).collect(),
    }
}

#[test]
fn candidates_are_scored_by_their_actions() {
    let replace = || FileAction::ReplaceText {
        path: "a".to_string(),
        find: "x".to_string(),
        replace: "y".to_string(),
    };
    let pack = || FileAction::PackagePythonExe { path: "a.py".to_string() };
    assert_eq!(coder_candidate_score(&candidate("m", Vec::new(), &[])), 100);
    assert_eq!(coder_candidate_score(&candidate("m", vec![write("a")], &[])), 109);
    assert_eq!(coder_candidate_score(&candidate(QWEN_CODER_MODEL, vec![replace()], &[])), 115);
    assert_eq!(coder_candidate_score(&candidate("m", vec![write("a"), pack()], &[])), 123);
    let mut unread = candidate("m", Vec::new(), &[]);
    unread.envelope = None;
    assert_eq!(coder_candidate_score(&unread), -1000);
}

#[test]
fn the_best_sound_candidate_is_taken() {
    let all = vec![
        candidate("a", vec![write("a"), write("b")], &["fault"]),
        candidate("b", vec![write("a")], &[]),
        candidate(QWEN_CODER_MODEL, vec![write("a")], &[]),
    ];
    assert_eq!(best_candidate(&all), Some(2));
    let taken = select_best_valid_coder_candidate(&all).unwrap();
    assert_eq!(taken.model, QWEN_CODER_MODEL);
    assert!(best_candidate(&vec![candidate("a", vec![write("a")], &["fault"])]).is_none());
    let idle = || candidate("a", Vec::new(), &[]);
    assert_eq!(best_candidate(&vec![idle(), idle()]), Some(0));
    assert!(empty_action_envelope().actions.is_empty());
}

// Coders

/// A path in the folder `p`, as it looks below the given folder.
fn place_below(folder: &str) -> PathFacts {
    PathFacts {
        absolute: false,
        parts: vec![PathPart::Normal],
        root: vec!["p".to_string()],
        parent: Ok(vec![folder.to_string()]),
    }
}

fn fine() -> ActionFacts {
    ActionFacts {
        place: place_below("p"),
        target: vec!["p".to_string(), "a".to_string()],
        target_exists: false,
        source_exists: false,
        source_is_file: false,
        text: Ok(String::new()),
    }
}

fn blocked() -> ActionFacts {
    ActionFacts { place: place_below("q"), ..fine() }
}

fn read(actions: Vec<FileAction>, facts: Vec<ActionFacts>) -> Reply {
    Reply::Read {
        raw: "raw".to_string(),
        envelope: ActionEnvelope { summary: None, actions },
        facts,
    }
}

#[test]
fn every_coder_gets_its_task() {
    let (run, tasks) = CoderRun::new("mine", "/p", "Do it", 4);
    assert_eq!(tasks.len(), 4);
    assert_eq!(tasks[0].model, "mine");
    assert_eq!(tasks[3].name, name_of_coder(3));
    assert_eq!(
        tasks[3].prompt,
        format!(
            "Do it\n\nSpecial role for {}:\n{}\n\nReply now only with the JSON object:",
            name_of_coder(3),
            role_of_coder(3)
        )
    );
    assert_eq!(run.into_outcome().1.len(), 4);
    assert_eq!(CoderRun::new("mine", "/p", "q", 0).1.len(), 1);
    assert_eq!(CoderRun::new("mine", "/p", "q", 70).1.len(), 7);
}

#[test]
fn a_sound_answer_is_handed_on() {
    let (mut run, _) = CoderRun::new(DEFAULT_AGENT_MODEL, "/p", "q", 2);
    let step = run.advance(CoderEvent::Heard {
        index: 1,
        reply: read(vec![write("a")], vec![blocked()]),
    });
    assert!(matches!(step, CoderStep::Listen));
    let step = run.advance(CoderEvent::Heard {
        index: 0,
        reply: read(vec![write("a")], vec![fine()]),
    });
    assert!(matches!(step, CoderStep::Finished));
    let (outcome, log_lines) = run.into_outcome();
    assert_eq!(outcome.unwrap().actions.len(), 1);
    assert_eq!(
        log_lines[log_lines.len() - 1],
        format!(
            "Agent manager selects {} ({}) mit 1 Action(s).",
            name_of_coder(0),
            DEFAULT_AGENT_MODEL
        )
    );
}

#[test]
fn faulty_answers_are_repaired_in_turn() {
    let (mut run, _) = CoderRun::new(DEFAULT_AGENT_MODEL, "/p", "q", 2);
    run.advance(CoderEvent::Heard {
        index: 0,
        reply: Reply::Unreadable { raw: "blah".to_string(), error: "bad".to_string() },
    });
    let step = run.advance(CoderEvent::Heard {
        index: 1,
        reply: read(vec![write("a")], vec![blocked()]),
    });
    match step {
        CoderStep::Repair { prompt } => {
            assert!(prompt.contains("blah"));
            assert!(prompt.contains("bad"));
        }
        other => panic!("{:?}", other),
    }
    match run.advance(CoderEvent::Repaired(Reply::Failed("down".to_string()))) {
        CoderStep::Repair { prompt } => assert!(prompt.contains("Action 1 write_file: Target is outside the project folder: a")),
        other => panic!("{:?}", other),
    }
    let step = run.advance(CoderEvent::Repaired(read(vec![write("a")], vec![fine()])));
    assert!(matches!(step, CoderStep::Finished));
    assert_eq!(run.into_outcome().0.unwrap().actions.len(), 1);
}

#[test]
fn what_cannot_be_repaired_is_not_handed_on() {
    let (mut run, _) = CoderRun::new(DEFAULT_AGENT_MODEL, "/p", "q", 1);
    run.advance(CoderEvent::Heard {
        index: 0,
        reply: read(vec![write("a")], vec![blocked()]),
    });
    let step = run.advance(CoderEvent::Repaired(read(vec![write("a")], vec![blocked()])));
    assert!(matches!(step, CoderStep::Finished));
    let (outcome, log_lines) = run.into_outcome();
    assert_eq!(outcome.unwrap_err(), "Kein Coding-Agent lieferte sichere Actions.");
    assert_eq!(
        log_lines[log_lines.len() - 1],
        "Repair agent verworfen: Action 1 write_file: Target is outside the project folder: a"
    );
}

#[test]
fn the_first_error_is_the_outcome() {
    let (mut run, _) = CoderRun::new(DEFAULT_AGENT_MODEL, "/p", "q", 2);
    run.advance(CoderEvent::Silent);
    let step =
        run.advance(CoderEvent::Heard { index: 0, reply: Reply::Failed("down".to_string()) });
    assert!(matches!(step, CoderStep::Finished));
    assert_eq!(
        run.into_outcome().0.unwrap_err(),
        "Mindestens ein Coder-Agent lief in einen Timeout."
    );
}

#[test]
fn an_empty_answer_will_do() {
    let (mut run, _) = CoderRun::new(DEFAULT_AGENT_MODEL, "/p", "q", 1);
    let step =
        run.advance(CoderEvent::Heard { index: 0, reply: read(Vec::new(), Vec::new()) });
    assert!(matches!(step, CoderStep::Finished));
    let (outcome, log_lines) = run.into_outcome();
    assert!(outcome.unwrap().actions.is_empty());
    assert!(log_lines[log_lines.len() - 1].ends_with("mit 0 Action(s)."));
}

#[test]
fn a_second_model_is_asked_after_an_error() {
    let failed = || Err("down".to_string());
    assert!(matches!(
        ollama_generate_with_fallback("a", "b", failed()),
        FallbackStep::AskFallback
    ));
    assert!(matches!(
        ollama_generate_with_fallback("a", "a", failed()),
        FallbackStep::Done(Err(_))
    ));
    assert!(matches!(
        ollama_generate_with_fallback("a", "b", Ok("x".to_string())),
        FallbackStep::Done(Ok(_))
    ));
    assert_eq!(
        fallback_outcome("down", "b", Err("too".to_string())).unwrap_err(),
        "down; fallback b also failed: too"
    );
    assert_eq!(fallback_outcome("down", "b", Ok("x".to_string())).unwrap(), "x");
}

#[test]
fn the_last_attempt_asks_two_models() {
    let (mut run, step) = EmergencyRun::new("request", "goal", "snapshot", 1000);
    match step {
        EmergencyStep::Ask { model, prompt } => {
            assert_eq!(model, LOCAL_GPT_ROUTER_MODEL);
            assert!(prompt.contains("request"));
        }
        other => panic!("{:?}", other),
    }
    match run.advance(read(Vec::new(), Vec::new())) {
        EmergencyStep::Ask { model, .. } => assert_eq!(model, QWEN_CODER_MODEL),
        other => panic!("{:?}", other),
    }
    assert!(matches!(
        run.advance(read(vec![write("a")], vec![blocked()])),
        EmergencyStep::Finished
    ));
    assert_eq!(
        run.into_outcome().0.unwrap_err(),
        format!(
            "{} returned unusable actions: empty action list | {} returned unusable actions: Action 1 write_file: Target is outside the project folder: a",
            LOCAL_GPT_ROUTER_MODEL, QWEN_CODER_MODEL
        )
    );
}

#[test]
fn the_last_attempt_ends_with_sound_actions() {
    let (mut run, _) = EmergencyRun::new("request", "goal", "snapshot", 1000);
    run.advance(Reply::Failed("down".to_string()));
    let step = run.advance(read(vec![write("a")], vec![fine()]));
    assert!(matches!(step, EmergencyStep::Finished));
    let (outcome, log_lines) = run.into_outcome();
    assert_eq!(outcome.unwrap().actions.len(), 1);
    assert_eq!(log_lines[1], format!("Emergency coder -> {}", QWEN_CODER_MODEL));
}

#[test]
fn teams_have_one_to_six_coders() {
    assert_eq!(default_recommended_agent_count(), 1);
    let mut decision = fallback_decision("do it");
    assert!(decision.needs_code && decision.use_large_single_coder && !decision.reply_now);
    assert_eq!(decision.summary, "do it");
    assert_eq!(recommended_agent_count(0, &decision), 1);
    assert_eq!(recommended_agent_count(9, &decision), 6);
    assert_eq!(recommended_agent_count(3, &decision), 3);
    decision.needs_code = false;
    decision.recommended_agent_count = 5;
    assert_eq!(recommended_agent_count(3, &decision), 3);
    assert_eq!(recommended_agent_count(6, &decision), 5);
    decision.recommended_agent_count = 0;
    assert_eq!(recommended_agent_count(0, &decision), 1);
    assert_ne!(STARCODER_MODEL, QWEN_CODER_MODEL);
}

// Packaging

fn ran(success: bool, output: &str) -> PackEvent {
    PackEvent::Command(CommandOutcome::Ran { success, output: output.to_string() })
}

fn located(folder: &str, name: &str) -> PackEvent {
    PackEvent::Located { place: place_below(folder), name: name.to_string() }
}

fn answer_of(step: PackStep<String>) -> String {
    match step {
        PackStep::Finished { answer } => answer,
        other => panic!("{:?}", other),
    }
}

/// A run whose script was resolved and exists.
fn found(script: &str) -> PackRun {
    let mut run = PackRun::new(script, None);
    match run.advance(PackEvent::Begin) {
        PackStep::Resolve { path } => assert_eq!(path, script),
        other => panic!("{:?}", other),
    }
    let step = run.advance(located("p", script));
    assert!(matches!(step, PackStep::CheckScript));
    let step = run.advance(PackEvent::Exists(true));
    assert!(matches!(step, PackStep::TryPython { candidate: 0 }));
    run
}

#[test]
fn a_script_is_tried_before_it_is_built() {
    let mut run = found("app.py");
    assert!(matches!(run.advance(ran(true, "Python 3")), PackStep::FindTools));
    assert!(matches!(run.advance(PackEvent::Exists(false)), PackStep::MakeTools));
    assert!(matches!(run.advance(PackEvent::Done(Ok(()))), PackStep::InstallTools));
    assert!(matches!(run.advance(ran(true, "")), PackStep::CheckTools));
    assert!(matches!(run.advance(ran(true, " 6.1 ")), PackStep::CopyWorkspace));
    assert!(matches!(run.advance(PackEvent::Copied(Ok((3, 1)))), PackStep::CheckCopy));
    let there = PackEvent::Found {
        exists: true,
        shown: "app.py".to_string(),
        full: "/tmp/w/app.py".to_string(),
    };
    assert!(matches!(run.advance(there), PackStep::Compile));
    assert!(matches!(run.advance(ran(true, "")), PackStep::TrialRun));
    assert!(matches!(run.advance(ran(true, "OK")), PackStep::Build));
    assert!(matches!(run.advance(ran(true, "")), PackStep::CheckProgram));
    let built = PackEvent::Found {
        exists: true,
        shown: String::new(),
        full: "/tmp/w/dist/app.exe".to_string(),
    };
    assert!(matches!(run.advance(built), PackStep::MakeDist));
    assert!(matches!(run.advance(PackEvent::Done(Ok(()))), PackStep::CopyProgram));
    let placed = PackEvent::Placed(Ok("/p/dist/app.exe".to_string()));
    assert!(matches!(run.advance(placed), PackStep::SmokeTest));
    assert_eq!(
        answer_of(run.advance(PackEvent::Output(" fine \n".to_string()))),
        "Done. I packaged `app.py` as an EXE.\n\nEXE: `/p/dist/app.exe`\n\nSmoke test:\nfine"
    );
    assert_eq!(
        run.into_log(),
        vec![
            "Local tool: package Python as EXE.",
            "PyInstaller is missing locally; trying installation...",
            "PyInstaller ready: 6.1",
            "Temporary packaging workspace prepared: 3 file(s) copied, 1 large file(s) skipped.",
            "Temporary test: Python syntax check passed.",
            "Temporary test run passed: OK",
            "PyInstaller builds from temporary workspace: /tmp/w/app.py",
            "EXE created: /p/dist/app.exe",
            "EXE smoke test:  fine \n",
        ]
    );
}

#[test]
fn success_is_reported_only_of_a_program() {
    let mut run = found("app.py");
    run.advance(ran(true, "Python 3"));
    run.advance(PackEvent::Exists(true));
    run.advance(ran(true, "6.1"));
    run.advance(PackEvent::Copied(Ok((1, 0))));
    let there =
        |full: &str| PackEvent::Found { exists: true, shown: String::new(), full: full.to_string() };
    run.advance(there("Done. /w/app.py"));
    run.advance(ran(true, "Done. "));
    assert!(matches!(run.advance(ran(true, "Done. ")), PackStep::Build));
    assert!(matches!(run.advance(ran(true, "Done. ")), PackStep::CheckProgram));
    assert!(matches!(run.advance(there("/w/app.exe")), PackStep::MakeDist));
    assert!(matches!(run.advance(PackEvent::Done(Ok(()))), PackStep::CopyProgram));
    assert_eq!(
        answer_of(run.advance(PackEvent::Placed(Err("Done. ".to_string())))),
        "The EXE was built, but I could not copy it back to `dist`: Done. "
    );
}

#[test]
fn nothing_is_packaged_behind_a_climbing_path() {
    let mut run = PackRun::new("../app.py", Some("print()".to_string()));
    run.advance(PackEvent::Begin);
    assert_eq!(
        answer_of(run.advance(located("p", "app.py"))),
        "I could not safely package `../app.py`: Paths with '..' are blocked: ../app.py"
    );
}

#[test]
fn every_python_is_tried() {
    let mut run = found("app.py");
    assert!(matches!(run.advance(ran(false, "one")), PackStep::TryPython { candidate: 1 }));
    let missing = PackEvent::Command(CommandOutcome::Failed("two".to_string()));
    assert!(matches!(run.advance(missing), PackStep::TryPython { candidate: 2 }));
    assert_eq!(
        answer_of(run.advance(ran(false, "three"))),
        "I could not find a usable Python installation.\n\none\ntwo\nthree"
    );
    assert_eq!(python_candidate(0).unwrap().program, "python");
    assert_eq!(python_candidate(1).unwrap().prefix_args, vec!["-3"]);
    assert!(python_candidate(3).is_none());
}

#[test]
fn refused_scripts_are_not_packaged() {
    let mut run = PackRun::new("app.py", None);
    run.advance(PackEvent::Begin);
    assert_eq!(
        answer_of(run.advance(located("q", "app.py"))),
        "I could not safely package `app.py`: Target is outside the project folder: app.py"
    );
    let mut run = PackRun::new("app.txt", None);
    run.advance(PackEvent::Begin);
    assert_eq!(
        answer_of(run.advance(located("p", "app.txt"))),
        "`app.txt` is not a Python file."
    );
    let mut run = PackRun::new("app.py", None);
    run.advance(PackEvent::Begin);
    run.advance(located("p", "app.py"));
    assert_eq!(
        answer_of(run.advance(PackEvent::Exists(false))),
        "I cannot find `app.py` in the project folder."
    );
}

#[test]
fn a_start_file_is_written_first() {
    let mut run = PackRun::new("app.py", Some("print()".to_string()));
    run.advance(PackEvent::Begin);
    let step = run.advance(located("p", "app.PY"));
    assert!(matches!(step, PackStep::MakeFolder));
    match run.advance(PackEvent::Done(Ok(()))) {
        PackStep::WriteScript { content } => assert_eq!(content, "print()"),
        other => panic!("{:?}", other),
    }
    assert_eq!(
        answer_of(run.advance(PackEvent::Done(Err("full".to_string())))),
        "I could not write `app.py` as the start file: full"
    );
}

#[test]
fn the_workspace_leaves_things_out() {
    assert!(is_left_out("Target"));
    assert!(is_left_out("__pycache__"));
    assert!(!is_left_out("src"));
    assert!(is_too_large(52_428_801));
    assert!(!is_too_large(52_428_800));
    assert_eq!(work_folder("my app", 12), "my_app_12");
}

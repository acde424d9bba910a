use local_coding_ai::layout::{
    data_file, distribution_data_root, distribution_runtime_ollama_models_dir,
    ensure_distribution_data_dirs, find_ollama, model_places, project_ollama_models_dir,
    remembered_files, server_places, state_file_path, Base, DataFile, DataRoot,
};
use local_coding_ai::paths::deepest_existing;
use local_coding_ai::records::{
    failure_lines, latest_message, persist_run_dataset, run_failed, start_short_training,
    training_line, training_messages, training_status, update_memory_after_run, TrainingEnd,
    TrainingStart,
};
use local_coding_ai::session::ChatMsg;
use local_coding_ai::snapshot::{
    append_snapshot_file, finish_snapshot, is_ignored_snapshot_entry, is_text_snapshot_file,
    is_too_large_to_show, read_memory_context, MemoryFile, SnapshotStep,
};

fn said(who: &str, text: &str) -> ChatMsg {
    ChatMsg { who: who.to_string(), text: text.to_string() }
}

fn lines(list: &[&str]) -> Vec<String> {
    list.iter().map(|s| s.to_string()).collect()
}

// Records

#[test]
fn failed_runs_do_not_train() {
    let messages = vec![said("You", "do"), said("Log", "x"), said("Assistant", "done")];
    let good = persist_run_dataset(&messages, &lines(&["all is well"]));
    assert!(!good.had_error);
    assert_eq!(
        data_file(DataFile::Runs { failed: good.had_error }),
        vec!["training", "success", "runs.jsonl"]
    );
    let tuned = good.fine_tuning.unwrap();
    assert_eq!(tuned.len(), training_messages(&messages).len());
    assert_eq!(tuned[0].role, "user");
    assert_eq!(tuned[0].content, "do");

    let bad = persist_run_dataset(&messages, &lines(&["write_file failed: x"]));
    assert!(bad.had_error);
    assert_eq!(
        data_file(DataFile::Runs { failed: bad.had_error }),
        vec!["training", "errors", "runs.jsonl"]
    );
    assert!(bad.fine_tuning.is_none());
}

#[test]
fn failures_are_remembered() {
    let log_lines = lines(&["ok", "Ollama error: down", &format!("x failed: {}", "y".repeat(600))]);
    assert!(run_failed(&log_lines));
    let failures = failure_lines(&log_lines);
    assert_eq!(failures.len(), 2);
    assert_eq!(failures[0], "Ollama error: down");
    assert!(failures[1].ends_with("\n[shortened]"));
    assert!(failure_lines(&lines(&["ok"])).is_empty());
}

#[test]
fn the_last_request_and_answer_are_remembered() {
    let messages = vec![said("You", "one"), said("You", "two")];
    assert_eq!(latest_message(&messages, "You"), Some("two"));
    let memory = update_memory_after_run(&messages, "fin", &lines(&["ok"]), "chat-1", 9);
    assert_eq!(memory.user, "two");
    assert_eq!(memory.assistant, "fin");
    assert_eq!(
        memory.text,
        "# Current project memory\n\nUpdated: 9\nSession: chat-1\n\n## Last user request\ntwo\n\n## Last answer\nfin\n\n## Errors to avoid\nNone\n"
    );
    let failed = update_memory_after_run(&messages, "fin", &lines(&["x failed: y"]), "c", 9);
    assert!(failed.text.ends_with("## Errors to avoid\nx failed: y\n"));
}

#[test]
fn training_needs_examples_and_a_trainer() {
    assert_eq!(start_short_training(false, true, true), TrainingStart::NoExamples);
    assert_eq!(start_short_training(true, true, true), TrainingStart::BesideData);
    assert_eq!(start_short_training(true, false, true), TrainingStart::InCurrentFolder);
    assert_eq!(start_short_training(true, false, false), TrainingStart::NoTrainer);
    assert_eq!(
        training_line(TrainingStart::NoTrainer, "/t.py"),
        "Short training could not start: trainer missing at /t.py"
    );
    assert_eq!(training_status(&TrainingEnd::Completed), "training completed");
    assert_eq!(
        training_status(&TrainingEnd::Failed(Some(2))),
        "training failed with exit code Some(2)"
    );
    assert_eq!(
        training_status(&TrainingEnd::NotStarted("no".to_string())),
        "training could not start: no"
    );
}

// Snapshots

#[test]
fn only_texts_are_shown() {
    assert!(is_text_snapshot_file("main.RS"));
    assert!(is_text_snapshot_file("Dockerfile"));
    assert!(!is_text_snapshot_file("a.png"));
    assert!(!is_text_snapshot_file("noext"));
    assert!(is_ignored_snapshot_entry("target"));
    assert!(!is_ignored_snapshot_entry("Target"));
    assert!(is_too_large_to_show(80_001));
    assert!(!is_too_large_to_show(80_000));
}

#[test]
fn snapshots_are_cut_at_the_limit() {
    match append_snapshot_file("in".to_string(), "a\\b.rs", "x", 100) {
        SnapshotStep::Open(text) => assert_eq!(text, "in\n--- File: a/b.rs ---\nx\n"),
        other => panic!("{:?}", other),
    }
    match append_snapshot_file(String::new(), "a", "xyz", 20) {
        SnapshotStep::Full(text) => {
            assert_eq!(text, "\n--- File: a ---\nxyz\n[Snapshot shortened]\n")
        }
        other => panic!("{:?}", other),
    }
    assert!(matches!(
        append_snapshot_file(String::new(), "a", "\u{e9}", 18),
        SnapshotStep::Uncuttable
    ));
}

#[test]
fn empty_snapshots_say_so() {
    assert_eq!(finish_snapshot(" ".to_string()), " [No readable project snapshot found]");
    assert_eq!(finish_snapshot("x".to_string()), "x");
}

#[test]
fn memory_is_read_up_to_a_limit() {
    let file = |shown: &str, text: Option<&str>| MemoryFile {
        shown: shown.to_string(),
        text: text.map(str::to_string),
    };
    let files = vec![file("a", Some("one")), file("b", None), file("c", Some("two"))];
    assert_eq!(
        read_memory_context(&files, 1000),
        "\n--- Memory: a ---\none\n\n--- Memory: c ---\ntwo\n"
    );
    let all = read_memory_context(&files, 1000);
    assert_eq!(all.len(), 46);
    assert_eq!(read_memory_context(&files, 46), all);
    assert_eq!(read_memory_context(&files, 45), format!("{}\n[shortened]", &all[..45]));
    assert_eq!(read_memory_context(&files, 23), &all[..23]);
    assert_eq!(read_memory_context(&files, 5), "\n--- \n[shortened]");
    assert_eq!(read_memory_context(&Vec::new(), 5), "");
}

// Places

#[test]
fn ollama_models_dir_is_inside_distribution_runtime() {
    let places = model_places();
    for there in [[false; 4], [true; 4], [false, false, true, false], [false, true, false, true]] {
        let exists = there.to_vec();
        assert_eq!(
            project_ollama_models_dir(&exists),
            distribution_runtime_ollama_models_dir(&exists)
        );
        let place = &places[project_ollama_models_dir(&exists)];
        assert!(place.parts.iter().any(|part| part == "runtime"));
    }
    assert_eq!(project_ollama_models_dir(&vec![false, false, true, true]), 2);
    assert_eq!(project_ollama_models_dir(&vec![false, false, false, false]), 0);
}

#[test]
fn the_server_is_looked_for_in_order() {
    let places = server_places();
    assert_eq!(places[0].base, Base::Program);
    assert_eq!(places[0].parts, vec!["runtime", "Ollama", "ollama.exe"]);
    assert_eq!(find_ollama(&vec![false, true, true]), Some(1));
    assert_eq!(find_ollama(&vec![false, false]), None);
    assert_eq!(state_file_path(), vec![".local_ai_builder", "state.json"]);
}

#[test]
fn data_is_kept_beside_an_installed_program() {
    assert_eq!(distribution_data_root(true, false, false, false, true), DataRoot::Program);
    assert_eq!(
        distribution_data_root(false, false, false, true, true),
        DataRoot::ProgramDistribution
    );
    assert_eq!(
        distribution_data_root(false, false, false, false, true),
        DataRoot::CurrentDistribution
    );
    assert_eq!(
        distribution_data_root(false, false, false, false, false),
        DataRoot::ProgramDistribution
    );
    let folders = ensure_distribution_data_dirs();
    assert!(folders.contains(&lines(&["memory", "agent_traffic"])));
    assert!(folders.contains(&lines(&["training", "fine_tuning"])));
}

#[test]
fn what_is_kept_lies_in_its_folders() {
    let folders = ensure_distribution_data_dirs();
    for file in [
        DataFile::History,
        DataFile::CurrentMemory,
        DataFile::Traffic,
        DataFile::Runs { failed: true },
        DataFile::Runs { failed: false },
        DataFile::AllRuns,
        DataFile::FineTuning,
        DataFile::Adapter,
        DataFile::TrainingStatus,
        DataFile::TrainingReadme,
    ] {
        let mut inside = data_file(file);
        inside.pop();
        assert!(folders.contains(&inside));
    }
    assert_eq!(data_file(DataFile::History), vec!["memory", "conversations", "history.jsonl"]);
    assert_eq!(data_file(DataFile::Traffic), vec!["memory", "agent_traffic", "traffic.log"]);
    assert_eq!(data_file(DataFile::AllRuns), vec!["training", "raw", "all_runs.jsonl"]);
    assert_eq!(
        data_file(DataFile::FineTuning),
        vec!["training", "fine_tuning", "chat_messages.jsonl"]
    );
    assert_eq!(data_file(DataFile::Adapter), vec!["training", "online_adapter"]);
    assert_eq!(
        data_file(DataFile::TrainingStatus),
        vec!["training", "short_training_status.log"]
    );
    assert_eq!(
        data_file(DataFile::TrainingReadme),
        vec!["training", "README_TRAINING_DATA.txt"]
    );
    assert_eq!(data_file(DataFile::Trainer), vec!["training_tools", "online_train.py"]);
}

#[test]
fn what_is_remembered_is_read_again() {
    let files = remembered_files();
    assert_eq!(files.len(), 3);
    assert_eq!(files[0], vec!["global.md"]);
    assert_eq!(files[1], vec!["summaries", "global.md"]);
    let mut last = vec!["memory".to_string()];
    last.extend(files[2].iter().cloned());
    assert_eq!(last, data_file(DataFile::CurrentMemory));
}

#[test]
fn the_nearest_folder_that_exists_is_looked_at() {
    assert_eq!(deepest_existing(&vec![true, true]), Some(0));
    assert_eq!(deepest_existing(&vec![false, false, true, true]), Some(2));
    assert_eq!(deepest_existing(&vec![false, false]), None);
    assert_eq!(deepest_existing(&Vec::new()), None);
}

use local_coding_ai::content::{
    cut_before_it, extract_followup_write_content, extract_requested_file_content,
    first_content_boundary, try_clean_content_fragment, try_extract_requested_file_content,
};
use local_coding_ai::intent::{direct_chat_answer, normalize_for_intent};
use local_coding_ai::request::{
    extract_requested_file_path, fallback_name_to_txt, looks_like_file_path,
};
use local_coding_ai::session::{last_file_from_messages, ChatMsg};
use local_coding_ai::task::{parse_local_file_task, try_parse_local_file_task, LocalFileTask};

fn said(text: &str) -> ChatMsg {
    ChatMsg { who: "Assistant".to_string(), text: text.to_string() }
}

#[test]
fn last_file_is_found_from_recent_chat_messages() {
    let messages = vec![
        ChatMsg {
            who: "Assistant".to_string(),
            text: "Done. I created `alt.txt`.".to_string(),
        },
        ChatMsg {
            who: "Assistant".to_string(),
            text: "Done. I created `test.txt`.".to_string(),
        },
    ];

    assert_eq!(last_file_from_messages(&messages).unwrap(), "test.txt");
}

#[test]
fn messages_without_a_file_are_passed_over() {
    let messages = vec![said("I created `alt.txt`."), said("Anything else?")];
    assert_eq!(last_file_from_messages(&messages).unwrap(), "alt.txt");
    assert!(last_file_from_messages(&vec![said("Nothing here")]).is_none());
    assert!(last_file_from_messages(&Vec::new()).is_none());
}

#[test]
fn smalltalk_does_not_need_agents() {
    let answer = direct_chat_answer("Hallo").unwrap();
    assert!(answer.contains("ready") || answer.contains("Ready"));
}

#[test]
fn small_talk_is_told_apart_from_work() {
    assert_eq!(
        direct_chat_answer("  GUTEN   Morgen ").unwrap(),
        "Hello. I am ready. Tell me what to do in the selected project."
    );
    assert_eq!(direct_chat_answer("Danke").unwrap(), "You're welcome.");
    assert!(direct_chat_answer("Hallo, create a file").is_none());
    assert!(direct_chat_answer("").is_none());
}

#[test]
fn intents_are_compared_in_small_letters() {
    assert_eq!(normalize_for_intent("  Ändere   die\tGRÖSSE  "), "aendere die groesse");
    assert_eq!(normalize_for_intent("Straße"), "strasse");
}

#[test]
fn paths_are_recognised_by_their_ending() {
    assert!(looks_like_file_path("src/main.RS"));
    assert!(!looks_like_file_path(".txt"));
    assert!(!looks_like_file_path("http://host/a.txt"));
    assert!(!looks_like_file_path("a.exe"));
    assert!(!looks_like_file_path("dir.txt/name"));
}

#[test]
fn the_first_path_of_a_request_counts() {
    assert_eq!(extract_requested_file_path("change `src\\a.rs`, then b.rs").unwrap(), "src/a.rs");
    assert_eq!(extract_requested_file_path("a file named notes").unwrap(), "notes.txt");
    assert!(extract_requested_file_path("do something").is_none());
}

#[test]
fn names_become_text_files() {
    assert_eq!(fallback_name_to_txt("(plan) and so on").unwrap(), "plan.txt");
    assert_eq!(fallback_name_to_txt("a.csv").unwrap(), "a.csv");
    assert!(fallback_name_to_txt("inhalt").is_none());
    assert!(fallback_name_to_txt("...").is_none());
    assert!(fallback_name_to_txt("").is_none());
}

#[test]
fn content_stands_behind_its_marker() {
    assert_eq!(
        extract_requested_file_content("a file with the content \"Hi there\" and name x.txt")
            .unwrap(),
        "Hi there"
    );
    assert!(extract_requested_file_content("a file x.txt").is_none());
    assert!(extract_requested_file_content("a file with content ...").is_none());
}

#[test]
fn content_ends_at_the_first_boundary() {
    assert_eq!(first_content_boundary("one named a and the name b"), Some(3));
    assert_eq!(first_content_boundary("nothing of the kind"), None);
}

#[test]
fn follow_up_content_stands_behind_the_verb() {
    assert_eq!(extract_followup_write_content("Please write please hello").unwrap(), "hello");
    assert_eq!(extract_followup_write_content("write hallo rein, bitte").unwrap(), "hallo");
    assert_eq!(extract_followup_write_content("Write test into it.").unwrap(), "test");
    assert_eq!(extract_followup_write_content("write a into items").unwrap(), "a into items");
    assert!(extract_followup_write_content("nothing").is_none());
}

#[test]
fn the_words_into_it_are_cut_off_at_the_end_only() {
    assert_eq!(cut_before_it("test INTO IT!"), "test");
    assert_eq!(cut_before_it("into it goes"), "into it goes");
}

#[test]
fn requests_that_cannot_be_cut_are_reported() {
    // The small form of the first letter takes three bytes instead of two, so the offset of the
    // marker falls behind the request's own text or into one of its characters.
    let request = "\u{23a} with content \u{e9}";
    assert!(try_extract_requested_file_content(request).is_none());
    assert!(try_extract_requested_file_content("x with content y").is_some());
    assert!(try_clean_content_fragment("plain").is_some());
}

#[test]
fn content_is_a_bare_part_of_the_fragment() {
    for (fragment, content) in [
        ("  \"Hello, World!\" named a.txt", Some("Hello, World")),
        ("(One. Two)", Some("One. Two")),
        ("KEEP Case", Some("KEEP Case")),
        ("?!", None),
        ("", None),
    ] {
        let found = try_clean_content_fragment(fragment).unwrap();
        assert_eq!(found.as_deref(), content);
        if let Some(text) = found {
            assert!(fragment.contains(&text));
            assert_eq!(first_content_boundary(&text.to_lowercase()), None);
            assert_eq!(try_clean_content_fragment(&text).unwrap().as_deref(), Some(text.as_str()));
        }
    }
}

#[test]
fn the_form_of_a_form_is_that_form() {
    for text in ["  WAS  geht\tAB? ", "Gr\u{fc}\u{df}e aus K\u{d6}LN", "", "\u{c4}\u{a0}x"] {
        let form = normalize_for_intent(text);
        assert_eq!(normalize_for_intent(&form), form);
        assert_eq!(form.split_whitespace().collect::<Vec<_>>().join(" "), form);
        assert!(!form.contains(['\u{e4}', '\u{f6}', '\u{fc}', '\u{df}']));
    }
}

#[test]
fn requests_for_code_are_left_to_the_agents() {
    assert!(parse_local_file_task("create app.py", None).is_none());
    assert!(parse_local_file_task("create an exe file", None).is_none());
    assert!(parse_local_file_task("what is a file?", None).is_none());
}

#[test]
fn a_missing_name_is_asked_for() {
    assert!(matches!(
        parse_local_file_task("create a file", None),
        Some(LocalFileTask::NeedFileName)
    ));
}

#[test]
fn the_last_file_serves_where_none_is_named() {
    match try_parse_local_file_task("Write test into it.", Some("dir\\test.txt")) {
        Some(Some(LocalFileTask::CreateFile { path, content })) => {
            assert_eq!(path, "dir\\test.txt");
            assert_eq!(content, "test");
        }
        other => panic!("{:?}", other),
    }
}

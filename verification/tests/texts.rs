use local_coding_ai::answer::{
    clean_visible_answer, command_output_text, coordinator_direct_fallback, fallback_final_answer,
    is_actual_error_log_line, render_chat_message, run_shell, sanitize_file_stem,
    sanitize_project_folder_name, smoke_timeout_text, timeout_text, title_from_message,
    truncate_text, ChatPiece,
};
use local_coding_ai::numbers::{now_hhmmss, parse_usize_field, to_decimal, to_two_digits};
use local_coding_ai::order::sort_dedup;
use local_coding_ai::text::{
    count_matches, find, replace, rfind, second_split, split_lines, split_words,
};

#[test]
fn long_texts_are_cut_with_a_note() {
    assert_eq!(truncate_text("abcdef", 3), "abc\n[shortened]");
    assert_eq!(truncate_text("äöü", 3), "äöü");
    assert_eq!(truncate_text("", 0), "");
}

#[test]
fn titles_are_first_lines() {
    assert_eq!(title_from_message("  Fix it \r\nand more"), "Fix it");
    assert_eq!(title_from_message("   "), "New task");
    let long = "x".repeat(43);
    assert_eq!(title_from_message(&long), format!("{}...", "x".repeat(42)));
    assert_eq!(title_from_message(&"x".repeat(42)), "x".repeat(42));
}

#[test]
fn folder_names_are_plain() {
    assert_eq!(sanitize_project_folder_name("  My App: ä/1 "), "My_App____1");
    assert_eq!(sanitize_project_folder_name("   "), "Project");
    assert_eq!(sanitize_project_folder_name("a-b_c"), "a-b_c");
    for name in ["  My App: ä/1 ", "   ", "../x", "\u{a0}y z"] {
        let folder = sanitize_project_folder_name(name);
        assert_eq!(sanitize_project_folder_name(&folder), folder);
    }
}

#[test]
fn stems_are_plain() {
    assert_eq!(sanitize_file_stem("my app.v1"), "my_app_v1");
    assert_eq!(sanitize_file_stem("..."), "app");
    assert_eq!(sanitize_file_stem(""), "app");
    for name in ["my app.v1", "...", "", "_x_", "../ä", "__"] {
        let stem = sanitize_file_stem(name);
        assert!(stem.chars().all(|c| c.is_ascii_alphanumeric() || c == '-' || c == '_'));
        assert!(stem.chars().any(|c| c != '_'));
        assert_eq!(sanitize_file_stem(&stem), stem);
    }
}

#[test]
fn answers_without_a_model() {
    let changed = vec!["a.txt".to_string(), "b.txt".to_string()];
    assert_eq!(
        fallback_final_answer(Some(" Done "), &changed, 2, true, true, "ok"),
        "Done\n\nChanged: a.txt, b.txt.\n\nSome actions were blocked for safety or match-count reasons.\n\nTest/build was run."
    );
    assert_eq!(
        fallback_final_answer(Some("  "), &Vec::new(), 0, false, true, " "),
        "I understood the request. No file was changed in this run."
    );
    assert_eq!(
        fallback_final_answer(None, &Vec::new(), 1, false, true, ""),
        "I checked, but no file was changed."
    );
    assert_eq!(
        fallback_final_answer(None, &changed, 1, false, false, ""),
        "The file actions were created, but auto-apply is off."
    );
}

#[test]
fn the_request_is_repeated_where_nothing_was_done() {
    assert_eq!(
        coordinator_direct_fallback(" Do it ", "Why."),
        "Ich habe verstanden, worum es geht: Do it\n\nWhy."
    );
}

#[test]
fn replies_are_taken_out_of_json() {
    assert_eq!(clean_visible_answer(r#" {"response":" Hi\r\nyou "} "#), "Hi\nyou");
    assert_eq!(
        clean_visible_answer(
            r#"{"response":"{\"model\":\"m\",\"created_at\":1,\"response\":\"inner\"}"}"#
        ),
        "inner"
    );
    assert_eq!(clean_visible_answer("{\"response\":3}"), "{\"response\":3}");
    assert_eq!(clean_visible_answer(" plain "), "plain");
}

#[test]
fn file_actions_are_not_shown() {
    let hidden =
        "I understood your request. I hide internal file actions in the UI and answer normally.";
    assert_eq!(clean_visible_answer(r#"{"actions":[]}"#), hidden);
    assert_eq!(clean_visible_answer(r#"see "op":"delete" there"#), hidden);
}

#[test]
fn chat_messages_are_drawn_in_pieces() {
    let pieces = render_chat_message("Look:\n\n```rust \nlet x;\n\n```\nend\n```\nopen");
    let mut shown: Vec<String> = Vec::new();
    for piece in &pieces {
        shown.push(match piece {
            ChatPiece::Line(line) => format!("line {}", line),
            ChatPiece::Gap => "gap".to_string(),
            ChatPiece::Code { language, code } => format!("code {}|{}", language, code),
        });
    }
    assert_eq!(shown, vec!["line Look:", "gap", "code rust|let x;", "line end", "code |open"]);
}

#[test]
fn an_open_block_without_code_is_not_drawn() {
    assert_eq!(render_chat_message("```").len(), 0);
    assert_eq!(render_chat_message("").len(), 0);
    assert_eq!(render_chat_message("```\n```").len(), 1);
}

#[test]
fn failures_are_recognised_in_the_log() {
    assert!(is_actual_error_log_line("Ollama error: no"));
    assert!(is_actual_error_log_line("write_file FAILED: x"));
    assert!(is_actual_error_log_line("replace_text blocked: x"));
    assert!(is_actual_error_log_line("It could not be done"));
    assert!(is_actual_error_log_line("Timeout nach 3 Sekunden."));
    assert!(is_actual_error_log_line("x failed."));
    assert!(is_actual_error_log_line("fehlgeschlagen"));
    assert!(is_actual_error_log_line("Keine sicheren Actions"));
    assert!(!is_actual_error_log_line("TRAFFIC x failed: y"));
    assert!(!is_actual_error_log_line("two lines\nfailed."));
    assert!(!is_actual_error_log_line("all is well"));
}

#[test]
fn output_of_commands_is_put_together() {
    assert_eq!(command_output_text(b"out", b"err", Some(1)), "outerr");
    assert_eq!(command_output_text(&[0xff], b"", None), "\u{fffd}");
    assert_eq!(command_output_text(b" \n", b"", Some(-3)), "Exit-Code: Some(-3)");
    assert_eq!(command_output_text(b"", b"", None), "Exit-Code: None");
    assert_eq!(run_shell(b"", b"", Some(0)), "Command finished. Exit code: Some(0)");
    assert_eq!(run_shell(b"x", b"", Some(0)), "x");
}

#[test]
fn stopped_commands_say_what_they_printed() {
    assert_eq!(timeout_text(30, " "), "Timeout nach 30 Sekunden.");
    assert_eq!(timeout_text(5, "abc"), "Timeout nach 5 Sekunden.\nabc");
    assert_eq!(smoke_timeout_text(""), "Smoke test ended after timeout.");
    assert_eq!(smoke_timeout_text("x"), "Smoke test timeout. Output so far:\nx");
}

#[test]
fn numbers_are_written_in_decimal() {
    assert_eq!(to_decimal(0), "0");
    assert_eq!(to_decimal(u128::MAX), format!("{}", u128::MAX));
    assert_eq!(to_two_digits(7), "07");
    assert_eq!(to_two_digits(123), "123");
}

#[test]
fn numeric_fields_are_kept_in_range() {
    assert_eq!(parse_usize_field(" 12 ", 2, 1, 6), 6);
    assert_eq!(parse_usize_field("0", 2, 1, 6), 1);
    assert_eq!(parse_usize_field("+3", 2, 1, 6), 3);
    assert_eq!(parse_usize_field("three", 2, 1, 6), 2);
    assert_eq!(parse_usize_field("99999999999999999999999", 2, 1, 6), 2);
    assert_eq!(parse_usize_field("-1", 2, 1, 6), 2);
}

#[test]
fn the_log_shows_the_time_of_day() {
    assert_eq!(now_hhmmss(0), "02:00:00");
    assert_eq!(now_hhmmss(86400 + 22 * 3600 + 61), "00:01:01");
}

#[test]
fn lists_are_sorted_without_repeats() {
    let list = vec!["b".to_string(), "a".to_string(), "b".to_string(), "ab".to_string()];
    assert_eq!(sort_dedup(&list), vec!["a", "ab", "b"]);
}

#[test]
fn lines_end_as_they_do_in_files() {
    assert_eq!(split_lines("a\r\nb\n\nc\r"), vec!["a", "b", "", "c\r"]);
    assert_eq!(split_lines("a\n"), vec!["a"]);
}

#[test]
fn texts_are_searched_by_character() {
    assert_eq!(find("äxäx", "x"), Some(1));
    assert_eq!(rfind("äxäx", "x"), Some(3));
    assert_eq!(find("abc", "d"), None);
    assert_eq!(count_matches("aaaa", "aa"), 2);
    assert_eq!(replace("a-b-c", "-", "+"), "a+b+c");
    assert_eq!(second_split("one, two, three", ", "), Some("two"));
    assert_eq!(split_words(" a  b\u{a0}c "), vec!["a", "b", "c"]);
}

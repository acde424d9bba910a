use local_coding_ai::http::{
    answer_parse_error, decode_chunked_body, find_crlf, find_header_end, generate_request,
    generated_answer, parse_http_body, tags_request, try_decode_chunked_body, try_parse_http_body,
};
use local_coding_ai::models::{
    agent_model_for_index, agent_models_for_count, ensure_all_agent_models, ensure_required_models,
    lacks_openclaw, ollama_program, DEEPSEEK_LARGE_CODER_MODEL, DEFAULT_AGENT_MODEL,
    OPENCLAW_AGENT_MODEL,
};

use local_coding_ai::waiting::{
    next_wait, server_wait, time_limit, External, Polled, ServerWait, Waiting,
};

fn strings(list: &[&str]) -> Vec<String> {
    list.iter().map(|s| s.to_string()).collect()
}

#[test]
fn headers_end_at_an_empty_line() {
    assert_eq!(find_header_end(b"A\r\n\r\nB\r\n\r\n"), Some(1));
    assert_eq!(find_header_end(b"A\r\nB"), None);
    assert_eq!(find_crlf(b"\r\nab\r\n", 1), Some(4));
    assert_eq!(find_crlf(b"ab", 2), None);
}

#[test]
fn chunks_are_put_together() {
    let body = b"5;ext=1\r\nHello\r\nA\r\n, world!!!\r\n0\r\n\r\n";
    assert_eq!(decode_chunked_body(body).unwrap(), b"Hello, world!!!");
    assert_eq!(decode_chunked_body(b"2\r\nab0\r\n").unwrap(), b"ab");
}

#[test]
fn defective_chunks_are_reported() {
    assert_eq!(
        decode_chunked_body(b"5").unwrap_err(),
        "Chunked HTTP response is defective: chunk size not found"
    );
    assert_eq!(
        decode_chunked_body(b"9\r\nabc").unwrap_err(),
        "Chunked HTTP response is defective: chunk longer than response"
    );
    assert_eq!(
        decode_chunked_body(b"xyz\r\n").unwrap_err(),
        "Chunked HTTP response is defective: invalid chunk size 'xyz': invalid digit found in string"
    );
    assert!(try_decode_chunked_body(b"ffffffffffffffff\r\nabc").is_none());
}

#[test]
fn answers_give_their_body() {
    let plain = b"HTTP/1.1 200 OK\r\nA: b\r\n\r\n  body \n".to_vec();
    assert_eq!(parse_http_body(plain).unwrap(), "body");
    let chunked =
        b"HTTP/1.0 200 OK\r\nTransfer-Encoding: CHUNKED\r\n\r\n3\r\nabc\r\n0\r\n\r\n".to_vec();
    assert_eq!(parse_http_body(chunked).unwrap(), "abc");
}

#[test]
fn failed_answers_give_their_error() {
    assert_eq!(
        parse_http_body(b"no header".to_vec()).unwrap_err(),
        "HTTP response could not be read: no header end found"
    );
    assert_eq!(
        parse_http_body(b"HTTP/1.1 404 Not Found\r\n\r\ngone".to_vec()).unwrap_err(),
        "Ollama HTTP error:\nHTTP/1.1 404 Not Found\ngone"
    );
    assert_eq!(
        parse_http_body(b"HTTP/1.1 200 OK\r\n\r\n \r\n".to_vec()).unwrap_err(),
        "Ollama returned an empty body."
    );
    let endless =
        b"HTTP/1.1 200 OK\r\ntransfer-encoding: chunked\r\n\r\nffffffffffffffff\r\nx".to_vec();
    assert!(try_parse_http_body(endless).is_none());
    assert!(try_parse_http_body(b"x".to_vec()).is_some());
}

#[test]
fn requests_count_bytes() {
    let request = generate_request("{\"a\":\"ä\"}");
    assert!(request.starts_with("POST /api/generate HTTP/1.1\r\nHost: 127.0.0.1:11434\r\n"));
    assert!(request.contains("\r\nContent-Length: 10\r\n"));
    assert!(request.ends_with("\r\n\r\n{\"a\":\"ä\"}"));
    assert!(tags_request().starts_with("GET /api/tags HTTP/1.1\r\n"));
    assert!(tags_request().ends_with("Connection: close\r\n\r\n"));
}

#[test]
fn errors_of_the_server_come_first() {
    let text = |s: &str| Some(s.to_string());
    assert_eq!(generated_answer(text("a"), text("e")), Err("e".to_string()));
    assert_eq!(generated_answer(text("a"), None), Ok("a".to_string()));
    assert_eq!(generated_answer(None, None), Ok(String::new()));
    let long = "x".repeat(700);
    assert_eq!(
        answer_parse_error("bad", &long),
        format!("JSON parser error: bad\nresponse start:\n{}", "x".repeat(600))
    );
}

#[test]
fn every_coder_has_its_model() {
    assert_eq!(agent_model_for_index(0, "mine"), "mine");
    assert_eq!(agent_model_for_index(2, "mine"), OPENCLAW_AGENT_MODEL);
    assert_eq!(agent_model_for_index(6, "mine"), DEEPSEEK_LARGE_CODER_MODEL);
    assert_eq!(agent_model_for_index(99, "mine"), DEEPSEEK_LARGE_CODER_MODEL);
}

#[test]
fn models_are_listed_once_and_in_order() {
    assert_eq!(agent_models_for_count("zz", 0), vec!["zz"]);
    assert_eq!(agent_models_for_count("zz", 3), vec!["gpt-oss:20b", "zz"]);
    assert_eq!(
        agent_models_for_count(DEFAULT_AGENT_MODEL, 6),
        vec![
            "deepseek-coder:1.3b",
            "gpt-oss:20b",
            "qwen2.5-coder:1.5b",
            "qwen2.5-coder:7b",
            "starcoder2:7b"
        ]
    );
}

#[test]
fn only_missing_models_are_downloaded() {
    let wanted = strings(&["b", "openclaw-agent:x", "a", "c"]);
    let there = strings(&["a"]);
    assert_eq!(ensure_required_models(&wanted, &there), vec!["b", "c"]);
}

#[test]
fn all_models_are_prepared() {
    let all = ensure_all_agent_models("other");
    assert_eq!(
        all,
        vec![
            "deepseek-coder:1.3b",
            "deepseek-coder:6.7b",
            "gpt-oss:20b",
            "other",
            "qwen2.5-coder:1.5b",
            "qwen2.5-coder:7b",
            "starcoder2:7b"
        ]
    );
    assert_eq!(ensure_all_agent_models(OPENCLAW_AGENT_MODEL).len(), 6);
    assert_eq!(ensure_all_agent_models(DEFAULT_AGENT_MODEL).len(), 6);
    assert!(lacks_openclaw(&strings(&["x"])));
    assert!(!lacks_openclaw(&strings(&[OPENCLAW_AGENT_MODEL])));
}

#[test]
fn the_server_program_has_to_be_named() {
    assert_eq!(ollama_program(" \"C:\\ollama.exe\" ").unwrap(), "C:\\ollama.exe");
    assert!(ollama_program(" ").is_none());
    assert!(ollama_program("Not found").is_none());
    assert!(ollama_program("Nicht gefunden").is_none());
}

#[test]
fn decoding_undoes_chunking() {
    let long = vec![7u8; 300];
    for chunks in [
        Vec::new(),
        vec![b"Hello".to_vec()],
        vec![b"a\r\n0\r\n\r\n".to_vec(), b"\r\n".to_vec(), long.clone()],
        vec![vec![0u8, 255, 13], vec![b';'], vec![10u8; 16]],
    ] {
        let mut sent: Vec<u8> = Vec::new();
        let mut data: Vec<u8> = Vec::new();
        for chunk in &chunks {
            sent.extend(format!("{:x}\r\n", chunk.len()).into_bytes());
            sent.extend(chunk);
            sent.extend(b"\r\n");
            data.extend(chunk);
        }
        sent.extend(b"0\r\n\r\n");
        assert_eq!(decode_chunked_body(&sent).unwrap(), data);
    }
}

#[test]
fn programs_are_stopped_at_their_limit() {
    assert_eq!(next_wait(Polled::Exited, 999, 10), Waiting::Collect);
    assert_eq!(next_wait(Polled::Broken, 0, 10), Waiting::Report);
    assert_eq!(next_wait(Polled::Running, 9, 10), Waiting::Sleep);
    assert_eq!(next_wait(Polled::Running, 10, 10), Waiting::Kill);
    for program in [
        External::PythonVersion,
        External::PackagerVersion,
        External::PackagerInstallation,
        External::Compilation,
        External::TrialRun,
        External::Packager,
        External::SmokeTest,
        External::Shell,
        External::ModelDownload,
        External::ModelCreation,
        External::Training,
    ] {
        let limit = u128::from(time_limit(program)) * 1000;
        assert_eq!(next_wait(Polled::Running, limit - 1, limit), Waiting::Sleep);
        assert_eq!(next_wait(Polled::Running, limit, limit), Waiting::Kill);
    }
    assert_eq!(time_limit(External::Packager), 240);
    assert_eq!(time_limit(External::PackagerInstallation), 120);
    assert_eq!(time_limit(External::Shell), 180);
    assert_eq!(time_limit(External::SmokeTest), 5);
}

#[test]
fn the_server_gets_forty_tries() {
    assert_eq!(server_wait(true, 0), ServerWait::Ready);
    assert_eq!(server_wait(true, 40), ServerWait::Ready);
    assert_eq!(server_wait(false, 39), ServerWait::Sleep);
    assert_eq!(server_wait(false, 40), ServerWait::GiveUp);
}

use local_coding_ai::graph::{
    block_color, block_exists, connection_exists, default_agent_graph, default_block_fields,
    graph_from_python_code, graph_has_room, graph_to_python_code, is_above_forty,
    normalize_agent_graph, px, AgentBlock, AgentBlockKind, AgentConnection, AgentGraph,
};
use local_coding_ai::models::{
    DEEPSEEK_CODER_MODEL, DEFAULT_AGENT_MODEL, LOCAL_GPT_ROUTER_MODEL, QWEN_CODER_MODEL,
};
use local_coding_ai::session::{
    default_project, default_saved_state, normalize_saved_state, ChatMsg, ChatSession,
    ProjectEntry, SavedState,
};
use local_coding_ai::state::{AppView, LocalAiApp, ProjectPlan};

// Graphs

fn block(id: u64, title: &str, kind: AgentBlockKind, model: &str, w: f32, h: f32) -> AgentBlock {
    AgentBlock {
        id,
        title: title.to_string(),
        kind,
        model: model.to_string(),
        prompt: String::new(),
        task: String::new(),
        x: 0.0f32.to_bits(),
        y: 0.0f32.to_bits(),
        w: w.to_bits(),
        h: h.to_bits(),
    }
}

#[test]
fn saved_old_default_graph_is_migrated_to_current_coder_models() {
    let mut graph = AgentGraph {
        blocks: vec![
            block(
                2,
                "Unterverwalter Code",
                AgentBlockKind::Manager,
                DEFAULT_AGENT_MODEL,
                220.0,
                118.0,
            ),
            block(
                3,
                "CodeLlama Coder",
                AgentBlockKind::CodingAgent,
                DEFAULT_AGENT_MODEL,
                210.0,
                112.0,
            ),
            block(
                4,
                "Qwen Coder",
                AgentBlockKind::CodingAgent,
                "qwen2.5-coder:0.5b",
                210.0,
                112.0,
            ),
        ],
        connections: Vec::new(),
        next_id: 8,
    };

    assert!(graph_has_room(&graph));
    normalize_agent_graph(&mut graph);

    assert!(graph.blocks.iter().any(|block| block.model == QWEN_CODER_MODEL));
    assert!(graph.blocks.iter().any(|block| block.model == DEEPSEEK_CODER_MODEL));
    assert!(graph
        .connections
        .iter()
        .any(|connection| connection.from == 2 && connection.label == "DeepSeek"));
    assert!(graph.blocks.iter().any(|block| block.model == LOCAL_GPT_ROUTER_MODEL));
}

#[test]
fn no_block_keeps_the_model_that_is_out_of_date() {
    let mut graph = default_agent_graph();
    for block in &mut graph.blocks {
        block.model = "qwen2.5-coder:0.5b".to_string();
    }
    assert!(graph_has_room(&graph));
    normalize_agent_graph(&mut graph);
    assert!(graph.blocks.iter().all(|block| block.model != "qwen2.5-coder:0.5b"));
    assert!(graph.blocks.iter().any(|block| block.model == QWEN_CODER_MODEL));
}

#[test]
fn lengths_are_single_precision_numbers() {
    for n in 64..2048u32 {
        assert_eq!(px(n), (n as f32).to_bits());
    }
}

#[test]
fn lengths_are_compared_as_numbers() {
    let samples = [
        0.0f32,
        -0.0,
        -1.0,
        39.9,
        40.0,
        40.000004,
        41.0,
        1.0e30,
        f32::INFINITY,
        f32::NEG_INFINITY,
        f32::NAN,
        -f32::NAN,
        f32::MIN_POSITIVE,
    ];
    for sample in samples {
        assert_eq!(is_above_forty(sample.to_bits()), sample > 40.0);
    }
}

#[test]
fn graphs_lose_what_cannot_be_seen() {
    let kind = AgentBlockKind::Task;
    let mut graph = AgentGraph {
        blocks: vec![
            block(1, "a", kind, "", 200.0, 105.0),
            block(2, "b", kind, "", 40.0, 105.0),
            block(9, "c", kind, "", 200.0, 41.0),
        ],
        connections: vec![
            AgentConnection { from: 1, to: 9, label: "x".to_string() },
            AgentConnection { from: 1, to: 2, label: "y".to_string() },
        ],
        next_id: 3,
    };
    normalize_agent_graph(&mut graph);
    assert_eq!(graph.blocks.len(), 2);
    assert_eq!(graph.connections.len(), 1);
    assert_eq!(graph.next_id, 10);
    assert!(block_exists(&graph.blocks, 9) && !block_exists(&graph.blocks, 2));
    assert!(connection_exists(&graph.connections, 1, 9));
    assert!(!connection_exists(&graph.connections, 9, 1));
}

#[test]
fn the_starting_graph_is_in_order() {
    let start = default_agent_graph();
    let mut graph = start.copy();
    normalize_agent_graph(&mut graph);
    assert_eq!(format!("{:?}", graph), format!("{:?}", start));
    let shown = start.blocks[0].x;
    assert!(f32::from_bits(shown) >= 0.0);
}

#[test]
fn new_blocks_have_their_fields() {
    let coder = default_block_fields(AgentBlockKind::CodingAgent, 9, 5, 6);
    assert_eq!(coder.title, "Coder 9");
    assert_eq!(coder.model, DEEPSEEK_CODER_MODEL);
    assert_eq!((coder.x, coder.y), (5, 6));
    assert_eq!(coder.w, 210.0f32.to_bits());
    assert_eq!(coder.h, 112.0f32.to_bits());
    assert_eq!(
        default_block_fields(AgentBlockKind::CodingAgent, 10, 0, 0).model,
        DEFAULT_AGENT_MODEL
    );
    assert_eq!(
        default_block_fields(AgentBlockKind::CodingAgent, 11, 0, 0).model,
        QWEN_CODER_MODEL
    );
    assert_eq!(default_block_fields(AgentBlockKind::Tool, 1, 0, 0).model, "");
}

#[test]
fn kinds_have_labels_and_colors() {
    let all = AgentBlockKind::all();
    assert_eq!(all.len(), 7);
    assert_eq!(all[1].label(), "Verwaltungsagent");
    assert_eq!(block_color(AgentBlockKind::Coordinator), (64, 92, 150));
}

#[test]
fn graphs_are_read_back_from_code() {
    let json = "{\n  \"blocks\": []\n}";
    let code = graph_to_python_code(json);
    assert_eq!(graph_from_python_code(&code).unwrap(), json);
    assert!(graph_from_python_code("print()").is_err());
    assert!(graph_from_python_code("GRAPH_JSON = r'''{}").is_err());
}

// States

fn project(id: &str) -> ProjectEntry {
    ProjectEntry { id: id.to_string(), name: id.to_uppercase(), path: format!("/{}", id) }
}

fn chat(id: &str, project_id: &str, updated_at: u64) -> ChatSession {
    ChatSession {
        id: id.to_string(),
        title: "New task".to_string(),
        project_id: project_id.to_string(),
        project_dir: format!("/{}", project_id),
        messages: Vec::new(),
        updated_at,
    }
}

fn empty_graph() -> AgentGraph {
    AgentGraph { blocks: Vec::new(), connections: Vec::new(), next_id: 0 }
}

#[test]
fn a_new_installation_has_a_project_and_a_chat() {
    let state = default_saved_state(default_project(None, "/x".to_string()), 7);
    assert_eq!(state.projects[0].name, "Project");
    assert_eq!(state.active_project_id, "project-default");
    assert_eq!(state.active_session_id, "chat-default");
    assert_eq!(state.sessions[0].messages.len(), 1);
    assert_eq!(state.sessions[0].updated_at, 7);
    assert!(!state.agent_graph.blocks.is_empty());
}

#[test]
fn kept_states_are_set_in_order() {
    let state = SavedState {
        projects: vec![project("p"), project("q")],
        sessions: vec![chat("a", "q", 1), chat("b", "p", 5), chat("c", "q", 5)],
        active_project_id: "gone".to_string(),
        active_session_id: "gone".to_string(),
        agent_graph: empty_graph(),
    };
    let state = normalize_saved_state(state, project("d"), 9);
    let order: Vec<&str> = state.sessions.iter().map(|s| s.id.as_str()).collect();
    assert_eq!(order, vec!["b", "c", "a"]);
    assert!(state.projects.iter().any(|p| p.id == state.active_project_id));
    assert!(state.sessions.iter().any(|s| s.id == state.active_session_id));
    assert!(!state.agent_graph.blocks.is_empty());
}

#[test]
fn empty_states_get_a_project_and_a_chat() {
    let state = SavedState {
        projects: Vec::new(),
        sessions: Vec::new(),
        active_project_id: String::new(),
        active_session_id: String::new(),
        agent_graph: empty_graph(),
    };
    let state = normalize_saved_state(state, project("d"), 9);
    assert_eq!(state.projects.len(), 1);
    assert_eq!(state.sessions.len(), 1);
    assert_eq!(state.active_project_id, "d");
}

fn app() -> LocalAiApp {
    let state = SavedState {
        projects: vec![project("p"), project("q")],
        sessions: vec![chat("a", "p", 1), chat("b", "p", 0)],
        active_project_id: "p".to_string(),
        active_session_id: "a".to_string(),
        agent_graph: default_agent_graph(),
    };
    LocalAiApp::new(state, "/x".to_string(), "ollama".to_string(), "code".to_string())
}

#[test]
fn the_program_begins_with_its_settings() {
    let app = app();
    assert_eq!(app.project_dir, "/p");
    assert_eq!(app.terminal_cmd, "cargo check");
    assert_eq!(app.context_limit, "50000");
    assert_eq!(app.model, DEFAULT_AGENT_MODEL);
    assert_eq!(app.active_view, AppView::Chat);
    assert!(!app.busy);
    assert_eq!(app.saved_state().sessions.len(), 2);
}

#[test]
fn a_message_begins_a_run() {
    let mut app = app();
    app.input = "  Fix `src/a.rs`  ".to_string();
    let (id, config) = app.send_user_message("/mem".to_string(), 100, 50).unwrap();
    assert_eq!(id, 1);
    assert_eq!(config.user_request, "Fix `src/a.rs`");
    assert_eq!(config.project_dir, "/p");
    assert_eq!(config.memory_dir, "/mem");
    assert_eq!(config.last_file_path.unwrap(), "src/a.rs");
    assert_eq!(config.context_limit, 50_000);
    assert!(app.busy);
    assert_eq!(app.input, "");
    assert_eq!(app.sessions[0].title, "Fix `src/a.rs`");
    assert_eq!(app.sessions[0].messages.len(), 1);
    assert_eq!(app.sessions[0].updated_at, 50);
    assert_eq!(app.log.len(), 2);
    assert_eq!(app.log[1], "[02:00:50] Coordinator started. Run id: 1");
    assert!(app.chat_started());

    app.input = "more".to_string();
    assert!(app.send_user_message("/mem".to_string(), 100, 50).is_none());
    assert!(!app.set_active_session("b"));
    assert!(!app.set_active_project("q", 1, 1));
    assert!(matches!(app.create_project_from_fields(), ProjectPlan::Wait));
}

#[test]
fn results_of_given_up_runs_are_ignored() {
    let mut app = app();
    app.input = "work".to_string();
    let (id, _) = app.send_user_message("/mem".to_string(), 100, 50).unwrap();
    assert!(app.stop_current_task(51));
    assert!(!app.stop_current_task(51));
    assert!(app.poll_agent_result(id, "late", 100, 52).is_none());
    assert_eq!(app.sessions[0].messages.len(), 1);

    app.input = "again".to_string();
    let (id, _) = app.send_user_message("/mem".to_string(), 100, 50).unwrap();
    assert_eq!(id, 3);
    assert_eq!(app.poll_agent_result(id, "{\"response\":\"done\"}", 100, 53), Some(0));
    assert!(!app.busy);
    let last = &app.sessions[0].messages[2];
    assert_eq!((last.who.as_str(), last.text.as_str()), ("Assistant", "done"));
    app.log_all(&vec!["x".to_string(), "y".to_string()], 0);
    assert_eq!(app.log[app.log.len() - 1], "[02:00:00] y");
}

#[test]
fn a_chat_without_a_project_is_written_into() {
    let mut app = app();
    app.projects.clear();
    app.input = "more".to_string();
    let (id, config) = app.send_user_message("/mem".to_string(), 100, 50).unwrap();
    assert_eq!(config.project_dir, "/p");
    assert_eq!(app.poll_agent_result(id, "done", 101, 51), Some(0));
    assert_eq!(app.sessions.len(), 2);
    assert_eq!(app.sessions[0].messages.len(), 2);

    app.active_session_id = "gone".to_string();
    assert_eq!(app.ensure_active_session_index(77, 5), 0);
    app.input = "again".to_string();
    let (id, _) = app.send_user_message("/mem".to_string(), 102, 52).unwrap();
    assert_eq!(app.poll_agent_result(id, "done", 103, 53), Some(0));
    assert_eq!(app.sessions.len(), 2);
    assert_eq!(app.sessions[0].messages.len(), 4);
    assert_eq!(app.active_session_id, "gone");
}

#[test]
fn nothing_is_sent_where_there_is_nothing_to_send() {
    let mut app = app();
    app.projects.clear();
    app.sessions.clear();
    app.input = "  ".to_string();
    assert!(app.send_user_message("/mem".to_string(), 100, 50).is_none());
    assert!(app.poll_agent_result(9, "late", 100, 50).is_none());
    assert_eq!(app.ensure_active_session_index(77, 5), 0);
    assert!(app.sessions.is_empty());
}

#[test]
fn there_is_always_a_chat_to_write_into() {
    let mut app = app();
    app.active_session_id = "gone".to_string();
    assert!(app.active_session().is_none());
    assert_eq!(app.ensure_active_session_index(77, 5), 0);
    assert_eq!(app.active_session().unwrap().id, "chat-77");
    assert_eq!(app.sessions.len(), 3);
    assert_eq!(app.ensure_active_session_index(78, 5), 0);
    assert_eq!(app.sessions.len(), 3);
    assert!(!app.chat_started());
}

#[test]
fn chats_and_projects_are_chosen() {
    let mut app = app();
    app.new_project_path = "x".to_string();
    assert!(app.set_active_session("b"));
    assert_eq!(app.active_session_index(), Some(1));
    assert_eq!(app.new_project_path, "");
    assert!(!app.set_active_session("none"));
    assert!(app.set_active_project("q", 5, 6));
    assert_eq!(app.project_dir, "/q");
    assert_eq!(app.active_session_id, "chat-5");
    assert!(app.set_active_project("p", 7, 8));
    assert_eq!(app.active_session_id, "a");
    assert!(!app.set_active_project("none", 7, 8));
    let listed = app.listed_chats();
    let ids: Vec<&str> = listed.iter().map(|(id, _)| id.as_str()).collect();
    assert_eq!(ids, vec!["a", "b"]);
    assert_eq!(listed[0].1, "New task");
}

#[test]
fn projects_are_added() {
    let mut app = app();
    assert!(matches!(app.create_project_from_fields(), ProjectPlan::Incomplete));
    app.new_project_name = " My App ".to_string();
    match app.create_project_from_fields() {
        ProjectPlan::InCurrentFolder(name) => assert_eq!(name, "My_App"),
        other => panic!("{:?}", other),
    }
    app.new_project_path = " \"/new\" ".to_string();
    match app.create_project_from_fields() {
        ProjectPlan::At(path) => assert_eq!(path, "/new"),
        other => panic!("{:?}", other),
    }
    app.add_project(Some("new".to_string()), "/new".to_string(), 30, 0);
    assert_eq!(app.projects[2].id, "project-30");
    assert_eq!(app.projects[2].name, "My App");
    assert_eq!(app.active_session_id, "chat-30");
    assert_eq!(app.log[0], "[02:00:00] Project added: My App (/new)");
    app.add_project(None, "/".to_string(), 31, 0);
    assert_eq!(app.projects[3].name, "Project");
}

#[test]
fn blocks_are_added_connected_and_removed() {
    let mut app = app();
    let count = app.agent_graph.blocks.len();
    let links = app.agent_graph.connections.len();
    let next = app.agent_graph.next_id;
    app.add_agent_block(AgentBlockKind::Tool, 1, 2);
    assert_eq!(app.selected_block_id, Some(next));
    assert_eq!(app.target_title(next), format!("Tool {}", next));
    assert_eq!(app.target_title(999), "Block 999");

    app.start_connection(1);
    assert!(app.connect_or_select_block(next));
    app.start_connection(1);
    assert!(!app.connect_or_select_block(next));
    app.start_connection(next);
    assert!(!app.connect_or_select_block(next));
    assert_eq!(app.agent_graph.connections.len(), links + 1);
    assert_eq!(app.agent_graph.connections[links].label, "delegiert");

    assert!(app.remove_selected_block());
    assert!(!app.remove_selected_block());
    assert_eq!(app.agent_graph.blocks.len(), count);
    assert_eq!(app.agent_graph.connections.len(), links);
    app.remove_connection(0);
    assert_eq!(app.agent_graph.connections.len(), links - 1);
}

#[test]
fn the_canvas_is_acted_on() {
    let mut app = app();
    app.agent_graph.connections.clear();
    assert!(!app.act_on_canvas(Some(1), None, None, false));
    assert_eq!(app.connecting_from, Some(1));
    assert!(!app.act_on_canvas(None, None, None, false));
    assert!(app.act_on_canvas(None, Some(2), Some(3), false));
    assert_eq!(app.selected_block_id, Some(2));
    assert!(!app.act_on_canvas(None, None, Some(3), false));
    assert_eq!(app.selected_block_id, Some(3));
    assert!(!app.act_on_canvas(None, None, None, true));
    assert_eq!(app.selected_block_id, None);
}

#[test]
fn graphs_are_taken_in() {
    let mut app = app();
    assert!(!app.import_graph_from_python(Err("bad".to_string())));
    assert_eq!(app.graph_status, "Code could not be imported: bad");
    assert!(app.import_graph_from_python(Ok(empty_graph())));
    assert_eq!(app.graph_status, "Python code was imported into blocks.");
    assert!(app.agent_graph.blocks.is_empty());
    assert_eq!(app.agent_graph.next_id, 1);
}

#[test]
fn dropped_paths_are_taken_in() {
    let mut app = app();
    app.drop_path("/dir", true, 0);
    assert_eq!(app.new_project_path, "/dir");
    app.drop_path("/a.txt", false, 0);
    app.drop_path("/b.txt", false, 0);
    assert_eq!(app.input, "Attached file: /a.txt\nAttached file: /b.txt");
    assert_eq!(app.dropped_files.len(), 3);
    assert_eq!(app.log[2], "[02:00:00] File dropped: /b.txt");
}

#[test]
fn messages_can_be_copied() {
    let message = ChatMsg { who: "You".to_string(), text: "x".to_string() };
    assert_eq!(message.copy().text, "x");
}

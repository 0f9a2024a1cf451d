use levchat::bridge::{JobOutcome, Session};
use levchat::command::{
    build_command, find_first_gguf_file, find_gguf_emmodel, find_gguf_model, normalize_path,
    plan_job, JobDecision, JobRequest, ModelState, Platform,
};

fn listing(names: &[&str]) -> Vec<String> {
    names.iter().map(|n| n.to_string()).collect()
}

fn plain_request(prompt: &str, model: Option<&str>) -> JobRequest {
    JobRequest {
        prompt: prompt.to_string(),
        model_name: model.map(|m| m.to_string()),
        temperature: None,
        max_tokens: None,
        additional_args: Vec::new(),
    }
}

#[test]
fn normalize_path_flips_separators_on_windows_only() {
    assert_eq!(normalize_path("a/b/c", true), "a\\b\\c");
    assert_eq!(normalize_path("a/b/c", false), "a/b/c");
    assert_eq!(normalize_path("", true), "");
}

#[test]
fn first_gguf_file_in_listing() {
    let files = listing(&["readme.txt", "m1.gguf", "m2.gguf"]);
    assert_eq!(find_first_gguf_file(&files), Some("m1.gguf".to_string()));
    assert_eq!(find_first_gguf_file(&listing(&["readme.txt"])), None);
}

#[test]
fn model_state_selection_and_defaults() {
    let mut state = ModelState::init_from_listings(
        &listing(&["a.gguf", "b.gguf"]),
        &listing(&["notes.txt"]),
    );
    assert_eq!(state.get_selected_model(), Some("a.gguf".to_string()));
    assert_eq!(state.get_selected_em_model(), None);
    state.set_model("b.gguf".to_string());
    state.set_em_model("e.gguf".to_string());
    assert_eq!(state.get_selected_model(), Some("b.gguf".to_string()));
    assert_eq!(state.get_selected_em_model(), Some("e.gguf".to_string()));
}

#[test]
fn find_gguf_model_reports_each_failure() {
    let none = ModelState::new();
    assert_eq!(
        find_gguf_model("/ws", &none, &listing(&["m.gguf"])),
        Err("No model name selected".to_string())
    );
    let mut state = ModelState::new();
    state.set_model("m.gguf".to_string());
    assert_eq!(
        find_gguf_model("/ws", &state, &listing(&["m.gguf"])),
        Ok("/ws/model/m.gguf".to_string())
    );
    assert_eq!(
        find_gguf_model("/ws", &state, &listing(&["other.gguf"])),
        Err("Model m.gguf not found in model directory".to_string())
    );
    state.set_em_model("e.gguf".to_string());
    assert_eq!(
        find_gguf_emmodel("/ws", &state, &listing(&["e.gguf"])),
        Ok("/ws/em_model/e.gguf".to_string())
    );
}

#[test]
fn plan_job_explicit_model_name_is_taken_unchecked() {
    // Scenario: prompt "Hello", explicit model m.gguf present under the
    // workspace: the constructor succeeds with a plain job.
    let req = plain_request("Hello", Some("m.gguf"));
    let state = ModelState::new();
    match plan_job(&req, "/ws", &state, &listing(&["m.gguf"]), &listing(&[])) {
        Ok(JobDecision::Plain { model_path }) => assert_eq!(model_path, "/ws/model/m.gguf"),
        _ => panic!("expected a plain job"),
    }
}

#[test]
fn plan_job_rag_without_embedding_model_fails_fast() {
    let req = plain_request("RAG-What is X?", Some("m.gguf"));
    let state = ModelState::new();
    let err = plan_job(&req, "/ws", &state, &listing(&["m.gguf"]), &listing(&[])).unwrap_err();
    assert_eq!(err.message, "No embedding model found");
    assert_eq!(
        err.notice,
        "Cannot perform RAG: No embedding model found. Please download an embedding model first."
    );
}

#[test]
fn plan_job_rag_strips_prefix() {
    let req = plain_request("RAG-What is X?", Some("m.gguf"));
    let mut state = ModelState::new();
    state.set_em_model("e.gguf".to_string());
    match plan_job(&req, "/ws", &state, &listing(&["m.gguf"]), &listing(&["e.gguf"])) {
        Ok(JobDecision::Rag { model_path, query }) => {
            assert_eq!(model_path, "/ws/model/m.gguf");
            assert_eq!(query, "What is X?");
        },
        _ => panic!("expected a retrieval-augmented job"),
    }
}

#[test]
fn plan_job_without_any_model_fails() {
    let req = plain_request("Hello", None);
    let state = ModelState::new();
    let err = plan_job(&req, "/ws", &state, &listing(&[]), &listing(&[])).unwrap_err();
    assert_eq!(err.message, "No language model found");
    assert_eq!(err.notice, "No language model found. Please provide a language model.");
}

#[test]
fn build_command_linux_exact_line() {
    let req = plain_request("Hello", Some("m.gguf"));
    let cmd = build_command(Platform::Linux, "/ws", "/ws/model/m.gguf", &req, "Hello", false);
    assert_eq!(cmd.program, "bash");
    assert_eq!(cmd.flag, "-c");
    assert_eq!(
        cmd.command,
        "/ws/setup/llama-cli --color -m \"/ws/model/m.gguf\" -ngl 99 -p \" Hello PS: (End your response with [done]) \nYour response: \""
    );
}

#[test]
fn build_command_escapes_quotes_and_adds_sampling() {
    let req = JobRequest {
        prompt: String::new(),
        model_name: None,
        temperature: Some("0.7".to_string()),
        max_tokens: Some(128),
        additional_args: vec![("top-k".to_string(), "40".to_string())],
    };
    let cmd = build_command(Platform::MacOs, "/ws", "/m.gguf", &req, "say \"hi\"", false);
    assert_eq!(
        cmd.command,
        "llama-cli --color -m \"/m.gguf\" --temp 0.7 -n 128 --top-k 40 -ngl 99 -p \" say \\\"hi\\\" PS: (End your response with [done]) \nYour response: \""
    );
}

#[test]
fn build_command_windows_uses_cmd() {
    let req = plain_request("p", None);
    let cmd = build_command(Platform::Windows, "C:/ws", "C:/ws/model/m.gguf", &req, "p", true);
    assert_eq!(cmd.program, "cmd");
    assert_eq!(cmd.flag, "/C");
    assert_eq!(
        cmd.command,
        "C:/ws\\setup\\llama-cli.exe --color -m \"C:/ws/model/m.gguf\" -ngl 99 -p \" p\""
    );
}

#[test]
fn session_lifecycle_emits_status_sequence() {
    // Scenario: a request with an explicit present model: a started status
    // goes out, and the exit watcher later reports completion.
    let mut session = Session::new();
    let req = plain_request("Hello", Some("m.gguf"));
    let state = ModelState::new();
    let (job_id, outcome) = session.handle_job_request(
        &req,
        "/ws",
        &state,
        &listing(&["m.gguf"]),
        &listing(&[]),
    );
    assert_eq!(job_id.len(), 36);
    match outcome {
        JobOutcome::LaunchPlain { status, model_path } => {
            assert_eq!(status.job_id, job_id);
            assert_eq!(status.status, "started");
            assert_eq!(model_path, "/ws/model/m.gguf");
        },
        _ => panic!("expected a plain launch"),
    }
    // A second request while the job runs is rejected, under its own id.
    let (second_id, second) = session.handle_job_request(
        &req,
        "/ws",
        &state,
        &listing(&["m.gguf"]),
        &listing(&[]),
    );
    assert_ne!(second_id, job_id);
    match second {
        JobOutcome::Busy { status } => {
            assert_eq!(status.job_id, second_id);
            assert_eq!(status.status, "failed to start: a job is already running");
        },
        _ => panic!("expected the busy rejection"),
    }
    let done = session.job_exited(&job_id, "exit status 0");
    assert_eq!(done.status, "completed with status: exit status 0");
    assert!(session.active_job.is_none());
}

#[test]
fn session_reports_construct_failure_with_status() {
    // Scenario: a retrieval request with no embedding model: one failure
    // status, nothing spawned.
    let mut session = Session::new();
    let req = plain_request("RAG-What is X?", Some("m.gguf"));
    let state = ModelState::new();
    let (job_id, outcome) = session.handle_job_request(
        &req,
        "/ws",
        &state,
        &listing(&["m.gguf"]),
        &listing(&[]),
    );
    match outcome {
        JobOutcome::Rejected { notice, status } => {
            assert_eq!(status.job_id, job_id);
            assert_eq!(status.status, "failed to construct command: No embedding model found");
            assert_eq!(
                notice,
                "Cannot perform RAG: No embedding model found. Please download an embedding model first."
            );
        },
        _ => panic!("expected a rejection"),
    }
    assert!(session.active_job.is_none());
}

#[test]
fn session_spawn_failure_clears_job() {
    let mut session = Session::new();
    let req = plain_request("Hello", Some("m.gguf"));
    let state = ModelState::new();
    let (job_id, _) = session.handle_job_request(
        &req,
        "/ws",
        &state,
        &listing(&["m.gguf"]),
        &listing(&[]),
    );
    let status = session.job_spawn_failed(&job_id, "no such file");
    assert_eq!(status.status, "failed to start: no such file");
    assert!(session.active_job.is_none());
}

#[test]
fn session_rag_request_needs_context_first() {
    let mut session = Session::new();
    let req = plain_request("RAG-What is X?", Some("m.gguf"));
    let mut state = ModelState::new();
    state.set_em_model("e.gguf".to_string());
    let (job_id, outcome) = session.handle_job_request(
        &req,
        "/ws",
        &state,
        &listing(&["m.gguf"]),
        &listing(&["e.gguf"]),
    );
    match outcome {
        JobOutcome::NeedContext { model_path, query } => {
            assert_eq!(model_path, "/ws/model/m.gguf");
            assert_eq!(query, "What is X?");
        },
        _ => panic!("expected a context-gathering job"),
    }
    assert_eq!(session.active_job, Some(job_id.clone()));
    // Context arrives: the job is announced; or it fails and the job ends.
    let started = session.job_context_ready(&job_id);
    assert_eq!(started.status, "started");
    let failed = session.job_construct_failed(&job_id, "Server failed to start");
    assert_eq!(failed.status, "failed to construct command: Server failed to start");
    assert!(session.active_job.is_none());
}

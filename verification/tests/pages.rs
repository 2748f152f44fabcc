use web_research::capture::{
    capture_result, fingerprint, merge_turns, over_capture_limit, settled_steps, transcript_markdown,
};
use web_research::chat::{
    already_preferred, choose_reasoning, deletion_target_ok, fill_confirmed, moved_left, moved_right, fill_step, project_page_ok,
    ready_state, slider_index, slider_range_ok, slider_settled, FillStep, Readiness,
};
use web_research::config::Config;
use web_research::json::Json;
use web_research::links::ChatReference;
use web_research::observation::{completion_candidate, response_after, user_turn_confirmed};
use web_research::observe::{final_state, look, note_cancel, ObserveError, ObserveMemory, Progress};
use web_research::reads::{capture_matches, completed_result, failed_result, loaded, CaptureError};
use web_research::records::{JobState, ReadRequest, ReadState, Submit};
use web_research::store::Store;
use web_research::worker::{
    baseline_of, begin_preparing, mark_submitting, reconnect_url, recovery_check, selection_of,
    RecoveryError,
};

fn text(s: &str) -> Json {
    Json::Text(s.to_owned())
}

fn num(n: u64) -> Json {
    Json::Number(n.to_string())
}

fn object(members: Vec<(&str, Json)>) -> Json {
    Json::Object(members.into_iter().map(|(k, v)| (k.to_owned(), v)).collect())
}

fn user(t: &str) -> Json {
    object(vec![("role", text("user")), ("text", text(t))])
}

fn answer(md: &str, complete: bool) -> Json {
    object(vec![("role", text("assistant")), ("markdown", text(md)), ("complete", Json::Bool(complete))])
}

fn get<'a>(v: &'a Json, key: &str) -> &'a Json {
    v.get(key).unwrap()
}

#[test]
fn prior_answer_and_thinking_pause_are_not_completion() {
    let old = object(vec![
        ("turns", Json::Array(vec![user("question"), answer("old", true)])),
        ("busy", Json::Bool(false)),
    ]);
    assert!(response_after(&old, 2, "question").ok().unwrap().is_none());
    let active = |complete: bool, busy: bool| {
        object(vec![
            (
                "turns",
                Json::Array(vec![
                    user("question"),
                    answer("old", true),
                    user("question"),
                    answer("still thinking", complete),
                ]),
            ),
            ("busy", Json::Bool(busy)),
        ])
    };
    let pausing = active(false, false);
    let response = response_after(&pausing, 2, "question").ok().unwrap().unwrap();
    assert!(!completion_candidate(&pausing, response));
    let busy = active(true, true);
    let turns = match get(&busy, "turns") {
        Json::Array(t) => t,
        _ => unreachable!(),
    };
    assert!(!completion_candidate(&busy, &turns[3]));
    let done = active(true, false);
    let turns = match get(&done, "turns") {
        Json::Array(t) => t,
        _ => unreachable!(),
    };
    assert!(completion_candidate(&done, &turns[3]));
}

#[test]
fn manual_followup_cannot_be_misattributed() {
    let snapshot = object(vec![(
        "turns",
        Json::Array(vec![user("ours"), answer("first", false), user("manual"), answer("not ours", false)]),
    )]);
    assert!(response_after(&snapshot, 0, "ours").is_err());
    assert!(!user_turn_confirmed(&snapshot, 4, "ours"));
}

#[test]
fn composer_is_never_overwritten() {
    let page = |t: Option<&str>| match t {
        Some(t) => object(vec![("composer_text", text(t))]),
        None => object(vec![]),
    };
    assert_eq!(fill_step(&page(Some("  check sources pls \n")), "check sources pls"), FillStep::AlreadyFilled);
    assert_eq!(fill_step(&page(Some("")), "check sources pls"), FillStep::Insert);
    assert_eq!(fill_step(&page(None), "check sources pls"), FillStep::Insert);
    assert_eq!(fill_step(&page(Some("different question")), "new question pls"), FillStep::Refuse);
    assert!(fill_confirmed(&page(Some("new question pls ")), "new question pls"));
    assert!(!fill_confirmed(&page(Some("new question")), "new question pls"));
}

#[test]
fn readiness_checks_login_before_composer() {
    assert_eq!(ready_state(&object(vec![("login_required", Json::Bool(true)), ("composer", Json::Bool(true))])), Readiness::LoginRequired);
    assert_eq!(ready_state(&object(vec![("composer", Json::Bool(true))])), Readiness::Ready);
    assert_eq!(ready_state(&object(vec![])), Readiness::Loading);
}

#[test]
fn reasoning_prefers_the_first_available_choice() {
    let prefs = vec!["Extra High".to_owned(), "High".to_owned()];
    let status = |label: &str, index: u64| {
        object(vec![("selected", text(label)), ("index", num(index)), ("ok", Json::Bool(true)), ("max", num(3))])
    };
    let locked = vec![status("Light", 0), status("Standard", 1), status("high", 2)];
    assert_eq!(choose_reasoning(&prefs, &locked), Some(2));
    let all = vec![status("Light", 0), status("High", 1), status("Extra-High", 2)];
    assert_eq!(choose_reasoning(&prefs, &all), Some(2));
    assert_eq!(choose_reasoning(&prefs, &vec![status("Light", 0)]), None);
    assert!(already_preferred(&status("extra high", 3), &prefs));
    assert!(!already_preferred(&status("High", 2), &prefs));
    assert_eq!(slider_index(&status("High", 2), 9), 2);
    assert_eq!(slider_index(&object(vec![]), 9), 9);
    assert!(!slider_settled(&status("High", 2), 2));
    assert!(slider_settled(&status("High", 1), 2));
    assert!(slider_range_ok(&status("High", 2)));
    assert_eq!(moved_left(&status("High", 1), 2), Some(1));
    assert_eq!(moved_left(&status("High", 2), 2), None);
    assert_eq!(moved_right(&status("High", 3), 2), Some(3));
    assert_eq!(moved_right(&object(vec![]), 2), None);
    assert!(!slider_range_ok(&object(vec![("max", num(17))])));
}

#[test]
fn deletion_and_project_pages_are_verified() {
    let url = "https://chatgpt.com/c/fixture";
    assert!(deletion_target_ok(&object(vec![("url", text(url))]), url));
    assert!(!deletion_target_ok(&object(vec![("url", text("https://chatgpt.com/c/other"))]), url));
    let project = "https://chatgpt.com/g/g-p-example/project";
    assert!(project_page_ok(project, &text(project), &Json::Bool(true)));
    assert!(!project_page_ok(project, &text("https://chatgpt.com/"), &Json::Bool(true)));
    assert!(!project_page_ok(project, &text(project), &Json::Bool(false)));
}

#[test]
fn capture_merges_turns_seen_while_scrolling() {
    let mut turns = Vec::new();
    let mut keys = Vec::new();
    let with_id = |id: &str, md: &str| object(vec![("id", text(id)), ("role", text("assistant")), ("markdown", text(md))]);
    assert!(!merge_turns(&mut turns, &mut keys, &vec![with_id("a", "one"), with_id("b", "partial")]));
    assert!(!merge_turns(&mut turns, &mut keys, &vec![with_id("b", "complete"), with_id("c", "three")]));
    assert_eq!(turns.len(), 3);
    assert!(matches!(turns[1].get("markdown"), Some(Json::Text(t)) if t == "complete"));
    assert!(merge_turns(&mut turns, &mut keys, &vec![user("no id"), user("no id")]));
    assert_eq!(turns.len(), 4);
    assert!(!over_capture_limit(&turns));
    assert!(over_capture_limit(&vec![answer(&"x".repeat(1_000_001), true)]));
}

#[test]
fn capture_stops_once_the_bottom_is_stable() {
    let position = object(vec![("height", num(900)), ("bottom", Json::Bool(true))]);
    let snapshot = object(vec![("turns", Json::Array(vec![user("q")]))]);
    let first = fingerprint(&position, &snapshot);
    assert_eq!(settled_steps(true, &first, &None, 0), 0);
    let again = fingerprint(&position, &snapshot);
    assert_eq!(settled_steps(true, &again, &Some(first), 1), 2);
    let grown = fingerprint(&object(vec![("height", num(1200))]), &snapshot);
    assert_eq!(settled_steps(true, &grown, &Some(again), 2), 0);
}

#[test]
fn capture_writes_a_markdown_transcript() {
    let snapshot = object(vec![
        ("title", text("Rust docs")),
        ("url", text("https://chatgpt.com/c/x")),
        ("busy", Json::Bool(false)),
    ]);
    let turns = vec![user("q"), object(vec![("role", text("assistant")), ("markdown", text("[docs](https://example.org/docs)"))])];
    let md = transcript_markdown(&snapshot, 42, &turns);
    assert_eq!(
        md,
        "# Rust docs\n\nSource: https://chatgpt.com/c/x\nCaptured at (Unix seconds): 42\n\n## user\n\n\n\n## assistant\n\n[docs](https://example.org/docs)\n\n"
    );
    let untitled = transcript_markdown(&object(vec![]), -1, &vec![]);
    assert_eq!(untitled, "# ChatGPT conversation\n\nSource: \nCaptured at (Unix seconds): -1\n\n");
    let record = capture_result(&snapshot, 42, &turns, false, true).unwrap();
    assert!(matches!(record.get("markdown"), Some(Json::Text(t)) if *t == md));
    assert!(matches!(record.get("coverage"), Some(Json::Text(t)) if t == "rendered_current_branch"));
    assert!(matches!(record.get("missing_message_ids"), Some(Json::Bool(true))));
    assert!(capture_result(&snapshot, 42, &vec![], false, false).is_none());
}

#[test]
fn read_batches_record_results_and_summarise() {
    let id = "00000000-0000-4000-8000-000000000001";
    let chat = ChatReference::parse(id).ok().unwrap();
    let mut request = ReadRequest {
        id: "read-1".to_owned(),
        project: "p".to_owned(),
        session: "s".to_owned(),
        key: "k".to_owned(),
        chats: vec![chat.clone(), chat.clone()],
        state: ReadState::Reading,
        created_at: 10,
        updated_at: 10,
        results: vec![],
    };
    assert_eq!(request.pending_chat().unwrap().id, id);
    let capture = object(vec![
        ("source_url", text(&format!("https://chatgpt.com/c/{id}"))),
        ("markdown", text("# Saved\n\ncafé 👋")),
        ("turns", Json::Array(vec![answer("café 👋", true)])),
    ]);
    assert!(capture_matches(&capture, id).is_ok());
    assert!(matches!(capture_matches(&capture, "00000000-0000-4000-8000-000000000002"), Err(CaptureError::Changed)));
    request.record_result(completed_result(capture, id), 20);
    assert_eq!(request.state, ReadState::Reading);
    request.record_result(failed_result(&chat, "inaccessible", 30), 30);
    assert_eq!(request.state, ReadState::Completed);
    assert_eq!(request.updated_at, 30);
    assert!(request.pending_chat().is_none());
    let summary = request.summary();
    let results = match summary.get("results") {
        Some(Json::Array(r)) => r,
        _ => panic!("missing results"),
    };
    assert!(results[0].get("markdown").is_none());
    assert!(matches!(results[0].get("total_chars"), Some(Json::Number(n)) if n == "15"));
    assert!(matches!(results[0].get("turn_count"), Some(Json::Number(n)) if n == "1"));
    assert!(matches!(results[1].get("chat_index"), Some(Json::Number(n)) if n == "1"));
    assert!(matches!(results[1].get("state"), Some(Json::Text(t)) if t == "failed"));
    assert!(matches!(summary.get("chat_count"), Some(Json::Number(n)) if n == "2"));
    request.cancel(40);
    assert_eq!(request.state, ReadState::Completed);
}

#[test]
fn cancelled_batches_never_complete() {
    let chat = ChatReference::parse("00000000-0000-4000-8000-000000000001").ok().unwrap();
    let mut request = ReadRequest {
        id: "read-2".to_owned(),
        project: "p".to_owned(),
        session: "s".to_owned(),
        key: "k".to_owned(),
        chats: vec![chat.clone()],
        state: ReadState::Reading,
        created_at: 1,
        updated_at: 1,
        results: vec![],
    };
    request.cancel(2);
    assert_eq!(request.state, ReadState::Cancelled);
    request.record_result(failed_result(&chat, "stopped", 3), 3);
    assert_eq!(request.state, ReadState::Cancelled);
    let page = object(vec![
        ("url", text("https://chatgpt.com/c/00000000-0000-4000-8000-000000000001")),
        ("turns", Json::Array(vec![user("q")])),
    ]);
    assert!(loaded(&page, "00000000-0000-4000-8000-000000000001"));
    assert!(!loaded(&page, "00000000-0000-4000-8000-000000000002"));
}

fn submitted_job(store: &mut Store) -> (web_research::records::Job, web_research::records::Thread) {
    let submit = Submit {
        project: "p".into(),
        session: "s".into(),
        key: "k".into(),
        thread_id: None,
        prompt: "Find the official source.".into(),
        deep_research: false,
    };
    let mut job = store.submit(&submit, Config::default(), 100).ok().unwrap();
    let thread = store.thread(&job.thread_id).ok().unwrap();
    let setup = object(vec![
        ("state", object(vec![("turns", Json::Array(vec![]))])),
        ("reasoning", object(vec![("selected", text("High"))])),
    ]);
    assert!(begin_preparing(&mut job, JobState::Pacing));
    mark_submitting(&mut job, baseline_of(&setup), selection_of(&setup, false), 100);
    (job, thread)
}

#[test]
fn observation_confirms_waits_and_completes_after_stability() {
    let mut store = Store::new();
    let (mut job, mut thread) = submitted_job(&mut store);
    assert_eq!(job.state, JobState::Submitting);
    assert_eq!(job.baseline, Some(0));
    let mut memory = ObserveMemory { stable_text: String::new(), stable_since_ms: 0, window_start_ms: 0 };
    let page = |turns: Vec<Json>, busy: bool| {
        object(vec![
            ("url", text("https://chatgpt.com/c/reply-1")),
            ("turns", Json::Array(turns)),
            ("busy", Json::Bool(busy)),
        ])
    };
    let nothing = page(vec![], true);
    assert!(matches!(look(&mut job, &mut thread, &mut memory, &nothing, 110, 1000), Ok(Progress::Poll)));
    assert_eq!(thread.url.as_deref(), Some("https://chatgpt.com/c/reply-1"));
    let partial = page(vec![user("Find the official source."), answer("[docs](https://example.org/docs)", true)], false);
    assert!(matches!(look(&mut job, &mut thread, &mut memory, &partial, 111, 2000), Ok(Progress::Poll)));
    assert_eq!(job.state, JobState::Waiting);
    assert!(job.response.is_some());
    assert!(matches!(look(&mut job, &mut thread, &mut memory, &partial, 118, 7000), Ok(Progress::Complete)));
    assert_eq!(final_state(job.state), JobState::Completed);
}

#[test]
fn observation_never_resends_and_times_out_in_place() {
    let mut store = Store::new();
    let (mut job, mut thread) = submitted_job(&mut store);
    let mut memory = ObserveMemory { stable_text: String::new(), stable_since_ms: 0, window_start_ms: 0 };
    let empty = object(vec![("turns", Json::Array(vec![]))]);
    assert!(matches!(look(&mut job, &mut thread, &mut memory, &empty, 161, 100), Err(ObserveError::SubmissionUnknown)));
    let confirmed = object(vec![("turns", Json::Array(vec![user("Find the official source.")])), ("busy", Json::Bool(true))]);
    assert!(matches!(look(&mut job, &mut thread, &mut memory, &confirmed, 2000, 25000), Ok(Progress::Yield)));
    assert_eq!(job.state, JobState::TimedOut);
    assert!(job.error.as_deref().unwrap().contains("not resending"));
    let login = object(vec![("login_required", Json::Bool(true))]);
    assert!(matches!(look(&mut job, &mut thread, &mut memory, &login, 2001, 25001), Err(ObserveError::NeedsLogin)));
    assert!(note_cancel(&mut job, JobState::CancelRequested));
    assert_eq!(final_state(job.state), JobState::Cancelled);
    let stopped = object(vec![("turns", Json::Array(vec![user("Find the official source.")])), ("busy", Json::Bool(false))]);
    assert!(matches!(look(&mut job, &mut thread, &mut memory, &stopped, 2002, 25002), Ok(Progress::Stopped)));
}

#[test]
fn project_threads_keep_their_conversation_in_the_project() {
    let mut store = Store::new();
    let (mut job, mut thread) = submitted_job(&mut store);
    thread.chatgpt_project_url = Some("https://chatgpt.com/g/g-p-x/project".to_owned());
    let mut memory = ObserveMemory { stable_text: String::new(), stable_since_ms: 0, window_start_ms: 0 };
    let outside = object(vec![("url", text("https://chatgpt.com/c/abc"))]);
    assert!(matches!(look(&mut job, &mut thread, &mut memory, &outside, 101, 1), Err(ObserveError::ProjectMismatch)));
    let inside = object(vec![("url", text("https://chatgpt.com/g/g-p-x/c/abc"))]);
    assert!(matches!(look(&mut job, &mut thread, &mut memory, &inside, 101, 1), Ok(Progress::Poll)));
    let moved = object(vec![("url", text("https://chatgpt.com/g/g-p-x/c/other"))]);
    assert!(matches!(look(&mut job, &mut thread, &mut memory, &moved, 101, 1), Err(ObserveError::ConversationChanged)));
    assert_eq!(reconnect_url(&thread).as_deref(), Some("https://chatgpt.com/g/g-p-x/c/abc"));
}

#[test]
fn recovery_needs_a_persisted_tab_or_conversation() {
    let mut store = Store::new();
    let (job, mut thread) = submitted_job(&mut store);
    let targets = vec![object(vec![("id", text("tab-1"))])];
    assert_eq!(recovery_check(&job, &thread, &targets), Err(RecoveryError::NoTarget));
    thread.target = Some("tab-2".to_owned());
    assert_eq!(recovery_check(&job, &thread, &targets), Err(RecoveryError::TargetLost));
    thread.target = Some("tab-1".to_owned());
    assert_eq!(recovery_check(&job, &thread, &targets), Ok(()));
    assert!(!begin_preparing(&mut job.clone(), JobState::Cancelled));
}

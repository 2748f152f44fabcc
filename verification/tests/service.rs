use web_research::api::{
    authorized, chat_list, listed_projects, operation, read_page, read_wait_over, remaining_prompts,
    required_text, should_wait, visible_threads, wait_over, wait_seconds, ApiError, Operation,
};
use web_research::config::Config;
use web_research::json::Json;
use web_research::links::ChatReference;
use web_research::records::{JobState, ReadRequest, ReadState, ServiceDescriptor, Submit, ThreadState};
use web_research::store::Store;

fn text(s: &str) -> Json {
    Json::Text(s.to_owned())
}

fn num(n: u64) -> Json {
    Json::Number(n.to_string())
}

fn object(members: Vec<(&str, Json)>) -> Json {
    Json::Object(members.into_iter().map(|(k, v)| (k.to_owned(), v)).collect())
}

fn descriptor() -> ServiceDescriptor {
    ServiceDescriptor {
        protocol: 1,
        port: 4321,
        token: "test-secret".to_owned(),
        instance: "test-instance".to_owned(),
        pid: 1,
    }
}

fn batch(results: Vec<Json>) -> ReadRequest {
    let chat = ChatReference::parse("00000000-0000-4000-8000-000000000001").ok().unwrap();
    ReadRequest {
        id: "read-1".to_owned(),
        project: "p".to_owned(),
        session: "s".to_owned(),
        key: "k".to_owned(),
        chats: vec![chat.clone(), chat],
        state: ReadState::Reading,
        created_at: 5,
        updated_at: 5,
        results,
    }
}

#[test]
fn only_the_token_holder_on_loopback_without_origin_is_admitted() {
    let d = descriptor();
    assert!(authorized(Some("Bearer test-secret"), Some("127.0.0.1:4321"), false, &d));
    assert!(!authorized(Some("Bearer wrong"), Some("127.0.0.1:4321"), false, &d));
    assert!(!authorized(None, Some("127.0.0.1:4321"), false, &d));
    assert!(!authorized(Some("Bearer test-secret"), Some("localhost:4321"), false, &d));
    assert!(!authorized(Some("Bearer test-secret"), Some("127.0.0.1:4321"), true, &d));
}

#[test]
fn operations_route_read_batches_by_id() {
    let op = |o: &str, id: Option<&str>| {
        let mut m = vec![("op", text(o))];
        if let Some(id) = id {
            m.push(("id", text(id)));
        }
        operation(&object(m))
    };
    assert!(matches!(op("health", None), Ok(Operation::Health)));
    assert!(matches!(op("get", Some("read-1")), Ok(Operation::ReadGet)));
    assert!(matches!(op("get", Some("abc")), Ok(Operation::Get)));
    assert!(matches!(op("read_content", Some("read-1")), Ok(Operation::ReadContent)));
    assert!(matches!(op("read_content", Some("abc")), Err(ApiError::UnknownOperation)));
    assert!(matches!(op("cancel", None), Err(ApiError::Missing(name)) if name == "id"));
    assert!(matches!(op("bogus", None), Err(ApiError::UnknownOperation)));
    assert!(matches!(operation(&object(vec![])), Err(ApiError::Missing(name)) if name == "op"));
    assert_eq!(ApiError::Missing("op".to_owned()).message(), "Missing op");
}

#[test]
fn waits_are_clamped_and_budget_reported() {
    assert_eq!(wait_seconds(&object(vec![]), 30), 30);
    assert_eq!(wait_seconds(&object(vec![("seconds", num(0))]), 30), 1);
    assert_eq!(wait_seconds(&object(vec![("seconds", num(600))]), 30), 60);
    assert_eq!(wait_seconds(&object(vec![("seconds", Json::Number("1.5".to_owned()))]), 60), 60);
    assert_eq!(remaining_prompts(3), 7);
    assert_eq!(remaining_prompts(12), 0);
}

#[test]
fn waiting_stops_on_change_or_deadline() {
    let mut store = Store::new();
    let submit = Submit {
        project: "p".into(),
        session: "s".into(),
        key: "k".into(),
        thread_id: None,
        prompt: "hello".into(),
        deep_research: false,
    };
    let mut job = store.submit(&submit, Config::default(), 1).ok().unwrap();
    assert!(should_wait(&job));
    assert!(!wait_over(JobState::Queued, &job, false));
    assert!(wait_over(JobState::Queued, &job, true));
    job.state = JobState::SubmissionUnknown;
    assert!(!should_wait(&job));
    assert!(wait_over(JobState::Queued, &job, false));
    let b = batch(vec![]);
    assert!(!read_wait_over(ReadState::Reading, 0, &b, false));
    assert!(read_wait_over(ReadState::Queued, 0, &b, false));
    assert!(read_wait_over(ReadState::Reading, 1, &b, false));
}

#[test]
fn listing_filters_by_archive_state_and_scope() {
    let mut store = Store::new();
    let job = store
        .submit(
            &Submit {
                project: "p".into(),
                session: "s".into(),
                key: "k".into(),
                thread_id: None,
                prompt: "hello".into(),
                deep_research: false,
            },
            Config::default(),
            1,
        )
        .ok()
        .unwrap();
    let mut retired = store.thread(&job.thread_id).ok().unwrap();
    retired.state = ThreadState::Archived;
    let threads = vec![store.thread(&job.thread_id).ok().unwrap(), retired];
    assert_eq!(visible_threads(threads.clone(), false).len(), 1);
    assert_eq!(visible_threads(threads, true)[0].state, ThreadState::Archived);
    assert!(matches!(listed_projects(&object(vec![("all_projects", Json::Bool(true))])), Ok(None)));
    assert!(matches!(listed_projects(&object(vec![("project", text("p"))])), Ok(Some(p)) if p == "p"));
    assert!(listed_projects(&object(vec![])).is_err());
    assert!(matches!(required_text(&object(vec![("session", text("s"))]), "session"), Ok(s) if s == "s"));
}

#[test]
fn read_requests_name_one_to_ten_conversations() {
    let id = "00000000-0000-4000-8000-000000000001";
    let ok = chat_list(&object(vec![("chats", Json::Array(vec![text(id)]))])).ok().unwrap();
    assert_eq!(ok[0].url, format!("https://chatgpt.com/c/{id}"));
    assert!(matches!(chat_list(&object(vec![])), Err(ApiError::MissingChats)));
    assert!(matches!(chat_list(&object(vec![("chats", Json::Array(vec![]))])), Err(ApiError::ChatCount)));
    let eleven = Json::Array((0..11).map(|_| text(id)).collect());
    assert!(matches!(chat_list(&object(vec![("chats", eleven)])), Err(ApiError::ChatCount)));
    assert!(matches!(chat_list(&object(vec![("chats", Json::Array(vec![num(1)]))])), Err(ApiError::ChatNotText)));
    assert!(matches!(
        chat_list(&object(vec![("chats", Json::Array(vec![text(id), text("not-a-chat")]))])),
        Err(ApiError::BadChat(_))
    ));
}

#[test]
fn transcripts_are_paged_by_characters() {
    let result = object(vec![("markdown", text("Aéñ👋Z")), ("chat_id", text("x"))]);
    let request = batch(vec![result]);
    let page = read_page(&object(vec![("chat_index", num(0)), ("offset", num(1)), ("limit", num(3))]), &request)
        .ok()
        .unwrap();
    assert_eq!(page.markdown, "éñ👋");
    assert_eq!(page.total_chars, 5);
    assert_eq!(page.next_offset, Some(4));
    let whole = read_page(&object(vec![("chat_index", num(0))]), &request).ok().unwrap();
    assert_eq!(whole.markdown, "Aéñ👋Z");
    assert_eq!(whole.next_offset, None);
    assert!(matches!(read_page(&object(vec![]), &request), Err(ApiError::MissingChatIndex)));
    assert!(matches!(read_page(&object(vec![("chat_index", num(1))]), &request), Err(ApiError::ResultNotReady)));
    assert!(matches!(
        read_page(&object(vec![("chat_index", num(0)), ("offset", num(6))]), &request),
        Err(ApiError::OffsetTooLarge)
    ));
    let failed = batch(vec![object(vec![("error", text("inaccessible"))])]);
    assert!(matches!(read_page(&object(vec![("chat_index", num(0))]), &failed), Err(ApiError::ReadFailed(_))));
}

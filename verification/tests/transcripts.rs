use serde_json::Value;
use web_research::config::Config;
use web_research::json::Json;
use web_research::links::ChatReference;
use web_research::records::{JobState, Submit, ThreadState};
use web_research::store::Store;
use web_research::transcripts::{archive_markdown, archived_copy, exchange_markdown, exports_match, normalize_export};

fn to_json(value: &Value) -> Json {
    match value {
        Value::Null => Json::Null,
        Value::Bool(b) => Json::Bool(*b),
        Value::Number(n) => Json::Number(n.to_string()),
        Value::String(s) => Json::Text(s.clone()),
        Value::Array(items) => Json::Array(items.iter().map(to_json).collect()),
        Value::Object(map) => Json::Object(map.iter().map(|(k, v)| (k.clone(), to_json(v))).collect()),
    }
}

fn parse(bytes: &[u8]) -> Json {
    to_json(&serde_json::from_slice::<Value>(bytes).unwrap())
}

fn same_export(a: &[u8], b: &[u8]) -> bool {
    exports_match(parse(a), parse(b))
}

#[test]
fn transcript_config_aliases_preserve_integrity() {
    let old = br#"{"config":{"inactivity_hours":24},"response":{"markdown":"saved"}}"#;
    let new = br#"{"config":{"remote_chat_inactivity_hours":24,"local_transcript_retention_days":30},"response":{"markdown":"saved"}}"#;
    assert!(same_export(old, new));
    let changed = br#"{"config":{"remote_chat_inactivity_hours":24},"response":{"markdown":"changed"}}"#;
    assert!(!same_export(old, changed));
    let archive_old = format!("{{\"requests\":[{}]}}", std::str::from_utf8(old).unwrap());
    let archive_new = format!("{{\"requests\":[{}]}}", std::str::from_utf8(new).unwrap());
    assert!(same_export(archive_old.as_bytes(), archive_new.as_bytes()));
}

fn ask(key: &str, thread: Option<String>) -> Submit {
    Submit {
        project: "a".into(),
        session: "session-a".into(),
        key: key.into(),
        thread_id: thread,
        prompt: "look up rust chrome docs pls".into(),
        deep_research: false,
    }
}

#[test]
fn exchanges_and_archives_are_written_as_markdown() {
    let mut store = Store::new();
    let mut job = store.submit(&ask("first", None), Config::default(), 10).ok().unwrap();
    assert_eq!(
        exchange_markdown(&job),
        "## User\n\nlook up rust chrome docs pls\n\n## ChatGPT (queued)\n\n[No response captured]\n"
    );
    job.state = JobState::Waiting;
    job.submitted_at = Some(20);
    job.response = Some(Json::Object(vec![(
        "markdown".to_owned(),
        Json::Text("[source](https://example.org)".to_owned()),
    )]));
    store.finish(&mut job, JobState::Completed, None, 30).ok().unwrap();
    let thread = store.thread(&job.thread_id).ok().unwrap();
    let jobs = store.jobs(&thread.id);
    let markdown = archive_markdown(&thread, &jobs);
    assert_eq!(
        markdown,
        format!(
            "# look up rust chrome docs pls\n\nThread: {}\n\n## User\n\nlook up rust chrome docs pls\n\n## ChatGPT (completed)\n\n[source](https://example.org)\n\n",
            thread.id
        )
    );
    let mut retiring = thread.clone();
    retiring.state = ThreadState::DeletionPending;
    retiring.cleanup_error = Some("login required".into());
    retiring.cleanup_attempts = 5;
    retiring.cleanup_retry_at = 9999;
    let archived = archived_copy(&retiring);
    assert_eq!(archived.state, ThreadState::Archived);
    assert!(archived.cleanup_error.is_none());
    assert_eq!((archived.cleanup_attempts, archived.cleanup_retry_at), (0, 0));
}

#[test]
fn imports_are_idempotent_and_never_managed_threads() {
    let mut store = Store::new();
    let chat = ChatReference::parse("00000000-0000-4000-8000-000000000001").ok().unwrap();
    let first = store.submit_read("project", "session", "key", vec![chat.clone()], 10).ok().unwrap();
    assert!(first.id.starts_with("read-"));
    let again = store.submit_read("project", "session", "key", vec![chat.clone()], 20).ok().unwrap();
    assert_eq!(again.id, first.id);
    let other = ChatReference::parse("00000000-0000-4000-8000-000000000002").ok().unwrap();
    assert!(store.submit_read("project", "session", "key", vec![other], 30).is_err());
    assert!(store.submit_read("project", "other", "key", vec![chat.clone()], 30).is_err());
    assert!(store.threads(None).is_empty());
    assert!(store.next_job().is_none());
    assert_eq!(store.next_read().unwrap().id, first.id);
}

#[test]
fn renamed_config_keys_match_whatever_order_they_end_in() {
    let old = br#"{"config":{"transcript_retention_days":7,"words_per_minute":150},"prompt":"p"}"#;
    let new = br#"{"config":{"local_transcript_retention_days":7,"words_per_minute":150},"prompt":"p"}"#;
    assert!(!normalize_export(parse(old)).same(&normalize_export(parse(new))));
    assert!(same_export(old, new));
    let other = br#"{"config":{"local_transcript_retention_days":8,"words_per_minute":150},"prompt":"p"}"#;
    assert!(!same_export(old, other));
    let extra = br#"{"config":{"local_transcript_retention_days":7,"words_per_minute":150},"prompt":"p","x":1}"#;
    assert!(!same_export(old, extra));
}

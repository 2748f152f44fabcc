use web_research::browser::{
    choose_tab, classify_reply, eval_outcome, idle_step, is_idle, launch_arguments, loopback_endpoint,
    marker_present, openable, profile_matches, remember_window, saved_endpoint, strip_verbatim, valid_target_id,
    window_state_of, IdleStep, Reply, TabChoice, TabError,
};
use web_research::json::Json;
use web_research::links::{conversation_url, valid_chat_url};
use web_research::text::quote;

fn text(s: &str) -> Json {
    Json::Text(s.to_owned())
}

fn object(members: Vec<(&str, Json)>) -> Json {
    Json::Object(members.into_iter().map(|(k, v)| (k.to_owned(), v)).collect())
}

fn target(id: &str, kind: &str, url: &str) -> Json {
    object(vec![("id", text(id)), ("type", text(kind)), ("url", text(url))])
}

#[test]
fn quotes_windows_paths_without_losing_trailing_slashes() {
    assert_eq!(quote(r"C:\my profile\"), "\"C:\\my profile\\\\\"");
    assert_eq!(quote("a\"b"), "\"a\\\"b\"");
}

#[test]
fn launches_normal_chrome_without_test_automation_switches() {
    let args = launch_arguments("profile", 9223, "about:blank#marker");
    assert!(args.contains(&"--remote-debugging-port=9223".to_owned()));
    assert!(!args.iter().any(|arg| arg.contains("enable-automation")
        || arg == "--remote-debugging-port=0"
        || arg.starts_with("--headless")));
}

#[test]
fn launch_arguments_are_exactly_the_isolated_minimised_profile() {
    let args = launch_arguments("C:/p", 1, "file:///m.html");
    assert_eq!(
        args,
        vec![
            "--user-data-dir=C:/p",
            "--remote-debugging-port=1",
            "--remote-debugging-address=127.0.0.1",
            "--no-first-run",
            "--no-default-browser-check",
            "--start-minimized",
            "--window-position=-2000,-2000",
            "file:///m.html",
        ]
    );
}

#[test]
fn validates_chatgpt_origin_exactly() {
    assert!(valid_chat_url("https://chatgpt.com/c/example"));
    for value in [
        "http://chatgpt.com/",
        "https://chatgpt.com.evil.org/",
        "https://chatgpt.com@evil.org/",
        "https://user@chatgpt.com/",
        "https://chatgpt.com:9222/",
        "file:///chatgpt.com",
    ] {
        assert!(!valid_chat_url(value), "{value}");
    }
}

#[test]
fn conversation_urls_need_a_conversation_path() {
    assert!(conversation_url("https://chatgpt.com/c/abc"));
    assert!(conversation_url("https://chatgpt.com/g/g-p-x/c/abc"));
    assert!(!conversation_url("https://chatgpt.com/"));
    assert!(!conversation_url("https://chatgpt.com/c/"));
    assert!(!conversation_url("https://chatgpt.com/g/g-x/c/abc"));
}

#[test]
fn only_loopback_devtools_endpoints_are_used() {
    assert!(loopback_endpoint("ws://127.0.0.1:9222/devtools/page/1"));
    assert!(!loopback_endpoint("ws://example.org/test"));
    assert!(!loopback_endpoint("wss://127.0.0.1:9222/x"));
    assert!(saved_endpoint("ws://127.0.0.1:9222/devtools/browser/abc", 9222));
    assert!(!saved_endpoint("ws://127.0.0.1:9223/devtools/browser/abc", 9222));
    assert!(!saved_endpoint("ws://127.0.0.1:9222/devtools/page/abc", 9222));
}

#[test]
fn tabs_open_only_on_chatgpt_or_blank() {
    assert!(openable("about:blank"));
    assert!(openable("https://chatgpt.com/"));
    assert!(!openable("https://example.org/"));
    assert!(valid_target_id("ABC-123-def"));
    assert!(!valid_target_id("../close"));
    assert_eq!(strip_verbatim(r"\\?\C:\data"), "C:\\data".chars().collect::<Vec<_>>());
    assert_eq!(strip_verbatim("/home/x"), "/home/x".chars().collect::<Vec<_>>());
}

#[test]
fn windows_are_minimised_once() {
    let mut seen = Vec::new();
    assert_eq!(remember_window(&mut seen, Some(7)), Some(7));
    assert_eq!(remember_window(&mut seen, Some(7)), None);
    assert_eq!(remember_window(&mut seen, None), None);
    assert_eq!(remember_window(&mut seen, Some(8)), Some(8));
    assert_eq!(seen, vec![7, 8]);
}

#[test]
fn launch_marker_proves_ownership() {
    let targets = vec![target("1", "page", "about:blank"), target("2", "page", "file:///m.html")];
    assert!(marker_present(&targets, "file:///m.html"));
    assert!(!marker_present(&targets, "file:///other.html"));
}

#[test]
fn reconnect_reuses_only_the_owned_conversation() {
    let targets = vec![
        target("a", "page", "https://chatgpt.com/c/1?model=x"),
        target("b", "page", "https://example.org/"),
    ];
    assert!(matches!(
        choose_tab(&targets, Some("a"), Some("https://chatgpt.com/c/1")),
        TabChoice::Attach(0)
    ));
    assert!(matches!(
        choose_tab(&targets, Some("a"), Some("https://chatgpt.com/c/2")),
        TabChoice::Refuse(TabError::ConversationChanged)
    ));
    assert!(matches!(
        choose_tab(&targets, Some("b"), None),
        TabChoice::Refuse(TabError::LeftChatGpt)
    ));
    match choose_tab(&targets, Some("gone"), None) {
        TabChoice::Open(url) => assert_eq!(url, "https://chatgpt.com/"),
        _ => panic!("expected a new tab"),
    }
    match choose_tab(&targets, Some("gone"), Some("https://chatgpt.com/c/9")) {
        TabChoice::Open(url) => assert_eq!(url, "https://chatgpt.com/c/9"),
        _ => panic!("expected a new tab"),
    }
}

#[test]
fn idle_checks_follow_settings_and_clock() {
    assert_eq!(idle_step(false, true, Some(99999), 30), IdleStep::Disabled);
    assert_eq!(idle_step(true, false, None, 30), IdleStep::StartClock);
    assert_eq!(idle_step(true, true, Some(1799), 30), IdleStep::Busy);
    assert_eq!(idle_step(true, true, Some(1800), 30), IdleStep::Close);
    assert_eq!(idle_step(true, true, None, 30), IdleStep::Busy);
    assert!(!is_idle(Some(u64::MAX), u64::MAX));
}

#[test]
fn replies_are_matched_by_command_id() {
    let event = object(vec![("method", text("Page.loaded")), ("params", object(vec![]))]);
    assert!(matches!(classify_reply(&event, 1), Reply::Unrelated));
    let other = object(vec![("id", Json::Number("99".to_owned())), ("result", object(vec![]))]);
    assert!(matches!(classify_reply(&other, 1), Reply::Unrelated));
    let ours = object(vec![("id", Json::Number("1".to_owned())), ("result", text("expected"))]);
    match classify_reply(&ours, 1) {
        Reply::Done(Json::Text(v)) => assert_eq!(v, "expected"),
        _ => panic!("expected the reply"),
    }
    let failed = object(vec![("id", Json::Number("1".to_owned())), ("error", text("boom"))]);
    assert!(matches!(classify_reply(&failed, 1), Reply::Failed(_)));
}

#[test]
fn evaluation_reads_value_or_exception() {
    let ok = object(vec![("result", object(vec![("value", Json::Number("2".to_owned()))]))]);
    assert!(matches!(eval_outcome(&ok), Ok(Json::Number(n)) if n == "2"));
    let thrown = object(vec![("exceptionDetails", text("x"))]);
    assert!(eval_outcome(&thrown).is_err());
    let window = object(vec![("bounds", object(vec![("windowState", text("minimized"))]))]);
    assert_eq!(window_state_of(&window), "minimized");
    assert_eq!(window_state_of(&Json::Null), "unknown");
}

#[test]
fn recorded_profile_must_be_the_canonical_profile_without_verbatim_prefix() {
    assert!(profile_matches("C:\\data\\chrome-profile", "\\\\?\\C:\\data\\chrome-profile"));
    assert!(profile_matches("/home/u/data/chrome-profile", "/home/u/data/chrome-profile"));
    assert!(!profile_matches("\\\\?\\C:\\data\\chrome-profile", "\\\\?\\C:\\data\\chrome-profile"));
    assert!(!profile_matches("/home/u/other", "/home/u/data/chrome-profile"));
}

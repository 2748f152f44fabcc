use web_research::config::Config;
use web_research::links::{valid_project_url, ChatReference, ReferenceError};
use web_research::records::{zero_i64, zero_u32};
use web_research::text::{count_words, normalized};
use web_research::worker::cleanup_delay;

#[test]
fn pacing_counts_unicode_whitespace_and_rounds_up() {
    let c = Config::default();
    assert_eq!(c.composition_seconds(&vec!["word"; 80].join(" ")), 135);
    assert_eq!(c.composition_seconds("hi\u{2003}there\nfriend"), 20);
    assert!(Config {
        words_per_minute: 0,
        ..c
    }
    .validate()
    .is_err());
}

#[test]
fn cleanup_backoff_grows_and_caps_without_overflow() {
    assert_eq!(
        (1..=4).map(cleanup_delay).collect::<Vec<_>>(),
        vec![60, 120, 240, 480]
    );
    assert_eq!(cleanup_delay(7), 3600);
    assert_eq!(cleanup_delay(u32::MAX), 3600);
}

#[test]
fn project_urls_require_exact_origin_and_project_route() {
    assert!(valid_project_url("https://chatgpt.com/g/g-p-example/project"));
    for bad in [
        "https://chatgpt.com/",
        "https://evil.org/g/g-p-example/project",
        "https://chatgpt.com/g/g-p-example/project?x=1",
        "https://chatgpt.com/g/g-example/project",
    ] {
        assert!(!valid_project_url(bad));
    }
}

#[test]
fn accepts_chat_ids_and_project_urls_but_not_other_destinations() {
    let id = "00000000-0000-4000-8000-000000000001";
    assert_eq!(
        ChatReference::parse(id).ok().unwrap().url,
        format!("https://chatgpt.com/c/{id}")
    );
    let project = format!("https://chatgpt.com/g/g-p-example/c/{id}");
    assert_eq!(
        ChatReference::parse(&format!("{project}?ref=test#fragment"))
            .ok()
            .unwrap()
            .url,
        project
    );
    for bad in [
        "https://evil.org/c/00000000-0000-4000-8000-000000000001",
        "https://user@chatgpt.com/c/00000000-0000-4000-8000-000000000001",
        "https://chatgpt.com/share/00000000-0000-4000-8000-000000000001",
        "https://chatgpt.com/g/g-p-example/project",
        "file:///c/example",
        "not-a-chat",
        "https://chatgpt.com/c/../../other",
    ] {
        assert!(ChatReference::parse(bad).is_err(), "{bad}");
    }
}

#[test]
fn chat_ids_are_canonicalised_and_trimmed() {
    let parsed = ChatReference::parse("  00000000-0000-4000-8000-00000000000A \n").ok().unwrap();
    assert_eq!(parsed.id, "00000000-0000-4000-8000-00000000000a");
}

#[test]
fn defaults_validate_and_limits_are_enforced() {
    let c = Config::default();
    assert!(c.validate().is_ok());
    assert_eq!((c.inactivity_hours, c.inactivity_max_hours), (24, 168));
    assert_eq!(c.pause_jitter_seconds, 30);
    assert!(c.chrome_auto_close);
    assert_eq!(c.chrome_idle_timeout_minutes, 30);
    assert!(Config { inactivity_max_hours: 23, ..Config::default() }.validate().is_err());
    assert!(Config { inactivity_max_hours: 24, ..Config::default() }.validate().is_ok());
    assert!(Config { inactivity_max_hours: 8761, ..Config::default() }.validate().is_err());
    assert!(Config { pause_jitter_seconds: 0, ..Config::default() }.validate().is_ok());
    assert!(Config { pause_jitter_seconds: 3601, ..Config::default() }.validate().is_err());
    assert!(Config { chrome_idle_timeout_minutes: 0, ..Config::default() }.validate().is_err());
    assert!(Config { chrome_idle_timeout_minutes: 1, chrome_auto_close: false, ..Config::default() }.validate().is_ok());
    assert!(Config { chatgpt_project_url: Some("https://chatgpt.com/".to_owned()), ..Config::default() }.validate().is_err());
}

#[test]
fn words_are_separated_by_unicode_whitespace() {
    assert_eq!(count_words(""), 0);
    assert_eq!(count_words("  a\u{3000}b\tc  "), 3);
    assert_eq!(normalized("Extra-High!"), "extrahigh");
    assert_eq!(normalized("ÉLAN 2"), "élan2");
}

#[test]
fn zero_fields_are_skipped() {
    assert!(zero_u32(&0));
    assert!(!zero_u32(&3));
    assert!(zero_i64(&0));
    assert!(!zero_i64(&-1));
}

#[test]
fn normalizing_ascii_labels_twice_changes_nothing() {
    let once = normalized("Extra High");
    assert_eq!(once, "extrahigh");
    assert_eq!(normalized("extra_high"), once);
    assert_eq!(normalized(&once), once);
    assert_eq!(normalized("  Pro 2 (Max) "), "pro2max");
    assert_eq!(normalized(&normalized("  Pro 2 (Max) ")), "pro2max");
}

#[test]
fn refused_chat_references_carry_the_parsers_words() {
    let expected = url::Url::parse("not-a-chat").unwrap_err().to_string();
    let refused = ChatReference::parse("not-a-chat").err().unwrap();
    assert!(matches!(&refused, ReferenceError::NotAUrl(text) if *text == expected));
    assert_eq!(refused.message(), expected);
    let segment = "not-a-uuid";
    let expected = uuid::Uuid::parse_str(segment).unwrap_err().to_string();
    let refused = ChatReference::parse(&format!("https://chatgpt.com/c/{segment}")).err().unwrap();
    assert!(matches!(&refused, ReferenceError::BadConversationId(text) if *text == expected));
    assert_eq!(refused.message(), expected);
    assert!(matches!(
        ChatReference::parse("https://evil.org/c/00000000-0000-4000-8000-000000000001"),
        Err(ReferenceError::WrongOrigin)
    ));
    assert!(matches!(
        ChatReference::parse("https://chatgpt.com/g/g-p-example/project"),
        Err(ReferenceError::NotConversation)
    ));
}

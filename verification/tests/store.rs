use web_research::config::Config;
use web_research::records::{JobState, Submit, ThreadState};
use web_research::links::ChatReference;
use web_research::store::{Store, StoreError};
use web_research::worker::{next_due, pass_goes_on, retention_cutoff, PacingClock};

fn input(project: &str, key: &str) -> Submit {
    Submit {
        project: project.into(),
        session: format!("session-{project}"),
        key: key.into(),
        thread_id: None,
        prompt: "one two".into(),
        deep_research: false,
    }
}

fn ask(key: &str, thread: Option<String>) -> Submit {
    Submit {
        project: "a".into(),
        session: "session-a".into(),
        key: key.into(),
        thread_id: thread,
        prompt: "check sources pls".into(),
        deep_research: false,
    }
}

fn reload(store: &Store) -> Store {
    let (threads, jobs, reads) = store.contents();
    Store::restore(threads, jobs, reads, store.last_finished()).unwrap()
}

#[test]
fn only_one_global_slot_and_new_threads_wait_the_entire_delay() {
    let mut store = Store::new();
    let first = store.submit(&input("project-a", "one"), Config::default(), 10).ok().unwrap();
    let second = store.submit(&input("project-b", "two"), Config::default(), 10).ok().unwrap();
    let mut active = store.claim_next_job(20).ok().unwrap().unwrap();
    assert_eq!(active.id, first.id);
    let mut sample = first.clone();
    sample.id = "00000000-0000-0000-0000-000000000000".into();
    assert_eq!(sample.pacing_seconds(), 18);
    sample.id = "00000000-0000-0000-0000-00000000001e".into();
    assert_eq!(sample.pacing_seconds(), 48);
    assert_eq!(sample.clone().pacing_seconds(), 48);
    assert!((18..=48).contains(&first.pacing_seconds()));
    assert_eq!(active.send_after, Some(20 + first.pacing_seconds() as i64));
    let mut other = reload(&store);
    assert_eq!(other.claim_next_job(500).ok().unwrap().unwrap().id, first.id);
    assert_eq!(other.job(&second.id).ok().unwrap().state, JobState::Queued);
    assert_eq!(other.job(&second.id).ok().unwrap().send_after, None);
    let mut illicit = second.clone();
    illicit.state = JobState::Preparing;
    assert!(other.save_job(&illicit).is_err());
    for state in [JobState::Waiting, JobState::TimedOut, JobState::CancelRequested] {
        active.state = state;
        active.submitted_at = Some(38);
        store.save_job(&active).ok().unwrap();
        assert_eq!(store.claim_next_job(1000).ok().unwrap().unwrap().id, first.id);
    }
    active.state = JobState::SubmissionUnknown;
    store.save_job(&active).ok().unwrap();
    assert!(store.claim_next_job(1000).ok().unwrap().is_none());
    assert_eq!(store.job(&second.id).ok().unwrap().state, JobState::Queued);
    active.state = JobState::Waiting;
    store.save_job(&active).ok().unwrap();
    store.finish(&mut active, JobState::Completed, None, 1000).ok().unwrap();
    let mut restarted = reload(&store);
    let next = restarted.claim_next_job(1000).ok().unwrap().unwrap();
    assert_eq!(next.id, second.id);
    assert_eq!(next.send_after, Some(1000 + second.pacing_seconds() as i64));
    restarted.cancel(&next.id, 1001).ok().unwrap();
    let third = restarted.submit(&input("project-c", "three"), Config::default(), 1001).ok().unwrap();
    let claimed = restarted.claim_next_job(1001).ok().unwrap().unwrap();
    assert_eq!(claimed.id, third.id);
    assert_eq!(claimed.send_after, Some(1001 + third.pacing_seconds() as i64));
}

#[test]
fn queued_cancellation_cannot_preempt_recovered_active_work() {
    let mut store = Store::new();
    let older = store.submit(&input("a", "old"), Config::default(), 1).ok().unwrap();
    let mut recovering = store.submit(&input("b", "recover"), Config::default(), 2).ok().unwrap();
    recovering.state = JobState::Waiting;
    store.save_job(&recovering).ok().unwrap();
    assert_eq!(store.claim_next_job(100).ok().unwrap().unwrap().id, recovering.id);
    store.cancel(&older.id, 100).ok().unwrap();
    assert_eq!(store.claim_next_job(101).ok().unwrap().unwrap().id, recovering.id);
}

#[test]
fn randomized_expiry_survives_reload_and_controls_followup_admission() {
    let config = Config { inactivity_max_hours: 48, ..Config::default() };
    let mut store = Store::new();
    let mut job = store.submit(&ask("first", None), config.clone(), 10).ok().unwrap();
    store.finish(&mut job, JobState::Failed, None, 20).ok().unwrap();
    let thread = store.thread(&job.thread_id).ok().unwrap();
    let deadline = thread.inactivity_deadline(&config);
    let delay = deadline - thread.active_at;
    assert!((86400..=172800).contains(&delay));
    let mut store = reload(&store);
    assert_eq!(store.thread(&thread.id).ok().unwrap().inactivity_deadline(&config), deadline);
    let followup = ask("followup", Some(thread.id.clone()));
    assert!(store
        .submit(&followup, config.clone(), deadline)
        .err()
        .unwrap()
        .message()
        .contains("thread_expired"));
    store.submit(&followup, config.clone(), deadline - 1).ok().unwrap();
    let resumed = store.thread(&thread.id).ok().unwrap();
    assert_eq!(resumed.inactivity_deadline(&config), deadline - 1 + delay);
    let mut sample = thread;
    sample.id = "00000000-0000-0000-0000-000000000000".into();
    assert_eq!(sample.inactivity_deadline(&config) - sample.active_at, 86400);
    sample.id = "00000000-0000-0000-0000-000000015180".into();
    assert_eq!(sample.inactivity_deadline(&config) - sample.active_at, 172800);
    let defaults = Config::default();
    sample.id = "00000000-0000-0000-0000-00000007e900".into();
    assert_eq!(sample.inactivity_deadline(&defaults) - sample.active_at, 604800);
    let fixed = Config { inactivity_max_hours: 24, ..defaults };
    assert_eq!(sample.inactivity_deadline(&fixed) - sample.active_at, 86400);
}

#[test]
fn retries_cannot_change_payload_or_scope() {
    let mut store = Store::new();
    let original = ask("key", None);
    let job = store.submit(&original, Config::default(), 10).ok().unwrap();
    let mut changed = original.clone();
    changed.prompt = "different".into();
    assert!(store.submit(&changed, Config::default(), 11).is_err());
    changed = original.clone();
    changed.session = "other".into();
    assert!(store.submit(&changed, Config::default(), 11).is_err());
    changed = original.clone();
    changed.deep_research = true;
    assert!(store.submit(&changed, Config::default(), 11).is_err());
    changed = ask("other-key", Some(job.thread_id.clone()));
    changed.project = "b".into();
    assert!(store.submit(&changed, Config::default(), 11).is_err());
    assert_eq!(store.thread(&job.thread_id).ok().unwrap().prompts, 1);
}

#[test]
fn exact_key_retries_only_provably_unsent_failure() {
    let mut store = Store::new();
    let request = ask("failed-preparation", None);
    let config = Config::default();
    let mut job = store.submit(&request, config.clone(), 10).ok().unwrap();
    assert_eq!(store.submit(&request, config.clone(), 11).ok().unwrap().id, job.id);
    job.state = JobState::Preparing;
    store.finish(&mut job, JobState::Failed, Some("composer not ready".into()), 20).ok().unwrap();
    assert_eq!(store.thread(&job.thread_id).ok().unwrap().prompts, 0);
    let mut store = reload(&store);
    let retried = store.submit(&request, config.clone(), 30).ok().unwrap();
    assert_eq!(retried.id, job.id);
    assert_eq!(retried.state, JobState::Queued);
    assert_eq!(retried.created_at, 30);
    assert!(retried.error.is_none());
    assert!(retried.send_after.is_none());
    assert_eq!(store.thread(&job.thread_id).ok().unwrap().prompts, 1);
    assert_eq!(store.submit(&request, config.clone(), 31).ok().unwrap().id, job.id);
    assert_eq!(store.thread(&job.thread_id).ok().unwrap().prompts, 1);

    let mut submitted = retried;
    submitted.state = JobState::Submitting;
    submitted.submitted_at = Some(40);
    submitted.baseline = Some(0);
    store.finish(&mut submitted, JobState::Failed, Some("could not observe".into()), 41).ok().unwrap();
    let replay = store.submit(&request, config, 50).ok().unwrap();
    assert_eq!(replay.state, JobState::Failed);
    assert_eq!(replay.submitted_at, Some(40));
    assert_eq!(store.thread(&job.thread_id).ok().unwrap().prompts, 1);
}

#[test]
fn unsent_retry_never_jumps_past_later_work_or_changes_payload() {
    let mut store = Store::new();
    let config = Config::default();
    let original = ask("first", None);
    let mut job = store.submit(&original, config.clone(), 10).ok().unwrap();
    store.finish(&mut job, JobState::Failed, None, 11).ok().unwrap();
    let mut changed = original.clone();
    changed.prompt = "not the original".into();
    assert!(store.submit(&changed, config.clone(), 12).is_err());
    let followup = ask("second", Some(job.thread_id.clone()));
    store.submit(&followup, config.clone(), 13).ok().unwrap();
    assert!(store
        .submit(&original, config, 14)
        .err()
        .unwrap()
        .message()
        .contains("retry_order_conflict"));
    assert_eq!(store.job(&job.id).ok().unwrap().state, JobState::Failed);
}

#[test]
fn ambiguous_submission_blocks_new_work_until_observation_only_recovery() {
    let mut store = Store::new();
    let mut first = store.submit(&ask("one", None), Config::default(), 1).ok().unwrap();
    first.state = JobState::SubmissionUnknown;
    first.submitted_at = Some(2);
    first.baseline = Some(0);
    store.save_job(&first).ok().unwrap();
    store.submit(&ask("two", None), Config::default(), 3).ok().unwrap();
    assert!(store.next_job().is_none());
    assert!(store.cancel(&first.id, 4).is_err());
    let recovered = store.reconcile(&first.id).ok().unwrap();
    assert_eq!(recovered.state, JobState::Submitting);
    assert_eq!(recovered.baseline, Some(0));
    assert_eq!(store.next_job().unwrap().id, first.id);
    assert_eq!(store.thread(&first.thread_id).ok().unwrap().prompts, 1);
}

#[test]
fn polling_does_not_refresh_ttl_and_timeouts_are_not_safe_to_archive() {
    let mut store = Store::new();
    let mut job = store.submit(&ask("first", None), Config::default(), 1).ok().unwrap();
    job.state = JobState::Waiting;
    job.submitted_at = Some(2);
    store.finish(&mut job, JobState::Completed, None, 3).ok().unwrap();
    for _ in 0..10 {
        store.threads(Some("a"));
        store.job(&job.id).ok().unwrap();
    }
    assert_eq!(store.thread(&job.thread_id).ok().unwrap().active_at, 3);
    let deadline = store.thread(&job.thread_id).ok().unwrap().inactivity_deadline(&Config::default());
    assert!(store.submit(&ask("late", Some(job.thread_id.clone())), Config::default(), deadline).is_err());
    job.state = JobState::TimedOut;
    store.save_job(&job).ok().unwrap();
    assert!(!job.terminal());
    assert_eq!(store.next_job().unwrap().state, JobState::TimedOut);
}

#[test]
fn cancellation_releases_only_unsent_budget() {
    let mut store = Store::new();
    let job = store.submit(&ask("one", None), Config::default(), 1).ok().unwrap();
    store.cancel(&job.id, 2).ok().unwrap();
    assert_eq!(store.thread(&job.thread_id).ok().unwrap().prompts, 0);
    assert_eq!(store.submit(&ask("one", None), Config::default(), 3).ok().unwrap().state, JobState::Cancelled);
}

#[test]
fn durable_budget_idempotency_and_archiving() {
    let mut store = Store::new();
    let first = store.submit(&ask("first", None), Config::default(), 100).ok().unwrap();
    assert_eq!(store.submit(&ask("first", None), Config::default(), 200).ok().unwrap().id, first.id);
    assert!(store.submit(&ask("busy", Some(first.thread_id.clone())), Config::default(), 200).is_err());
    let mut job = first;
    for n in 1..=10 {
        job.state = JobState::Waiting;
        job.submitted_at = Some(200);
        store.finish(&mut job, JobState::Completed, None, 300).ok().unwrap();
        if n < 10 {
            job = store
                .submit(&ask(&n.to_string(), Some(job.thread_id.clone())), Config::default(), 301)
                .ok()
                .unwrap();
        }
    }
    let mut store = reload(&store);
    assert!(store.submit(&ask("eleventh", Some(job.thread_id.clone())), Config::default(), 302).is_err());
    let thread = store.thread(&job.thread_id).ok().unwrap();
    assert_eq!(thread.prompts, 10);
}

#[test]
fn eleventh_prompt_is_refused_with_the_limit_reached() {
    let mut store = Store::new();
    let mut job = store.submit(&ask("first", None), Config::default(), 1).ok().unwrap();
    for n in 1..=9 {
        job.state = JobState::Waiting;
        job.submitted_at = Some(2);
        store.finish(&mut job, JobState::Completed, None, 3).ok().unwrap();
        job = store.submit(&ask(&n.to_string(), Some(job.thread_id.clone())), Config::default(), 4).ok().unwrap();
    }
    job.state = JobState::Waiting;
    job.submitted_at = Some(2);
    store.finish(&mut job, JobState::Completed, None, 5).ok().unwrap();
    let refused = store.submit(&ask("race", Some(job.thread_id.clone())), Config::default(), 6);
    assert!(refused.err().unwrap().message().contains("prompt_limit_reached"));
    assert_eq!(store.thread(&job.thread_id).ok().unwrap().prompts, 10);
}

#[test]
fn pacing_uses_monotonic_time_and_restarts_conservatively() {
    // The documented pause is `fixed_pause_seconds` plus a per-request jitter of up to
    // `pause_jitter_seconds`; with no jitter, "one two" waits exactly 3 + 15 seconds.
    let config = Config { pause_jitter_seconds: 0, ..Config::default() };
    let mut store = Store::new();
    let job = store
        .submit(
            &Submit {
                project: "p".into(),
                session: "s".into(),
                key: "k".into(),
                thread_id: None,
                prompt: "one two".into(),
                deep_research: false,
            },
            config,
            10,
        )
        .ok()
        .unwrap();
    let start = 1000;
    let mut clock = PacingClock::new();
    assert!(!clock.ready(&job, start));
    assert!(!clock.ready(&job, start + 17));
    assert!(clock.ready(&job, start + 18));
    let mut restarted = PacingClock::new();
    assert!(!restarted.ready(&job, start + 500));
}

#[test]
fn pacing_clock_waits_within_the_jittered_window() {
    let mut store = Store::new();
    let job = store.submit(&input("p", "k"), Config::default(), 10).ok().unwrap();
    let mut clock = PacingClock::new();
    assert!(!clock.ready(&job, 1000));
    assert!(!clock.ready(&job, 1017));
    let first = (1018..=1048).find(|&t| clock.ready(&job, t)).unwrap();
    assert!((1018..=1048).contains(&first));
    assert!(clock.ready(&job, 1048));
    let mut restarted = PacingClock::new();
    assert!(!restarted.ready(&job, 2000));
    assert!(!restarted.ready(&job, 2017));
    assert!(restarted.ready(&job, 2048));
}

#[test]
fn retirement_waits_for_finished_work_and_scope() {
    let mut store = Store::new();
    let mut job = store.submit(&ask("first", None), Config::default(), 1).ok().unwrap();
    assert!(store.retire(&job.thread_id, "a").is_err());
    assert!(store.retire(&job.thread_id, "b").is_err());
    job.state = JobState::Waiting;
    job.submitted_at = Some(2);
    store.finish(&mut job, JobState::Completed, None, 3).ok().unwrap();
    let thread = store.retire(&job.thread_id, "a").ok().unwrap();
    assert_eq!(thread.state, ThreadState::ArchivePending);
    assert!(store.scoped_job(&job.id, "b").is_err());
    assert_eq!(store.scoped_job(&job.id, "a").ok().unwrap().id, job.id);
}

#[test]
fn restore_refuses_inconsistent_records() {
    let mut store = Store::new();
    store.submit(&ask("first", None), Config::default(), 1).ok().unwrap();
    let (threads, jobs, reads) = store.contents();
    let mut doubled = threads.clone();
    doubled.push(threads[0].clone());
    assert!(Store::restore(doubled, jobs, reads, 0).is_none());
    let (_, jobs, reads) = store.contents();
    assert!(Store::restore(vec![], jobs, reads, 0).is_none());
    let (threads, jobs, reads) = store.contents();
    let restored = Store::restore(threads, jobs, reads, store.last_finished()).unwrap();
    assert_eq!(restored.threads(None).len(), 1);
}

#[test]
fn retention_requires_age_and_confirmed_remote_cleanup() {
    let mut store = Store::new();
    let mut job = store.submit(&ask("old", None), Config::default(), 1).ok().unwrap();
    store.finish(&mut job, JobState::Completed, None, 10).ok().unwrap();
    let mut thread = store.thread(&job.thread_id).ok().unwrap();
    assert!(store.expired_thread_ids(11).is_empty());
    thread.state = ThreadState::DeletionPending;
    store.save_thread(&thread);
    assert!(store.expired_thread_ids(11).is_empty());
    thread.state = ThreadState::RemoteDeleted;
    store.save_thread(&thread);
    assert!(store.expired_thread_ids(10).is_empty());
    assert_eq!(store.expired_thread_ids(11), vec![thread.id.clone()]);
    store.remove_thread(&thread.id);
    assert!(store.thread(&thread.id).is_err());
    assert!(store.job(&job.id).is_err());
    assert!(store.expired_thread_ids(11).is_empty());
    assert_eq!(retention_cutoff(30 * 86400 + 5, 30), 5);
    assert_eq!(retention_cutoff(i64::MIN + 1, u64::MAX), i64::MIN);
}

#[test]
fn retiring_a_busy_thread_answers_thread_busy() {
    let mut store = Store::new();
    let job = store.submit(&ask("first", None), Config::default(), 1).ok().unwrap();
    let refused = store.retire(&job.thread_id, "a").err().unwrap();
    assert!(matches!(refused, StoreError::UnfinishedWork));
    assert_eq!(refused.message(), "thread_busy");
}

#[test]
fn read_batches_are_scoped_to_their_project() {
    let mut store = Store::new();
    let chat = ChatReference::parse("00000000-0000-4000-8000-000000000001").ok().unwrap();
    let batch = store.submit_read("alpha", "session", "key", vec![chat], 10).ok().unwrap();
    assert_eq!(store.scoped_read(&batch.id, "alpha").ok().unwrap().id, batch.id);
    assert_eq!(store.scoped_read(&batch.id, "beta").err().unwrap().message(), "project_mismatch");
    assert!(matches!(store.scoped_read("read-missing", "alpha"), Err(StoreError::NotFound)));
}

#[test]
fn a_cleanup_pass_takes_due_threads_in_order_and_stops_after_a_deletion_attempt() {
    let mut store = Store::new();
    let first = store.submit(&ask("first", None), Config::default(), 1).ok().unwrap();
    let second = store.submit(&ask("second", None), Config::default(), 1).ok().unwrap();
    let recent = store.thread(&first.thread_id).ok().unwrap();
    let mut pending = store.thread(&second.thread_id).ok().unwrap();
    pending.state = ThreadState::DeletionPending;
    let threads = vec![recent.clone(), pending.clone()];
    let config = Config::default();
    assert_eq!(next_due(&threads, &vec![true, true], &config, 5, 0), Some(1));
    assert_eq!(next_due(&threads, &vec![true, false], &config, 5, 0), None);
    assert_eq!(next_due(&threads, &vec![true, true], &config, 5, 2), None);
    let week_later = recent.active_at + 168 * 3600;
    assert_eq!(next_due(&threads, &vec![true, true], &config, week_later, 0), Some(0));
    assert_eq!(next_due(&threads, &vec![true, true], &config, 23 * 3600, 0), Some(1));
    let mut archiving = recent.clone();
    archiving.state = ThreadState::ArchivePending;
    assert!(pass_goes_on(&archiving));
    assert!(!pass_goes_on(&pending));
    let mut deleted = pending;
    deleted.state = ThreadState::RemoteDeleted;
    assert!(!pass_goes_on(&deleted));
    assert_eq!(next_due(&vec![deleted], &vec![true], &config, 5, 0), None);
}

#[test]
fn drawn_identifiers_are_used_and_refused_only_when_taken() {
    let mut store = Store::new();
    let first = store
        .submit_with_ids(&ask("first", None), Config::default(), 1, "thread-1".into(), "job-1".into())
        .ok()
        .unwrap();
    assert_eq!((first.id.as_str(), first.thread_id.as_str()), ("job-1", "thread-1"));
    let taken_thread = store.submit_with_ids(&ask("second", None), Config::default(), 2, "thread-1".into(), "job-2".into());
    assert!(matches!(taken_thread, Err(StoreError::IdCollision)));
    let taken_job = store.submit_with_ids(&ask("third", None), Config::default(), 2, "thread-3".into(), "job-1".into());
    assert!(matches!(taken_job, Err(StoreError::IdCollision)));
    assert_eq!(store.threads(None).len(), 1);
    let mut job = first;
    job.state = JobState::Waiting;
    job.submitted_at = Some(2);
    store.finish(&mut job, JobState::Completed, None, 3).ok().unwrap();
    let follow = ask("follow", Some("thread-1".into()));
    assert!(matches!(
        store.submit_with_ids(&follow, Config::default(), 4, "unused".into(), "job-1".into()),
        Err(StoreError::IdCollision)
    ));
    let next = store.submit_with_ids(&follow, Config::default(), 4, "unused".into(), "job-4".into()).ok().unwrap();
    assert_eq!((next.id.as_str(), next.thread_id.as_str()), ("job-4", "thread-1"));
    assert_eq!(store.thread("thread-1").ok().unwrap().prompts, 2);
}

#[test]
fn read_batches_are_named_from_the_drawn_identifier() {
    let mut store = Store::new();
    let chat = ChatReference::parse("00000000-0000-4000-8000-000000000001").ok().unwrap();
    let batch = store.submit_read_with_id("a", "s", "k1", vec![chat.clone()], 1, "x".into()).ok().unwrap();
    assert_eq!(batch.id, "read-x");
    assert!(matches!(
        store.submit_read_with_id("a", "s", "k2", vec![chat.clone()], 2, "x".into()),
        Err(StoreError::IdCollision)
    ));
    assert_eq!(store.submit_read_with_id("a", "s", "k1", vec![chat], 3, "y".into()).ok().unwrap().id, "read-x");
}

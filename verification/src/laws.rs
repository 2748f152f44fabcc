//! Properties of the service as a whole, proved over the specifications that the operations'
//! contracts use.
use crate::config::{composition, config_ok, ConfigView, PROMPT_LIMIT};
use crate::json::{field, text_of, JsonView};
use crate::transcripts::archive_text;
use crate::links::{chat_reference, parse_url, parse_uuid, ReferenceFault, UrlView};
use crate::observation::{answer_index, has_role, is_prompt_turn, last_answer, prompt_index, turns_of, ObservationError};
use crate::observe::{observe, Progress};
use crate::records::{job_state_name, inactivity_window, pacing, JobState, JobView, ReadView, Submit, Thread};
use crate::store::{
    finished, fresh_job, fresh_thread, has_job, listed, has_read, has_thread, key_at, key_match, read_key_at, read_key_match, read_plan, releases, reserve, retried, set_job, set_thread, submit_plan, thread_at, wf,
    JobEntry, StoreView, SubmitPlan,
};
use crate::text::{all_ascii, ascii_alnum, ascii_lower, ascii_normal, has_prefix, is_ascii_char, split_slash, trimmed};
use crate::worker::{cleanup_backoff, cleanup_due, doubled};
use vstd::prelude::*;

verus! {

/// A prompt is only ever admitted into a thread that has fewer than `PROMPT_LIMIT`
/// reservations, so no thread ever holds more than `PROMPT_LIMIT` of them.
pub proof fn law_admission_within_budget(v: StoreView, s: Submit, c: ConfigView, at: i64, t: Thread)
    ensures
        match submit_plan(v, s, c, at) {
            SubmitPlan::Retry(_, ti) => v.threads[ti].prompts < PROMPT_LIMIT && reserve(
                v.threads[ti],
                at,
            ).prompts <= PROMPT_LIMIT,
            SubmitPlan::FollowUp(ti) => v.threads[ti].prompts < PROMPT_LIMIT && reserve(
                v.threads[ti],
                at,
            ).prompts <= PROMPT_LIMIT,
            SubmitPlan::Fresh => fresh_thread(t, s, c, at) ==> t.prompts <= PROMPT_LIMIT,
            _ => true,
        },
{
}

/// No thread holds more than `PROMPT_LIMIT` prompt reservations.
pub open spec fn within_budget(threads: Seq<Thread>) -> bool {
    forall|i: int| 0 <= i < threads.len() ==> (#[trigger] threads[i]).prompts <= PROMPT_LIMIT
}

/// A submission keeps every thread within the budget: when no thread of the ledger holds more
/// than `PROMPT_LIMIT` reservations before, none does after, whichever case `submit` takes
/// (the threads after each case are those that `Store::submit` states).
pub proof fn law_every_thread_within_budget(v: StoreView, s: Submit, c: ConfigView, at: i64, t: Thread)
    requires
        wf(v),
        within_budget(v.threads),
    ensures
        match submit_plan(v, s, c, at) {
            SubmitPlan::Retry(i, ti) => within_budget(
                set_thread(set_job(v, i, retried(v.jobs[i].job, at)), ti, reserve(v.threads[ti], at)).threads,
            ),
            SubmitPlan::FollowUp(ti) => within_budget(v.threads.remove(ti).push(reserve(v.threads[ti], at))),
            SubmitPlan::Fresh => fresh_thread(t, s, c, at) ==> within_budget(v.threads.push(t)),
            _ => true,
        },
{
    law_admission_within_budget(v, s, c, at, t);
    match submit_plan(v, s, c, at) {
        SubmitPlan::Retry(i, ti) => {
            let j = v.jobs[i].job;
            assert(has_thread(v, j.thread_id@));
            let w = set_thread(set_job(v, i, retried(v.jobs[i].job, at)), ti, reserve(v.threads[ti], at)).threads;
            assert forall|k: int| 0 <= k < w.len() implies (#[trigger] w[k]).prompts <= PROMPT_LIMIT by {
                if k != ti {
                    assert(w[k] == v.threads[k]);
                }
            }
        },
        SubmitPlan::FollowUp(ti) => {
            let w = v.threads.remove(ti).push(reserve(v.threads[ti], at));
            assert forall|k: int| 0 <= k < w.len() implies (#[trigger] w[k]).prompts <= PROMPT_LIMIT by {
                if k < ti {
                    assert(w[k] == v.threads[k]);
                } else if k < w.len() - 1 {
                    assert(w[k] == v.threads[k + 1]);
                }
            }
        },
        SubmitPlan::Fresh => {
            if fresh_thread(t, s, c, at) {
                let w = v.threads.push(t);
                assert forall|k: int| 0 <= k < w.len() implies (#[trigger] w[k]).prompts <= PROMPT_LIMIT by {
                    if k < v.threads.len() {
                        assert(w[k] == v.threads[k]);
                    }
                }
            }
        },
        _ => {},
    }
}

/// Retrying a submission with the same idempotency key after it was admitted as a new
/// follow-up returns that request and changes nothing: a lost reply never duplicates work.
pub proof fn law_followup_retry_replays(v: StoreView, s: Submit, c: ConfigView, at: i64, later: i64, x: JobView, ti: int)
    requires
        wf(v),
        submit_plan(v, s, c, at) == SubmitPlan::FollowUp(ti),
        !has_job(v, x.id@),
        x == fresh_job(x.id, v.threads[ti].id, s, c, at),
        wf(
            StoreView {
                threads: v.threads.remove(ti).push(reserve(v.threads[ti], at)),
                jobs: v.jobs.push(JobEntry { project: s.project, job: x }),
                ..v
            },
        ),
    ensures
        submit_plan(
            StoreView {
                threads: v.threads.remove(ti).push(reserve(v.threads[ti], at)),
                jobs: v.jobs.push(JobEntry { project: s.project, job: x }),
                ..v
            },
            s,
            c,
            later,
        ) == SubmitPlan::Replay(v.jobs.len() as int),
{
    let w = StoreView {
        threads: v.threads.remove(ti).push(reserve(v.threads[ti], at)),
        jobs: v.jobs.push(JobEntry { project: s.project, job: x }),
        ..v
    };
    let n = v.jobs.len() as int;
    assert(key_match(w.jobs[n], s.project@, s.key@));
    lemma_key_at_unique(w, s.project@, s.key@, n);
    assert(key_at(v, s.project@, s.key@) is None);
    assert(s.thread_id is Some);
    assert(w.jobs[n].job == x);
}

/// In a well-formed ledger, the request stored under a project and key is the only one.
pub proof fn lemma_key_at_unique(w: StoreView, project: Seq<char>, key: Seq<char>, n: int)
    requires
        wf(w),
        0 <= n < w.jobs.len(),
        key_match(w.jobs[n], project, key),
    ensures
        key_at(w, project, key) == Some(n),
{
    assert(crate::store::has_key(w, project, key));
    let k = choose|i: int| 0 <= i < w.jobs.len() && key_match(#[trigger] w.jobs[i], project, key);
    if k != n {
        assert(!key_match(w.jobs[k], w.jobs[n].project@, w.jobs[n].job.key@));
    }
}

/// Retrying a submission with the same idempotency key after it opened a new thread returns
/// that request and changes nothing.
pub proof fn law_fresh_retry_replays(v: StoreView, s: Submit, c: ConfigView, at: i64, later: i64, x: JobView, t: Thread)
    requires
        wf(v),
        submit_plan(v, s, c, at) == SubmitPlan::Fresh,
        !has_thread(v, t.id@),
        !has_job(v, x.id@),
        fresh_thread(t, s, c, at),
        x == fresh_job(x.id, t.id, s, c, at),
        wf(
            StoreView {
                threads: v.threads.push(t),
                jobs: v.jobs.push(JobEntry { project: s.project, job: x }),
                ..v
            },
        ),
    ensures
        submit_plan(
            StoreView {
                threads: v.threads.push(t),
                jobs: v.jobs.push(JobEntry { project: s.project, job: x }),
                ..v
            },
            s,
            c,
            later,
        ) == SubmitPlan::Replay(v.jobs.len() as int),
{
    let w = StoreView {
        threads: v.threads.push(t),
        jobs: v.jobs.push(JobEntry { project: s.project, job: x }),
        ..v
    };
    let n = v.jobs.len() as int;
    let m = v.threads.len() as int;
    assert(key_match(w.jobs[n], s.project@, s.key@));
    lemma_key_at_unique(w, s.project@, s.key@, n);
    assert(w.jobs[n].job == x);
    assert(w.threads[m] == t);
    assert(has_thread(w, t.id@));
    let k = choose|i: int| 0 <= i < w.threads.len() && (#[trigger] w.threads[i]).id@ == t.id@;
    if k != m {
        assert(w.threads[k].id@ != w.threads[m].id@);
    }
    assert(thread_at(w, x.thread_id@) == Some(m));
}

/// Repeating a read request with the same project and key returns the stored batch instead of
/// queueing another.
pub proof fn law_read_retry_replays(v: StoreView, project: Seq<char>, session: Seq<char>, key: Seq<char>, chats: Seq<crate::links::ChatReference>, x: ReadView)
    requires
        wf(v),
        read_plan(v, project, session, key, chats) == Ok::<Option<int>, crate::store::StoreError>(None),
        x.project@ == project && x.session@ == session && x.key@ == key && x.chats == chats,
        !has_read(v, x.id@),
        wf(StoreView { reads: v.reads.push(x), ..v }),
    ensures
        read_plan(StoreView { reads: v.reads.push(x), ..v }, project, session, key, chats) == Ok::<
            Option<int>,
            crate::store::StoreError,
        >(Some(v.reads.len() as int)),
{
    let w = StoreView { reads: v.reads.push(x), ..v };
    let n = v.reads.len() as int;
    assert(w.reads[n] == x);
    assert(read_key_match(w.reads[n], project, key));
    assert(crate::store::has_read_key(w, project, key));
    let k = choose|i: int| 0 <= i < w.reads.len() && read_key_match(#[trigger] w.reads[i], project, key);
    if k != n {
        assert(!read_key_match(w.reads[k], w.reads[n].project@, w.reads[n].key@));
    }
    assert(read_key_at(w, project, key) == Some(n));
    assert(crate::store::same_chats(x.chats, chats));
}

/// Ending a request releases its thread's reservation only when the prompt was certainly
/// never sent and the request failed or was cancelled; a completed or sent request keeps it.
pub proof fn law_release_only_unsent(v: StoreView, job: JobView, state: JobState, error: Option<String>, at: i64, ti: int)
    requires
        0 <= ti < v.threads.len(),
    ensures
        finished(v, job, state, error, at, ti).threads[ti].prompts == (if job.state.is_unsent() && (
        state is Failed || state is Cancelled) && v.threads[ti].prompts > 0 {
            v.threads[ti].prompts - 1
        } else {
            v.threads[ti].prompts as int
        }),
{
}

/// At most one request holds the browser at any time (every ledger operation keeps `wf`).
pub proof fn law_single_browser_slot(v: StoreView, i: int, j: int)
    requires
        wf(v),
        0 <= i < v.jobs.len(),
        0 <= j < v.jobs.len(),
        v.jobs[i].job.state.holds_slot(),
        v.jobs[j].job.state.holds_slot(),
    ensures
        i == j,
{
    if i != j {
        assert(!(v.jobs[i].job.state.holds_slot() && v.jobs[j].job.state.holds_slot()));
    }
}

/// A request's send time is its full pacing delay after the latest of now, the last finish and
/// its admission: time spent queued or another thread's activity gives no credit.
pub proof fn law_no_pacing_credit(now: int, last_finished: int, created_at: int, delay: int)
    ensures
        crate::store::max3(now, last_finished, created_at) + delay >= last_finished + delay,
        crate::store::max3(now, last_finished, created_at) + delay >= now + delay,
        crate::store::max3(now, last_finished, created_at) + delay >= created_at + delay,
{
}

/// Every prompt waits its composition time plus an extra pause of at most
/// `pause_jitter_seconds`.
pub proof fn law_pacing_range(j: JobView)
    ensures
        composition(j.prompt@, j.config.words_per_minute, j.config.fixed_pause_seconds) <= pacing(j),
        pacing(j) <= composition(j.prompt@, j.config.words_per_minute, j.config.fixed_pause_seconds)
            + j.config.pause_jitter_seconds,
{
}

/// A thread retires after between `inactivity_hours` and `inactivity_max_hours` hours without
/// activity.
pub proof fn law_inactivity_window_range(id: Seq<char>, c: ConfigView)
    requires
        config_ok(c),
    ensures
        c.inactivity_hours * 3600 <= inactivity_window(id, c) <= c.inactivity_max_hours * 3600,
{
}

proof fn lemma_doubled_monotone(a: nat, b: nat)
    requires
        a <= b,
    ensures
        60 <= doubled(a) <= doubled(b),
    decreases b,
{
    if a < b {
        lemma_doubled_monotone(a, (b - 1) as nat);
    } else if a > 0 {
        lemma_doubled_monotone((a - 1) as nat, (a - 1) as nat);
    }
}

/// Cleanup retries back off: the delay never shrinks as failures accumulate, and stays
/// between one minute and one hour.
pub proof fn law_backoff_grows_and_caps(a: u32, b: u32)
    requires
        a <= b,
    ensures
        60 <= cleanup_backoff(a) <= cleanup_backoff(b) <= 3600,
{
    let ka: nat = if a <= 1 {
        0
    } else if a - 1 > 10 {
        10
    } else {
        (a - 1) as nat
    };
    let kb: nat = if b <= 1 {
        0
    } else if b - 1 > 10 {
        10
    } else {
        (b - 1) as nat
    };
    lemma_doubled_monotone(ka, kb);
}

/// A request past its deadline is marked timed out but keeps being observed: the look neither
/// finishes it nor gives it up, so nothing is resent and captured text is kept.
pub proof fn law_timeout_keeps_observing(
    job: JobView,
    thread: Thread,
    snapshot: crate::json::JsonView,
    text: Seq<char>,
    since: u64,
    window_start: u64,
    wall: i64,
    mono: u64,
)
    ensures
        observe(job, thread, snapshot, text, since, window_start, wall, mono).timed_out ==> {
            let o = observe(job, thread, snapshot, text, since, window_start, wall, mono);
            &&& o.state is TimedOut
            &&& (o.outcome == Ok::<Progress, crate::observe::ObserveError>(Progress::Poll) || o.outcome
                == Ok::<Progress, crate::observe::ObserveError>(Progress::Yield))
        },
{
}

/// While any submission's delivery is unresolved, the worker starts nothing: new work waits
/// for observation-only recovery.
pub proof fn law_unresolved_blocks_work(v: StoreView)
    requires
        crate::store::any_unresolved(v),
    ensures
        crate::store::next_index(v) is None,
{
}

/// Started work goes first: while a request holds the browser (and nothing is unresolved) the
/// worker resumes exactly that request, never a queued one.
pub proof fn law_started_work_first(v: StoreView)
    requires
        wf(v),
        !crate::store::any_unresolved(v),
        crate::store::any_holder(v),
    ensures
        crate::store::next_index(v) matches Some(k) && 0 <= k < v.jobs.len() && v.jobs[k].job.state.holds_slot(),
{
}

/// Only a request that failed before anything was sent is queued again by a retry with the
/// same key; anything possibly sent is never resubmitted.
pub proof fn law_retry_only_unsent(v: StoreView, s: Submit, c: ConfigView, at: i64)
    ensures
        submit_plan(v, s, c, at) matches SubmitPlan::Retry(i, _) ==> v.jobs[i].job.state is Failed
            && v.jobs[i].job.submitted_at is None,
{
}

/// When the worker fails on a request that may have been sent, the request becomes unresolved
/// (`submission_unknown` or `needs_attention`), never failed, so no retry can resend it.
pub proof fn law_failure_never_resends(s: JobState)
    requires
        !s.is_unsent(),
        !s.is_terminal(),
    ensures
        crate::store::failure_state(s).is_unresolved(),
        !(crate::store::failure_state(s) is Failed),
{
}

/// No key occurs twice.
pub open spec fn distinct_keys(keys: Seq<crate::capture::KeyView>) -> bool {
    forall|i: int, j: int| 0 <= i < j < keys.len() ==> keys[i] != keys[j]
}

proof fn lemma_key_index_found(keys: Seq<crate::capture::KeyView>, k: crate::capture::KeyView)
    ensures
        match crate::capture::key_index(keys, k) {
            Some(i) => 0 <= i < keys.len() && keys[i] == k,
            None => forall|i: int| 0 <= i < keys.len() ==> keys[i] != k,
        },
    decreases keys.len(),
{
    if keys.len() > 0 && keys.last() != k {
        lemma_key_index_found(keys.drop_last(), k);
        assert forall|i: int| 0 <= i < keys.len() - 1 implies keys.drop_last()[i] == keys[i] by {}
    }
}

/// A capture never lists the same turn twice: merging the turns rendered at each scroll step
/// keeps one entry per message, and every rendered turn has its entry.
pub proof fn law_capture_no_duplicates(turns: Seq<crate::json::JsonView>, keys: Seq<crate::capture::KeyView>, fresh: Seq<crate::json::JsonView>)
    requires
        distinct_keys(keys),
        turns.len() == keys.len(),
    ensures
        ({
            let (t, k) = crate::capture::merge_all(turns, keys, fresh);
            &&& distinct_keys(k)
            &&& t.len() == k.len()
            &&& forall|i: int| 0 <= i < fresh.len() ==> k.contains(crate::capture::turn_key(#[trigger] fresh[i]))
        }),
    decreases fresh.len(),
{
    if fresh.len() > 0 {
        let init = fresh.drop_last();
        law_capture_no_duplicates(turns, keys, init);
        let (t0, k0) = crate::capture::merge_all(turns, keys, init);
        let last = fresh.last();
        let key = crate::capture::turn_key(last);
        lemma_key_index_found(k0, key);
        let (t1, k1) = crate::capture::merge_turn(t0, k0, last);
        assert(crate::capture::merge_all(turns, keys, fresh) == (t1, k1));
        match crate::capture::key_index(k0, key) {
            Some(idx) => {
                assert(k1 == k0);
                assert(k1.contains(key)) by {
                    assert(k1[idx] == key);
                }
            },
            None => {
                assert(k1 == k0.push(key));
                assert(k1[k0.len() as int] == key);
            },
        }
        assert forall|i: int| 0 <= i < fresh.len() implies k1.contains(crate::capture::turn_key(#[trigger] fresh[i])) by {
            if i < fresh.len() - 1 {
                assert(init[i] == fresh[i]);
                assert(k0.contains(crate::capture::turn_key(init[i])));
                let w = choose|w: int| 0 <= w < k0.len() && k0[w] == crate::capture::turn_key(init[i]);
                if k1.len() > k0.len() {
                    assert(k1[w] == k0[w]);
                } else {
                    assert(k1 == k0);
                }
            } else {
                assert(fresh[i] == last);
                if k1.len() > k0.len() {
                    assert(k1[k0.len() as int] == key);
                } else {
                    let idx = crate::capture::key_index(k0, key)->0;
                    assert(k1[idx] == key);
                }
            }
        }
    }
}

proof fn lemma_member_push(m: Seq<(Seq<char>, crate::json::JsonView)>, e: (Seq<char>, crate::json::JsonView), k: Seq<char>)
    ensures
        crate::json::member_of(m.push(e), k) == (if crate::json::member_of(m, k) is Some {
            crate::json::member_of(m, k)
        } else if e.0 == k {
            Some(e.1)
        } else {
            None
        }),
    decreases m.len(),
{
    let p = m.push(e);
    if m.len() > 0 {
        assert(p[0] == m[0]);
        assert(p.drop_first() =~= m.drop_first().push(e));
        lemma_member_push(m.drop_first(), e, k);
        if m[0].0 == k {
            assert(crate::json::member_of(p, k) == Some(m[0].1));
            assert(crate::json::member_of(m, k) == Some(m[0].1));
        } else {
            assert(crate::json::member_of(p, k) == crate::json::member_of(p.drop_first(), k));
            assert(crate::json::member_of(m, k) == crate::json::member_of(m.drop_first(), k));
        }
    } else {
        assert(p[0] == e);
        assert(p.drop_first() =~= Seq::<(Seq<char>, crate::json::JsonView)>::empty());
        assert(crate::json::member_of(p.drop_first(), k) is None);
        assert(crate::json::member_of(m, k) is None);
    }
}

proof fn lemma_member_without(m: Seq<(Seq<char>, crate::json::JsonView)>, key: Seq<char>, k: Seq<char>)
    requires
        k != key,
    ensures
        crate::json::member_of(crate::reads::without_key(m, key), k) == crate::json::member_of(m, k),
    decreases m.len(),
{
    if m.len() > 0 {
        lemma_member_without(m.drop_last(), key, k);
        assert(m =~= m.drop_last().push(m.last()));
        lemma_member_push(m.drop_last(), m.last(), k);
        lemma_member_push(crate::reads::without_key(m.drop_last(), key), m.last(), k);
    }
}

proof fn lemma_with_field_keeps(v: crate::json::JsonView, key: Seq<char>, x: crate::json::JsonView, k: Seq<char>)
    requires
        v is Object,
        k != key,
    ensures
        crate::reads::with_field(v, key, x) is Object,
        crate::json::member_of(crate::reads::with_field(v, key, x)->Object_0, k) == crate::json::member_of(v->Object_0, k),
{
    let m = v->Object_0;
    lemma_member_push(crate::reads::without_key(m, key), (key, x), k);
    lemma_member_without(m, key, k);
}

/// Comparing saved exports changes only known configuration metadata: every member of a
/// saved document other than `config` and `requests` (prompts, responses, unknown fields) is
/// compared exactly as written.
pub proof fn law_normalisation_keeps_content(v: crate::json::JsonView, k: Seq<char>)
    requires
        v is Object,
        k != "config"@,
        k != "requests"@,
    ensures
        crate::transcripts::normal_export(v) is Object,
        crate::json::member_of(crate::transcripts::normal_export(v)->Object_0, k) == crate::json::member_of(v->Object_0, k),
{
    let j = crate::transcripts::normal_job(v);
    match crate::json::member_of(v->Object_0, "config"@) {
        Some(crate::json::JsonView::Object(c)) => {
            lemma_with_field_keeps(v, "config"@, crate::json::JsonView::Object(crate::transcripts::normal_config(c)), k);
        },
        _ => {},
    }
    assert(j is Object);
    match crate::json::member_of(j->Object_0, "requests"@) {
        Some(crate::json::JsonView::Array(items)) => {
            lemma_with_field_keeps(
                j,
                "requests"@,
                crate::json::JsonView::Array(Seq::new(items.len(), |i: int| crate::transcripts::normal_job(items[i]))),
                k,
            );
        },
        _ => {},
    }
}

/// A saved ledger loads again unchanged: the records that `contents` returns for a ledger
/// describe that same ledger, which satisfies the invariant, so `restore` accepts them.
pub proof fn law_saved_ledger_restores(
    v: StoreView,
    threads: Seq<Thread>,
    jobs: Seq<crate::store::StoredJob>,
    reads: Seq<crate::records::ReadRequest>,
)
    requires
        wf(v),
        crate::store::ledger_of(threads, jobs, reads, v.last_finished) == v,
    ensures
        wf(crate::store::ledger_of(threads, jobs, reads, v.last_finished)),
        crate::store::ledger_of(threads, jobs, reads, v.last_finished) == v,
{
}

/// How the Windows C runtime (`CommandLineToArgvW`) reads the inside of a quoted argument,
/// `k` backslashes having been read so far: `2n` backslashes before a quote give `n` and end
/// the argument, `2n+1` give `n` and a literal quote, other backslashes are literal.
pub open spec fn argv_unquote(t: Seq<char>, k: nat) -> Seq<char>
    decreases t.len(),
{
    if t.len() == 0 {
        crate::text::repeat('\\', k)
    } else if t[0] == '\\' {
        argv_unquote(t.drop_first(), k + 1)
    } else if t[0] == '"' {
        if k % 2 == 0 {
            crate::text::repeat('\\', k / 2)
        } else {
            crate::text::repeat('\\', k / 2) + seq!['"'] + argv_unquote(t.drop_first(), 0)
        }
    } else {
        crate::text::repeat('\\', k) + seq![t[0]] + argv_unquote(t.drop_first(), 0)
    }
}

proof fn lemma_unquote_backslashes(j: nat, x: Seq<char>, m: nat)
    ensures
        argv_unquote(crate::text::repeat('\\', j) + x, m) == argv_unquote(x, m + j),
    decreases j,
{
    if j > 0 {
        let t = crate::text::repeat('\\', j) + x;
        assert(t[0] == '\\');
        assert(t.drop_first() =~= crate::text::repeat('\\', (j - 1) as nat) + x);
        lemma_unquote_backslashes((j - 1) as nat, x, m + 1);
    } else {
        assert(crate::text::repeat('\\', 0) + x =~= x);
    }
}

proof fn lemma_unquote_escaped(s: Seq<char>, k: nat)
    ensures
        argv_unquote(crate::text::escaped(s, k) + seq!['"'], 0) == crate::text::repeat('\\', k) + s,
    decreases s.len(),
{
    let r = crate::text::repeat('\\', k);
    if s.len() == 0 {
        lemma_unquote_backslashes(2 * k, seq!['"'], 0);
        let q: Seq<char> = seq!['"'];
        assert(q[0] == '"');
        assert((2 * k) / 2 == k);
        assert(r + s =~= r);
    } else if s[0] == '\\' {
        lemma_unquote_escaped(s.drop_first(), k + 1);
        assert(crate::text::repeat('\\', k + 1) + s.drop_first() =~= r + s);
    } else if s[0] == '"' {
        let rest = crate::text::escaped(s.drop_first(), 0) + seq!['"'];
        let x = seq!['"'] + rest;
        assert(crate::text::escaped(s, k) + seq!['"'] =~= crate::text::repeat('\\', 2 * k + 1) + x);
        lemma_unquote_backslashes(2 * k + 1, x, 0);
        assert(x[0] == '"');
        assert(x.drop_first() =~= rest);
        assert((2 * k + 1) / 2 == k);
        lemma_unquote_escaped(s.drop_first(), 0);
        assert(crate::text::repeat('\\', 0) + s.drop_first() =~= s.drop_first());
        assert(r + seq!['"'] + s.drop_first() =~= r + s);
    } else {
        let rest = crate::text::escaped(s.drop_first(), 0) + seq!['"'];
        let x = seq![s[0]] + rest;
        assert(crate::text::escaped(s, k) + seq!['"'] =~= r + x);
        lemma_unquote_backslashes(k, x, 0);
        assert(x[0] == s[0]);
        assert(x.drop_first() =~= rest);
        lemma_unquote_escaped(s.drop_first(), 0);
        assert(crate::text::repeat('\\', 0) + s.drop_first() =~= s.drop_first());
        assert(r + seq![s[0]] + s.drop_first() =~= r + s);
    }
}

/// A quoted command-line argument reads back exactly as the original text, trailing
/// backslashes and embedded quotes included.
pub proof fn law_quote_round_trip(s: Seq<char>)
    ensures
        crate::text::quoted(s)[0] == '"',
        argv_unquote(crate::text::quoted(s).drop_first(), 0) == s,
{
    let q = crate::text::quoted(s);
    assert(q.drop_first() =~= crate::text::escaped(s, 0) + seq!['"']);
    lemma_unquote_escaped(s, 0);
    assert(crate::text::repeat('\\', 0) + s =~= s);
}

/// A character that normalising leaves as it is: an ASCII digit or lowercase letter.
pub open spec fn normal_char(c: char) -> bool {
    &&& is_ascii_char(c)
    &&& ascii_alnum(c)
    &&& ascii_lower(c) == c
}

proof fn lemma_ascii_normal_chars(s: Seq<char>)
    ensures
        forall|i: int| 0 <= i < ascii_normal(s).len() ==> #[trigger] normal_char(ascii_normal(s)[i]),
    decreases s.len(),
{
    if s.len() > 0 {
        lemma_ascii_normal_chars(s.drop_last());
        let c = s.last();
        let head = ascii_normal(s.drop_last());
        if ascii_alnum(c) {
            let d = ascii_lower(c);
            assert(normal_char(d));
            let tail = seq![d];
            assert forall|i: int| 0 <= i < ascii_normal(s).len() implies #[trigger] normal_char(ascii_normal(s)[i]) by {
                if i < head.len() {
                    assert(ascii_normal(s)[i] == head[i]);
                } else {
                    assert(ascii_normal(s)[i] == d);
                }
            }
        } else {
            assert(ascii_normal(s) =~= head);
        }
    }
}

proof fn lemma_ascii_normal_fixed(t: Seq<char>)
    requires
        forall|i: int| 0 <= i < t.len() ==> #[trigger] normal_char(t[i]),
    ensures
        ascii_normal(t) == t,
    decreases t.len(),
{
    if t.len() > 0 {
        assert(normal_char(t[t.len() - 1]));
        lemma_ascii_normal_fixed(t.drop_last());
        assert(t.drop_last() + seq![t.last()] =~= t);
    }
}

/// Normalising an ASCII label gives ASCII text, and normalising that again changes nothing:
/// "Extra High" and "extra_high" both become "extrahigh", which stays as it is.
pub proof fn law_normalized_idempotent_ascii(s: Seq<char>)
    requires
        all_ascii(s),
    ensures
        all_ascii(ascii_normal(s)),
        ascii_normal(ascii_normal(s)) == ascii_normal(s),
{
    lemma_ascii_normal_chars(s);
    let n = ascii_normal(s);
    assert forall|i: int| 0 <= i < n.len() implies #[trigger] is_ascii_char(n[i]) by {
        assert(normal_char(n[i]));
    }
    lemma_ascii_normal_fixed(n);
}

// ----- watching the page -----

/// `m` holds the first turn at or after `baseline` that shows the submitted prompt as a user
/// turn.
pub open spec fn first_prompt_turn(ts: Seq<JsonView>, baseline: int, prompt: Seq<char>, m: int) -> bool {
    &&& baseline <= m < ts.len()
    &&& is_prompt_turn(ts[m], prompt)
    &&& forall|j: int| baseline <= j < m ==> !is_prompt_turn(#[trigger] ts[j], prompt)
}

proof fn lemma_prompt_index_first(ts: Seq<JsonView>, baseline: int, prompt: Seq<char>)
    requires
        0 <= baseline,
    ensures
        match prompt_index(ts, baseline, prompt) {
            Some(k) => first_prompt_turn(ts, baseline, prompt, k),
            None => forall|k: int| baseline <= k < ts.len() ==> !is_prompt_turn(#[trigger] ts[k], prompt),
        },
    decreases ts.len(),
{
    if ts.len() > 0 {
        let d = ts.drop_last();
        lemma_prompt_index_first(d, baseline, prompt);
        assert forall|k: int| 0 <= k < d.len() implies #[trigger] d[k] == ts[k] by {}
        match prompt_index(d, baseline, prompt) {
            Some(k) => {
                assert forall|j: int| baseline <= j < k implies !is_prompt_turn(#[trigger] ts[j], prompt) by {
                    assert(d[j] == ts[j]);
                }
            },
            None => {
                assert forall|k: int| baseline <= k < ts.len() - 1 implies !is_prompt_turn(#[trigger] ts[k], prompt) by {
                    assert(d[k] == ts[k]);
                }
            },
        }
    }
}

proof fn lemma_last_answer_last(ts: Seq<JsonView>, m: int)
    requires
        0 <= m,
    ensures
        match last_answer(ts, m) {
            Some(k) => m < k < ts.len() && has_role(ts[k], "assistant"@) && forall|j: int|
                k < j < ts.len() ==> !has_role(#[trigger] ts[j], "assistant"@),
            None => forall|j: int| m < j < ts.len() ==> !has_role(#[trigger] ts[j], "assistant"@),
        },
    decreases ts.len(),
{
    if ts.len() > 0 {
        let d = ts.drop_last();
        lemma_last_answer_last(d, m);
        assert forall|k: int| 0 <= k < d.len() implies #[trigger] d[k] == ts[k] by {}
        if ts.len() - 1 > m && has_role(ts.last(), "assistant"@) {
        } else {
            match last_answer(d, m) {
                Some(k) => {
                    assert forall|j: int| k < j < ts.len() implies !has_role(#[trigger] ts[j], "assistant"@) by {
                        if j < ts.len() - 1 {
                            assert(d[j] == ts[j]);
                        }
                    }
                },
                None => {
                    assert forall|j: int| m < j < ts.len() implies !has_role(#[trigger] ts[j], "assistant"@) by {
                        if j < ts.len() - 1 {
                            assert(d[j] == ts[j]);
                        }
                    }
                },
            }
        }
    }
}

/// The answer attributed to a submission is the last assistant turn of the page, provided it
/// follows the first turn (at or after `baseline`) that shows the submitted prompt and no other
/// user turn follows that one. With another user turn after it the page is refused; without
/// the prompt's turn, or without an assistant turn after it, there is no answer yet.
pub proof fn law_answer_is_the_last_assistant_turn(snapshot: JsonView, baseline: int, prompt: Seq<char>, m: int)
    requires
        0 <= baseline,
    ensures
        match turns_of(snapshot) {
            None => answer_index(snapshot, baseline, prompt) == Ok::<Option<int>, ObservationError>(None),
            Some(ts) => {
                &&& (forall|k: int| baseline <= k < ts.len() ==> !is_prompt_turn(#[trigger] ts[k], prompt))
                    ==> answer_index(snapshot, baseline, prompt) == Ok::<Option<int>, ObservationError>(None)
                &&& first_prompt_turn(ts, baseline, prompt, m) ==> if exists|u: int|
                    m < u < ts.len() && has_role(#[trigger] ts[u], "user"@) {
                    answer_index(snapshot, baseline, prompt) == Err::<Option<int>, ObservationError>(
                        ObservationError::ConversationChanged,
                    )
                } else {
                    match answer_index(snapshot, baseline, prompt) {
                        Ok(Some(k)) => {
                            &&& m < k < ts.len()
                            &&& has_role(ts[k], "assistant"@)
                            &&& forall|j: int| k < j < ts.len() ==> !has_role(#[trigger] ts[j], "assistant"@)
                        },
                        Ok(None) => forall|j: int| m < j < ts.len() ==> !has_role(#[trigger] ts[j], "assistant"@),
                        Err(_) => false,
                    }
                }
            },
        },
{
    if let Some(ts) = turns_of(snapshot) {
        lemma_prompt_index_first(ts, baseline, prompt);
        match prompt_index(ts, baseline, prompt) {
            Some(k) => {
                if first_prompt_turn(ts, baseline, prompt, m) {
                    if k < m {
                        assert(!is_prompt_turn(ts[k], prompt));
                    } else if m < k {
                        assert(!is_prompt_turn(ts[m], prompt));
                    }
                    assert(k == m);
                    lemma_last_answer_last(ts, m);
                }
            },
            None => {
                if first_prompt_turn(ts, baseline, prompt, m) {
                    assert(!is_prompt_turn(ts[m], prompt));
                }
            },
        }
    }
}

// ----- chat references -----

/// `s` holds no '/'.
pub open spec fn no_slash(s: Seq<char>) -> bool {
    forall|i: int| 0 <= i < s.len() ==> s[i] != '/'
}

proof fn lemma_split_segment(a: Seq<char>, b: Seq<char>)
    requires
        no_slash(b),
    ensures
        split_slash(a + seq!['/'] + b) == split_slash(a).push(b),
    decreases b.len(),
{
    if b.len() == 0 {
        let c = a + seq!['/'] + b;
        assert(c =~= a.push('/'));
        assert(c.drop_last() =~= a);
        assert(c.last() == '/');
        assert(b =~= Seq::<char>::empty());
    } else {
        let c = a + seq!['/'] + b;
        let d = b.drop_last();
        assert(no_slash(d));
        lemma_split_segment(a, d);
        assert(c.drop_last() =~= a + seq!['/'] + d);
        assert(c.last() == b.last());
        assert(d.push(b.last()) =~= b);
        assert(split_slash(c) =~= split_slash(a).push(b));
    }
}

proof fn lemma_split_plain(b: Seq<char>)
    requires
        no_slash(b),
    ensures
        split_slash(b) == seq![b],
    decreases b.len(),
{
    if b.len() == 0 {
        assert(b =~= Seq::<char>::empty());
    } else {
        let d = b.drop_last();
        assert(no_slash(d));
        lemma_split_plain(d);
        assert(d.push(b.last()) =~= b);
        assert(split_slash(b) =~= seq![b]);
    }
}

/// The ChatGPT origin spelled out: `https`, host `chatgpt.com`, no port, no credentials.
pub open spec fn on_chatgpt(u: UrlView) -> bool {
    &&& u.scheme == "https"@
    &&& u.host == Some("chatgpt.com"@)
    &&& u.port is None
    &&& u.username.len() == 0
    &&& u.password is None
}

/// Every conversation URL on the ChatGPT origin is accepted, plain (`/c/<uuid>`) or inside any
/// GPT or project (`/g/g-<anything>/c/<uuid>`): the reference is the canonical UUID and the URL
/// up to its path, without query or fragment. A bare UUID becomes `https://chatgpt.com/c/<uuid>`.
pub proof fn law_conversation_urls_are_accepted(input: Seq<char>, u: UrlView, gpt: Seq<char>, last: Seq<char>, id: Seq<char>, value: u128)
    ensures
        parse_uuid(trimmed(input)) == Ok::<(Seq<char>, u128), Seq<char>>((id, value))
            ==> chat_reference(input) == Ok::<(Seq<char>, Seq<char>), ReferenceFault>((id, "https://chatgpt.com/c/"@ + id)),
        ({
            &&& parse_uuid(trimmed(input)) is Err
            &&& parse_url(trimmed(input)) == Ok::<UrlView, Seq<char>>(u)
            &&& on_chatgpt(u)
            &&& no_slash(last)
            &&& parse_uuid(last) == Ok::<(Seq<char>, u128), Seq<char>>((id, value))
        }) ==> {
            &&& u.path == "/c/"@ + last ==> chat_reference(input) == Ok::<(Seq<char>, Seq<char>), ReferenceFault>((id, u.base))
            &&& (u.path == "/g/"@ + gpt + "/c/"@ + last && has_prefix(gpt, "g-"@) && no_slash(gpt))
                ==> chat_reference(input) == Ok::<(Seq<char>, Seq<char>), ReferenceFault>((id, u.base))
        },
{
    reveal_strlit("/c/");
    reveal_strlit("/g/");
    reveal_strlit("g-");
    reveal_strlit("c");
    reveal_strlit("g");
    let e: Seq<char> = Seq::empty();
    lemma_split_plain(e);
    lemma_split_plain("c"@);
    lemma_split_plain("g"@);
    if no_slash(last) && u.path == "/c/"@ + last {
        lemma_split_segment(e, "c"@);
        lemma_split_segment(e + seq!['/'] + "c"@, last);
        assert(e + seq!['/'] + "c"@ + seq!['/'] + last =~= "/c/"@ + last);
        assert(split_slash(u.path) =~= seq![e, "c"@, last]);
    }
    if no_slash(last) && no_slash(gpt) && u.path == "/g/"@ + gpt + "/c/"@ + last {
        let p1 = e + seq!['/'] + "g"@;
        let p2 = p1 + seq!['/'] + gpt;
        let p3 = p2 + seq!['/'] + "c"@;
        let p4 = p3 + seq!['/'] + last;
        lemma_split_segment(e, "g"@);
        lemma_split_segment(p1, gpt);
        lemma_split_segment(p2, "c"@);
        lemma_split_segment(p3, last);
        assert(p4 =~= "/g/"@ + gpt + "/c/"@ + last);
        assert(split_slash(u.path) =~= seq![e, "g"@, gpt, "c"@, last]);
    }
}

/// What is refused, and why: text that is neither a UUID nor a URL carries the URL parser's
/// own error; a URL off the ChatGPT origin is the wrong origin; a ChatGPT page that is not a
/// conversation (such as a share link `/share/<id>`) is not a conversation; a conversation URL
/// whose last segment is not a UUID carries the UUID parser's error.
pub proof fn law_refused_references(input: Seq<char>, u: UrlView, m: Seq<char>, rest: Seq<char>, last: Seq<char>)
    ensures
        parse_uuid(trimmed(input)) is Err && parse_url(trimmed(input)) == Err::<UrlView, Seq<char>>(m)
            ==> chat_reference(input) == Err::<(Seq<char>, Seq<char>), ReferenceFault>(ReferenceFault::NotAUrl(m)),
        ({
            &&& parse_uuid(trimmed(input)) is Err
            &&& parse_url(trimmed(input)) == Ok::<UrlView, Seq<char>>(u)
        }) ==> {
            &&& !on_chatgpt(u) ==> chat_reference(input) == Err::<(Seq<char>, Seq<char>), ReferenceFault>(ReferenceFault::WrongOrigin)
            &&& (on_chatgpt(u) && u.path == "/share/"@ + rest && no_slash(rest)) ==> chat_reference(input)
                == Err::<(Seq<char>, Seq<char>), ReferenceFault>(ReferenceFault::NotConversation)
            &&& (on_chatgpt(u) && u.path == "/c/"@ + last && no_slash(last) && parse_uuid(last) == Err::<(Seq<char>, u128), Seq<char>>(m))
                ==> chat_reference(input) == Err::<(Seq<char>, Seq<char>), ReferenceFault>(ReferenceFault::BadConversationId(m))
        },
{
    reveal_strlit("/share/");
    reveal_strlit("/c/");
    reveal_strlit("share");
    reveal_strlit("c");
    let e: Seq<char> = Seq::empty();
    lemma_split_plain(e);
    lemma_split_plain("share"@);
    lemma_split_plain("c"@);
    if no_slash(rest) && u.path == "/share/"@ + rest {
        lemma_split_segment(e, "share"@);
        lemma_split_segment(e + seq!['/'] + "share"@, rest);
        assert(e + seq!['/'] + "share"@ + seq!['/'] + rest =~= "/share/"@ + rest);
        assert(split_slash(u.path) =~= seq![e, "share"@, rest]);
        assert(split_slash(u.path)[1] != "c"@) by {
            assert("share"@.len() != "c"@.len());
        }
    }
    if no_slash(last) && u.path == "/c/"@ + last {
        lemma_split_segment(e, "c"@);
        lemma_split_segment(e + seq!['/'] + "c"@, last);
        assert(e + seq!['/'] + "c"@ + seq!['/'] + last =~= "/c/"@ + last);
        assert(split_slash(u.path) =~= seq![e, "c"@, last]);
    }
}

// ----- retirement -----

/// When cleanup retires a thread. Only a thread that is not already deleted, whose retry time
/// has come and whose requests have all finished is ever due. Among those, a thread that has
/// used its whole budget is due at once however recent its activity, as is one already being
/// retired; an active thread with budget left is due exactly when its inactivity window (which
/// starts at its last activity) has run out.
pub proof fn law_when_cleanup_retires(t: Thread, c: ConfigView, now: i64, all_finished: bool)
    ensures
        cleanup_due(t, c, now, all_finished) ==> !(t.state is RemoteDeleted) && t.cleanup_retry_at <= now && all_finished,
        ({
            &&& !(t.state is RemoteDeleted)
            &&& t.cleanup_retry_at <= now
            &&& all_finished
        }) ==> {
            &&& t.prompts >= PROMPT_LIMIT ==> cleanup_due(t, c, now, all_finished)
            &&& !(t.state is Active) ==> cleanup_due(t, c, now, all_finished)
            &&& (t.state is Active && t.prompts < PROMPT_LIMIT) ==> (cleanup_due(t, c, now, all_finished)
                <==> now >= t.active_at + inactivity_window(t.id@, c))
        },
{
}

// ----- archives -----

/// How one request reads in an archive, whatever its state: the prompt under `## User`, then
/// the state and the captured Markdown answer, or a note that no complete answer was captured.
pub open spec fn archived_request(j: JobView) -> Seq<char> {
    let answer = match j.response {
        Some(r) => match text_of(field(r, "markdown"@)) {
            Some(t) => t,
            None => "[No complete response captured]"@,
        },
        None => "[No complete response captured]"@,
    };
    "## User\n\n"@ + j.prompt@ + "\n\n## ChatGPT ("@ + job_state_name(j.state) + ")\n\n"@ + answer + "\n\n"@
}

/// An archive starts with the thread's title and id, and each further request of the thread
/// adds exactly its own section at the end: every request appears once, in order, whether or
/// not an answer was captured for it.
pub proof fn law_archive_keeps_every_request(t: Thread, jobs: Seq<JobView>, j: JobView)
    ensures
        archive_text(t, Seq::empty()) == "# "@ + t.title@ + "\n\nThread: "@ + t.id@ + "\n\n"@,
        archive_text(t, jobs.push(j)) == archive_text(t, jobs) + archived_request(j),
{
    assert(jobs.push(j).drop_last() =~= jobs);
    assert(archive_text(t, Seq::empty()) =~= "# "@ + t.title@ + "\n\nThread: "@ + t.id@ + "\n\n"@);
    assert(archive_text(t, jobs.push(j)) =~= archive_text(t, jobs) + archived_request(j));
}

// ----- listings -----

/// Where each listed thread comes from: positions in the stored list, most recent first.
proof fn lemma_listed_positions(s: Seq<Thread>, project: Option<Seq<char>>) -> (idx: Seq<int>)
    ensures
        idx.len() == listed(s, project).len(),
        forall|k: int| 0 <= k < idx.len() ==> 0 <= #[trigger] idx[k] < s.len() && listed(s, project)[k] == s[idx[k]],
        forall|a: int, b: int| 0 <= a < b < idx.len() ==> #[trigger] idx[a] > #[trigger] idx[b],
    decreases s.len(),
{
    if s.len() == 0 {
        Seq::empty()
    } else {
        let rest = s.drop_first();
        let inner = lemma_listed_positions(rest, project);
        let shifted = Seq::new(inner.len(), |k: int| inner[k] + 1);
        assert forall|k: int| 0 <= k < inner.len() implies rest[inner[k]] == s[inner[k] + 1] by {}
        if project is None || s[0].project@ == project->0 {
            let idx = shifted.push(0);
            assert forall|k: int| 0 <= k < idx.len() implies 0 <= #[trigger] idx[k] < s.len()
                && listed(s, project)[k] == s[idx[k]] by {
                if k < inner.len() {
                    assert(listed(s, project)[k] == listed(rest, project)[k]);
                }
            }
            assert forall|a: int, b: int| 0 <= a < b < idx.len() implies #[trigger] idx[a] > #[trigger] idx[b] by {
                if b < inner.len() {
                    assert(inner[a] > inner[b]);
                }
            }
            idx
        } else {
            assert(listed(s, project) =~= listed(rest, project));
            assert forall|a: int, b: int| 0 <= a < b < shifted.len() implies #[trigger] shifted[a] > #[trigger] shifted[b] by {
                assert(inner[a] > inner[b]);
            }
            shifted
        }
    }
}

proof fn lemma_listed_members(s: Seq<Thread>, project: Option<Seq<char>>)
    ensures
        forall|k: int| 0 <= k < listed(s, project).len() ==> (project matches Some(p) ==> (#[trigger] listed(s, project)[k]).project@ == p),
        forall|i: int| 0 <= i < s.len() && (project matches Some(p) ==> s[i].project@ == p) ==> listed(s, project).contains(#[trigger] s[i]),
    decreases s.len(),
{
    if s.len() > 0 {
        let rest = s.drop_first();
        lemma_listed_members(rest, project);
        let l = listed(s, project);
        let lr = listed(rest, project);
        assert forall|k: int| 0 <= k < l.len() implies (project matches Some(p) ==> (#[trigger] l[k]).project@ == p) by {
            if k < lr.len() {
                assert(l[k] == lr[k]);
            }
        }
        assert forall|i: int| 0 <= i < s.len() && (project matches Some(p) ==> s[i].project@ == p) implies l.contains(#[trigger] s[i]) by {
            if i == 0 {
                assert(l[l.len() - 1] == s[0]);
            } else {
                assert(s[i] == rest[i - 1]);
                assert(lr.contains(rest[i - 1]));
                let k = choose|k: int| 0 <= k < lr.len() && lr[k] == rest[i - 1];
                assert(l[k] == lr[k]);
            }
        }
    }
}

/// `l` takes the elements of `s` at positions `idx`, from the latest stored to the earliest.
pub open spec fn taken_latest_first(s: Seq<Thread>, l: Seq<Thread>, idx: Seq<int>) -> bool {
    &&& idx.len() == l.len()
    &&& forall|k: int| 0 <= k < idx.len() ==> 0 <= #[trigger] idx[k] < s.len() && l[k] == s[idx[k]]
    &&& forall|a: int, b: int| 0 <= a < b < idx.len() ==> #[trigger] idx[a] > #[trigger] idx[b]
}

/// Listing a project's threads gives exactly the stored threads of that project (all stored
/// threads when no project is named), most recently stored first: every listed thread belongs
/// to the project, every thread of the project is listed, and each listed thread is a stored
/// one, in reverse order of storage.
pub proof fn law_listing_is_the_projects_threads(s: Seq<Thread>, project: Option<Seq<char>>)
    ensures
        forall|k: int| 0 <= k < listed(s, project).len() ==> (project matches Some(p) ==> (#[trigger] listed(s, project)[k]).project@ == p),
        forall|i: int| 0 <= i < s.len() && (project matches Some(p) ==> s[i].project@ == p) ==> listed(s, project).contains(#[trigger] s[i]),
        exists|idx: Seq<int>| #[trigger] taken_latest_first(s, listed(s, project), idx),
{
    lemma_listed_members(s, project);
    let idx = lemma_listed_positions(s, project);
    assert(taken_latest_first(s, listed(s, project), idx));
}

} // verus!

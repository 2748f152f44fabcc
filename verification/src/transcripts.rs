//! The transcripts kept on disk: the markdown of each exchange and of an archived thread, and
//! the normalisation under which a saved JSON export still counts as the same.
use crate::json::{field, member_of, same_document, text_of, views, Json, JsonView};
use crate::reads::{lemma_object_view, member_views, put_field, with_field, without_key};
use crate::records::{job_state_name, Job, JobView, Thread, ThreadState};
use crate::text::{same_text};
use vstd::prelude::*;

verus! {

broadcast use vstd::std_specs::vec::group_vec_axioms;

/// The captured answer text of a request, if it has one.
pub open spec fn answer_text(j: JobView) -> Option<Seq<char>> {
    match j.response {
        Some(r) => text_of(field(r, "markdown"@)),
        None => None,
    }
}

/// One exchange as saved next to its prompt.
pub open spec fn exchange_text(j: JobView) -> Seq<char> {
    "## User\n\n"@ + j.prompt@ + "\n\n## ChatGPT ("@ + job_state_name(j.state) + ")\n\n"@ + match answer_text(j) {
        Some(t) => t,
        None => "[No response captured]"@,
    } + "\n"@
}

fn push_str(s: &mut String, t: &str)
    ensures
        final(s)@ == old(s)@ + t@,
{
    s.append(t);
}

fn answer_of(job: &Job) -> (r: Option<&String>)
    ensures
        match r {
            Some(t) => answer_text(job@) == Some(t@),
            None => answer_text(job@) is None,
        },
{
    match &job.response {
        Some(r) => r.field_text("markdown"),
        None => None,
    }
}

/// Writes `exchange_text`.
pub fn exchange_markdown(job: &Job) -> (r: String)
    ensures
        r@ == exchange_text(job@),
{
    let mut out = "## User\n\n".to_owned();
    push_str(&mut out, job.prompt.as_str());
    push_str(&mut out, "\n\n## ChatGPT (");
    push_str(&mut out, job.state.name());
    push_str(&mut out, ")\n\n");
    match answer_of(job) {
        Some(t) => push_str(&mut out, t.as_str()),
        None => push_str(&mut out, "[No response captured]"),
    }
    push_str(&mut out, "\n");
    out
}

/// A prompt as saved before it is sent.
pub open spec fn prompt_text(j: JobView) -> Seq<char> {
    "## User\n\n"@ + j.prompt@ + "\n"@
}

/// Writes `prompt_text`.
pub fn prompt_markdown(job: &Job) -> (r: String)
    ensures
        r@ == prompt_text(job@),
{
    let mut out = "## User\n\n".to_owned();
    push_str(&mut out, job.prompt.as_str());
    push_str(&mut out, "\n");
    out
}

/// One request in a thread's archive.
pub open spec fn archive_section(j: JobView) -> Seq<char> {
    "## User\n\n"@ + j.prompt@ + "\n\n## ChatGPT ("@ + job_state_name(j.state) + ")\n\n"@ + match answer_text(j) {
        Some(t) => t,
        None => "[No complete response captured]"@,
    } + "\n\n"@
}

/// All requests of a thread in its archive, in order.
pub open spec fn archive_sections(jobs: Seq<JobView>) -> Seq<char>
    decreases jobs.len(),
{
    if jobs.len() == 0 {
        Seq::empty()
    } else {
        archive_sections(jobs.drop_last()) + archive_section(jobs.last())
    }
}

/// The values of a list of requests.
pub open spec fn job_views(jobs: Seq<Job>) -> Seq<JobView> {
    Seq::new(jobs.len(), |i: int| jobs[i]@)
}

/// A thread's final transcript: its title and id, then every exchange.
pub open spec fn archive_text(t: Thread, jobs: Seq<JobView>) -> Seq<char> {
    "# "@ + t.title@ + "\n\nThread: "@ + t.id@ + "\n\n"@ + archive_sections(jobs)
}

/// Writes `archive_text`.
pub fn archive_markdown(thread: &Thread, jobs: &Vec<Job>) -> (r: String)
    ensures
        r@ == archive_text(*thread, job_views(jobs@)),
{
    let mut out = "# ".to_owned();
    push_str(&mut out, thread.title.as_str());
    push_str(&mut out, "\n\nThread: ");
    push_str(&mut out, thread.id.as_str());
    push_str(&mut out, "\n\n");
    let ghost head = out@;
    let ghost jv = job_views(jobs@);
    assert(head =~= head + archive_sections(jv.take(0)));
    let mut i: usize = 0;
    while i < jobs.len()
        invariant
            i <= jobs@.len(),
            jv == job_views(jobs@),
            out@ == head + archive_sections(jv.take(i as int)),
        decreases jobs@.len() - i,
    {
        let job = &jobs[i];
        assert(jv[i as int] == job@);
        assert(jv.take(i + 1).drop_last() =~= jv.take(i as int));
        push_str(&mut out, "## User\n\n");
        push_str(&mut out, job.prompt.as_str());
        push_str(&mut out, "\n\n## ChatGPT (");
        push_str(&mut out, job.state.name());
        push_str(&mut out, ")\n\n");
        match answer_of(job) {
            Some(t) => push_str(&mut out, t.as_str()),
            None => push_str(&mut out, "[No complete response captured]"),
        }
        push_str(&mut out, "\n\n");
        assert(out@ =~= head + archive_sections(jv.take(i + 1)));
        i = i + 1;
    }
    assert(jv.take(jobs@.len() as int) =~= jv);
    out
}

/// The thread as recorded in its archive: archived, with its cleanup bookkeeping cleared.
pub fn archived_copy(thread: &Thread) -> (r: Thread)
    ensures
        r == (Thread {
            state: ThreadState::Archived,
            cleanup_error: None,
            cleanup_attempts: 0,
            cleanup_retry_at: 0,
            ..*thread
        }),
{
    let mut t = thread.clone();
    t.state = ThreadState::Archived;
    t.cleanup_error = None;
    t.cleanup_attempts = 0;
    t.cleanup_retry_at = 0;
    t
}

/// Moves the value of an older configuration key to its current name, unless the current
/// name is already present.
pub open spec fn renamed(m: Seq<(Seq<char>, JsonView)>, old: Seq<char>, new: Seq<char>) -> Seq<(Seq<char>, JsonView)> {
    if member_of(m, new) is None && member_of(m, old) is Some {
        without_key(m, old).push((new, member_of(m, old)->0))
    } else {
        m
    }
}

/// A saved request's configuration under its current key names, with the default retention
/// (30 days) left implicit.
pub open spec fn normal_config(m: Seq<(Seq<char>, JsonView)>) -> Seq<(Seq<char>, JsonView)> {
    let r = renamed(
        renamed(m, "inactivity_hours"@, "remote_chat_inactivity_hours"@),
        "transcript_retention_days"@,
        "local_transcript_retention_days"@,
    );
    if member_of(r, "local_transcript_retention_days"@) == Some(JsonView::Number("30"@)) {
        without_key(r, "local_transcript_retention_days"@)
    } else {
        r
    }
}

/// A saved request with its configuration normalised (anything else is left as it is).
pub open spec fn normal_job(v: JsonView) -> JsonView {
    match v {
        JsonView::Object(m) => match member_of(m, "config"@) {
            Some(JsonView::Object(c)) => with_field(v, "config"@, JsonView::Object(normal_config(c))),
            _ => v,
        },
        _ => v,
    }
}

/// A saved export (one request, or a thread with its `requests`) normalised: only known
/// configuration metadata changes, never prompts, responses or unknown fields.
pub open spec fn normal_export(v: JsonView) -> JsonView {
    let j = normal_job(v);
    match j {
        JsonView::Object(m) => match member_of(m, "requests"@) {
            Some(JsonView::Array(items)) => with_field(
                j,
                "requests"@,
                JsonView::Array(Seq::new(items.len(), |i: int| normal_job(items[i]))),
            ),
            _ => j,
        },
        _ => j,
    }
}

fn remove_key(members: &Vec<(String, Json)>, key: &str) -> (r: Vec<(String, Json)>)
    ensures
        member_views(r@) == without_key(member_views(members@), key@),
{
    let ghost mv = member_views(members@);
    let mut out: Vec<(String, Json)> = Vec::new();
    let mut i: usize = 0;
    while i < members.len()
        invariant
            i <= members@.len(),
            mv == member_views(members@),
            member_views(out@) == without_key(mv.take(i as int), key@),
        decreases members@.len() - i,
    {
        let (name, value) = &members[i];
        assert(mv.take(i + 1).drop_last() =~= mv.take(i as int));
        assert(mv.take(i + 1).last() == (name@, value@));
        if !same_text(name.as_str(), key) {
            let ghost before = out@;
            out.push((name.clone(), value.duplicate()));
            assert(member_views(out@) =~= member_views(before).push((name@, value@)));
        }
        i = i + 1;
    }
    assert(mv.take(members@.len() as int) =~= mv);
    out
}

fn lookup<'a>(members: &'a Vec<(String, Json)>, key: &str) -> (r: Option<&'a Json>)
    ensures
        match r {
            Some(v) => member_of(member_views(members@), key@) == Some(v@),
            None => member_of(member_views(members@), key@) is None,
        },
{
    let ghost mv = member_views(members@);
    let mut i: usize = 0;
    assert(mv.skip(0) =~= mv);
    while i < members.len()
        invariant
            i <= members@.len(),
            mv == member_views(members@),
            member_of(mv, key@) == member_of(mv.skip(i as int), key@),
        decreases members@.len() - i,
    {
        assert(mv.skip(i as int)[0] == mv[i as int]);
        assert(mv.skip(i as int).drop_first() =~= mv.skip(i + 1));
        if same_text(members[i].0.as_str(), key) {
            return Some(&members[i].1);
        }
        i = i + 1;
    }
    assert(mv.skip(i as int).len() == 0);
    None
}

fn rename_key(members: Vec<(String, Json)>, old: &str, new: &str) -> (r: Vec<(String, Json)>)
    ensures
        member_views(r@) == renamed(member_views(members@), old@, new@),
{
    if lookup(&members, new).is_some() {
        return members;
    }
    let value = match lookup(&members, old) {
        Some(v) => v.duplicate(),
        None => return members,
    };
    let mut out = remove_key(&members, old);
    let ghost before = out@;
    out.push((new.to_owned(), value));
    assert(member_views(out@) =~= member_views(before).push((new@, value@)));
    out
}

fn normalize_config(members: Vec<(String, Json)>) -> (r: Vec<(String, Json)>)
    ensures
        member_views(r@) == normal_config(member_views(members@)),
{
    let a = rename_key(members, "inactivity_hours", "remote_chat_inactivity_hours");
    let b = rename_key(a, "transcript_retention_days", "local_transcript_retention_days");
    let default_retention = match lookup(&b, "local_transcript_retention_days") {
        Some(Json::Number(n)) => same_text(n.as_str(), "30"),
        _ => false,
    };
    if default_retention {
        remove_key(&b, "local_transcript_retention_days")
    } else {
        b
    }
}

/// Normalises one saved request (`normal_job`).
pub fn normalize_job(v: Json) -> (r: Json)
    ensures
        r@ == normal_job(v@),
{
    let config = match &v {
        Json::Object(members) => {
            proof {
                lemma_object_view(*members);
            }
            match lookup(members, "config") {
                Some(Json::Object(c)) => {
                    proof {
                        lemma_object_view(*c);
                    }
                    Some(normalize_config(copy_members(c)))
                },
                _ => None,
            }
        },
        _ => None,
    };
    match config {
        Some(c) => {
            proof {
                lemma_object_view(c);
            }
            put_field(v, "config", Json::Object(c))
        },
        None => v,
    }
}

fn copy_members(members: &Vec<(String, Json)>) -> (r: Vec<(String, Json)>)
    ensures
        member_views(r@) == member_views(members@),
{
    let mut out: Vec<(String, Json)> = Vec::new();
    let mut i: usize = 0;
    while i < members.len()
        invariant
            i <= members@.len(),
            member_views(out@) == member_views(members@).take(i as int),
        decreases members@.len() - i,
    {
        let ghost before = out@;
        let key = members[i].0.clone();
        let value = members[i].1.duplicate();
        assert(member_views(members@)[i as int] == (key@, value@));
        out.push((key, value));
        assert(member_views(out@) =~= member_views(before).push((key@, value@)));
        assert(member_views(out@) =~= member_views(members@).take(i + 1));
        i = i + 1;
    }
    assert(member_views(members@).take(members@.len() as int) =~= member_views(members@));
    out
}

/// Normalises a saved export (`normal_export`).
pub fn normalize_export(v: Json) -> (r: Json)
    ensures
        r@ == normal_export(v@),
{
    let j = normalize_job(v);
    let items = match &j {
        Json::Object(members) => {
            proof {
                lemma_object_view(*members);
            }
            match lookup(members, "requests") {
                Some(Json::Array(items)) => {
                    let mut out: Vec<Json> = Vec::new();
                    let mut i: usize = 0;
                    while i < items.len()
                        invariant
                            i <= items@.len(),
                            out@.len() == i,
                            forall|k: int| 0 <= k < i ==> #[trigger] out@[k]@ == normal_job(items@[k]@),
                        decreases items@.len() - i,
                    {
                        out.push(normalize_job(items[i].duplicate()));
                        i = i + 1;
                    }
                    let arr = Json::Array(out);
                    assert forall|k: int| 0 <= k < items@.len() implies #[trigger] arr@->Array_0[k]
                        == normal_job(views(items@)[k]) by {
                        assert(arr@->Array_0[k] == out@[k]@);
                    }
                    assert(arr@->Array_0 =~= Seq::new(items@.len(), |k: int| normal_job(views(items@)[k])));
                    assert(views(items@) =~= Json::Array(*items)@->Array_0);
                    Some(arr)
                },
                _ => None,
            }
        },
        _ => None,
    };
    match items {
        Some(a) => put_field(j, "requests", a),
        None => j,
    }
}

/// Whether a saved JSON export still holds the current one: the two documents are equal as
/// serde_json values once their known configuration metadata is normalised.
pub fn exports_match(saved: Json, current: Json) -> (r: bool)
    ensures
        r == same_document(normal_export(saved@), normal_export(current@)),
{
    let a = normalize_export(saved);
    let b = normalize_export(current);
    a.same_document(&b)
}

} // verus!

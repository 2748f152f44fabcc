//! URL and identifier rules: which ChatGPT addresses the service accepts, and how chat
//! references supplied by users are normalised.
use crate::text::{
    chars_equal, chars_of, has_prefix, same_text, split_path, split_slash, starts_with,
    string_of, trim, trimmed,
};
use vstd::prelude::*;

verus! {

/// The components of a parsed URL that the service inspects.
pub struct UrlParts {
    pub scheme: String,
    pub username: String,
    pub password: Option<String>,
    pub host: Option<String>,
    pub port: Option<u16>,
    pub path: String,
    pub query: Option<String>,
    pub fragment: Option<String>,
    /// The serialisation up to the end of the path (without query and fragment).
    pub base: String,
}

/// Spec-level view of `UrlParts`.
pub struct UrlView {
    pub scheme: Seq<char>,
    pub username: Seq<char>,
    pub password: Option<Seq<char>>,
    pub host: Option<Seq<char>>,
    pub port: Option<u16>,
    pub path: Seq<char>,
    pub query: Option<Seq<char>>,
    pub fragment: Option<Seq<char>>,
    pub base: Seq<char>,
}

pub open spec fn opt_view(o: Option<String>) -> Option<Seq<char>> {
    match o {
        Some(s) => Some(s@),
        None => None,
    }
}

impl View for UrlParts {
    type V = UrlView;

    open spec fn view(&self) -> UrlView {
        UrlView {
            scheme: self.scheme@,
            username: self.username@,
            password: opt_view(self.password),
            host: opt_view(self.host),
            port: self.port,
            path: self.path@,
            query: opt_view(self.query),
            fragment: opt_view(self.fragment),
            base: self.base@,
        }
    }
}

/// What the WHATWG URL parser (`url::Url::parse`) makes of `input`, or the text of the error
/// with which it rejects it.
pub uninterp spec fn parse_url(input: Seq<char>) -> Result<UrlView, Seq<char>>;

/// `url::Url::parse`, with the parsed URL's components read out, or the error's text;
/// `parse_url` names the result.
#[verifier::external_body]
pub(crate) fn url_parse(input: &str) -> (r: Result<UrlParts, String>)
    ensures
        match r {
            Ok(p) => parse_url(input@) == Ok::<UrlView, Seq<char>>(p@),
            Err(m) => parse_url(input@) == Err::<UrlView, Seq<char>>(m@),
        },
{
    let u = match url::Url::parse(input) {
        Ok(u) => u,
        Err(e) => return Err(e.to_string()),
    };
    Ok(UrlParts {
        scheme: u.scheme().to_owned(),
        username: u.username().to_owned(),
        password: u.password().map(str::to_owned),
        host: u.host_str().map(str::to_owned),
        port: u.port(),
        path: u.path().to_owned(),
        query: u.query().map(str::to_owned),
        fragment: u.fragment().map(str::to_owned),
        base: u[..url::Position::AfterPath].to_owned(),
    })
}

/// What `uuid::Uuid::parse_str` makes of `input`: its canonical hyphenated lowercase text
/// and its 128-bit value, or the text of the error with which it rejects `input`.
pub uninterp spec fn parse_uuid(input: Seq<char>) -> Result<(Seq<char>, u128), Seq<char>>;

/// A parsed UUID.
pub struct UuidParts {
    pub canonical: String,
    pub value: u128,
}

/// `uuid::Uuid::parse_str`, read out as text and value, or the error's text; `parse_uuid`
/// names the result.
#[verifier::external_body]
pub(crate) fn uuid_parse(input: &str) -> (r: Result<UuidParts, String>)
    ensures
        match r {
            Ok(p) => parse_uuid(input@) == Ok::<(Seq<char>, u128), Seq<char>>((p.canonical@, p.value)),
            Err(m) => parse_uuid(input@) == Err::<(Seq<char>, u128), Seq<char>>(m@),
        },
{
    match uuid::Uuid::parse_str(input) {
        Ok(u) => Ok(UuidParts { canonical: u.to_string(), value: u.as_u128() }),
        Err(e) => Err(e.to_string()),
    }
}

/// `uuid::Uuid::new_v4`, as text. The identifier is random, so nothing is promised of it.
#[verifier::external_body]
pub(crate) fn new_uuid() -> String {
    uuid::Uuid::new_v4().to_string()
}

/// The value of an identifier when it is a UUID, else zero.
pub open spec fn id_seed(id: Seq<char>) -> u128 {
    match parse_uuid(id) {
        Ok(p) => p.1,
        Err(_) => 0,
    }
}

/// Computes `id_seed`.
pub fn seed_of(id: &str) -> (r: u128)
    ensures
        r == id_seed(id@),
{
    match uuid_parse(id) {
        Ok(p) => p.value,
        Err(_) => 0,
    }
}

/// The only origin the service talks to: `https://chatgpt.com` with no port or credentials.
pub open spec fn chatgpt_origin(u: UrlView) -> bool {
    &&& u.scheme == "https"@
    &&& u.host == Some("chatgpt.com"@)
    &&& u.port is None
    &&& u.username.len() == 0
    &&& u.password is None
}

/// `/g/g-p-<id>/project`.
pub open spec fn project_path(path: Seq<char>) -> bool {
    let parts = split_slash(path);
    &&& parts.len() == 4
    &&& parts[1] == "g"@
    &&& has_prefix(parts[2], "g-p-"@)
    &&& parts[2].len() > 4
    &&& parts[3] == "project"@
}

/// A ChatGPT project landing page URL without query or fragment.
pub open spec fn project_url_ok(value: Seq<char>) -> bool {
    match parse_url(value) {
        Ok(u) => chatgpt_origin(u) && u.query is None && u.fragment is None && project_path(
            u.path,
        ),
        Err(_) => false,
    }
}

/// A URL on the ChatGPT origin.
pub open spec fn chat_url_ok(value: Seq<char>) -> bool {
    match parse_url(value) {
        Ok(u) => chatgpt_origin(u),
        Err(_) => false,
    }
}

/// `/c/<id>` or `/g/g-p-<project>/c/<id>` with a non-empty id.
pub open spec fn conversation_path(path: Seq<char>) -> bool {
    let p = split_slash(path);
    ||| p.len() == 3 && p[1] == "c"@ && p[2].len() > 0
    ||| p.len() == 5 && p[1] == "g"@ && has_prefix(p[2], "g-p-"@) && p[3] == "c"@ && p[4].len()
        > 0
}

/// A ChatGPT conversation URL.
pub open spec fn conversation_url_ok(value: Seq<char>) -> bool {
    match parse_url(value) {
        Ok(u) => chatgpt_origin(u) && conversation_path(u.path),
        Err(_) => false,
    }
}

fn literal(s: &str) -> (v: Vec<char>)
    ensures
        v@ == s@,
{
    chars_of(s)
}

fn is_chatgpt_origin(u: &UrlParts) -> (r: bool)
    ensures
        r == chatgpt_origin(u@),
{
    let host_ok = match &u.host {
        Some(h) => same_text(h.as_str(), "chatgpt.com"),
        None => false,
    };
    same_text(u.scheme.as_str(), "https") && host_ok && u.port.is_none() && u.username.as_str().is_empty()
        && u.password.is_none()
}

fn is_project_path(path: &str) -> (r: bool)
    ensures
        r == project_path(path@),
{
    let parts = split_path(path);
    if parts.len() != 4 {
        return false;
    }
    chars_equal(&parts[1], &literal("g")) && starts_with(&parts[2], &literal("g-p-"))
        && parts[2].len() > 4 && chars_equal(&parts[3], &literal("project"))
}

fn is_conversation_path(path: &str) -> (r: bool)
    ensures
        r == conversation_path(path@),
{
    let p = split_path(path);
    if p.len() == 3 {
        chars_equal(&p[1], &literal("c")) && p[2].len() > 0
    } else if p.len() == 5 {
        chars_equal(&p[1], &literal("g")) && starts_with(&p[2], &literal("g-p-")) && chars_equal(
            &p[3],
            &literal("c"),
        ) && p[4].len() > 0
    } else {
        false
    }
}

/// Whether `value` is an HTTPS ChatGPT `/g/<id>/project` URL without query or fragment.
pub fn valid_project_url(value: &str) -> (r: bool)
    ensures
        r == project_url_ok(value@),
{
    match url_parse(value) {
        Ok(u) => is_chatgpt_origin(&u) && u.query.is_none() && u.fragment.is_none()
            && is_project_path(u.path.as_str()),
        Err(_) => false,
    }
}

/// Whether `value` is an address on the ChatGPT origin.
pub fn valid_chat_url(value: &str) -> (r: bool)
    ensures
        r == chat_url_ok(value@),
{
    match url_parse(value) {
        Ok(u) => is_chatgpt_origin(&u),
        Err(_) => false,
    }
}

/// Whether `value` is a ChatGPT conversation URL.
pub fn conversation_url(value: &str) -> (r: bool)
    ensures
        r == conversation_url_ok(value@),
{
    match url_parse(value) {
        Ok(u) => is_chatgpt_origin(&u) && is_conversation_path(u.path.as_str()),
        Err(_) => false,
    }
}

/// A ChatGPT conversation supplied for read-only capture.
pub struct ChatReference {
    pub id: String,
    pub url: String,
}

impl Clone for ChatReference {
    fn clone(&self) -> (r: Self)
        ensures
            r == *self,
    {
        ChatReference { id: self.id.clone(), url: self.url.clone() }
    }
}

/// Why a chat reference was refused.
#[derive(Debug)]
pub enum ReferenceError {
    /// Neither a UUID nor a URL; carries the URL parser's error text.
    NotAUrl(String),
    /// A URL outside `https://chatgpt.com` or carrying a port or credentials.
    WrongOrigin,
    /// A ChatGPT URL that is not a conversation (a project page, a share link, ...).
    NotConversation,
    /// A conversation URL whose last segment is not a UUID; carries the UUID parser's error text.
    BadConversationId(String),
}

/// Spec-level `ReferenceError`.
pub enum ReferenceFault {
    NotAUrl(Seq<char>),
    WrongOrigin,
    NotConversation,
    BadConversationId(Seq<char>),
}

/// The value of a `ReferenceError`.
pub open spec fn fault_of(e: ReferenceError) -> ReferenceFault {
    match e {
        ReferenceError::NotAUrl(m) => ReferenceFault::NotAUrl(m@),
        ReferenceError::WrongOrigin => ReferenceFault::WrongOrigin,
        ReferenceError::NotConversation => ReferenceFault::NotConversation,
        ReferenceError::BadConversationId(m) => ReferenceFault::BadConversationId(m@),
    }
}

/// The message reported for `e`: the parser's own text where a parser refused.
pub open spec fn reference_error_text(e: ReferenceError) -> Seq<char> {
    match e {
        ReferenceError::NotAUrl(m) => m@,
        ReferenceError::WrongOrigin => "Expected a ChatGPT conversation ID or HTTPS chatgpt.com conversation URL"@,
        ReferenceError::NotConversation => "Expected a conversation URL, not a project or share link"@,
        ReferenceError::BadConversationId(m) => m@,
    }
}

impl ReferenceError {
    pub fn message(&self) -> (r: String)
        ensures
            r@ == reference_error_text(*self),
    {
        match self {
            ReferenceError::NotAUrl(m) => m.clone(),
            ReferenceError::WrongOrigin => "Expected a ChatGPT conversation ID or HTTPS chatgpt.com conversation URL".to_owned(),
            ReferenceError::NotConversation => "Expected a conversation URL, not a project or share link".to_owned(),
            ReferenceError::BadConversationId(m) => m.clone(),
        }
    }
}

/// `/c/<id>` or `/g/g-<project>/c/<id>` (any last segment; it is checked as a UUID).
pub open spec fn reference_path(path: Seq<char>) -> bool {
    let p = split_slash(path);
    ||| p.len() == 3 && p[1] == "c"@
    ||| p.len() == 5 && p[1] == "g"@ && has_prefix(p[2], "g-"@) && p[3] == "c"@
}

/// The (id, url) pair that `ChatReference::parse` yields for `input`, or why it refuses it.
pub open spec fn chat_reference(input: Seq<char>) -> Result<(Seq<char>, Seq<char>), ReferenceFault> {
    let t = trimmed(input);
    match parse_uuid(t) {
        Ok((id, _)) => Ok((id, "https://chatgpt.com/c/"@ + id)),
        Err(_) => match parse_url(t) {
            Err(m) => Err(ReferenceFault::NotAUrl(m)),
            Ok(u) => if !chatgpt_origin(u) {
                Err(ReferenceFault::WrongOrigin)
            } else if !reference_path(u.path) {
                Err(ReferenceFault::NotConversation)
            } else {
                match parse_uuid(split_slash(u.path).last()) {
                    Ok((id, _)) => Ok((id, u.base)),
                    Err(m) => Err(ReferenceFault::BadConversationId(m)),
                }
            },
        },
    }
}

impl ChatReference {
    /// Accepts a conversation UUID, or an HTTPS chatgpt.com conversation URL (plain or inside
    /// a project), and returns the canonical id and the URL without query or fragment.
    pub fn parse(input: &str) -> (r: Result<ChatReference, ReferenceError>)
        ensures
            match chat_reference(input@) {
                Ok((id, url)) => r matches Ok(c) && c.id@ == id && c.url@ == url,
                Err(e) => r is Err && fault_of(r->Err_0) == e,
            },
    {
        let t = string_of(&trim(&chars_of(input)));
        if let Ok(p) = uuid_parse(t.as_str()) {
            let mut url = "https://chatgpt.com/c/".to_owned();
            url.append(p.canonical.as_str());
            return Ok(ChatReference { id: p.canonical, url });
        }
        let u = match url_parse(t.as_str()) {
            Ok(u) => u,
            Err(m) => return Err(ReferenceError::NotAUrl(m)),
        };
        if !is_chatgpt_origin(&u) {
            return Err(ReferenceError::WrongOrigin);
        }
        let p = split_path(u.path.as_str());
        let shaped = if p.len() == 3 {
            chars_equal(&p[1], &literal("c"))
        } else if p.len() == 5 {
            chars_equal(&p[1], &literal("g")) && starts_with(&p[2], &literal("g-")) && chars_equal(
                &p[3],
                &literal("c"),
            )
        } else {
            false
        };
        if !shaped {
            return Err(ReferenceError::NotConversation);
        }
        let last = string_of(&p[p.len() - 1]);
        match uuid_parse(last.as_str()) {
            Ok(id) => Ok(ChatReference { id: id.canonical, url: u.base }),
            Err(m) => Err(ReferenceError::BadConversationId(m)),
        }
    }
}

} // verus!

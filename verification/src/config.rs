//! Shared service settings: defaults, validation and the pacing formula.
use crate::links::{project_url_ok, valid_project_url};
use crate::text::{blank, count_words, is_blank, lemma_word_count_bound, word_count};
use vstd::prelude::*;

verus! {

/// Version of the local RPC protocol.
pub const PROTOCOL: u32 = 1;

/// Total prompts a research thread may ever submit, the first one included.
pub const PROMPT_LIMIT: u32 = 10;

/// Settings shared by every opted-in project.
pub struct Config {
    pub model: String,
    pub reasoning_preferences: Vec<String>,
    pub words_per_minute: u32,
    pub fixed_pause_seconds: u64,
    pub pause_jitter_seconds: u64,
    pub inactivity_hours: u64,
    pub inactivity_max_hours: u64,
    pub local_transcript_retention_days: u64,
    pub search_timeout_seconds: u64,
    pub deep_research_timeout_seconds: u64,
    pub chrome_path: Option<String>,
    pub chrome_auto_close: bool,
    pub chrome_idle_timeout_minutes: u64,
    pub chatgpt_project_url: Option<String>,
}

/// The current Unix time in whole seconds: `SystemTime::now()` measured from the epoch,
/// 0 when the clock reads before it (`unwrap_or_default`), and `i64::MAX` for a count of
/// seconds that `i64` cannot hold. The value depends on the clock; what is promised is that
/// it is never negative.
#[verifier::external_body]
pub fn now() -> (r: i64)
    ensures
        r >= 0,
{
    let secs: u64 = std::time::SystemTime::now().duration_since(std::time::UNIX_EPOCH).unwrap_or_default().as_secs();
    i64::try_from(secs).unwrap_or(i64::MAX)
}

pub fn clone_opt_string(o: &Option<String>) -> (r: Option<String>)
    ensures
        r == *o,
{
    match o {
        Some(s) => Some(s.clone()),
        None => None,
    }
}

pub fn clone_strings(v: &Vec<String>) -> (r: Vec<String>)
    ensures
        r@ == v@,
{
    let mut r: Vec<String> = Vec::new();
    let mut i: usize = 0;
    while i < v.len()
        invariant
            i <= v@.len(),
            r@ == v@.take(i as int),
        decreases v@.len() - i,
    {
        r.push(v[i].clone());
        i = i + 1;
        assert(r@ =~= v@.take(i as int));
    }
    assert(r@ =~= v@);
    r
}

/// `Config` with its list of preferences as a sequence.
pub struct ConfigView {
    pub model: String,
    pub reasoning_preferences: Seq<String>,
    pub words_per_minute: u32,
    pub fixed_pause_seconds: u64,
    pub pause_jitter_seconds: u64,
    pub inactivity_hours: u64,
    pub inactivity_max_hours: u64,
    pub local_transcript_retention_days: u64,
    pub search_timeout_seconds: u64,
    pub deep_research_timeout_seconds: u64,
    pub chrome_path: Option<String>,
    pub chrome_auto_close: bool,
    pub chrome_idle_timeout_minutes: u64,
    pub chatgpt_project_url: Option<String>,
}

impl View for Config {
    type V = ConfigView;

    open spec fn view(&self) -> ConfigView {
        ConfigView {
            model: self.model,
            reasoning_preferences: self.reasoning_preferences@,
            words_per_minute: self.words_per_minute,
            fixed_pause_seconds: self.fixed_pause_seconds,
            pause_jitter_seconds: self.pause_jitter_seconds,
            inactivity_hours: self.inactivity_hours,
            inactivity_max_hours: self.inactivity_max_hours,
            local_transcript_retention_days: self.local_transcript_retention_days,
            search_timeout_seconds: self.search_timeout_seconds,
            deep_research_timeout_seconds: self.deep_research_timeout_seconds,
            chrome_path: self.chrome_path,
            chrome_auto_close: self.chrome_auto_close,
            chrome_idle_timeout_minutes: self.chrome_idle_timeout_minutes,
            chatgpt_project_url: self.chatgpt_project_url,
        }
    }
}

impl Clone for Config {
    fn clone(&self) -> (r: Self)
        ensures
            r@ == self@,
    {
        Config {
            model: self.model.clone(),
            reasoning_preferences: clone_strings(&self.reasoning_preferences),
            words_per_minute: self.words_per_minute,
            fixed_pause_seconds: self.fixed_pause_seconds,
            pause_jitter_seconds: self.pause_jitter_seconds,
            inactivity_hours: self.inactivity_hours,
            inactivity_max_hours: self.inactivity_max_hours,
            local_transcript_retention_days: self.local_transcript_retention_days,
            search_timeout_seconds: self.search_timeout_seconds,
            deep_research_timeout_seconds: self.deep_research_timeout_seconds,
            chrome_path: clone_opt_string(&self.chrome_path),
            chrome_auto_close: self.chrome_auto_close,
            chrome_idle_timeout_minutes: self.chrome_idle_timeout_minutes,
            chatgpt_project_url: clone_opt_string(&self.chatgpt_project_url),
        }
    }
}

impl Default for Config {
    fn default() -> (r: Self)
        ensures
            r.model@ == "default"@,
            r.reasoning_preferences@.len() == 2,
            r.reasoning_preferences@[0]@ == "Extra High"@,
            r.reasoning_preferences@[1]@ == "High"@,
            r.words_per_minute == 40,
            r.fixed_pause_seconds == 15,
            r.pause_jitter_seconds == 30,
            r.inactivity_hours == 24,
            r.inactivity_max_hours == 168,
            r.local_transcript_retention_days == 30,
            r.search_timeout_seconds == 900,
            r.deep_research_timeout_seconds == 1800,
            r.chrome_path is None,
            r.chrome_auto_close,
            r.chrome_idle_timeout_minutes == 30,
            r.chatgpt_project_url is None,
    {
        let mut preferences: Vec<String> = Vec::new();
        preferences.push("Extra High".to_owned());
        preferences.push("High".to_owned());
        Config {
            model: "default".to_owned(),
            reasoning_preferences: preferences,
            words_per_minute: 40,
            fixed_pause_seconds: 15,
            pause_jitter_seconds: 30,
            inactivity_hours: 24,
            inactivity_max_hours: 168,
            local_transcript_retention_days: 30,
            search_timeout_seconds: 900,
            deep_research_timeout_seconds: 1800,
            chrome_path: None,
            chrome_auto_close: true,
            chrome_idle_timeout_minutes: 30,
            chatgpt_project_url: None,
        }
    }
}

/// The first setting that `Config::validate` rejects.
#[derive(Clone, Copy, Debug, PartialEq, Eq, Structural)]
pub enum ConfigError {
    ProjectUrl,
    WordsPerMinute,
    FixedPause,
    PauseJitter,
    InactivityHours,
    InactivityMaxHours,
    Model,
    ReasoningPreferences,
    SearchTimeout,
    DeepResearchTimeout,
    ChromeIdleTimeout,
}

/// The message reported for `e`.
pub open spec fn config_error_text(e: ConfigError) -> Seq<char> {
    match e {
        ConfigError::ProjectUrl => "chatgpt_project_url must be an HTTPS ChatGPT /g/<id>/project URL without query or fragment"@,
        ConfigError::WordsPerMinute => "words_per_minute must be 1..300"@,
        ConfigError::FixedPause => "fixed_pause_seconds exceeds 3600"@,
        ConfigError::PauseJitter => "pause_jitter_seconds exceeds 3600"@,
        ConfigError::InactivityHours => "remote_chat_inactivity_hours must be 1..8760"@,
        ConfigError::InactivityMaxHours => "remote_chat_inactivity_max_hours must be remote_chat_inactivity_hours..8760"@,
        ConfigError::Model => "model is empty"@,
        ConfigError::ReasoningPreferences => "reasoning_preferences is empty"@,
        ConfigError::SearchTimeout => "Invalid Search timeout"@,
        ConfigError::DeepResearchTimeout => "Invalid Deep Research timeout"@,
        ConfigError::ChromeIdleTimeout => "chrome_idle_timeout_minutes must be 1..525600"@,
    }
}

impl ConfigError {
    pub fn message(&self) -> (r: String)
        ensures
            r@ == config_error_text(*self),
    {
        match self {
            ConfigError::ProjectUrl => "chatgpt_project_url must be an HTTPS ChatGPT /g/<id>/project URL without query or fragment".to_owned(),
            ConfigError::WordsPerMinute => "words_per_minute must be 1..300".to_owned(),
            ConfigError::FixedPause => "fixed_pause_seconds exceeds 3600".to_owned(),
            ConfigError::PauseJitter => "pause_jitter_seconds exceeds 3600".to_owned(),
            ConfigError::InactivityHours => "remote_chat_inactivity_hours must be 1..8760".to_owned(),
            ConfigError::InactivityMaxHours => "remote_chat_inactivity_max_hours must be remote_chat_inactivity_hours..8760".to_owned(),
            ConfigError::Model => "model is empty".to_owned(),
            ConfigError::ReasoningPreferences => "reasoning_preferences is empty".to_owned(),
            ConfigError::SearchTimeout => "Invalid Search timeout".to_owned(),
            ConfigError::DeepResearchTimeout => "Invalid Deep Research timeout".to_owned(),
            ConfigError::ChromeIdleTimeout => "chrome_idle_timeout_minutes must be 1..525600".to_owned(),
        }
    }
}

/// The first rule that `c` breaks, in the order `validate` checks them, or `None`.
pub open spec fn config_error(c: ConfigView) -> Option<ConfigError> {
    if c.chatgpt_project_url is Some && !project_url_ok(c.chatgpt_project_url->0@) {
        Some(ConfigError::ProjectUrl)
    } else if !(1 <= c.words_per_minute <= 300) {
        Some(ConfigError::WordsPerMinute)
    } else if c.fixed_pause_seconds > 3600 {
        Some(ConfigError::FixedPause)
    } else if c.pause_jitter_seconds > 3600 {
        Some(ConfigError::PauseJitter)
    } else if !(1 <= c.inactivity_hours <= 8760) {
        Some(ConfigError::InactivityHours)
    } else if !(c.inactivity_hours <= c.inactivity_max_hours <= 8760) {
        Some(ConfigError::InactivityMaxHours)
    } else if is_blank(c.model@) {
        Some(ConfigError::Model)
    } else if c.reasoning_preferences.len() == 0 {
        Some(ConfigError::ReasoningPreferences)
    } else if !(60 <= c.search_timeout_seconds <= 86400) {
        Some(ConfigError::SearchTimeout)
    } else if !(60 <= c.deep_research_timeout_seconds <= 86400) {
        Some(ConfigError::DeepResearchTimeout)
    } else if !(1 <= c.chrome_idle_timeout_minutes <= 525600) {
        Some(ConfigError::ChromeIdleTimeout)
    } else {
        None
    }
}

/// A configuration that `validate` accepts.
pub open spec fn config_ok(c: ConfigView) -> bool {
    config_error(c) is None
}

/// Seconds needed to "type" `text` at `wpm` words per minute, rounded up, plus `pause`.
pub open spec fn composition(text: Seq<char>, wpm: u32, pause: u64) -> int
    recommends
        wpm > 0,
{
    (word_count(text) * 60 + wpm - 1) / (wpm as int) + pause
}

impl Config {
    /// Checks every setting; the error names the first one out of range.
    pub fn validate(&self) -> (r: Result<(), ConfigError>)
        ensures
            match config_error(self@) {
                Some(e) => r == Err::<(), ConfigError>(e),
                None => r is Ok,
            },
    {
        if let Some(value) = &self.chatgpt_project_url {
            if !valid_project_url(value.as_str()) {
                return Err(ConfigError::ProjectUrl);
            }
        }
        if !(1 <= self.words_per_minute && self.words_per_minute <= 300) {
            return Err(ConfigError::WordsPerMinute);
        }
        if self.fixed_pause_seconds > 3600 {
            return Err(ConfigError::FixedPause);
        }
        if self.pause_jitter_seconds > 3600 {
            return Err(ConfigError::PauseJitter);
        }
        if !(1 <= self.inactivity_hours && self.inactivity_hours <= 8760) {
            return Err(ConfigError::InactivityHours);
        }
        if !(self.inactivity_hours <= self.inactivity_max_hours && self.inactivity_max_hours
            <= 8760) {
            return Err(ConfigError::InactivityMaxHours);
        }
        if blank(self.model.as_str()) {
            return Err(ConfigError::Model);
        }
        if self.reasoning_preferences.len() == 0 {
            return Err(ConfigError::ReasoningPreferences);
        }
        if !(60 <= self.search_timeout_seconds && self.search_timeout_seconds <= 86400) {
            return Err(ConfigError::SearchTimeout);
        }
        if !(60 <= self.deep_research_timeout_seconds && self.deep_research_timeout_seconds
            <= 86400) {
            return Err(ConfigError::DeepResearchTimeout);
        }
        if !(1 <= self.chrome_idle_timeout_minutes && self.chrome_idle_timeout_minutes <= 525600) {
            return Err(ConfigError::ChromeIdleTimeout);
        }
        Ok(())
    }

    /// Delay before sending `text`: `ceil(words * 60 / words_per_minute)` plus the fixed pause.
    pub fn composition_seconds(&self, text: &str) -> (r: u64)
        requires
            self.words_per_minute > 0,
            composition(text@, self.words_per_minute, self.fixed_pause_seconds) <= u64::MAX,
        ensures
            r == composition(text@, self.words_per_minute, self.fixed_pause_seconds),
    {
        let words = count_words(text);
        proof {
            lemma_word_count_bound(text@);
        }
        let scaled: u128 = words as u128 * 60;
        let wpm: u128 = self.words_per_minute as u128;
        let typing: u128 = (scaled + wpm - 1) / wpm;
        assert(typing <= composition(text@, self.words_per_minute, self.fixed_pause_seconds));
        (typing + self.fixed_pause_seconds as u128) as u64
    }
}

} // verus!

//! Provider selection for the desktop app shell: which inference backend a
//! configuration actually reaches, falling back to the built-in patterns
//! when the chosen backend has no credentials.

use vstd::prelude::*;
use vstd::string::{StrSliceExecFns, StringExecFns};

verus! {

/// The inference backend a configuration names.
#[derive(Debug, Clone, PartialEq, Eq, Structural)]
pub enum ProviderMode {
    ElizaClassic,
    OpenAI,
    XAI,
}

/// Credentials and model names for the remote backends.
#[derive(Debug, Clone)]
pub struct ProviderSettings {
    pub openai_api_key: String,
    pub openai_base_url: String,
    pub openai_small_model: String,
    pub openai_large_model: String,
    pub xai_api_key: String,
    pub xai_base_url: String,
    pub xai_small_model: String,
    pub xai_large_model: String,
}

/// The app shell's configuration: the chosen mode and the provider
/// settings.
#[derive(Debug, Clone)]
pub struct AppConfig {
    pub mode: ProviderMode,
    pub provider: ProviderSettings,
}

/// Whether a character counts as white space.
pub open spec fn is_space(c: char) -> bool {
    c == ' ' || c == '\t' || c == '\n' || c == '\r' || c == '\u{b}' || c == '\u{c}' || c
        == '\u{85}' || c == '\u{a0}' || c == '\u{1680}' || ('\u{2000}' <= c && c <= '\u{200a}')
        || c == '\u{2028}' || c == '\u{2029}' || c == '\u{202f}' || c == '\u{205f}' || c
        == '\u{3000}'
}

/// Whether a piece of text holds nothing but white space.
pub open spec fn all_space(s: Seq<char>) -> bool {
    forall|i: int| 0 <= i < s.len() ==> is_space(#[trigger] s[i])
}

/// Whether one character counts as white space.
pub fn char_is_space(c: char) -> (r: bool)
    ensures
        r == is_space(c),
{
    c == ' ' || c == '\t' || c == '\n' || c == '\r' || c == '\u{b}' || c == '\u{c}' || c
        == '\u{85}' || c == '\u{a0}' || c == '\u{1680}' || (c >= '\u{2000}' && c <= '\u{200a}')
        || c == '\u{2028}' || c == '\u{2029}' || c == '\u{202f}' || c == '\u{205f}' || c
        == '\u{3000}'
}

/// Whether a piece of text holds nothing but white space.
#[verifier::loop_isolation(false)]
pub fn is_blank(s: &str) -> (r: bool)
    ensures
        r == all_space(s@),
{
    let n = s.unicode_len();
    let mut i: usize = 0;
    while i < n
        invariant
            0 <= i <= n,
            n == s@.len(),
            forall|j: int| 0 <= j < i ==> is_space(#[trigger] s@[j]),
        decreases n - i,
    {
        if !char_is_space(s.get_char(i)) {
            return false;
        }
        i = i + 1;
    }
    true
}

/// The mode a configuration actually reaches.
pub open spec fn effective_mode_of(cfg: AppConfig) -> ProviderMode {
    match cfg.mode {
        ProviderMode::ElizaClassic => ProviderMode::ElizaClassic,
        ProviderMode::OpenAI => if all_space(cfg.provider.openai_api_key@) {
            ProviderMode::ElizaClassic
        } else {
            ProviderMode::OpenAI
        },
        ProviderMode::XAI => if all_space(cfg.provider.xai_api_key@) {
            ProviderMode::ElizaClassic
        } else {
            ProviderMode::XAI
        },
    }
}

/// The mode a configuration actually reaches: the chosen one when its
/// credentials hold anything, else the built-in patterns.
pub fn effective_mode(cfg: &AppConfig) -> (r: ProviderMode)
    ensures
        r == effective_mode_of(*cfg),
{
    match cfg.mode {
        ProviderMode::ElizaClassic => ProviderMode::ElizaClassic,
        ProviderMode::OpenAI => {
            if is_blank(cfg.provider.openai_api_key.as_str()) {
                ProviderMode::ElizaClassic
            } else {
                ProviderMode::OpenAI
            }
        },
        ProviderMode::XAI => {
            if is_blank(cfg.provider.xai_api_key.as_str()) {
                ProviderMode::ElizaClassic
            } else {
                ProviderMode::XAI
            }
        },
    }
}

impl Default for AppConfig {
    /// The stock configuration: built-in patterns, no credentials, stock
    /// endpoints and model names.
    fn default() -> (r: AppConfig)
        ensures
            r.mode == ProviderMode::ElizaClassic,
            r.provider.openai_api_key@ == Seq::<char>::empty(),
            r.provider.xai_api_key@ == Seq::<char>::empty(),
            r.provider.openai_base_url@ == "https://api.openai.com/v1"@,
            r.provider.xai_base_url@ == "https://api.x.ai/v1"@,
    {
        AppConfig {
            mode: ProviderMode::ElizaClassic,
            provider: ProviderSettings {
                openai_api_key: String::new(),
                openai_base_url: String::from_str("https://api.openai.com/v1"),
                openai_small_model: String::from_str("gpt-5-mini"),
                openai_large_model: String::from_str("gpt-5"),
                xai_api_key: String::new(),
                xai_base_url: String::from_str("https://api.x.ai/v1"),
                xai_small_model: String::from_str("grok-3-mini"),
                xai_large_model: String::from_str("grok-3"),
            },
        }
    }
}

} // verus!

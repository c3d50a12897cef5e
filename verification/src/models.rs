//! Data carried through one translation call: the user's settings snapshot,
//! the request handed to a session, and the response produced on success.

use vstd::prelude::*;
use vstd::string::StringExecFns;

verus! {

/// User-configurable provider credentials and defaults.  A snapshot is
/// cloned into a translation session for the duration of one call; a
/// session must never be started with an empty `api_key`.
#[derive(Debug, Clone, PartialEq, Eq)]
pub struct Settings {
    pub api_key: String,
    pub model: String,
    pub provider: String,
    pub system_prompt: String,
    pub default_source_language: String,
    pub default_target_language: String,
}

/// Mathematical image of `Settings`: each field as a character sequence.
pub ghost struct SettingsView {
    pub api_key: Seq<char>,
    pub model: Seq<char>,
    pub provider: Seq<char>,
    pub system_prompt: Seq<char>,
    pub default_source_language: Seq<char>,
    pub default_target_language: Seq<char>,
}

impl View for Settings {
    type V = SettingsView;

    open spec fn view(&self) -> SettingsView {
        SettingsView {
            api_key: self.api_key@,
            model: self.model@,
            provider: self.provider@,
            system_prompt: self.system_prompt@,
            default_source_language: self.default_source_language@,
            default_target_language: self.default_target_language@,
        }
    }
}

/// One translation to perform: the text and its language pair.
#[derive(Debug, Clone, PartialEq, Eq)]
pub struct TranslationRequest {
    pub text: String,
    pub source_language: String,
    pub target_language: String,
}

/// Mathematical image of `TranslationRequest`.
pub ghost struct TranslationRequestView {
    pub text: Seq<char>,
    pub source_language: Seq<char>,
    pub target_language: Seq<char>,
}

impl View for TranslationRequest {
    type V = TranslationRequestView;

    open spec fn view(&self) -> TranslationRequestView {
        TranslationRequestView {
            text: self.text@,
            source_language: self.source_language@,
            target_language: self.target_language@,
        }
    }
}

/// The outcome of one successful session: the full translated text and the
/// language pair of the originating request.
#[derive(Debug, Clone, PartialEq, Eq)]
pub struct TranslationResponse {
    pub translated_text: String,
    pub source_language: String,
    pub target_language: String,
}

/// Mathematical image of `TranslationResponse`.
pub ghost struct TranslationResponseView {
    pub translated_text: Seq<char>,
    pub source_language: Seq<char>,
    pub target_language: Seq<char>,
}

impl View for TranslationResponse {
    type V = TranslationResponseView;

    open spec fn view(&self) -> TranslationResponseView {
        TranslationResponseView {
            translated_text: self.translated_text@,
            source_language: self.source_language@,
            target_language: self.target_language@,
        }
    }
}

/// The instruction given to the model when the user has not configured one.
pub open spec fn default_system_prompt_spec() -> Seq<char> {
    "You are an expert translator. Your goal is to preserve the semantic meaning and contextual nuance of the source text rather than providing a word-for-word literal translation. Consider cultural context, idiomatic expressions, and the intended tone of the original text. Produce a natural, fluent translation that a native speaker would find authentic and easy to understand."@
}

/// Executable copy of the default system prompt.
pub fn default_system_prompt() -> (s: String)
    ensures
        s@ == default_system_prompt_spec(),
{
    String::from_str(
        "You are an expert translator. Your goal is to preserve the semantic meaning and contextual nuance of the source text rather than providing a word-for-word literal translation. Consider cultural context, idiomatic expressions, and the intended tone of the original text. Produce a natural, fluent translation that a native speaker would find authentic and easy to understand.",
    )
}

impl Default for Settings {
    /// The documented defaults: no credential, the stock model, provider and
    /// prompt, and the `en` to `es` language pair.
    fn default() -> (s: Settings)
        ensures
            s@.api_key == Seq::<char>::empty(),
            s@.model == "gpt-5-mini-2025-08-07"@,
            s@.provider == "openai"@,
            s@.system_prompt == default_system_prompt_spec(),
            s@.default_source_language == "en"@,
            s@.default_target_language == "es"@,
    {
        Settings {
            api_key: String::new(),
            model: String::from_str("gpt-5-mini-2025-08-07"),
            provider: String::from_str("openai"),
            system_prompt: default_system_prompt(),
            default_source_language: String::from_str("en"),
            default_target_language: String::from_str("es"),
        }
    }
}

} // verus!

//! The messages exchanged with the translation service, and the credential
//! that a request is made with.

use vstd::prelude::*;
use vstd::string::StringExecFns;
use crate::text::str_eq;

verus! {

pub const DEEPL_FREE_API_URL: &'static str = "https://api-free.deepl.com/v2";

pub const DEEPL_PRO_API_URL: &'static str = "https://api.deepl.com/v2";

pub const DEEPL_MOCK_API_URL: &'static str = "http://127.0.0.1:3030";

pub const DEEPL_TRANSLATE_PATH: &'static str = "/translate";

pub const DEEPL_USAGE_PATH: &'static str = "/usage";

pub const DEEPL_LANGUAGES_PATH: &'static str = "/languages";

/// Body of a translation request.
#[derive(Clone, Debug)]
pub struct TranslationRequest {
    pub text: Vec<String>,
    pub target_lang: String,
}

/// Body of the answer to a translation request.
#[derive(Clone, Debug)]
pub struct TranslationResponse {
    pub translations: Vec<Translation>,
}

/// One translated text.
#[derive(Clone, Debug)]
pub struct Translation {
    pub detected_source_language: String,
    pub text: String,
}

/// The service's account of what was used and what may be used.
#[derive(Clone, Debug)]
pub struct UsageResponse {
    pub character_count: u64,
    pub character_limit: u64,
}

/// One language that the service offers.
#[derive(Clone, Debug, PartialEq, Eq)]
pub struct Language {
    pub language: String,
    pub name: String,
}

/// The list of languages that the service offers.
#[derive(Clone, Debug, PartialEq, Eq)]
pub struct LanguagesResponse(pub Vec<Language>);

/// An API key together with the endpoint it is valid for.
#[derive(Clone, Debug)]
pub struct DeepLConfiguration {
    pub auth_key: String,
    pub api_url: String,
}

impl DeepLConfiguration {
    /// The credential for `auth_key`, with the endpoint of the paid service
    /// if `is_pro`, else with that of the free one.
    pub fn new(auth_key: String, is_pro: bool) -> (config: Self)
        ensures
            config.auth_key == auth_key,
            config.api_url@ == if is_pro {
                DEEPL_PRO_API_URL@
            } else {
                DEEPL_FREE_API_URL@
            },
    {
        let api_url = if is_pro {
            DEEPL_PRO_API_URL
        } else {
            DEEPL_FREE_API_URL
        };
        Self { auth_key, api_url: String::from_str(api_url) }
    }
}

impl TranslationRequest {
    /// The request to translate the one text `text` into `target_lang`.
    pub fn new(text: &str, target_lang: &str) -> (request: Self)
        ensures
            request.text@.len() == 1,
            request.text@[0]@ == text@,
            request.target_lang@ == target_lang@,
    {
        let mut texts: Vec<String> = Vec::new();
        texts.push(String::from_str(text));
        Self { text: texts, target_lang: String::from_str(target_lang) }
    }
}

impl TranslationResponse {
    /// The first translation's text; `None` where the answer holds no
    /// translation, which counts as a failed request.
    pub fn first_text(self) -> (text: Option<String>)
        ensures
            self.translations@.len() == 0 ==> text is None,
            self.translations@.len() > 0 ==> text == Some(self.translations@[0].text),
    {
        let mut translations = self.translations;
        if translations.len() == 0 {
            None
        } else {
            let first = translations.swap_remove(0);
            Some(first.text)
        }
    }
}

impl UsageResponse {
    /// What is left to use, as the contracts see it.
    pub open spec fn spec_residual(&self) -> int {
        if self.character_count <= self.character_limit {
            self.character_limit - self.character_count
        } else {
            0
        }
    }

    /// The characters that may still be translated: the limit less what was
    /// used, and nothing where more was used than the limit allows.
    pub fn residual(&self) -> (left: u64)
        ensures
            left == self.spec_residual(),
    {
        if self.character_count <= self.character_limit {
            self.character_limit - self.character_count
        } else {
            0
        }
    }
}

impl LanguagesResponse {
    /// Whether the list names the language code `code`, letter for letter.
    pub open spec fn spec_supports(&self, code: Seq<char>) -> bool {
        exists|i: int| 0 <= i < self.0@.len() && (#[trigger] self.0@[i]).language@ == code
    }

    /// Whether the service offers the language `code`. Codes are compared
    /// exactly: `en-us` is not `EN-US`.
    pub fn supports(&self, code: &str) -> (found: bool)
        ensures
            found == self.spec_supports(code@),
    {
        let mut i: usize = 0;
        while i < self.0.len()
            invariant
                i <= self.0@.len(),
                forall|j: int| 0 <= j < i ==> (#[trigger] self.0@[j]).language@ != code@,
            decreases self.0.len() - i,
        {
            if str_eq(self.0[i].language.as_str(), code) {
                return true;
            }
            i += 1;
        }
        false
    }
}

} // verus!

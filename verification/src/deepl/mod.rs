//! Requests to the translation service, and the answers of the stand-in
//! service that tests run against.

pub mod models;

use vstd::prelude::*;
use vstd::string::StringExecFns;
use crate::deepl::models::{
    DeepLConfiguration, Language, LanguagesResponse, Translation, TranslationRequest,
    TranslationResponse, UsageResponse, DEEPL_LANGUAGES_PATH, DEEPL_MOCK_API_URL,
    DEEPL_PRO_API_URL, DEEPL_TRANSLATE_PATH, DEEPL_USAGE_PATH,
};
use crate::text::{joined, str_eq};

verus! {

/// A request without a body: where it goes and what authorises it.
#[derive(Clone, Debug)]
pub struct Query {
    pub url: String,
    /// Value of the `Authorization` header.
    pub authorization: String,
}

/// A translation request: where it goes, what authorises it, and its body.
#[derive(Clone, Debug)]
pub struct TranslationCall {
    pub url: String,
    /// Value of the `Authorization` header.
    pub authorization: String,
    pub body: TranslationRequest,
}

/// The `Authorization` header for `key`, as the contracts see it.
pub open spec fn spec_authorization(key: Seq<char>) -> Seq<char> {
    "DeepL-Auth-Key "@ + key
}

/// The value of the `Authorization` header that goes with a credential.
pub fn authorization(config: &DeepLConfiguration) -> (header: String)
    ensures
        header@ == spec_authorization(config.auth_key@),
{
    joined("DeepL-Auth-Key ", config.auth_key.as_str())
}

/// The request for the translation of `text` into `target_lang`, made with
/// the credential `config`.
pub fn translate_request(config: &DeepLConfiguration, text: &str, target_lang: &str) -> (call:
    TranslationCall)
    ensures
        call.url@ == config.api_url@ + DEEPL_TRANSLATE_PATH@,
        call.authorization@ == spec_authorization(config.auth_key@),
        call.body.text@.len() == 1,
        call.body.text@[0]@ == text@,
        call.body.target_lang@ == target_lang@,
{
    TranslationCall {
        url: joined(config.api_url.as_str(), DEEPL_TRANSLATE_PATH),
        authorization: authorization(config),
        body: TranslationRequest::new(text, target_lang),
    }
}

/// The request for the account's usage.
pub fn usage_request(config: &DeepLConfiguration) -> (query: Query)
    ensures
        query.url@ == config.api_url@ + DEEPL_USAGE_PATH@,
        query.authorization@ == spec_authorization(config.auth_key@),
{
    Query {
        url: joined(config.api_url.as_str(), DEEPL_USAGE_PATH),
        authorization: authorization(config),
    }
}

/// The request for the list of languages.
pub fn languages_request(config: &DeepLConfiguration) -> (query: Query)
    ensures
        query.url@ == config.api_url@ + DEEPL_LANGUAGES_PATH@,
        query.authorization@ == spec_authorization(config.auth_key@),
{
    Query {
        url: joined(config.api_url.as_str(), DEEPL_LANGUAGES_PATH),
        authorization: authorization(config),
    }
}

/// The request that tells a paid key from a free one: the usage of the key
/// at the paid service. The key is a paid one exactly if the service
/// answers it with success.
pub fn api_type_probe(auth_key: &str) -> (query: Query)
    ensures
        query.url@ == DEEPL_PRO_API_URL@ + DEEPL_USAGE_PATH@,
        query.authorization@ == spec_authorization(auth_key@),
{
    Query {
        url: joined(DEEPL_PRO_API_URL, DEEPL_USAGE_PATH),
        authorization: joined("DeepL-Auth-Key ", auth_key),
    }
}

/// Whether an HTTP status is one of success: 200 to 299.
pub open spec fn is_success(status: u16) -> bool {
    200 <= status < 300
}

/// Tells whether an answer with this HTTP status is a failure: every status
/// but those of success is.
pub fn reply_failed(status: u16) -> (b: bool)
    ensures
        b == !is_success(status),
{
    !(200 <= status && status < 300)
}

/// Tells from the probe whether a key belongs to the paid service. `probe`
/// is the status that the paid service answered with, or `None` where no
/// answer came. The key is a paid one exactly if the answer came and its
/// status is one of success; in every other case it is a free one.
pub fn key_is_pro(probe: Option<u16>) -> (b: bool)
    ensures
        b == (probe matches Some(status) && is_success(status)),
{
    match probe {
        Some(status) => 200 <= status && status < 300,
        None => false,
    }
}

/// What a translation request has given: the first translation of the
/// answer. A request that failed on the way (`None`) and an answer without
/// a translation are both failures.
pub fn translated_text(reply: Option<TranslationResponse>) -> (text: Option<String>)
    ensures
        text is Some <==> (reply matches Some(r) && r.translations@.len() > 0),
        text matches Some(t) ==> t == reply->0.translations@[0].text,
{
    match reply {
        Some(response) => response.first_text(),
        None => None,
    }
}

/// The credential for the stand-in service.
pub fn get_test_config() -> (config: DeepLConfiguration)
    ensures
        config.api_url@ == DEEPL_MOCK_API_URL@ + "/v2"@,
        config.auth_key@ == "mock_auth_key"@,
{
    DeepLConfiguration {
        api_url: joined(DEEPL_MOCK_API_URL, "/v2"),
        auth_key: String::from_str("mock_auth_key"),
    }
}

/// What the stand-in service makes of a text, as the contracts see it.
pub open spec fn spec_mock_translation(text: Seq<char>, target_lang: Seq<char>) -> Seq<char> {
    "--|"@ + text + "|-- Translated to "@ + target_lang
}

/// The stand-in service's translation of `text` into `target_lang`.
pub fn mock_translation(text: &str, target_lang: &str) -> (translated: String)
    ensures
        translated@ == spec_mock_translation(text@, target_lang@),
{
    let mut out = joined("--|", text);
    out.append("|-- Translated to ");
    out.append(target_lang);
    out
}

/// The stand-in service's answer to a translation request: the first text,
/// translated; `None` for a request without a text.
pub fn mock_translate(request: &TranslationRequest) -> (reply: Option<TranslationResponse>)
    ensures
        reply is Some <==> request.text@.len() > 0,
        reply matches Some(r) ==> {
            &&& r.translations@.len() == 1
            &&& r.translations@[0].detected_source_language@ == "EN"@
            &&& r.translations@[0].text@ == spec_mock_translation(
                request.text@[0]@,
                request.target_lang@,
            )
        },
{
    if request.text.len() == 0 {
        return None;
    }
    let mut translations: Vec<Translation> = Vec::new();
    translations.push(
        Translation {
            detected_source_language: String::from_str("EN"),
            text: mock_translation(request.text[0].as_str(), request.target_lang.as_str()),
        },
    );
    Some(TranslationResponse { translations })
}

/// The stand-in service's account of usage.
pub fn mock_usage() -> (usage: UsageResponse)
    ensures
        usage.character_count == 1000,
        usage.character_limit == 500000,
{
    UsageResponse { character_count: 1000, character_limit: 500000 }
}

/// The stand-in service's list of languages: all of `known`, unless the
/// query asks for `type=target`, which it answers with an empty list.
pub fn mock_languages(known: LanguagesResponse, type_param: Option<&str>) -> (listed:
    LanguagesResponse)
    ensures
        (type_param matches Some(t) && t@ == "target"@) ==> listed.0@.len() == 0,
        !(type_param matches Some(t) && t@ == "target"@) ==> listed == known,
{
    let targets_only = match type_param {
        Some(t) => str_eq(t, "target"),
        None => false,
    };
    if targets_only {
        let none: Vec<Language> = Vec::new();
        LanguagesResponse(none)
    } else {
        known
    }
}

} // verus!

//! Model endpoints: which protocol a provider speaks, where its endpoint
//! is, how a request is authenticated, and how a failed response reads.
use vstd::prelude::*;

use crate::text::{
    byte_len, char_count, concat, decimal, utf8_len, push_decimal, strip_back, strip_end_char, take_chars, take_chars_str, trim,
    trim_str, CharSet,
};

verus! {

/// The protocol a model endpoint speaks.
#[derive(Clone, Copy, PartialEq, Eq, Structural)]
pub enum ProviderKind {
    OpenaiResponses,
    AnthropicMessages,
    OpenaiCompatible,
}

/// One configured model endpoint.
pub struct ModelEndpointConfig {
    pub provider: ProviderKind,
    pub base_url: String,
    pub model: String,
    pub credential_ref: Option<String>,
    pub max_output_tokens: u32,
}

impl Default for ModelEndpointConfig {
    fn default() -> (c: Self)
        ensures
            c.provider == ProviderKind::OpenaiResponses,
            c.base_url@ == "https://api.openai.com/v1"@,
            c.model@ == Seq::<char>::empty(),
            c.credential_ref is None,
            c.max_output_tokens == 300,
    {
        ModelEndpointConfig {
            provider: ProviderKind::OpenaiResponses,
            base_url: String::from_str("https://api.openai.com/v1"),
            model: String::new(),
            credential_ref: None,
            max_output_tokens: 300,
        }
    }
}

impl ModelEndpointConfig {
    /// A copy of this configuration.
    pub fn duplicate(&self) -> (c: Self)
        ensures
            c.provider == self.provider,
            c.base_url@ == self.base_url@,
            c.model@ == self.model@,
            c.credential_ref.is_some() == self.credential_ref.is_some(),
            c.credential_ref.is_some() ==> c.credential_ref->0@ == self.credential_ref->0@,
            c.max_output_tokens == self.max_output_tokens,
    {
        ModelEndpointConfig {
            provider: self.provider,
            base_url: self.base_url.clone(),
            model: self.model.clone(),
            credential_ref: match &self.credential_ref {
                Some(r) => Some(r.clone()),
                None => None,
            },
            max_output_tokens: self.max_output_tokens,
        }
    }
}

/// The base URL without surrounding whitespace and trailing slashes.
pub open spec fn clean_base(base_url: Seq<char>) -> Seq<char> {
    strip_back(trim(base_url), CharSet::Only('/'))
}

/// `clamp(1, 8192)`.
pub open spec fn clamp_tokens(n: u32) -> u32 {
    if n < 1 {
        1
    } else if n > 8192 {
        8192
    } else {
        n
    }
}

/// The path that each protocol appends to the base URL.
pub open spec fn endpoint_suffix(provider: ProviderKind) -> Seq<char> {
    match provider {
        ProviderKind::OpenaiResponses => "/responses"@,
        ProviderKind::AnthropicMessages => "/messages"@,
        ProviderKind::OpenaiCompatible => "/chat/completions"@,
    }
}

/// Cleans a configuration before it is saved: trimmed base URL without
/// trailing slashes, trimmed model name, output tokens within 1..=8192.
pub fn normalize_endpoint_config(config: ModelEndpointConfig) -> (res: ModelEndpointConfig)
    ensures
        res.provider == config.provider,
        res.base_url@ == clean_base(config.base_url@),
        res.model@ == trim(config.model@),
        res.credential_ref == config.credential_ref,
        res.max_output_tokens == clamp_tokens(config.max_output_tokens),
{
    let mut config = config;
    let trimmed = trim_str(config.base_url.as_str());
    config.base_url = strip_end_char(trimmed.as_str(), '/');
    config.model = trim_str(config.model.as_str());
    config.max_output_tokens = if config.max_output_tokens < 1 {
        1
    } else if config.max_output_tokens > 8192 {
        8192
    } else {
        config.max_output_tokens
    };
    config
}

pub open spec fn endpoint_missing(config: ModelEndpointConfig) -> bool {
    clean_base(config.base_url@).len() == 0 || trim(config.model@).len() == 0
}

/// The full endpoint URL of a configuration, or the message that asks for
/// a base URL and a model name.
pub fn endpoint_url(config: &ModelEndpointConfig) -> (res: Result<String, String>)
    ensures
        endpoint_missing(*config) ==> (res matches Err(e) && e@ == "请先填写模型地址和模型名称"@),
        !endpoint_missing(*config) ==> (res matches Ok(url) && url@ == clean_base(config.base_url@)
            + endpoint_suffix(config.provider)),
{
    let trimmed = trim_str(config.base_url.as_str());
    let base = strip_end_char(trimmed.as_str(), '/');
    let model = trim_str(config.model.as_str());
    if base.as_str().unicode_len() == 0 || model.as_str().unicode_len() == 0 {
        return Err(String::from_str("请先填写模型地址和模型名称"));
    }
    let suffix = match config.provider {
        ProviderKind::OpenaiResponses => "/responses",
        ProviderKind::AnthropicMessages => "/messages",
        ProviderKind::OpenaiCompatible => "/chat/completions",
    };
    Ok(concat(base.as_str(), suffix))
}

/// What reading an API key from the system keyring gave.
pub enum KeyringRead {
    /// The keyring could not be opened; the text is its error.
    Unavailable(String),
    /// A stored password.
    Password(String),
    /// No entry is stored under the reference.
    NoEntry,
    /// Reading failed; the text is its error.
    Failed(String),
}

/// The API key of an endpoint, from what the keyring returned for its
/// credential reference: an empty password counts as none, a missing
/// entry is no key, and any other failure is an error.
pub fn get_secret(reference: &Option<String>, read: KeyringRead) -> (res: Result<
    Option<String>,
    String,
>)
    ensures
        reference is None ==> res == Ok::<Option<String>, String>(None),
        reference is Some ==> match read {
            KeyringRead::Unavailable(e) => res matches Err(m) && m@ == "无法访问系统密钥环: "@ + e@,
            KeyringRead::Password(p) => if p@.len() > 0 {
                res matches Ok(Some(k)) && k@ == p@
            } else {
                res matches Ok(None)
            },
            KeyringRead::NoEntry => res matches Ok(None),
            KeyringRead::Failed(e) => res matches Err(m) && m@ == "无法读取 API Key: "@ + e@,
        },
{
    if reference.is_none() {
        return Ok(None);
    }
    match read {
        KeyringRead::Unavailable(e) => Err(concat("无法访问系统密钥环: ", e.as_str())),
        KeyringRead::Password(p) => {
            if p.as_str().unicode_len() > 0 {
                Ok(Some(p))
            } else {
                Ok(None)
            }
        },
        KeyringRead::NoEntry => Ok(None),
        KeyringRead::Failed(e) => Err(concat("无法读取 API Key: ", e.as_str())),
    }
}

/// The endpoint URL together with its API key, or why there is none.
/// The configuration is checked before the key is looked at.
pub fn normalized_endpoint(config: &ModelEndpointConfig, secret: Result<Option<String>, String>) -> (res:
    Result<(String, Option<String>), String>)
    ensures
        endpoint_missing(*config) ==> (res matches Err(e) && e@ == "请先填写模型地址和模型名称"@),
        !endpoint_missing(*config) ==> match secret {
            Err(e) => res matches Err(m) && m@ == e@,
            Ok(key) => res matches Ok((url, k)) && url@ == clean_base(config.base_url@)
                + endpoint_suffix(config.provider) && k == key,
        },
{
    let url = endpoint_url(config)?;
    let key = secret?;
    Ok((url, key))
}

/// `http::HeaderValue::from_str` accepts a byte when it is visible ASCII,
/// a space, a tab or any byte of a non-ASCII character.
pub open spec fn header_char_ok(c: char) -> bool {
    ((c as u32) >= 32 && (c as u32) != 127) || c == '\t'
}

pub open spec fn valid_header_value(s: Seq<char>) -> bool {
    forall|i: int| 0 <= i < s.len() ==> header_char_ok(#[trigger] s[i])
}

/// Calls `reqwest::header::HeaderValue::from_str` (from the `http` crate).
/// Its source accepts exactly the strings whose UTF-8 bytes are all
/// `b >= 32 && b != 127 || b == b'\t'`; every byte of a non-ASCII character
/// is at least 0x80, hence the character-level statement. The error's
/// `Display` text is the fixed "failed to parse header value".
#[verifier::external_body]
fn check_header_value(s: &str) -> (res: Result<(), String>)
    ensures
        res is Ok <==> valid_header_value(s@),
        res matches Err(e) ==> e@ == "failed to parse header value"@,
{
    reqwest::header::HeaderValue::from_str(s).map(|_| ()).map_err(|error| error.to_string())
}

/// The views of a list of header pairs.
pub open spec fn header_views(h: Seq<(String, String)>) -> Seq<(Seq<char>, Seq<char>)> {
    h.map_values(|p: (String, String)| (p.0@, p.1@))
}

/// The headers of a model request, in the order they are inserted.
pub open spec fn auth_header_list(provider: ProviderKind, secret: Option<Seq<char>>) -> Seq<
    (Seq<char>, Seq<char>),
> {
    let base = seq![
        ("content-type"@, "application/json"@),
        ("accept"@, "text/event-stream"@),
    ];
    match provider {
        ProviderKind::AnthropicMessages => match secret {
            Some(k) => base + seq![("x-api-key"@, k), ("anthropic-version"@, "2023-06-01"@)],
            None => base + seq![("anthropic-version"@, "2023-06-01"@)],
        },
        _ => match secret {
            Some(k) => base + seq![("authorization"@, "Bearer "@ + k)],
            None => base,
        },
    }
}

/// The credential header value that must be a valid header value.
pub open spec fn auth_value(provider: ProviderKind, secret: Seq<char>) -> Seq<char> {
    match provider {
        ProviderKind::AnthropicMessages => secret,
        _ => "Bearer "@ + secret,
    }
}

fn pair(a: &str, b: &str) -> (p: (String, String))
    ensures
        p.0@ == a@,
        p.1@ == b@,
{
    (String::from_str(a), String::from_str(b))
}

/// `auth_headers`: the header list of a request, or the header error when
/// the API key cannot stand in a header.
pub fn auth_headers(provider: ProviderKind, secret: Option<&str>) -> (res: Result<
    Vec<(String, String)>,
    String,
>)
    ensures
        match secret {
            Some(k) => if valid_header_value(auth_value(provider, k@)) {
                res matches Ok(h) && header_views(h@) == auth_header_list(provider, Some(k@))
            } else {
                res matches Err(e) && e@ == "failed to parse header value"@
            },
            None => res matches Ok(h) && header_views(h@) == auth_header_list(provider, None),
        },
{
    let mut headers: Vec<(String, String)> = Vec::new();
    headers.push(pair("content-type", "application/json"));
    headers.push(pair("accept", "text/event-stream"));
    match provider {
        ProviderKind::AnthropicMessages => {
            if let Some(k) = secret {
                check_header_value(k)?;
                headers.push(pair("x-api-key", k));
            }
            headers.push(pair("anthropic-version", "2023-06-01"));
        },
        _ => {
            if let Some(k) = secret {
                let value = concat("Bearer ", k);
                check_header_value(value.as_str())?;
                headers.push((String::from_str("authorization"), value));
            }
        },
    }
    proof {
        match secret {
            Some(k) => assert(header_views(headers@) =~= auth_header_list(provider, Some(k@))),
            None => assert(header_views(headers@) =~= auth_header_list(provider, None)),
        }
    }
    Ok(headers)
}

/// The text of a failed HTTP response: its status code and at most the
/// first 400 characters of its body.
pub fn http_error_message(status: u16, body: &str) -> (res: String)
    ensures
        res@ == "模型返回 HTTP "@ + decimal(status as nat) + ": "@ + take_chars(body@, 400),
{
    let mut out = String::from_str("模型返回 HTTP ");
    push_decimal(&mut out, status as u64);
    out.append(": ");
    let head = take_chars_str(body, 400);
    out.append(head.as_str());
    out
}

/// `set_ai_secret`'s check of a key reference: 1 to 100 bytes.
pub fn check_secret_reference(reference: &str) -> (res: Result<(), String>)
    ensures
        (utf8_len(reference@) > 100 || reference@.len() == 0) ==> (res matches Err(e) && e@
            == "密钥引用无效"@),
        !(utf8_len(reference@) > 100 || reference@.len() == 0) ==> res is Ok,
{
    if byte_len(reference) > 100 || char_count(reference) == 0 {
        return Err(String::from_str("密钥引用无效"));
    }
    Ok(())
}

/// `call_stream`'s key check: OpenAI's own service and Anthropic need an
/// API key; other OpenAI-style endpoints (local ones) may do without.
pub fn check_api_key(config: &ModelEndpointConfig, secret: &Option<String>) -> (res: Result<(), String>)
    ensures
        config.provider != ProviderKind::AnthropicMessages && "https://api.openai.com"@.is_prefix_of(
            config.base_url@,
        ) && secret is None ==> (res matches Err(e) && e@ == "未配置 OpenAI API Key"@),
        config.provider == ProviderKind::AnthropicMessages && secret is None ==> (res matches Err(e)
            && e@ == "未配置 Anthropic API Key"@),
        secret is Some || (config.provider != ProviderKind::AnthropicMessages
            && !"https://api.openai.com"@.is_prefix_of(config.base_url@)) ==> res is Ok,
{
    if secret.is_some() {
        return Ok(());
    }
    match config.provider {
        ProviderKind::AnthropicMessages => Err(String::from_str("未配置 Anthropic API Key")),
        _ => {
            if crate::text::starts_with(config.base_url.as_str(), "https://api.openai.com") {
                Err(String::from_str("未配置 OpenAI API Key"))
            } else {
                Ok(())
            }
        },
    }
}

} // verus!

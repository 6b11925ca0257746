//! AI providers: which provider the configuration selects, what request is
//! sent to it, and how its JSON answer yields the text.

use vstd::prelude::*;

use crate::config::{AiAssistant, AiProviderConfig};
use crate::text::same_text;

verus! {

/// A JSON value as a tree of plain values (numbers kept as their text).
#[derive(Debug)]
pub enum JsonValue {
    Null,
    Bool(bool),
    Number(String),
    Str(String),
    Array(Vec<JsonValue>),
    /// Members in document order.
    Object(Vec<(String, JsonValue)>),
}

/// The member `key` of an object (the first with that name), if `v` is an
/// object holding one.
pub open spec fn member(v: JsonValue, key: Seq<char>) -> Option<JsonValue> {
    match v {
        JsonValue::Object(ms) => {
            if exists|i: int| 0 <= i < ms@.len() && ms@[i].0@ == key {
                let i = choose|i: int|
                    0 <= i < ms@.len() && ms@[i].0@ == key && forall|j: int| 0 <= j < i ==> ms@[j].0@ != key;
                Some(ms@[i].1)
            } else {
                None
            }
        },
        _ => None,
    }
}

/// The member `key` of `v`, if `v` is an object holding one.
pub fn get_member<'a>(v: &'a JsonValue, key: &str) -> (r: Option<&'a JsonValue>)
    ensures
        r == match member(*v, key@) {
            Some(x) => Some(&x),
            None => None::<&JsonValue>,
        },
{
    match v {
        JsonValue::Object(ms) => {
            let mut i: usize = 0;
            while i < ms.len()
                invariant
                    i <= ms.len(),
                    *v == JsonValue::Object(*ms),
                    forall|j: int| 0 <= j < i ==> ms@[j].0@ != key@,
                decreases ms.len() - i,
            {
                if same_text(ms[i].0.as_str(), key) {
                    proof {
                        let k = key@;
                        assert(0 <= i < ms@.len() && ms@[i as int].0@ == k);
                        assert(exists|c: int| 0 <= c < ms@.len() && ms@[c].0@ == k);
                        assert(exists|c: int|
                            0 <= c < ms@.len() && ms@[c].0@ == k && forall|j: int| 0 <= j < c ==> ms@[j].0@ != k) by {
                            assert(0 <= i < ms@.len() && ms@[i as int].0@ == k && forall|j: int| 0 <= j < i ==> ms@[j].0@ != k);
                        }
                        let c = choose|c: int|
                            0 <= c < ms@.len() && ms@[c].0@ == k && forall|j: int| 0 <= j < c ==> ms@[j].0@ != k;
                        if c < i {
                        } else if c > i {
                            assert(ms@[i as int].0@ != k);
                        }
                        assert(c == i);
                        assert(member(*v, k) == Some(ms@[i as int].1));
                    }
                    return Some(&ms[i].1);
                }
                i = i + 1;
            }
            None
        },
        _ => None,
    }
}

/// The text at `outer[0].inner_path...`: `v[list_key][0]` then the given
/// member names, if every step exists and ends at a string.
pub open spec fn first_item(v: JsonValue, list_key: Seq<char>) -> Option<JsonValue> {
    match member(v, list_key) {
        Some(JsonValue::Array(items)) => if items@.len() > 0 { Some(items@[0]) } else { None },
        _ => None,
    }
}

/// The string held by `v`, if it is one.
pub open spec fn string_of_value(v: Option<JsonValue>) -> Option<Seq<char>> {
    match v {
        Some(JsonValue::Str(s)) => Some(s@),
        _ => None,
    }
}

/// `v` followed by member `key`, when both exist.
pub open spec fn then_member(v: Option<JsonValue>, key: Seq<char>) -> Option<JsonValue> {
    match v {
        Some(x) => member(x, key),
        None => None,
    }
}

/// The answer in a chat-completions response: `choices[0].message.content`.
pub open spec fn openai_content(j: JsonValue) -> Option<Seq<char>> {
    string_of_value(then_member(then_member(first_item(j, "choices"@), "message"@), "content"@))
}

/// The answer in an Anthropic messages response: `content[0].text`.
pub open spec fn anthropic_text(j: JsonValue) -> Option<Seq<char>> {
    string_of_value(then_member(first_item(j, "content"@), "text"@))
}

fn first_item_exec<'a>(v: &'a JsonValue, list_key: &str) -> (r: Option<&'a JsonValue>)
    ensures
        r == match first_item(*v, list_key@) {
            Some(x) => Some(&x),
            None => None::<&JsonValue>,
        },
{
    match get_member(v, list_key) {
        Some(JsonValue::Array(items)) => {
            if items.len() > 0 {
                Some(&items[0])
            } else {
                None
            }
        },
        _ => None,
    }
}

fn then_member_exec<'a>(v: Option<&'a JsonValue>, key: &str) -> (r: Option<&'a JsonValue>)
    ensures
        r == match then_member(
            match v {
                Some(x) => Some(*x),
                None => None,
            },
            key@,
        ) {
            Some(x) => Some(&x),
            None => None::<&JsonValue>,
        },
{
    match v {
        Some(x) => get_member(x, key),
        None => None,
    }
}

fn string_exec(v: Option<&JsonValue>) -> (r: Option<String>)
    ensures
        match r {
            Some(s) => string_of_value(
                match v {
                    Some(x) => Some(*x),
                    None => None,
                },
            ) == Some(s@),
            None => string_of_value(
                match v {
                    Some(x) => Some(*x),
                    None => None,
                },
            ) is None,
        },
{
    match v {
        Some(JsonValue::Str(s)) => Some(s.clone()),
        _ => None,
    }
}

/// The answer of a chat-completions response, or the error text when it
/// holds none.
pub fn extract_openai_content(j: &JsonValue) -> (r: Result<String, String>)
    ensures
        match r {
            Ok(s) => openai_content(*j) == Some(s@),
            Err(e) => openai_content(*j) is None && e@ == "Could not extract content from API response"@,
        },
{
    let choice = first_item_exec(j, "choices");
    let message = then_member_exec(choice, "message");
    let content = then_member_exec(message, "content");
    match string_exec(content) {
        Some(s) => Ok(s),
        None => Err(String::from_str("Could not extract content from API response")),
    }
}

/// The answer of an Anthropic messages response, or the error text when it
/// holds none.
pub fn extract_anthropic_text(j: &JsonValue) -> (r: Result<String, String>)
    ensures
        match r {
            Ok(s) => anthropic_text(*j) == Some(s@),
            Err(e) => anthropic_text(*j) is None && e@ == "Could not extract text from Anthropic response"@,
        },
{
    let item = first_item_exec(j, "content");
    let text = then_member_exec(item, "text");
    match string_exec(text) {
        Some(s) => Ok(s),
        None => Err(String::from_str("Could not extract text from Anthropic response")),
    }
}

/// The supported AI services.
#[derive(Debug, Clone, Copy, PartialEq, Eq, Structural)]
pub enum ProviderKind {
    OpenRouter,
    OpenAi,
    Anthropic,
}

/// The provider chosen by the configuration and its credentials.
#[derive(Debug, Clone)]
pub struct ProviderSettings {
    pub kind: ProviderKind,
    pub api_key: String,
    pub model: String,
}

/// Why no provider could be chosen.
#[derive(Debug, Clone)]
pub enum ProviderError {
    /// The active provider has no credentials section.
    MissingConfig(ProviderKind),
    /// The active provider's name is not known.
    Unknown(String),
}

/// The display name of a provider.
pub open spec fn provider_name(k: ProviderKind) -> Seq<char> {
    match k {
        ProviderKind::OpenRouter => "OpenRouter"@,
        ProviderKind::OpenAi => "OpenAI"@,
        ProviderKind::Anthropic => "Anthropic"@,
    }
}

/// The display name of a provider.
pub fn provider_display_name(k: ProviderKind) -> (s: String)
    ensures
        s@ == provider_name(k),
{
    match k {
        ProviderKind::OpenRouter => String::from_str("OpenRouter"),
        ProviderKind::OpenAi => String::from_str("OpenAI"),
        ProviderKind::Anthropic => String::from_str("Anthropic"),
    }
}

/// The message of a provider error.
pub open spec fn provider_error_text(e: ProviderError) -> Seq<char> {
    match e {
        ProviderError::MissingConfig(k) => provider_name(k) + " config not found"@,
        ProviderError::Unknown(n) => "Unknown AI provider: "@ + n@,
    }
}

impl ProviderError {
    /// The error message.
    pub fn message(&self) -> (m: String)
        ensures
            m@ == provider_error_text(*self),
    {
        match self {
            ProviderError::MissingConfig(k) => {
                let mut s = provider_display_name(*k);
                s.append(" config not found");
                s
            },
            ProviderError::Unknown(n) => {
                let mut s = String::from_str("Unknown AI provider: ");
                s.append(n.as_str());
                s
            },
        }
    }
}

/// The provider named `name` (`openrouter`, `openai` or `anthropic`).
pub open spec fn provider_named(name: Seq<char>) -> Option<ProviderKind> {
    if name == "openrouter"@ {
        Some(ProviderKind::OpenRouter)
    } else if name == "openai"@ {
        Some(ProviderKind::OpenAi)
    } else if name == "anthropic"@ {
        Some(ProviderKind::Anthropic)
    } else {
        None
    }
}

/// The credentials section of provider `k`.
pub open spec fn provider_section(ai: AiAssistant, k: ProviderKind) -> Option<AiProviderConfig> {
    match k {
        ProviderKind::OpenRouter => ai.providers.openrouter,
        ProviderKind::OpenAi => ai.providers.openai,
        ProviderKind::Anthropic => ai.providers.anthropic,
    }
}

/// Chooses the active provider and its credentials: an error when the name
/// is unknown or its section is missing.
pub fn select_provider(ai: &AiAssistant) -> (r: Result<ProviderSettings, ProviderError>)
    ensures
        match provider_named(ai.active_provider@) {
            None => r matches Err(ProviderError::Unknown(n)) && n@ == ai.active_provider@,
            Some(k) => match provider_section(*ai, k) {
                None => r matches Err(ProviderError::MissingConfig(k2)) && k2 == k,
                Some(c) => r matches Ok(s) && s.kind == k && s.api_key@ == c.api_key@ && s.model@ == c.model@,
            },
        },
{
    let name = ai.active_provider.as_str();
    let (kind, section) = if same_text(name, "openrouter") {
        (ProviderKind::OpenRouter, &ai.providers.openrouter)
    } else if same_text(name, "openai") {
        (ProviderKind::OpenAi, &ai.providers.openai)
    } else if same_text(name, "anthropic") {
        (ProviderKind::Anthropic, &ai.providers.anthropic)
    } else {
        return Err(ProviderError::Unknown(ai.active_provider.clone()));
    };
    match section {
        Some(c) => Ok(ProviderSettings { kind, api_key: c.api_key.clone(), model: c.model.clone() }),
        None => Err(ProviderError::MissingConfig(kind)),
    }
}

/// An HTTP request to an AI provider: a JSON body with the model, the prompt
/// as the single user message and, for Anthropic, a token limit.
#[derive(Debug, Clone)]
pub struct ProviderRequest {
    pub url: String,
    /// Header (name, value) pairs in order.
    pub headers: Vec<(String, String)>,
    pub model: String,
    pub max_tokens: Option<u32>,
    pub prompt: String,
}

/// The endpoint of a provider.
pub open spec fn endpoint(k: ProviderKind) -> Seq<char> {
    match k {
        ProviderKind::OpenRouter => "https://openrouter.ai/api/v1/chat/completions"@,
        ProviderKind::OpenAi => "https://api.openai.com/v1/chat/completions"@,
        ProviderKind::Anthropic => "https://api.anthropic.com/v1/messages"@,
    }
}

/// The headers sent to a provider.
pub open spec fn request_headers(k: ProviderKind, key: Seq<char>) -> Seq<(Seq<char>, Seq<char>)> {
    match k {
        ProviderKind::Anthropic => seq![
            ("x-api-key"@, key),
            ("anthropic-version"@, "2023-06-01"@),
            ("Content-Type"@, "application/json"@),
        ],
        _ => seq![("Authorization"@, "Bearer "@ + key), ("Content-Type"@, "application/json"@)],
    }
}

/// Each provider's request goes to its own documented endpoint: OpenRouter
/// to `openrouter.ai`, OpenAI to `api.openai.com`, Anthropic to
/// `api.anthropic.com`; and no two providers share one, so a key is never
/// sent to another provider's service.
pub proof fn lemma_endpoints_are_documented(k: ProviderKind, other: ProviderKind)
    ensures
        k == ProviderKind::OpenRouter ==> endpoint(k) == "https://openrouter.ai/api/v1/chat/completions"@,
        k == ProviderKind::OpenAi ==> endpoint(k) == "https://api.openai.com/v1/chat/completions"@,
        k == ProviderKind::Anthropic ==> endpoint(k) == "https://api.anthropic.com/v1/messages"@,
        k != other ==> endpoint(k) != endpoint(other),
{
    reveal_strlit("https://openrouter.ai/api/v1/chat/completions");
    reveal_strlit("https://api.openai.com/v1/chat/completions");
    reveal_strlit("https://api.anthropic.com/v1/messages");
    if k != other {
        let a = endpoint(k);
        let b = endpoint(other);
        if a.len() == b.len() {
            assert(a[8] != b[8]);
        }
    }
}

/// Anthropic is sent the key as `x-api-key` with API version `2023-06-01`;
/// OpenRouter and OpenAI are sent it as a bearer token; every request says
/// its body is JSON.
pub proof fn lemma_headers_are_documented(k: ProviderKind, key: Seq<char>)
    ensures
        k == ProviderKind::Anthropic ==> request_headers(k, key) == seq![
            ("x-api-key"@, key),
            ("anthropic-version"@, "2023-06-01"@),
            ("Content-Type"@, "application/json"@),
        ],
        k != ProviderKind::Anthropic ==> request_headers(k, key) == seq![
            ("Authorization"@, "Bearer "@ + key),
            ("Content-Type"@, "application/json"@),
        ],
{
}

fn pair(a: &str, b: String) -> (p: (String, String))
    ensures
        p.0@ == a@,
        p.1@ == b@,
{
    (String::from_str(a), b)
}

/// The request sending `prompt` to the chosen provider.
pub fn provider_request(s: &ProviderSettings, prompt: &str) -> (r: ProviderRequest)
    ensures
        r.url@ == endpoint(s.kind),
        s.kind == ProviderKind::OpenRouter ==> r.url@ == "https://openrouter.ai/api/v1/chat/completions"@,
        s.kind == ProviderKind::OpenAi ==> r.url@ == "https://api.openai.com/v1/chat/completions"@,
        s.kind == ProviderKind::Anthropic ==> r.url@ == "https://api.anthropic.com/v1/messages"@,
        r.headers@.map_values(|h: (String, String)| (h.0@, h.1@)) == request_headers(s.kind, s.api_key@),
        r.model@ == s.model@,
        r.max_tokens == if s.kind == ProviderKind::Anthropic { Some(4096u32) } else { None },
        r.prompt@ == prompt@,
{
    let mut headers: Vec<(String, String)> = Vec::new();
    let url = match s.kind {
        ProviderKind::OpenRouter => String::from_str("https://openrouter.ai/api/v1/chat/completions"),
        ProviderKind::OpenAi => String::from_str("https://api.openai.com/v1/chat/completions"),
        ProviderKind::Anthropic => String::from_str("https://api.anthropic.com/v1/messages"),
    };
    let max_tokens = match s.kind {
        ProviderKind::Anthropic => {
            headers.push(pair("x-api-key", s.api_key.clone()));
            headers.push(pair("anthropic-version", String::from_str("2023-06-01")));
            headers.push(pair("Content-Type", String::from_str("application/json")));
            Some(4096u32)
        },
        _ => {
            let mut bearer = String::from_str("Bearer ");
            bearer.append(s.api_key.as_str());
            headers.push(pair("Authorization", bearer));
            headers.push(pair("Content-Type", String::from_str("application/json")));
            None
        },
    };
    assert(headers@.map_values(|h: (String, String)| (h.0@, h.1@)) =~= request_headers(s.kind, s.api_key@));
    ProviderRequest { url, headers, model: s.model.clone(), max_tokens, prompt: String::from_str(prompt) }
}

/// The error for a response whose status is not a success.
pub fn api_error_message(k: ProviderKind, status: &str, body: &str) -> (m: String)
    ensures
        m@ == provider_name(k) + " API error "@ + status@ + ": "@ + body@,
{
    let mut m = provider_display_name(k);
    m.append(" API error ");
    m.append(status);
    m.append(": ");
    m.append(body);
    m
}

/// serde_json's JSON document type, carried through the parse below.
#[verifier::external_type_specification]
#[verifier::external_body]
pub struct ExJsonDocument(serde_json::Value);

/// What `serde_json::from_str::<serde_json::Value>` makes of `text`, as the
/// library's JSON tree (`None` where serde_json refuses the text). Object
/// members come in serde_json's map order.
pub uninterp spec fn json_document(text: Seq<char>) -> Option<JsonValue>;

/// Calls `serde_json::from_str::<serde_json::Value>` on `text` and converts
/// the document one for one into the library's tree. The result is named
/// `json_document` of the text; what serde_json accepts is not spelled out.
#[verifier::external_body]
pub(crate) fn parse_json_document(text: &str) -> (r: Option<JsonValue>)
    ensures
        r == json_document(text@),
{
    serde_json::from_str::<serde_json::Value>(text).ok().map(|v| json_tree(&v))
}

/// Converts a serde_json document into the library's tree, node for node:
/// numbers keep their text, objects their members in map order.
#[verifier::external_body]
fn json_tree(v: &serde_json::Value) -> JsonValue {
    match v {
        serde_json::Value::Null => JsonValue::Null,
        serde_json::Value::Bool(b) => JsonValue::Bool(*b),
        serde_json::Value::Number(n) => JsonValue::Number(n.to_string()),
        serde_json::Value::String(t) => JsonValue::Str(t.clone()),
        serde_json::Value::Array(items) => JsonValue::Array(items.iter().map(json_tree).collect()),
        serde_json::Value::Object(m) => JsonValue::Object(m.iter().map(|(k, x)| (k.clone(), json_tree(x))).collect()),
    }
}

/// The answer text a provider's response document holds, if any.
pub open spec fn answer_text(k: ProviderKind, j: JsonValue) -> Option<Seq<char>> {
    match k {
        ProviderKind::Anthropic => anthropic_text(j),
        _ => openai_content(j),
    }
}

/// The error when a response document holds no answer.
pub open spec fn missing_answer_message(k: ProviderKind) -> Seq<char> {
    match k {
        ProviderKind::Anthropic => "Could not extract text from Anthropic response"@,
        _ => "Could not extract content from API response"@,
    }
}

/// The outcome of a provider's reply with HTTP status `status` (written
/// `status_text`, as `"404 Not Found"`) and body `body`.
pub open spec fn reply_outcome(k: ProviderKind, status: u16, status_text: Seq<char>, body: Seq<char>) -> Result<Seq<char>, Seq<char>> {
    if !(200 <= status && status < 300) {
        Err(provider_name(k) + " API error "@ + status_text + ": "@ + body)
    } else {
        match json_document(body) {
            None => Err("Failed to parse "@ + provider_name(k) + " response"@),
            Some(j) => match answer_text(k, j) {
                Some(t) => Ok(t),
                None => Err(missing_answer_message(k)),
            },
        }
    }
}

/// The answer of a provider's reply: an error with the status and body when
/// the status is not a success (2xx), an error when the body is not JSON,
/// else the answer text of the document or the error that it holds none.
pub fn answer_of_reply(k: ProviderKind, status: u16, status_text: &str, body: &str) -> (r: Result<String, String>)
    ensures
        match reply_outcome(k, status, status_text@, body@) {
            Ok(t) => r matches Ok(s) && s@ == t,
            Err(t) => r matches Err(e) && e@ == t,
        },
{
    if !(200 <= status && status < 300) {
        return Err(api_error_message(k, status_text, body));
    }
    match parse_json_document(body) {
        None => {
            let mut m = String::from_str("Failed to parse ");
            m.append(provider_display_name(k).as_str());
            m.append(" response");
            Err(m)
        },
        Some(j) => extract_answer(k, &j),
    }
}

/// The answer text of a provider's (successful, parsed) response.
pub fn extract_answer(k: ProviderKind, j: &JsonValue) -> (r: Result<String, String>)
    ensures
        match k {
            ProviderKind::Anthropic => match r {
                Ok(s) => anthropic_text(*j) == Some(s@),
                Err(e) => anthropic_text(*j) is None && e@ == "Could not extract text from Anthropic response"@,
            },
            _ => match r {
                Ok(s) => openai_content(*j) == Some(s@),
                Err(e) => openai_content(*j) is None && e@ == "Could not extract content from API response"@,
            },
        },
{
    match k {
        ProviderKind::Anthropic => extract_anthropic_text(j),
        _ => extract_openai_content(j),
    }
}

} // verus!

//! Request bodies of the three model protocols, and how text is read back
//! from their responses and stream events.
use vstd::prelude::*;

use crate::json::{
    array, bool_value, entry, field, field_views, follow, number_value, object, pointer,
    string_value, text_of, token_ok, token_views, views, JsonValue, JsonView,
};
use crate::message::ChatMessage;
use crate::provider::{ModelEndpointConfig, ProviderKind};
use crate::text::{decimal, find_str, str_eq, substring};

verus! {

/// The note sent beside a desktop screenshot.
pub open spec fn vision_note() -> Seq<char> {
    "请只描述你观察到的桌面内容，不要复述密码、令牌或联系方式。"@
}

pub open spec fn jstr(s: Seq<char>) -> JsonView {
    JsonView::Str(s)
}

/// `{"role": .., "content": ..}` of a message.
pub open spec fn message_view(m: ChatMessage) -> JsonView {
    JsonView::Object(seq![("role"@, jstr(m.role@)), ("content"@, jstr(m.content@))])
}

pub open spec fn message_views(ms: Seq<ChatMessage>) -> Seq<JsonView> {
    ms.map_values(|m: ChatMessage| message_view(m))
}

/// The part of a data URL after its first comma (all of it without one).
pub open spec fn data_url_payload(url: Seq<char>) -> Seq<char> {
    match crate::text::find(url, seq![',']) {
        Some(i) => url.skip(i + 1),
        None => url,
    }
}

/// The image message of the Responses protocol.
pub open spec fn responses_image(image: Seq<char>) -> JsonView {
    JsonView::Object(
        seq![
            ("role"@, jstr("user"@)),
            (
                "content"@,
                JsonView::Array(
                    seq![
                        JsonView::Object(
                            seq![("type"@, jstr("input_text"@)), ("text"@, jstr(vision_note()))],
                        ),
                        JsonView::Object(
                            seq![
                                ("type"@, jstr("input_image"@)),
                                ("image_url"@, jstr(image)),
                                ("detail"@, jstr("low"@)),
                            ],
                        ),
                    ],
                ),
            ),
        ],
    )
}

/// The image message of the Messages protocol.
pub open spec fn anthropic_image(image: Seq<char>) -> JsonView {
    JsonView::Object(
        seq![
            ("role"@, jstr("user"@)),
            (
                "content"@,
                JsonView::Array(
                    seq![
                        JsonView::Object(
                            seq![("type"@, jstr("text"@)), ("text"@, jstr(vision_note()))],
                        ),
                        JsonView::Object(
                            seq![
                                ("type"@, jstr("image"@)),
                                (
                                    "source"@,
                                    JsonView::Object(
                                        seq![
                                            ("type"@, jstr("base64"@)),
                                            ("media_type"@, jstr("image/jpeg"@)),
                                            ("data"@, jstr(data_url_payload(image))),
                                        ],
                                    ),
                                ),
                            ],
                        ),
                    ],
                ),
            ),
        ],
    )
}

/// The image message of the Chat Completions protocol.
pub open spec fn compatible_image(image: Seq<char>) -> JsonView {
    JsonView::Object(
        seq![
            ("role"@, jstr("user"@)),
            (
                "content"@,
                JsonView::Array(
                    seq![
                        JsonView::Object(
                            seq![("type"@, jstr("text"@)), ("text"@, jstr(vision_note()))],
                        ),
                        JsonView::Object(
                            seq![
                                ("type"@, jstr("image_url"@)),
                                ("image_url"@, JsonView::Object(seq![("url"@, jstr(image))])),
                            ],
                        ),
                    ],
                ),
            ),
        ],
    )
}

/// A message of the Chat Completions history: the screenshot message
/// (id `__vision__`) carries the image when there is one.
pub open spec fn compatible_message(m: ChatMessage, image: Option<Seq<char>>) -> JsonView {
    match image {
        Some(img) => if m.id@ == "__vision__"@ {
            compatible_image(img)
        } else {
            message_view(m)
        },
        None => message_view(m),
    }
}

pub open spec fn compatible_messages(ms: Seq<ChatMessage>, image: Option<Seq<char>>) -> Seq<
    JsonView,
> {
    ms.map_values(|m: ChatMessage| compatible_message(m, image))
}

/// The request body of `build_payload`.
pub open spec fn payload_view(
    provider: ProviderKind,
    model: Seq<char>,
    max_tokens: u32,
    prompt: Seq<char>,
    messages: Seq<ChatMessage>,
    image: Option<Seq<char>>,
    stream: bool,
) -> JsonView {
    match provider {
        ProviderKind::OpenaiResponses => {
            let input = match image {
                Some(img) => message_views(messages).push(responses_image(img)),
                None => message_views(messages),
            };
            JsonView::Object(
                seq![
                    ("model"@, jstr(model)),
                    ("instructions"@, jstr(prompt)),
                    ("input"@, JsonView::Array(input)),
                    ("max_output_tokens"@, JsonView::Number(decimal(max_tokens as nat))),
                    ("stream"@, JsonView::Bool(stream)),
                    ("store"@, JsonView::Bool(false)),
                ],
            )
        },
        ProviderKind::AnthropicMessages => {
            let history = match image {
                Some(img) => message_views(messages).push(anthropic_image(img)),
                None => message_views(messages),
            };
            JsonView::Object(
                seq![
                    ("model"@, jstr(model)),
                    ("system"@, jstr(prompt)),
                    ("messages"@, JsonView::Array(history)),
                    ("max_tokens"@, JsonView::Number(decimal(max_tokens as nat))),
                    ("stream"@, JsonView::Bool(stream)),
                ],
            )
        },
        ProviderKind::OpenaiCompatible => {
            let history = seq![
                JsonView::Object(seq![("role"@, jstr("system"@)), ("content"@, jstr(prompt))]),
            ] + compatible_messages(messages, image);
            JsonView::Object(
                seq![
                    ("model"@, jstr(model)),
                    ("messages"@, JsonView::Array(history)),
                    ("max_tokens"@, JsonView::Number(decimal(max_tokens as nat))),
                    ("stream"@, JsonView::Bool(stream)),
                ],
            )
        },
    }
}

pub open spec fn opt_view(s: Option<&str>) -> Option<Seq<char>> {
    match s {
        Some(x) => Some(x@),
        None => None,
    }
}

/// `{"role": .., "content": ..}` of a message.
pub fn message_value(message: &ChatMessage) -> (v: JsonValue)
    ensures
        v@ == message_view(*message),
{
    let mut fields: Vec<(String, JsonValue)> = Vec::new();
    fields.push(entry("role", string_value(message.role.as_str())));
    fields.push(entry("content", string_value(message.content.as_str())));
    let v = object(fields);
    assert(field_views(fields@) =~= seq![
        ("role"@, jstr(message.role@)),
        ("content"@, jstr(message.content@)),
    ]);
    v
}

fn message_values(messages: &Vec<ChatMessage>) -> (res: Vec<JsonValue>)
    ensures
        views(res@) == message_views(messages@),
{
    let mut out: Vec<JsonValue> = Vec::new();
    let mut i: usize = 0;
    while i < messages.len()
        invariant
            0 <= i <= messages@.len(),
            views(out@) =~= message_views(messages@.take(i as int)),
        decreases messages@.len() - i,
    {
        let ghost before = out@;
        let item = message_value(&messages[i]);
        out.push(item);
        assert(messages@.take(i + 1) =~= messages@.take(i as int).push(messages@[i as int]));
        assert(views(out@) =~= views(before).push(message_view(messages@[i as int])));
        assert(message_views(messages@.take(i + 1)) =~= message_views(messages@.take(i as int)).push(
            message_view(messages@[i as int]),
        ));
        i = i + 1;
    }
    assert(messages@.take(i as int) =~= messages@);
    out
}

/// The part of a data URL after its first comma.
pub fn image_payload(image: &str) -> (res: String)
    ensures
        res@ == data_url_payload(image@),
{
    match find_str(image, ",") {
        Some(i) => {
            let n: usize = image.unicode_len();
            proof {
                reveal_strlit(",");
                assert(","@ =~= seq![',']);
                assert(crate::text::occurs_at(image@, ","@, i as int)) by {
                    crate::text::lemma_find_occurs(image@, ","@, 0, i as int);
                }
            }
            let r = substring(image, i + 1, n);
            assert(r@ =~= image@.skip(i + 1));
            r
        },
        None => {
            proof {
                reveal_strlit(",");
                assert(","@ =~= seq![',']);
            }
            String::from_str(image)
        },
    }
}

fn note_part(kind: &str) -> (v: JsonValue)
    ensures
        v@ == JsonView::Object(seq![("type"@, jstr(kind@)), ("text"@, jstr(vision_note()))]),
{
    let mut f: Vec<(String, JsonValue)> = Vec::new();
    f.push(entry("type", string_value(kind)));
    f.push(entry("text", string_value("请只描述你观察到的桌面内容，不要复述密码、令牌或联系方式。")));
    let v = object(f);
    assert(field_views(f@) =~= seq![("type"@, jstr(kind@)), ("text"@, jstr(vision_note()))]);
    v
}

fn user_with_parts(a: JsonValue, b: JsonValue) -> (v: JsonValue)
    ensures
        v@ == JsonView::Object(
            seq![("role"@, jstr("user"@)), ("content"@, JsonView::Array(seq![a@, b@]))],
        ),
{
    let ghost av = a@;
    let ghost bv = b@;
    let mut parts: Vec<JsonValue> = Vec::new();
    parts.push(a);
    parts.push(b);
    let content = array(parts);
    assert(views(parts@) =~= seq![av, bv]);
    let mut f: Vec<(String, JsonValue)> = Vec::new();
    f.push(entry("role", string_value("user")));
    f.push(entry("content", content));
    let v = object(f);
    assert(field_views(f@) =~= seq![
        ("role"@, jstr("user"@)),
        ("content"@, JsonView::Array(seq![av, bv])),
    ]);
    v
}

fn responses_image_value(image: &str) -> (v: JsonValue)
    ensures
        v@ == responses_image(image@),
{
    let mut f: Vec<(String, JsonValue)> = Vec::new();
    f.push(entry("type", string_value("input_image")));
    f.push(entry("image_url", string_value(image)));
    f.push(entry("detail", string_value("low")));
    let img = object(f);
    assert(field_views(f@) =~= seq![
        ("type"@, jstr("input_image"@)),
        ("image_url"@, jstr(image@)),
        ("detail"@, jstr("low"@)),
    ]);
    user_with_parts(note_part("input_text"), img)
}

fn anthropic_image_value(image: &str) -> (v: JsonValue)
    ensures
        v@ == anthropic_image(image@),
{
    let encoded = image_payload(image);
    let mut s: Vec<(String, JsonValue)> = Vec::new();
    s.push(entry("type", string_value("base64")));
    s.push(entry("media_type", string_value("image/jpeg")));
    s.push(entry("data", string_value(encoded.as_str())));
    let source = object(s);
    assert(field_views(s@) =~= seq![
        ("type"@, jstr("base64"@)),
        ("media_type"@, jstr("image/jpeg"@)),
        ("data"@, jstr(data_url_payload(image@))),
    ]);
    let ghost sv = source@;
    let mut f: Vec<(String, JsonValue)> = Vec::new();
    f.push(entry("type", string_value("image")));
    f.push(entry("source", source));
    let img = object(f);
    assert(field_views(f@) =~= seq![("type"@, jstr("image"@)), ("source"@, sv)]);
    user_with_parts(note_part("text"), img)
}

fn compatible_image_value(image: &str) -> (v: JsonValue)
    ensures
        v@ == compatible_image(image@),
{
    let mut u: Vec<(String, JsonValue)> = Vec::new();
    u.push(entry("url", string_value(image)));
    let url = object(u);
    assert(field_views(u@) =~= seq![("url"@, jstr(image@))]);
    let ghost uv = url@;
    let mut f: Vec<(String, JsonValue)> = Vec::new();
    f.push(entry("type", string_value("image_url")));
    f.push(entry("image_url", url));
    let img = object(f);
    assert(field_views(f@) =~= seq![("type"@, jstr("image_url"@)), ("image_url"@, uv)]);
    user_with_parts(note_part("text"), img)
}

fn is_vision_id(id: &str) -> (b: bool)
    ensures
        b == (id@ == "__vision__"@),
{
    str_eq(id, "__vision__")
}

/// The request body for `config`'s protocol: the system prompt, the
/// history, an optional screenshot (as a data URL), the token limit and
/// whether the reply is streamed.
pub fn build_payload(
    config: &ModelEndpointConfig,
    prompt: &str,
    messages: &Vec<ChatMessage>,
    image_data_url: Option<&str>,
    stream: bool,
) -> (v: JsonValue)
    ensures
        v@ == payload_view(
            config.provider,
            config.model@,
            config.max_output_tokens,
            prompt@,
            messages@,
            opt_view(image_data_url),
            stream,
        ),
{
    match config.provider {
        ProviderKind::OpenaiResponses => {
            let mut input = message_values(messages);
            if let Some(image) = image_data_url {
                input.push(responses_image_value(image));
            }
            let ghost iv = views(input@);
            let input_value = array(input);
            let mut f: Vec<(String, JsonValue)> = Vec::new();
            f.push(entry("model", string_value(config.model.as_str())));
            f.push(entry("instructions", string_value(prompt)));
            f.push(entry("input", input_value));
            f.push(entry("max_output_tokens", number_value(config.max_output_tokens as u64)));
            f.push(entry("stream", bool_value(stream)));
            f.push(entry("store", bool_value(false)));
            let v = object(f);
            proof {
                match image_data_url {
                    Some(image) => {
                        assert(iv =~= message_views(messages@).push(responses_image(image@)));
                    },
                    None => {},
                }
                assert(field_views(f@) =~= seq![
                    ("model"@, jstr(config.model@)),
                    ("instructions"@, jstr(prompt@)),
                    ("input"@, JsonView::Array(iv)),
                    ("max_output_tokens"@, JsonView::Number(decimal(config.max_output_tokens as nat))),
                    ("stream"@, JsonView::Bool(stream)),
                    ("store"@, JsonView::Bool(false)),
                ]);
            }
            v
        },
        ProviderKind::AnthropicMessages => {
            let mut history = message_values(messages);
            if let Some(image) = image_data_url {
                history.push(anthropic_image_value(image));
            }
            let ghost hv = views(history@);
            let history_value = array(history);
            let mut f: Vec<(String, JsonValue)> = Vec::new();
            f.push(entry("model", string_value(config.model.as_str())));
            f.push(entry("system", string_value(prompt)));
            f.push(entry("messages", history_value));
            f.push(entry("max_tokens", number_value(config.max_output_tokens as u64)));
            f.push(entry("stream", bool_value(stream)));
            let v = object(f);
            proof {
                match image_data_url {
                    Some(image) => {
                        assert(hv =~= message_views(messages@).push(anthropic_image(image@)));
                    },
                    None => {},
                }
                assert(field_views(f@) =~= seq![
                    ("model"@, jstr(config.model@)),
                    ("system"@, jstr(prompt@)),
                    ("messages"@, JsonView::Array(hv)),
                    ("max_tokens"@, JsonView::Number(decimal(config.max_output_tokens as nat))),
                    ("stream"@, JsonView::Bool(stream)),
                ]);
            }
            v
        },
        ProviderKind::OpenaiCompatible => {
            let mut sys: Vec<(String, JsonValue)> = Vec::new();
            sys.push(entry("role", string_value("system")));
            sys.push(entry("content", string_value(prompt)));
            let system = object(sys);
            assert(field_views(sys@) =~= seq![("role"@, jstr("system"@)), ("content"@, jstr(prompt@))]);
            let mut history: Vec<JsonValue> = Vec::new();
            history.push(system);
            let ghost img = opt_view(image_data_url);
            let mut i: usize = 0;
            while i < messages.len()
                invariant
                    0 <= i <= messages@.len(),
                    img == opt_view(image_data_url),
                    views(history@) =~= seq![
                        JsonView::Object(
                            seq![("role"@, jstr("system"@)), ("content"@, jstr(prompt@))],
                        ),
                    ] + compatible_messages(messages@.take(i as int), img),
                decreases messages@.len() - i,
            {
                let m = &messages[i];
                let item = match image_data_url {
                    Some(image) => {
                        if is_vision_id(m.id.as_str()) {
                            compatible_image_value(image)
                        } else {
                            message_value(m)
                        }
                    },
                    None => message_value(m),
                };
                let ghost before = history@;
                let ghost iv = item@;
                history.push(item);
                assert(iv == compatible_message(messages@[i as int], img));
                assert(messages@.take(i + 1) =~= messages@.take(i as int).push(messages@[i as int]));
                assert(views(history@) =~= views(before).push(iv));
                assert(compatible_messages(messages@.take(i + 1), img) =~= compatible_messages(
                    messages@.take(i as int),
                    img,
                ).push(iv));
                i = i + 1;
            }
            assert(messages@.take(i as int) =~= messages@);
            let ghost hv = views(history@);
            let history_value = array(history);
            let mut f: Vec<(String, JsonValue)> = Vec::new();
            f.push(entry("model", string_value(config.model.as_str())));
            f.push(entry("messages", history_value));
            f.push(entry("max_tokens", number_value(config.max_output_tokens as u64)));
            f.push(entry("stream", bool_value(stream)));
            let v = object(f);
            assert(field_views(f@) =~= seq![
                ("model"@, jstr(config.model@)),
                ("messages"@, JsonView::Array(hv)),
                ("max_tokens"@, JsonView::Number(decimal(config.max_output_tokens as nat))),
                ("stream"@, JsonView::Bool(stream)),
            ]);
            v
        },
    }
}

pub open spec fn or_empty(t: Option<Seq<char>>) -> Seq<char> {
    match t {
        Some(s) => s,
        None => Seq::empty(),
    }
}

/// The text of a complete (non-streamed) response.
pub open spec fn response_text_of(v: JsonView, provider: ProviderKind) -> Seq<char> {
    match provider {
        ProviderKind::OpenaiResponses => match text_of(field(v, "output_text"@)) {
            Some(t) => t,
            None => or_empty(
                text_of(pointer(v, seq!["output"@, "0"@, "content"@, "0"@, "text"@])),
            ),
        },
        ProviderKind::AnthropicMessages => or_empty(
            text_of(pointer(v, seq!["content"@, "0"@, "text"@])),
        ),
        ProviderKind::OpenaiCompatible => or_empty(
            text_of(pointer(v, seq!["choices"@, "0"@, "message"@, "content"@])),
        ),
    }
}

/// The text carried by one stream event, if it carries text.
pub open spec fn delta_of(v: JsonView, provider: ProviderKind) -> Option<Seq<char>> {
    match provider {
        ProviderKind::OpenaiResponses => if text_of(field(v, "type"@)) == Some(
            "response.output_text.delta"@,
        ) {
            text_of(field(v, "delta"@))
        } else {
            None
        },
        ProviderKind::AnthropicMessages => if text_of(field(v, "type"@)) == Some(
            "content_block_delta"@,
        ) {
            text_of(pointer(v, seq!["delta"@, "text"@]))
        } else {
            None
        },
        ProviderKind::OpenaiCompatible => text_of(
            pointer(v, seq!["choices"@, "0"@, "delta"@, "content"@]),
        ),
    }
}

fn text_at(v: &JsonValue, path: &Vec<&str>) -> (res: Option<String>)
    requires
        forall|i: int| 0 <= i < path@.len() ==> token_ok(#[trigger] path@[i]@),
    ensures
        match res {
            Some(t) => text_of(pointer(v@, token_views(path@))) == Some(t@),
            None => text_of(pointer(v@, token_views(path@))) is None,
        },
{
    match follow(v, path) {
        Some(x) => match x.as_str() {
            Some(t) => Some(String::from_str(t)),
            None => None,
        },
        None => None,
    }
}

fn text_field(v: &JsonValue, key: &str) -> (res: Option<String>)
    ensures
        match res {
            Some(t) => text_of(field(v@, key@)) == Some(t@),
            None => text_of(field(v@, key@)) is None,
        },
{
    match v.get(key) {
        Some(x) => match x.as_str() {
            Some(t) => Some(String::from_str(t)),
            None => None,
        },
        None => None,
    }
}

proof fn lemma_names_ok()
    ensures
        token_ok("output"@),
        token_ok("0"@),
        token_ok("content"@),
        token_ok("text"@),
        token_ok("choices"@),
        token_ok("message"@),
        token_ok("delta"@),
{
    reveal_strlit("output");
    reveal_strlit("0");
    reveal_strlit("content");
    reveal_strlit("text");
    reveal_strlit("choices");
    reveal_strlit("message");
    reveal_strlit("delta");
    assert("0"@ =~= seq!['0']);
}

/// `extract_text`: the text of a complete response for `provider` (empty
/// when the response has none where the protocol puts it).
pub fn extract_text(value: &JsonValue, provider: ProviderKind) -> (res: String)
    ensures
        res@ == response_text_of(value@, provider),
{
    proof {
        lemma_names_ok();
    }
    let found = match provider {
        ProviderKind::OpenaiResponses => {
            match text_field(value, "output_text") {
                Some(t) => Some(t),
                None => {
                    let path = vec!["output", "0", "content", "0", "text"];
                    assert(token_views(path@) =~= seq![
                        "output"@,
                        "0"@,
                        "content"@,
                        "0"@,
                        "text"@,
                    ]);
                    text_at(value, &path)
                },
            }
        },
        ProviderKind::AnthropicMessages => {
            let path = vec!["content", "0", "text"];
            assert(token_views(path@) =~= seq!["content"@, "0"@, "text"@]);
            text_at(value, &path)
        },
        ProviderKind::OpenaiCompatible => {
            let path = vec!["choices", "0", "message", "content"];
            assert(token_views(path@) =~= seq!["choices"@, "0"@, "message"@, "content"@]);
            text_at(value, &path)
        },
    };
    match found {
        Some(t) => t,
        None => String::new(),
    }
}

/// `stream_delta`: the text that one stream event adds, if any.
pub fn stream_delta(value: &JsonValue, provider: ProviderKind) -> (res: Option<String>)
    ensures
        match res {
            Some(t) => delta_of(value@, provider) == Some(t@),
            None => delta_of(value@, provider) is None,
        },
{
    proof {
        lemma_names_ok();
    }
    match provider {
        ProviderKind::OpenaiResponses => {
            let is_delta = match text_field(value, "type") {
                Some(t) => str_eq(t.as_str(), "response.output_text.delta"),
                None => false,
            };
            if is_delta {
                text_field(value, "delta")
            } else {
                None
            }
        },
        ProviderKind::AnthropicMessages => {
            let is_delta = match text_field(value, "type") {
                Some(t) => str_eq(t.as_str(), "content_block_delta"),
                None => false,
            };
            if is_delta {
                let path = vec!["delta", "text"];
                assert(token_views(path@) =~= seq!["delta"@, "text"@]);
                text_at(value, &path)
            } else {
                None
            }
        },
        ProviderKind::OpenaiCompatible => {
            let path = vec!["choices", "0", "delta", "content"];
            assert(token_views(path@) =~= seq!["choices"@, "0"@, "delta"@, "content"@]);
            text_at(value, &path)
        },
    }
}

/// The value of the field at `j`, when no field before it has its key.
proof fn lemma_first_field_at(fs: Seq<(Seq<char>, JsonView)>, k: Seq<char>, j: int)
    requires
        0 <= j < fs.len(),
        fs[j].0 == k,
        forall|i: int| 0 <= i < j ==> (#[trigger] fs[i]).0 != k,
    ensures
        crate::json::first_field(fs, k) == Some(fs[j].1),
    decreases j,
{
    if j > 0 {
        assert(fs[0].0 != k);
        let rest = fs.drop_first();
        assert forall|i: int| 0 <= i < j - 1 implies (#[trigger] rest[i]).0 != k by {
            assert(rest[i] == fs[i + 1]);
        }
        lemma_first_field_at(rest, k, j - 1);
    }
}

/// A `{role, content}` object's fields read back.
proof fn lemma_role_content(role: Seq<char>, content: Seq<char>)
    ensures
        field(JsonView::Object(seq![("role"@, jstr(role)), ("content"@, jstr(content))]), "role"@)
            == Some(jstr(role)),
        field(JsonView::Object(seq![("role"@, jstr(role)), ("content"@, jstr(content))]), "content"@)
            == Some(jstr(content)),
{
    reveal_strlit("role");
    reveal_strlit("content");
    let fs = seq![("role"@, jstr(role)), ("content"@, jstr(content))];
    lemma_first_field_at(fs, "role"@, 0);
    assert(fs[0].0.len() != "content"@.len());
    lemma_first_field_at(fs, "content"@, 1);
}

/// A message object's role and content read back.
proof fn lemma_message_fields(m: ChatMessage)
    ensures
        carries_message(message_view(m), m),
{
    lemma_role_content(m.role@, m.content@);
}

/// `{"role": role, "content": content}` as every protocol sends a message.
pub open spec fn carries_message(v: JsonView, m: ChatMessage) -> bool {
    &&& field(v, "role"@) == Some(JsonView::Str(m.role@))
    &&& field(v, "content"@) == Some(JsonView::Str(m.content@))
}

/// Every request sends the whole conversation to the model, in order:
/// under the Responses protocol `input`, and under the Messages protocol
/// `messages`, hold one `{role, content}` object per message, with that
/// message's role and content, then the screenshot message when there is
/// one; under Chat Completions `messages` holds the system prompt first and
/// then one object per message (the screenshot message carrying the image).
/// The prompt goes where each protocol reads it and the model is named.
pub proof fn payload_carries_the_conversation(
    provider: ProviderKind,
    model: Seq<char>,
    max_tokens: u32,
    prompt: Seq<char>,
    messages: Seq<ChatMessage>,
    image: Option<Seq<char>>,
    stream: bool,
)
    ensures
        ({
            let p = payload_view(provider, model, max_tokens, prompt, messages, image, stream);
            let extra: int = if image is Some {
                1
            } else {
                0
            };
            &&& field(p, "model"@) == Some(JsonView::Str(model))
            &&& provider == ProviderKind::OpenaiResponses ==> {
                &&& field(p, "instructions"@) == Some(JsonView::Str(prompt))
                &&& field(p, "input"@) matches Some(JsonView::Array(input)) && input.len()
                    == messages.len() + extra && forall|i: int|
                    0 <= i < messages.len() ==> carries_message(#[trigger] input[i], messages[i])
            }
            &&& provider == ProviderKind::AnthropicMessages ==> {
                &&& field(p, "system"@) == Some(JsonView::Str(prompt))
                &&& field(p, "messages"@) matches Some(JsonView::Array(history)) && history.len()
                    == messages.len() + extra && forall|i: int|
                    0 <= i < messages.len() ==> carries_message(#[trigger] history[i], messages[i])
            }
            &&& provider == ProviderKind::OpenaiCompatible ==> {
                &&& field(p, "messages"@) matches Some(JsonView::Array(history)) && history.len()
                    == messages.len() + 1 && field(history[0], "role"@) == Some(
                    JsonView::Str("system"@),
                ) && field(history[0], "content"@) == Some(JsonView::Str(prompt)) && forall|i: int|
                    0 <= i < messages.len() && (image is None || messages[i].id@ != "__vision__"@)
                        ==> carries_message(#[trigger] history[i + 1], messages[i])
            }
        }),
{
    reveal_strlit("model");
    reveal_strlit("instructions");
    reveal_strlit("input");
    reveal_strlit("system");
    reveal_strlit("messages");
    reveal_strlit("role");
    reveal_strlit("content");
    reveal_strlit("max_output_tokens");
    reveal_strlit("max_tokens");
    reveal_strlit("stream");
    reveal_strlit("store");
    let p = payload_view(provider, model, max_tokens, prompt, messages, image, stream);
    let fs = p->Object_0;
    lemma_first_field_at(fs, "model"@, 0);
    match provider {
        ProviderKind::OpenaiResponses => {
            let input = match image {
                Some(img) => message_views(messages).push(responses_image(img)),
                None => message_views(messages),
            };
            assert(fs[0].0.len() != "instructions"@.len());
            lemma_first_field_at(fs, "instructions"@, 1);
            assert(fs[0].0[0] != "input"@[0]);
            assert(fs[1].0.len() != "input"@.len());
            lemma_first_field_at(fs, "input"@, 2);
            assert forall|i: int| 0 <= i < messages.len() implies carries_message(
                #[trigger] input[i],
                messages[i],
            ) by {
                assert(input[i] == message_view(messages[i]));
                lemma_message_fields(messages[i]);
            }
        },
        ProviderKind::AnthropicMessages => {
            let history = match image {
                Some(img) => message_views(messages).push(anthropic_image(img)),
                None => message_views(messages),
            };
            assert(fs[0].0.len() != "system"@.len());
            lemma_first_field_at(fs, "system"@, 1);
            assert(fs[0].0.len() != "messages"@.len());
            assert(fs[1].0.len() != "messages"@.len());
            lemma_first_field_at(fs, "messages"@, 2);
            assert forall|i: int| 0 <= i < messages.len() implies carries_message(
                #[trigger] history[i],
                messages[i],
            ) by {
                assert(history[i] == message_view(messages[i]));
                lemma_message_fields(messages[i]);
            }
        },
        ProviderKind::OpenaiCompatible => {
            let history = seq![
                JsonView::Object(seq![("role"@, jstr("system"@)), ("content"@, jstr(prompt))]),
            ] + compatible_messages(messages, image);
            assert(fs[0].0.len() != "messages"@.len());
            lemma_first_field_at(fs, "messages"@, 1);
            lemma_role_content("system"@, prompt);
            assert forall|i: int|
                0 <= i < messages.len() && (image is None || messages[i].id@ != "__vision__"@)
                    implies carries_message(#[trigger] history[i + 1], messages[i]) by {
                assert(history[i + 1] == compatible_message(messages[i], image));
                lemma_message_fields(messages[i]);
            }
        },
    }
}

/// The token `0` reads as the first index of an array.
proof fn lemma_index_zero()
    ensures
        crate::json::index_token("0"@) == Some(0nat),
{
    reveal_strlit("0");
    assert("0"@ =~= seq!['0']);
    assert(seq!['0'].drop_last() =~= Seq::<char>::empty());
    assert(crate::json::digits_value(Seq::<char>::empty()) == 0);
    assert(crate::json::digits_value(seq!['0']) == 0);
}

/// A one-field object `{key: value}`.
pub open spec fn single(key: Seq<char>, value: JsonView) -> JsonView {
    JsonView::Object(seq![(key, value)])
}

/// A one-element array `[value]`.
pub open spec fn one(value: JsonView) -> JsonView {
    JsonView::Array(seq![value])
}

/// A complete response's text is read where its protocol puts it: the
/// Responses protocol's `output_text`, and when that is not a string the
/// text of the first content of the first output; the Messages protocol's
/// first content's text; Chat Completions' first choice's message content.
/// So the bodies these protocols send, `{"output":[{"content":[{"text":t}]}]}`,
/// `{"content":[{"text":t}]}` and `{"choices":[{"message":{"content":t}}]}`,
/// read as `t`.
pub proof fn response_text_is_read_where_the_protocol_puts_it(v: JsonView, t: Seq<char>)
    ensures
        field(v, "output_text"@) == Some(JsonView::Str(t)) ==> response_text_of(
            v,
            ProviderKind::OpenaiResponses,
        ) == t,
        text_of(field(v, "output_text"@)) is None && pointer(
            v,
            seq!["output"@, "0"@, "content"@, "0"@, "text"@],
        ) == Some(JsonView::Str(t)) ==> response_text_of(v, ProviderKind::OpenaiResponses) == t,
        response_text_of(
            single("output"@, one(single("content"@, one(single("text"@, JsonView::Str(t)))))),
            ProviderKind::OpenaiResponses,
        ) == t,
        response_text_of(
            single("content"@, one(single("text"@, JsonView::Str(t)))),
            ProviderKind::AnthropicMessages,
        ) == t,
        response_text_of(
            single("choices"@, one(single("message"@, single("content"@, JsonView::Str(t))))),
            ProviderKind::OpenaiCompatible,
        ) == t,
{
    lemma_index_zero();
    reveal_strlit("output");
    reveal_strlit("output_text");
    reveal_strlit("content");
    reveal_strlit("text");
    reveal_strlit("choices");
    reveal_strlit("message");
    reveal_with_fuel(crate::json::pointer, 6);
    let r = single("output"@, one(single("content"@, one(single("text"@, JsonView::Str(t))))));
    assert("output"@.len() == 6);
    assert("output_text"@.len() == 11);
    assert(field(r, "output_text"@) is None) by {
        let fs = seq![("output"@, one(single("content"@, one(single("text"@, JsonView::Str(t))))))];
        assert(fs.drop_first() =~= Seq::<(Seq<char>, JsonView)>::empty());
        assert(fs[0].0 != "output_text"@);
        assert(crate::json::first_field(Seq::<(Seq<char>, JsonView)>::empty(), "output_text"@) is None);
    }
}

/// A two-field object `{k1: v1, k2: v2}`.
pub open spec fn pair(k1: Seq<char>, v1: JsonView, k2: Seq<char>, v2: JsonView) -> JsonView {
    JsonView::Object(seq![(k1, v1), (k2, v2)])
}

/// Each protocol's text events stream their text, and only those: a
/// Responses `{"type":"response.output_text.delta","delta":t}` event, a
/// Messages `{"type":"content_block_delta","delta":{"text":t}}` event and a
/// Chat Completions `{"choices":[{"delta":{"content":t}}]}` chunk each carry
/// `t`; a Responses or Messages event of any other type carries nothing.
pub proof fn stream_events_carry_their_text(t: Seq<char>, kind: Seq<char>)
    ensures
        delta_of(
            pair("type"@, JsonView::Str("response.output_text.delta"@), "delta"@, JsonView::Str(t)),
            ProviderKind::OpenaiResponses,
        ) == Some(t),
        kind != "response.output_text.delta"@ ==> delta_of(
            pair("type"@, JsonView::Str(kind), "delta"@, JsonView::Str(t)),
            ProviderKind::OpenaiResponses,
        ) is None,
        delta_of(
            pair(
                "type"@,
                JsonView::Str("content_block_delta"@),
                "delta"@,
                single("text"@, JsonView::Str(t)),
            ),
            ProviderKind::AnthropicMessages,
        ) == Some(t),
        kind != "content_block_delta"@ ==> delta_of(
            pair("type"@, JsonView::Str(kind), "delta"@, single("text"@, JsonView::Str(t))),
            ProviderKind::AnthropicMessages,
        ) is None,
        delta_of(
            single("choices"@, one(single("delta"@, single("content"@, JsonView::Str(t))))),
            ProviderKind::OpenaiCompatible,
        ) == Some(t),
{
    lemma_index_zero();
    reveal_strlit("type");
    reveal_strlit("delta");
    reveal_strlit("text");
    reveal_strlit("choices");
    reveal_strlit("content");
    reveal_with_fuel(crate::json::pointer, 5);
    assert("type"@.len() != "delta"@.len());
    let r = pair("type"@, JsonView::Str("response.output_text.delta"@), "delta"@, JsonView::Str(t));
    lemma_first_field_at(r->Object_0, "type"@, 0);
    lemma_first_field_at(r->Object_0, "delta"@, 1);
    let r2 = pair("type"@, JsonView::Str(kind), "delta"@, JsonView::Str(t));
    lemma_first_field_at(r2->Object_0, "type"@, 0);
    let a = pair(
        "type"@,
        JsonView::Str("content_block_delta"@),
        "delta"@,
        single("text"@, JsonView::Str(t)),
    );
    lemma_first_field_at(a->Object_0, "type"@, 0);
    lemma_first_field_at(a->Object_0, "delta"@, 1);
    let a2 = pair("type"@, JsonView::Str(kind), "delta"@, single("text"@, JsonView::Str(t)));
    lemma_first_field_at(a2->Object_0, "type"@, 0);
}

/// Every request asks for streaming exactly when the caller does, and a
/// Responses request with a screenshot ends its input with a user message
/// whose second content part carries the screenshot's data URL.
pub proof fn payload_streams_as_asked_and_carries_the_screenshot(
    provider: ProviderKind,
    model: Seq<char>,
    max_tokens: u32,
    prompt: Seq<char>,
    messages: Seq<ChatMessage>,
    image: Option<Seq<char>>,
    stream: bool,
)
    ensures
        field(payload_view(provider, model, max_tokens, prompt, messages, image, stream), "stream"@)
            == Some(JsonView::Bool(stream)),
        provider == ProviderKind::OpenaiResponses && image is Some ==> (field(
            payload_view(provider, model, max_tokens, prompt, messages, image, stream),
            "input"@,
        ) matches Some(JsonView::Array(input)) && input.len() == messages.len() + 1 && field(
            input.last(),
            "role"@,
        ) == Some(JsonView::Str("user"@)) && (field(input.last(), "content"@) matches Some(
            JsonView::Array(parts),
        ) && parts.len() == 2 && field(parts[1], "image_url"@) == Some(JsonView::Str(image->0)))),
{
    reveal_strlit("model");
    reveal_strlit("instructions");
    reveal_strlit("input");
    reveal_strlit("system");
    reveal_strlit("messages");
    reveal_strlit("max_output_tokens");
    reveal_strlit("max_tokens");
    reveal_strlit("stream");
    let p = payload_view(provider, model, max_tokens, prompt, messages, image, stream);
    let fs = p->Object_0;
    match provider {
        ProviderKind::OpenaiResponses => {
            assert(fs[0].0.len() != "stream"@.len());
            assert(fs[1].0.len() != "stream"@.len());
            assert(fs[2].0.len() != "stream"@.len());
            assert(fs[3].0.len() != "stream"@.len());
            lemma_first_field_at(fs, "stream"@, 4);
            if let Some(img) = image {
                reveal_strlit("role");
                reveal_strlit("content");
                reveal_strlit("type");
                reveal_strlit("image_url");
                lemma_first_field_at(fs, "model"@, 0);
                assert(fs[0].0.len() != "instructions"@.len());
                lemma_first_field_at(fs, "instructions"@, 1);
                assert(fs[0].0[0] != "input"@[0]);
                assert(fs[1].0.len() != "input"@.len());
                lemma_first_field_at(fs, "input"@, 2);
                let last = responses_image(img);
                let lf = last->Object_0;
                lemma_first_field_at(lf, "role"@, 0);
                assert(lf[0].0.len() != "content"@.len());
                lemma_first_field_at(lf, "content"@, 1);
                let parts = lf[1].1->Array_0;
                let pf = parts[1]->Object_0;
                assert(pf[0].0.len() != "image_url"@.len());
                assert(pf[1].0.len() == "image_url"@.len());
                lemma_first_field_at(pf, "image_url"@, 1);
            }
        },
        ProviderKind::AnthropicMessages => {
            assert(fs[0].0.len() != "stream"@.len());
            assert(fs[1].0[1] != "stream"@[1]);
            assert(fs[2].0.len() != "stream"@.len());
            assert(fs[3].0.len() != "stream"@.len());
            lemma_first_field_at(fs, "stream"@, 4);
        },
        ProviderKind::OpenaiCompatible => {
            assert(fs[0].0.len() != "stream"@.len());
            assert(fs[1].0.len() != "stream"@.len());
            assert(fs[2].0.len() != "stream"@.len());
            lemma_first_field_at(fs, "stream"@, 3);
        },
    }
}

/// Every request caps the reply at the configured number of tokens, under
/// the name its protocol reads: `max_output_tokens` for Responses,
/// `max_tokens` for Messages and Chat Completions.
pub proof fn payload_caps_the_reply_as_configured(
    provider: ProviderKind,
    model: Seq<char>,
    max_tokens: u32,
    prompt: Seq<char>,
    messages: Seq<ChatMessage>,
    image: Option<Seq<char>>,
    stream: bool,
)
    ensures
        field(
            payload_view(provider, model, max_tokens, prompt, messages, image, stream),
            if provider == ProviderKind::OpenaiResponses {
                "max_output_tokens"@
            } else {
                "max_tokens"@
            },
        ) == Some(JsonView::Number(decimal(max_tokens as nat))),
{
    reveal_strlit("model");
    reveal_strlit("instructions");
    reveal_strlit("input");
    reveal_strlit("system");
    reveal_strlit("messages");
    reveal_strlit("max_output_tokens");
    reveal_strlit("max_tokens");
    let p = payload_view(provider, model, max_tokens, prompt, messages, image, stream);
    let fs = p->Object_0;
    match provider {
        ProviderKind::OpenaiResponses => {
            assert(fs[0].0.len() != "max_output_tokens"@.len());
            assert(fs[1].0.len() != "max_output_tokens"@.len());
            assert(fs[2].0.len() != "max_output_tokens"@.len());
            lemma_first_field_at(fs, "max_output_tokens"@, 3);
        },
        ProviderKind::AnthropicMessages => {
            assert(fs[0].0.len() != "max_tokens"@.len());
            assert(fs[1].0.len() != "max_tokens"@.len());
            assert(fs[2].0.len() != "max_tokens"@.len());
            lemma_first_field_at(fs, "max_tokens"@, 3);
        },
        ProviderKind::OpenaiCompatible => {
            assert(fs[0].0.len() != "max_tokens"@.len());
            assert(fs[1].0.len() != "max_tokens"@.len());
            lemma_first_field_at(fs, "max_tokens"@, 2);
        },
    }
}

} // verus!

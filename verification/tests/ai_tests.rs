use sakipet::clock::now_ms;
use sakipet::json::{array, entry, object, string_value, JsonValue};
use sakipet::memory::MemoryFact;
use sakipet::message::ChatMessage;
use sakipet::payload::{build_payload, stream_delta};
use sakipet::prompt::{prompt_for, CharacterCard};
use sakipet::provider::{ModelEndpointConfig, ProviderKind};
use sakipet::settings::{random_heartbeat_delay, AiSettings};
use sakipet::stream::sse_boundary;

fn field<'a>(value: &'a JsonValue, key: &str) -> &'a JsonValue {
    value.get(key).expect("field present")
}

fn item(value: &JsonValue, index: usize) -> &JsonValue {
    match value {
        JsonValue::Array(items) => &items[index],
        _ => panic!("not an array"),
    }
}

fn text(value: &JsonValue) -> &str {
    value.as_str().expect("a string")
}

fn flag(value: &JsonValue) -> bool {
    match value {
        JsonValue::Bool(b) => *b,
        _ => panic!("not a boolean"),
    }
}

fn number(value: &JsonValue) -> &str {
    match value {
        JsonValue::Number(n) => n.as_str(),
        _ => panic!("not a number"),
    }
}

fn user_message(id: &str, content: &str, source: &str) -> ChatMessage {
    ChatMessage {
        id: id.to_string(),
        role: "user".to_string(),
        content: content.to_string(),
        timestamp: now_ms(),
        source: source.to_string(),
        vision_summary: None,
    }
}

#[test]
fn heartbeat_delay_stays_within_configured_range() {
    let settings = AiSettings {
        heartbeat_min_minutes: 20,
        heartbeat_max_minutes: 60,
        ..AiSettings::default()
    };
    for _ in 0..20 {
        let seconds = random_heartbeat_delay(&settings);
        assert!((20 * 60..=60 * 60).contains(&seconds));
    }
}

#[test]
fn sse_boundary_accepts_lf_and_crlf() {
    assert_eq!(sse_boundary("data: {}\n\nrest"), Some((8, 2)));
    assert_eq!(sse_boundary("data: {}\r\n\r\nrest"), Some((8, 4)));
}

#[test]
fn provider_stream_deltas_are_normalized() {
    let responses = object(vec![
        entry("type", string_value("response.output_text.delta")),
        entry("delta", string_value("你好")),
    ]);
    assert_eq!(
        stream_delta(&responses, ProviderKind::OpenaiResponses),
        Some("你好".to_string())
    );
    let anthropic = object(vec![
        entry("type", string_value("content_block_delta")),
        entry(
            "delta",
            object(vec![
                entry("type", string_value("text_delta")),
                entry("text", string_value("你好")),
            ]),
        ),
    ]);
    assert_eq!(
        stream_delta(&anthropic, ProviderKind::AnthropicMessages),
        Some("你好".to_string())
    );
    let compatible = object(vec![entry(
        "choices",
        array(vec![object(vec![entry(
            "delta",
            object(vec![entry("content", string_value("你好"))]),
        )])]),
    )]);
    assert_eq!(
        stream_delta(&compatible, ProviderKind::OpenaiCompatible),
        Some("你好".to_string())
    );
}

#[test]
fn prompt_puts_app_safety_before_character_card_and_excludes_creator_notes() {
    let card = CharacterCard {
        system_prompt: "角色提示".to_string(),
        creator_notes: "不应该发给模型".to_string(),
        ..CharacterCard::default()
    };
    let memories: Vec<MemoryFact> = Vec::new();
    let prompt = prompt_for(&card, "saki", "", &memories, "", "");
    assert!(prompt.find("只能进行聊天").unwrap() < prompt.find("角色提示").unwrap());
    assert!(!prompt.contains("不应该发给模型"));
}

#[test]
fn provider_payloads_keep_protocol_specific_fields() {
    let messages = vec![user_message("message", "你好", "chat")];
    let responses = ModelEndpointConfig {
        model: "gpt-test".to_string(),
        ..ModelEndpointConfig::default()
    };
    let responses_payload = build_payload(&responses, "system", &messages, None, true);
    assert_eq!(text(field(&responses_payload, "instructions")), "system");
    assert!(!flag(field(&responses_payload, "store")));
    assert!(flag(field(&responses_payload, "stream")));

    let anthropic = ModelEndpointConfig {
        provider: ProviderKind::AnthropicMessages,
        model: "anthropic-test".to_string(),
        ..ModelEndpointConfig::default()
    };
    let anthropic_payload = build_payload(&anthropic, "system", &messages, None, false);
    assert_eq!(text(field(&anthropic_payload, "system")), "system");
    assert_eq!(number(field(&anthropic_payload, "max_tokens")), "300");
    assert!(!flag(field(&anthropic_payload, "stream")));

    let compatible = ModelEndpointConfig {
        provider: ProviderKind::OpenaiCompatible,
        model: "local-test".to_string(),
        ..ModelEndpointConfig::default()
    };
    let compatible_payload = build_payload(&compatible, "system", &messages, None, true);
    let sent = field(&compatible_payload, "messages");
    assert_eq!(text(field(item(sent, 0), "role")), "system");
    assert_eq!(text(field(item(sent, 1), "content")), "你好");
}

#[test]
fn vision_payload_contains_image_without_persisting_it() {
    let config = ModelEndpointConfig {
        provider: ProviderKind::OpenaiCompatible,
        model: "local-vision".to_string(),
        ..ModelEndpointConfig::default()
    };
    let messages = vec![user_message("__vision__", "观察", "vision")];
    let payload = build_payload(
        &config,
        "vision",
        &messages,
        Some("data:image/jpeg;base64,abc"),
        false,
    );
    let sent = field(&payload, "messages");
    let content = field(item(sent, 1), "content");
    let url = field(field(item(content, 1), "image_url"), "url");
    assert_eq!(text(url), "data:image/jpeg;base64,abc");
}

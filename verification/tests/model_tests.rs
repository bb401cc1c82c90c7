use sakipet::clock::{epoch_millis, format_request_id, now_ms, request_id, RequestCounter};
use sakipet::json::{array, bool_value, entry, follow, number_value, object, string_value, JsonValue};
use sakipet::keyed::KeyedList;
use sakipet::payload::{extract_text, image_payload, message_value};
use sakipet::prompt::{clean_reply, history_for_prompt, json_candidate, prompt_for, CharacterCard, LorebookEntry};
use sakipet::provider::{
    auth_headers, check_api_key, check_secret_reference, endpoint_url, get_secret,
    http_error_message, normalize_endpoint_config, normalized_endpoint, KeyringRead,
    ModelEndpointConfig, ProviderKind,
};
use sakipet::search::{contains_token, token_overlap, tokens};
use sakipet::settings::{normalize_ai_settings, settings_have_chat, AiSettings};
use sakipet::stream::{data_line_payload, lines_of, payloads_of, StreamReader};
use sakipet::message::ChatMessage;
use sakipet::memory::{
    active_facts, check_pet_memory, check_shared_memory, edited_memory, facts_with_ids,
    forget_target_id, latest_active_memories, mark_deleted, matching_id, memory_from_operation,
    memory_operations, profile_text, put_shared_memory, store_decision, tombstone,
    upsert_shared_memory, MemoryFact, StoreDecision,
};
use sakipet::text::trim_str;

#[test]
fn request_ids_count_up() {
    let mut c = RequestCounter::new();
    let a = request_id(&mut c);
    let b = request_id(&mut c);
    assert_ne!(a, b);
    assert!(a.starts_with("req-"));
    assert_eq!(format_request_id(5, 7), format_request_id(5, 7));
    assert!(now_ms() > 1_600_000_000_000);
}

#[test]
fn keyed_list_behaves_as_a_map() {
    let mut k: KeyedList<u64> = KeyedList::new();
    assert!(k.is_empty());
    assert!(k.insert("a".to_string(), 1));
    assert!(!k.insert("a".to_string(), 2));
    assert_eq!(k.get("a"), Some(&2));
    assert!(k.insert("b".to_string(), 3));
    k.retain_keys(&vec!["b".to_string()]);
    assert!(!k.contains("a"));
    assert_eq!(k.remove("b"), Some(3));
    assert!(k.is_empty());
}

#[test]
fn endpoints_are_cleaned_and_checked() {
    let c = normalize_endpoint_config(ModelEndpointConfig {
        base_url: "  https://x.test/v1// ".to_string(),
        model: " m ".to_string(),
        max_output_tokens: 0,
        ..ModelEndpointConfig::default()
    });
    assert_eq!(c.base_url, "https://x.test/v1");
    assert_eq!(c.model, "m");
    assert_eq!(c.max_output_tokens, 1);
    assert_eq!(
        normalize_endpoint_config(ModelEndpointConfig {
            max_output_tokens: 9000,
            ..ModelEndpointConfig::default()
        })
        .max_output_tokens,
        8192
    );
    assert_eq!(endpoint_url(&c).unwrap(), "https://x.test/v1/responses");
    let anthropic = ModelEndpointConfig {
        provider: ProviderKind::AnthropicMessages,
        ..c.duplicate()
    };
    assert_eq!(endpoint_url(&anthropic).unwrap(), "https://x.test/v1/messages");
    let compatible = ModelEndpointConfig {
        provider: ProviderKind::OpenaiCompatible,
        ..c.duplicate()
    };
    assert_eq!(
        endpoint_url(&compatible).unwrap(),
        "https://x.test/v1/chat/completions"
    );
    assert_eq!(
        endpoint_url(&ModelEndpointConfig::default()).unwrap_err(),
        "请先填写模型地址和模型名称"
    );
    assert_eq!(
        normalized_endpoint(&c, Err("boom".to_string())).unwrap_err(),
        "boom"
    );
    assert_eq!(
        normalized_endpoint(&c, Ok(Some("k".to_string()))).unwrap(),
        ("https://x.test/v1/responses".to_string(), Some("k".to_string()))
    );
}

#[test]
fn secrets_from_the_keyring() {
    let r = Some("ref".to_string());
    assert_eq!(get_secret(&None, KeyringRead::NoEntry), Ok(None));
    assert_eq!(
        get_secret(&r, KeyringRead::Password("k".to_string())),
        Ok(Some("k".to_string()))
    );
    assert_eq!(get_secret(&r, KeyringRead::Password(String::new())), Ok(None));
    assert_eq!(get_secret(&r, KeyringRead::NoEntry), Ok(None));
    assert_eq!(
        get_secret(&r, KeyringRead::Failed("x".to_string())).unwrap_err(),
        "无法读取 API Key: x"
    );
    assert_eq!(
        get_secret(&r, KeyringRead::Unavailable("y".to_string())).unwrap_err(),
        "无法访问系统密钥环: y"
    );
    assert_eq!(check_secret_reference("ok"), Ok(()));
    assert_eq!(check_secret_reference("").unwrap_err(), "密钥引用无效");
    assert_eq!(check_secret_reference(&"x".repeat(101)).unwrap_err(), "密钥引用无效");
}

#[test]
fn api_keys_needed_by_hosted_providers() {
    let openai = ModelEndpointConfig::default();
    assert_eq!(check_api_key(&openai, &None).unwrap_err(), "未配置 OpenAI API Key");
    assert_eq!(check_api_key(&openai, &Some("k".to_string())), Ok(()));
    let local = ModelEndpointConfig {
        provider: ProviderKind::OpenaiCompatible,
        base_url: "http://localhost:1234/v1".to_string(),
        ..ModelEndpointConfig::default()
    };
    assert_eq!(check_api_key(&local, &None), Ok(()));
    let anthropic = ModelEndpointConfig {
        provider: ProviderKind::AnthropicMessages,
        ..local.duplicate()
    };
    assert_eq!(check_api_key(&anthropic, &None).unwrap_err(), "未配置 Anthropic API Key");
}

#[test]
fn request_headers_per_protocol() {
    let h = auth_headers(ProviderKind::OpenaiResponses, Some("k")).unwrap();
    assert_eq!(h[2], ("authorization".to_string(), "Bearer k".to_string()));
    let a = auth_headers(ProviderKind::AnthropicMessages, None).unwrap();
    assert_eq!(
        a,
        vec![
            ("content-type".to_string(), "application/json".to_string()),
            ("accept".to_string(), "text/event-stream".to_string()),
            ("anthropic-version".to_string(), "2023-06-01".to_string()),
        ]
    );
    assert_eq!(
        auth_headers(ProviderKind::AnthropicMessages, Some("bad\nkey")).unwrap_err(),
        "failed to parse header value"
    );
    assert_eq!(
        http_error_message(500, &"e".repeat(500)),
        format!("模型返回 HTTP 500: {}", "e".repeat(400))
    );
}

#[test]
fn ai_settings_are_clamped() {
    let s = normalize_ai_settings(AiSettings {
        max_recent_messages: 100,
        heartbeat_min_minutes: 0,
        heartbeat_max_minutes: 5000,
        ..AiSettings::default()
    });
    assert_eq!(s.max_recent_messages, 40);
    assert_eq!(s.heartbeat_min_minutes, 1);
    assert_eq!(s.heartbeat_max_minutes, 1440);
    let t = normalize_ai_settings(AiSettings {
        heartbeat_min_minutes: 50,
        heartbeat_max_minutes: 10,
        ..AiSettings::default()
    });
    assert_eq!(t.heartbeat_max_minutes, 50);
    assert!(!settings_have_chat(&AiSettings::default()));
}

#[test]
fn search_tokens_cover_characters_and_words() {
    let t = tokens("Ab c");
    for expected in ["a", "b", "c", "ab", "bc", "abc"] {
        assert!(contains_token(&t, expected), "missing {expected}");
    }
    assert!(contains_token(&t, "ab"));
    let q = tokens("粉蓝色界面");
    assert!(token_overlap(&q, &tokens("用户喜欢粉蓝色")) > token_overlap(&q, &tokens("用户喜欢猫粮")));
    assert!(contains_token(&tokens("ÄB"), "äb"));
    assert_eq!(trim_str("  x "), "x");
}

#[test]
fn replies_are_cleaned() {
    assert_eq!(clean_reply("  ```你好``` ", 600), "你好");
    assert_eq!(clean_reply("abcdef", 3), "abc");
    assert_eq!(clean_reply("你好呀", 6), "你好呀");
    assert_eq!(clean_reply("你好呀", 2), "你好");
    assert_eq!(json_candidate(" ```json\n{\"a\":1}\n``` "), "{\"a\":1}");
}

#[test]
fn history_keeps_the_most_recent_messages() {
    let messages: Vec<ChatMessage> = (0..5)
        .map(|i| ChatMessage::new(&format!("m{i}"), "user", "x", i, "chat"))
        .collect();
    let h = history_for_prompt(&messages, 0);
    assert_eq!(h.len(), 2);
    assert_eq!(h[0].id, "m3");
    assert_eq!(history_for_prompt(&messages, 10).len(), 5);
}

#[test]
fn lorebook_entries_reach_the_prompt_when_relevant() {
    let card = CharacterCard {
        name: "saki".to_string(),
        character_book: vec![
            LorebookEntry {
                keys: vec!["猫".to_string()],
                content: "猫的设定".to_string(),
                enabled: true,
                constant: false,
            },
            LorebookEntry {
                keys: vec!["狗".to_string()],
                content: "狗的设定".to_string(),
                enabled: true,
                constant: false,
            },
        ],
        ..CharacterCard::default()
    };
    let memories = vec![MemoryFact {
        content: "喜欢蓝色".to_string(),
        ..MemoryFact::default()
    }];
    let p = prompt_for(&card, "saki", "- 资料", &memories, "摘要", "我的猫");
    assert!(p.contains("猫的设定"));
    assert!(!p.contains("狗的设定"));
    assert!(p.contains("共享用户资料：\n- 资料"));
    assert!(p.contains("- 喜欢蓝色"));
    assert!(p.contains("较早对话摘要：\n摘要"));
    assert!(p.contains("当前宠物 ID：saki"));
}

#[test]
fn json_values_are_built_and_followed() {
    let v = object(vec![
        entry("a", array(vec![number_value(3), bool_value(true)])),
        entry("b", string_value("x")),
    ]);
    let path = vec!["a", "0"];
    assert!(matches!(follow(&v, &path), Some(JsonValue::Number(n)) if n == "3"));
    assert_eq!(v.get("b").and_then(|b| b.as_str()), Some("x"));
    assert!(v.get("c").is_none());
    let m = message_value(&ChatMessage::new("i", "user", "hi", 0, "chat"));
    assert_eq!(m.get("role").and_then(|r| r.as_str()), Some("user"));
    assert_eq!(m.get("content").and_then(|r| r.as_str()), Some("hi"));
    assert_eq!(image_payload("data:image/jpeg;base64,abc"), "abc");
}

#[test]
fn whole_responses_give_their_text() {
    let responses = object(vec![entry("output_text", string_value("好"))]);
    let anthropic = object(vec![entry(
        "content",
        array(vec![object(vec![entry("text", string_value("好"))])]),
    )]);
    let compatible = object(vec![entry(
        "choices",
        array(vec![object(vec![entry(
            "message",
            object(vec![entry("content", string_value("好"))]),
        )])]),
    )]);
    assert_eq!(extract_text(&responses, ProviderKind::OpenaiResponses), "好");
    assert_eq!(extract_text(&anthropic, ProviderKind::AnthropicMessages), "好");
    assert_eq!(extract_text(&compatible, ProviderKind::OpenaiCompatible), "好");
    assert_eq!(extract_text(&string_value("x"), ProviderKind::OpenaiCompatible), "");
}

#[test]
fn event_streams_are_cut_into_payloads() {
    assert_eq!(lines_of("a\nb\r\nc"), vec!["a", "b", "c"]);
    assert_eq!(data_line_payload("data: {\"x\":1} "), Some("{\"x\":1}".to_string()));
    assert_eq!(data_line_payload("data: [DONE]"), None);
    assert_eq!(data_line_payload("event: x"), None);
    assert_eq!(payloads_of("event: e\ndata: 1\ndata: 2"), vec!["1", "2"]);
    let mut r = StreamReader::new(ProviderKind::OpenaiCompatible);
    assert!(r.push_chunk("data: {\"a\"").is_empty());
    assert_eq!(r.push_chunk(":1}\n\ndata: x"), vec!["{\"a\":1}"]);
    assert_eq!(r.tail_payloads(), vec!["x"]);
}

fn fact(id: &str, content: &str, status: &str, updated_at: u64) -> MemoryFact {
    MemoryFact {
        id: id.to_string(),
        content: content.to_string(),
        status: status.to_string(),
        updated_at,
        ..MemoryFact::blank(0)
    }
}

#[test]
fn the_latest_record_of_a_memory_wins() {
    let log = vec![fact("a", "x", "active", 1), fact("b", "z", "active", 5), fact("a", "y", "active", 3)];
    let current = latest_active_memories(&log);
    let contents: Vec<&str> = current.iter().map(|f| f.content.as_str()).collect();
    assert_eq!(contents, vec!["z", "y"]);
    let deleted = vec![fact("a", "x", "active", 1), tombstone("a", 9)];
    assert!(latest_active_memories(&deleted).is_empty());
    let nameless = vec![fact("", "x", "active", 1)];
    assert!(latest_active_memories(&nameless).is_empty());
}

#[test]
fn memory_tombstones_and_edits() {
    let t = tombstone("a", 7);
    assert_eq!(t.id, "a");
    assert_eq!(t.status, "deleted");
    let e = edited_memory(fact("a", "  hi ", "deleted", 0), "pet", 8);
    assert_eq!(e.content, "hi");
    assert_eq!(e.status, "active");
    assert_eq!(e.scope, "pet");
    assert_eq!(e.updated_at, 8);
    let err = "记忆内容不能为空且不能超过 300 个字符";
    assert_eq!(check_pet_memory(&fact("a", "ok", "active", 0)), Ok(()));
    assert_eq!(check_pet_memory(&fact("", "ok", "active", 0)).unwrap_err(), err);
    assert_eq!(check_pet_memory(&fact(&"i".repeat(101), "ok", "active", 0)).unwrap_err(), err);
    assert_eq!(check_pet_memory(&fact("a", " ", "active", 0)).unwrap_err(), err);
    assert_eq!(check_shared_memory(&fact("a", &"长".repeat(301), "active", 0)).unwrap_err(), err);
    assert_eq!(check_shared_memory(&fact(&"i".repeat(101), "ok", "active", 0)), Ok(()));
}

#[test]
fn shared_memories_are_updated_in_place() {
    let facts = vec![fact("a", "x", "active", 1)];
    let replaced = upsert_shared_memory(vec![fact("a", "x", "active", 1)], fact("a", "y", "active", 2)).unwrap();
    assert_eq!(replaced.len(), 1);
    assert_eq!(replaced[0].content, "y");
    assert!(upsert_shared_memory(vec![fact("a", "x", "active", 1)], fact("b", "x", "active", 2)).is_none());
    let added = upsert_shared_memory(facts, fact("b", "w", "active", 2)).unwrap();
    assert_eq!(added.len(), 2);
    let put = put_shared_memory(vec![fact("a", "x", "active", 1)], fact("b", "x", "active", 2));
    assert_eq!(put.len(), 2);
    let marked = mark_deleted(vec![fact("a", "x", "active", 1), fact("b", "x", "active", 1)], "x", true, 5);
    assert!(marked.iter().all(|f| f.status == "deleted" && f.updated_at == 5));
    let by_id = mark_deleted(vec![fact("a", "x", "active", 1)], "x", false, 5);
    assert_eq!(by_id[0].status, "active");
    assert_eq!(active_facts(&marked).len(), 0);
    assert_eq!(profile_text(&vec![fact("a", "x", "active", 1), fact("b", "y", "deleted", 1), fact("c", "z", "active", 1)]), "- x\n- z");
    assert_eq!(facts_with_ids(vec![fact("", "x", "active", 1), fact("a", "y", "active", 1)]).len(), 1);
}

#[test]
fn stored_facts_go_where_their_scope_says() {
    let existing = vec![fact("a", "same", "active", 1)];
    assert!(store_decision(&fact("n", "  ", "active", 1), &existing) == StoreDecision::Skip);
    assert!(store_decision(&fact("n", "same", "active", 1), &existing) == StoreDecision::Skip);
    let mut shared = fact("n", "same", "active", 1);
    shared.scope = "shared".to_string();
    assert!(store_decision(&shared, &existing) == StoreDecision::Shared);
    assert!(store_decision(&fact("n", "new", "active", 1), &existing) == StoreDecision::AppendPet);
    assert_eq!(forget_target_id(&existing, "same"), "a");
    assert_eq!(forget_target_id(&existing, "other"), "other");
    assert_eq!(matching_id(&existing, "a"), Some("a".to_string()));
    assert_eq!(matching_id(&existing, "other"), None);
}

#[test]
fn memory_operations_follow_the_model_answer() {
    let op = |fields: Vec<(String, JsonValue)>| object(fields);
    let answer = object(vec![entry(
        "facts",
        array(vec![
            op(vec![entry("content", string_value(" 喜欢猫 "))]),
            op(vec![entry("action", string_value("forget")), entry("content", string_value("旧"))]),
            op(vec![entry("action", string_value("boom")), entry("content", string_value("x"))]),
            op(vec![entry("action", string_value("update"))]),
            op(vec![
                entry("action", string_value("update")),
                entry("content", string_value("新")),
                entry("scope", string_value("shared")),
                entry("kind", string_value("profile")),
            ]),
        ]),
    )]);
    let ops = memory_operations(&answer);
    assert_eq!(ops.len(), 3);
    assert_eq!(ops[0].action, "add");
    assert_eq!(ops[0].content, "喜欢猫");
    assert_eq!(ops[0].kind, "fact");
    assert_eq!(ops[0].scope, "pet");
    assert_eq!(ops[0].fact_index, 0);
    assert_eq!(ops[1].action, "forget");
    assert_eq!(ops[1].target, "旧");
    assert_eq!(ops[2].scope, "shared");
    assert_eq!(ops[2].fact_index, 4);
    let mut counter = RequestCounter::new();
    let first = counter.next;
    let stored = memory_from_operation(&ops[0], None, 0.5f64.to_bits(), 0.7f64.to_bits(), 42, &mut counter);
    assert_eq!(stored.id, format!("memory-42-{first}"));
    assert_eq!(stored.scope, "pet");
    assert_eq!(stored.status, "active");
    let kept = memory_from_operation(&ops[2], Some("m1".to_string()), 0, 0, 42, &mut counter);
    assert_eq!(kept.id, "m1");
    assert_eq!(kept.scope, "shared");
    assert!(memory_operations(&string_value("x")).is_empty());
}

#[test]
fn clock_readings_become_millisecond_stamps() {
    assert_eq!(epoch_millis(None), 0);
    assert_eq!(epoch_millis(Some(1_700_000_000_123)), 1_700_000_000_123);
    assert_eq!(epoch_millis(Some((1u128 << 64) + 5)), 5);
}

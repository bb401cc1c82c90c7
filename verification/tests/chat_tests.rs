use base64::Engine;
use sakipet::chat::{
    assistant_reply, chat_endpoint, finish_turn, needs_summary, start_turn, provider_test_messages, provider_test_prompt,
    provider_test_reply, recent_history, summary_source, summary_to_save, user_message,
    validate_chat_content, ChatRegistry,
};
use sakipet::heartbeat::{
    add_vision_note, finish_heartbeat, heartbeat_allowed, start_heartbeat, VisionStamp, heartbeat_marker, heartbeat_prompt, heartbeat_reply,
    is_no_reply, recently_talked, should_look, vision_due, vision_request, vision_summary,
    HeartbeatScheduler,
};
use sakipet::message::ChatMessage;
use sakipet::provider::ModelEndpointConfig;
use sakipet::screenshot::{screenshot_data_url, test_image_data_url};
use sakipet::settings::AiSettings;

fn chat_settings() -> AiSettings {
    AiSettings {
        enabled: true,
        chat_model: Some(ModelEndpointConfig {
            model: "m".to_string(),
            ..ModelEndpointConfig::default()
        }),
        ..AiSettings::default()
    }
}

fn history(n: usize) -> Vec<ChatMessage> {
    (0..n)
        .map(|i| ChatMessage::new(&format!("m{i}"), "user", "hi", i as u64, "chat"))
        .collect()
}

#[test]
fn a_pet_replies_to_one_request_at_a_time() {
    let mut r = ChatRegistry::new();
    assert!(!r.any_active());
    assert_eq!(r.begin("saki", "r1"), Ok(()));
    assert!(r.any_active());
    assert_eq!(
        r.begin("saki", "r2").unwrap_err(),
        "这只宠物正在回复，请先停止当前回复"
    );
    assert_eq!(r.begin("cat", "r3"), Ok(()));
    r.finish("saki", "r1");
    assert_eq!(r.begin("saki", "r4"), Ok(()));
    r.finish("saki", "r1");
    assert!(r.active.contains("saki"));
    assert_eq!(r.cancel("saki"), Some("r4".to_string()));
    assert!(!r.active.contains("saki"));
    assert_eq!(r.cancel("saki"), None);
    r.finish("cat", "r3");
    assert!(!r.any_active());
}

#[test]
fn heartbeat_claims_free_pets_only() {
    let mut r = ChatRegistry::new();
    assert!(r.claim("saki", "heartbeat-1"));
    r.release_claim("saki", "heartbeat-1");
    assert!(!r.any_active());
    r.begin("saki", "r1").unwrap();
    assert!(!r.claim("saki", "heartbeat-2"));
}

#[test]
fn chat_content_is_trimmed_and_bounded() {
    assert_eq!(validate_chat_content("  你好 "), Ok("你好".to_string()));
    let err = "消息不能为空且不能超过 4000 字";
    assert_eq!(validate_chat_content("   ").unwrap_err(), err);
    assert_eq!(validate_chat_content(&"字".repeat(4001)).unwrap_err(), err);
    assert!(validate_chat_content(&"字".repeat(4000)).is_ok());
}

#[test]
fn chat_endpoint_needs_ai_and_a_model() {
    assert_eq!(
        chat_endpoint(&AiSettings::default()).err().unwrap(),
        "AI 对话未启用"
    );
    let mut no_model = chat_settings();
    no_model.chat_model = None;
    assert_eq!(chat_endpoint(&no_model).err().unwrap(), "尚未配置聊天模型");
    assert_eq!(chat_endpoint(&chat_settings()).ok().unwrap().model, "m");
}

#[test]
fn chat_messages_of_a_turn() {
    let m = user_message("你好", 42);
    assert_eq!(m.id, "message-42");
    assert_eq!(m.role, "user");
    assert_eq!(m.source, "chat");
    let reply = assistant_reply("  `喵` ", 43).ok().unwrap();
    assert_eq!(reply.content, "喵");
    assert_eq!(reply.role, "assistant");
    assert_eq!(
        assistant_reply("  ", 43).err().unwrap(),
        "模型没有返回文字"
    );
}

#[test]
fn summaries_cover_all_but_the_recent_messages() {
    assert!(!needs_summary(40));
    assert!(needs_summary(41));
    assert!(summary_source(&history(12)).is_none());
    let older = summary_source(&history(15)).unwrap();
    assert_eq!(older.len(), 3);
    assert_eq!(older[2].id, "m2");
    assert_eq!(summary_to_save("  摘要 "), Some("摘要".to_string()));
    assert_eq!(summary_to_save("``"), None);
    let recent = recent_history(&history(205));
    assert_eq!(recent.len(), 200);
    assert_eq!(recent[0].id, "m5");
}

#[test]
fn provider_test_request() {
    assert_eq!(provider_test_prompt(false), "请只回复 OK。");
    assert_eq!(provider_test_prompt(true), "请回复 OK，表示你可以处理图片输入。");
    assert!(provider_test_messages(false, 1).is_empty());
    let m = provider_test_messages(true, 1);
    assert_eq!(m[0].id, "__vision__");
    assert_eq!(m[0].content, "测试图片");
    assert_eq!(provider_test_reply(&"x".repeat(100)).len(), 80);
}

#[test]
fn heartbeat_gates() {
    let ai = chat_settings();
    assert!(heartbeat_allowed(&ai, false, false));
    assert!(!heartbeat_allowed(&ai, true, false));
    assert!(!heartbeat_allowed(&ai, false, true));
    assert!(!heartbeat_allowed(&AiSettings::default(), false, false));
    assert!(recently_talked(Some(1_000), 300_999));
    assert!(!recently_talked(Some(1_000), 301_000));
    assert!(!recently_talked(None, 5));
    assert!(vision_due(0, 3_600_000));
    assert!(!vision_due(1, 3_600_000));
    let mut look = chat_settings();
    look.desktop_vision_enabled = true;
    look.vision_model = Some(ModelEndpointConfig {
        model: "v".to_string(),
        ..ModelEndpointConfig::default()
    });
    assert!(should_look(&look, false, 0, 3_600_000, true));
    assert!(!should_look(&look, true, 0, 3_600_000, true));
    assert!(!should_look(&look, false, 0, 3_600_000, false));
}

#[test]
fn heartbeat_prompt_and_reply() {
    let p = heartbeat_prompt("base");
    assert!(p.starts_with("base\n\n这是一次安静的 heartbeat。"));
    let mut q = String::from("p");
    add_vision_note(&mut q, "桌面");
    assert_eq!(q, "p\n\n当前桌面观察（仅作为上下文，不要复述敏感信息）：\n桌面");
    assert_eq!(vision_request(7).id, "__vision__");
    assert_eq!(vision_summary(" 看到 "), Some("看到".to_string()));
    assert_eq!(vision_summary(" "), None);
    assert!(is_no_reply("no_reply"));
    assert!(is_no_reply("NO_REPLY"));
    assert!(!is_no_reply("NO REPLY"));
    assert!(heartbeat_reply(" No_Reply ", 9, None).is_none());
    assert!(heartbeat_reply("", 9, None).is_none());
    let m = heartbeat_reply("在吗", 9, Some("桌面".to_string())).unwrap();
    assert_eq!(m.id, "heartbeat-9");
    assert_eq!(m.source, "heartbeat");
    assert_eq!(m.vision_summary.as_deref(), Some("桌面"));
    assert_eq!(heartbeat_marker(9), "heartbeat-9");
}

#[test]
fn scheduler_waits_ten_minutes_and_skips_busy_times() {
    let ai = AiSettings {
        heartbeat_min_minutes: 0,
        heartbeat_max_minutes: 0,
        ..chat_settings()
    };
    let mut s = HeartbeatScheduler::new();
    let pets = vec!["a".to_string(), "b".to_string()];
    assert_eq!(s.tick(&pets, 1_000_000, &ai, false), Some("a".to_string()));
    assert_eq!(s.last_heartbeat_ms, 1_000_000);
    assert_eq!(s.tick(&pets, 1_000_000 + 599_999, &ai, false), None);
    assert_eq!(s.tick(&pets, 1_600_000, &ai, true), None);
    assert_eq!(s.tick(&pets, 1_600_000, &ai, false), Some("a".to_string()));
    let only_b = vec!["b".to_string()];
    assert_eq!(s.tick(&only_b, 2_200_000, &ai, false), Some("b".to_string()));
    assert!(!s.next.contains("a"));
    assert_eq!(s.tick(&pets, 9_000_000, &AiSettings::default(), false), None);
}

#[test]
fn scheduler_draws_due_times_in_range() {
    let ai = AiSettings {
        heartbeat_min_minutes: 20,
        heartbeat_max_minutes: 60,
        ..chat_settings()
    };
    let mut s = HeartbeatScheduler::new();
    s.track(&vec!["a".to_string()], 1_000, &ai);
    let due = *s.next.get("a").unwrap();
    assert!((1_000 + 20 * 60_000..=1_000 + 60 * 60_000).contains(&due));
    assert_eq!(s.due_pet(&vec!["a".to_string()], 1_000_000, false), None);
}

#[test]
fn images_become_jpeg_data_urls() {
    let url = test_image_data_url().unwrap();
    assert!(url.starts_with("data:image/jpeg;base64,/9j/"));
    let big = screenshot_data_url(2000, 10, vec![200u8; 2000 * 10 * 4]).unwrap();
    let text = big.strip_prefix("data:image/jpeg;base64,").unwrap();
    let bytes = base64::engine::general_purpose::STANDARD.decode(text).unwrap();
    let image = image::load_from_memory(&bytes).unwrap();
    assert_eq!((image.width(), image.height()), (1280, 6));
    let small = screenshot_data_url(3, 2, vec![10u8; 3 * 2 * 4]).unwrap();
    let bytes = base64::engine::general_purpose::STANDARD.decode(small.strip_prefix("data:image/jpeg;base64,").unwrap()).unwrap();
    let image = image::load_from_memory(&bytes).unwrap();
    assert_eq!((image.width(), image.height()), (3, 2));
}

#[test]
fn a_chat_turn_stores_the_user_message_then_the_reply() {
    let ai = AiSettings {
        max_recent_messages: 2,
        ..chat_settings()
    };
    let mut log = vec![
        user_message("one", 1),
        user_message("two", 2),
        user_message("three", 3),
    ];
    let start = start_turn(&mut log, "hello", 10, &ai);
    assert_eq!(log.len(), 4);
    assert_eq!(start.user.content, "hello");
    assert_eq!(start.user.id, "message-10");
    assert_eq!(log[3].content, "hello");
    let sent: Vec<&str> = start.history.iter().map(|m| m.content.as_str()).collect();
    assert_eq!(sent, vec!["three", "hello"]);
    assert!(start.read_memories);
    let end = finish_turn(&mut log, "  `hi there`  ", 11, &ai).unwrap();
    assert_eq!(log.len(), 5);
    assert_eq!(log[4].role, "assistant");
    assert_eq!(log[4].content, "hi there");
    assert_eq!(end.assistant.id, "message-11");
    assert!(end.extract_memories);
    assert!(!end.summarize);
    assert_eq!(finish_turn(&mut log, "   ", 12, &ai).err().unwrap(), "模型没有返回文字");
    assert_eq!(log.len(), 5);
}

#[test]
fn a_heartbeat_holds_its_pet_and_lets_it_go() {
    let ai = AiSettings {
        heartbeat_min_minutes: 0,
        heartbeat_max_minutes: 0,
        ..chat_settings()
    };
    let mut s = HeartbeatScheduler::new();
    let mut chats = ChatRegistry::new();
    let pets = vec!["a".to_string()];
    let (pet, marker) = start_heartbeat(&mut s, &mut chats, &pets, 1_000_000, &ai).unwrap();
    assert_eq!((pet.as_str(), marker.as_str()), ("a", "heartbeat-1000000"));
    assert!(chats.any_active());
    assert_eq!(chats.begin("a", "req-1").unwrap_err(), "这只宠物正在回复，请先停止当前回复");
    finish_heartbeat(&mut chats, &pet, &marker);
    assert!(!chats.any_active());
    assert!(start_heartbeat(&mut s, &mut chats, &pets, 1_300_000, &ai).is_none());
    chats.begin("a", "req-2").unwrap();
    assert!(start_heartbeat(&mut s, &mut chats, &pets, 1_700_000, &ai).is_none());
    finish_heartbeat(&mut chats, "a", "heartbeat-1000000");
    assert!(chats.any_active());
}

#[test]
fn desktop_looks_wait_an_hour_even_after_a_failed_capture() {
    let ai = AiSettings {
        desktop_vision_enabled: true,
        vision_model: Some(ModelEndpointConfig {
            model: "v".to_string(),
            ..ModelEndpointConfig::default()
        }),
        ..chat_settings()
    };
    let mut stamp = VisionStamp::new();
    assert!(stamp.look(&ai, false, 4_000_000, true));
    assert_eq!(stamp.last_ms, 4_000_000);
    assert!(!stamp.look(&ai, false, 4_000_000 + 3_599_999, true));
    assert!(!stamp.look(&ai, true, 7_600_000, true));
    assert!(!stamp.look(&ai, false, 7_600_000, false));
    assert_eq!(stamp.last_ms, 4_000_000);
    assert!(stamp.look(&ai, false, 7_600_000, true));
    assert_eq!(stamp.last_ms, 7_600_000);
}

use sakipet::pets::{
    check_pet_id, data_url, instance_id_from_label, instance_label, is_pet_window_label,
    is_safe_id, is_safe_relative_path, mime_for_extension, mime_for_path, relative_path_ok,
};

#[test]
fn safe_ids_are_short_ascii_names() {
    assert!(is_safe_id("sakimiao"));
    assert!(is_safe_id("pet_2-b"));
    assert!(is_safe_id(&"a".repeat(64)));
    assert!(!is_safe_id(&"a".repeat(65)));
    assert!(!is_safe_id(""));
    assert!(!is_safe_id("a b"));
    assert!(!is_safe_id("../x"));
    assert!(!is_safe_id("猫"));
}

#[test]
fn pet_id_check_names_the_error() {
    assert_eq!(check_pet_id("saki"), Ok(()));
    assert_eq!(check_pet_id("saki/..").unwrap_err(), "宠物 id 无效");
}

#[test]
fn relative_paths_need_proper_parts() {
    assert!(is_safe_relative_path("spritesheet.webp"));
    assert!(is_safe_relative_path("images/sheet.png"));
    assert!(!is_safe_relative_path(""));
    assert!(!is_safe_relative_path("/etc/passwd"));
    assert!(!is_safe_relative_path("../sheet.png"));
    assert!(!is_safe_relative_path("a/./b.png"));
    assert!(!is_safe_relative_path("a//b.png"));
    assert!(!is_safe_relative_path("a/"));
    assert!(!is_safe_relative_path("."));
    assert!(is_safe_relative_path("images\\sheet.png"));
}

#[test]
fn an_absolute_path_is_refused_whatever_its_parts() {
    assert!(relative_path_ok("a/b.png", false));
    assert!(!relative_path_ok("a/b.png", true));
    assert!(!relative_path_ok("a/../b.png", false));
}

#[test]
fn window_labels_round_trip() {
    assert_eq!(instance_label("main").unwrap(), "main");
    assert_eq!(instance_label("instance-3").unwrap(), "pet-instance-instance-3");
    assert_eq!(instance_label("bad id").unwrap_err(), "invalid pet instance id");
    for id in ["main", "instance-3", "x"] {
        let label = instance_label(id).unwrap();
        assert_eq!(instance_id_from_label(&label), Some(id.to_string()));
        assert!(is_pet_window_label(&label));
    }
    assert_eq!(instance_id_from_label("pet-manager"), None);
    assert!(!is_pet_window_label("pet-chat-saki"));
}

#[test]
fn media_types_follow_the_extension() {
    assert_eq!(mime_for_extension(Some("png")), "image/png");
    assert_eq!(mime_for_extension(Some("jpg")), "image/jpeg");
    assert_eq!(mime_for_extension(Some("jpeg")), "image/jpeg");
    assert_eq!(mime_for_extension(Some("PNG")), "image/webp");
    assert_eq!(mime_for_extension(None), "image/webp");
    assert_eq!(mime_for_path("a/sheet.png"), "image/png");
    assert_eq!(mime_for_path("sheet.jpeg"), "image/jpeg");
    assert_eq!(mime_for_path("sheet.webp"), "image/webp");
    assert_eq!(mime_for_path("sheet"), "image/webp");
    assert_eq!(mime_for_path("spritesheet.png"), "image/png");
    assert_eq!(mime_for_path("a/b.jpg"), "image/jpeg");
    assert_eq!(mime_for_path("c.jpeg"), "image/jpeg");
    assert_eq!(mime_for_path("noext"), "image/webp");
    assert_eq!(mime_for_path("X.PNG"), "image/webp");
    assert_eq!(mime_for_path(".png"), "image/webp");
    assert_eq!(mime_for_path("a.png/"), "image/png");
    assert_eq!(mime_for_path("a.png/."), "image/png");
    assert_eq!(mime_for_path("a.png/.."), "image/webp");
    assert_eq!(mime_for_path("x.jpg.png"), "image/png");
}

#[test]
fn data_urls_hold_the_base64_text() {
    assert_eq!(data_url("a.png", b"hello"), "data:image/png;base64,aGVsbG8=");
    assert_eq!(data_url("a.webp", b""), "data:image/webp;base64,");
    assert_eq!(data_url("img/a.jpg", b"hi"), "data:image/jpeg;base64,aGk=");
}


use sakipet::catalog::{
    imported_listing, installed_pets, manifest_usable, pet_display_name, pet_is_bundled,
    sort_by_id, BundledPet, InstalledPet, PetManifest,
};
use sakipet::config::{AppConfig, PetSettings};
use sakipet::dialogue::{check_dialogue, check_dialogue_size, normalize_dialogue, PetDialogue};
use sakipet::instances::add_pet_instance;
use sakipet::order::text_less;
use sakipet::package::{
    check_new_pet_id, entry_count, entry_in_root, has_entry, manifest_entry, open_package, package_bytes, package_opening, read_entry, root_of,
    validate_imported_manifest,
};
use sakipet::tray::{add_entries, instance_entries, instance_toggle_target, tray_action, TrayAction};
use base64::Engine;
use std::io::Write;

fn bundled(id: &str) -> BundledPet {
    BundledPet {
        id: id.to_string(),
        path: format!("pets/{id}"),
    }
}

fn manifest(id: &str) -> PetManifest {
    PetManifest {
        id: id.to_string(),
        display_name: "Cat".to_string(),
        description: "A cat".to_string(),
        sprite_version_number: 2,
        spritesheet_path: "spritesheet.webp".to_string(),
    }
}

#[test]
fn bundled_lookup_finds_the_first_match() {
    let catalog = vec![bundled("a"), bundled("b")];
    assert_eq!(pet_is_bundled(&catalog, "b").unwrap().path, "pets/b");
    assert!(pet_is_bundled(&catalog, "c").is_none());
}

#[test]
fn text_order_is_code_point_order() {
    let a: Vec<char> = "abc".chars().collect();
    let b: Vec<char> = "abd".chars().collect();
    let p: Vec<char> = "ab".chars().collect();
    assert!(text_less(&a, &b));
    assert!(!text_less(&b, &a));
    assert!(text_less(&p, &a));
    assert!(!text_less(&a, &a));
}

#[test]
fn installed_pets_are_sorted_by_id() {
    let mut config = AppConfig::default();
    config.disabled_pet_ids.push("zeta".to_string());
    let catalog = vec![bundled("zeta"), bundled("alpha")];
    let imported = vec![imported_listing(
        &config,
        "mid",
        &manifest("mid"),
        "data:x".to_string(),
    )];
    let pets = installed_pets(&config, &catalog, imported);
    let order: Vec<&str> = pets.iter().map(|p| p.id.as_str()).collect();
    assert_eq!(order, vec!["alpha", "mid", "zeta"]);
    assert!(pets[0].enabled && pets[1].enabled && !pets[2].enabled);
    assert_eq!(pets[0].source, "bundled");
    assert_eq!(pets[0].spritesheet_path, "spritesheet.webp");
    assert_eq!(pets[0].path.as_deref(), Some("pets/alpha"));
    assert_eq!(pets[1].source, "imported");
    assert_eq!(pets[1].preview_data_url.as_deref(), Some("data:x"));
    assert!(pets[1].settings == PetSettings::default());
}

#[test]
fn sorting_is_stable_for_equal_ids() {
    let config = AppConfig::default();
    let mut first = manifest("same");
    first.display_name = "first".to_string();
    let mut second = manifest("same");
    second.display_name = "second".to_string();
    let pets: Vec<InstalledPet> = vec![
        imported_listing(&config, "same", &first, String::new()),
        imported_listing(&config, "same", &second, String::new()),
    ];
    let sorted = sort_by_id(pets);
    assert_eq!(sorted[0].display_name, "first");
    assert_eq!(sorted[1].display_name, "second");
}

#[test]
fn display_names_fall_back_to_ids() {
    let config = AppConfig::default();
    let pets = installed_pets(
        &config,
        &vec![bundled("alpha")],
        vec![imported_listing(&config, "cat", &manifest("cat"), String::new())],
    );
    assert_eq!(pet_display_name(&pets, "alpha"), "alpha");
    assert_eq!(pet_display_name(&pets, "cat"), "Cat");
    assert_eq!(pet_display_name(&pets, "ghost"), "ghost");
}

#[test]
fn manifests_must_match_their_folder() {
    assert!(manifest_usable(&manifest("cat"), "cat"));
    assert!(!manifest_usable(&manifest("cat"), "dog"));
    let mut old = manifest("cat");
    old.sprite_version_number = 1;
    assert!(!manifest_usable(&old, "cat"));
    let mut escaping = manifest("cat");
    escaping.spritesheet_path = "../x.webp".to_string();
    assert!(!manifest_usable(&escaping, "cat"));
}

#[test]
fn tray_lists_addable_pets_and_instances() {
    let mut config = AppConfig::default();
    let pets = installed_pets(
        &config,
        &vec![bundled("sakimiao"), bundled("dog")],
        vec![imported_listing(&config, "cat", &manifest("cat"), String::new())],
    );
    let adds = add_entries(&config, &pets);
    let ids: Vec<&str> = adds.iter().map(|e| e.id.as_str()).collect();
    assert_eq!(ids, vec!["add-pet:cat", "add-pet:dog"]);
    assert_eq!(adds[0].title, "添加 Cat");
    assert_eq!(adds[1].title, "添加 dog");
    add_pet_instance(&mut config, "cat").unwrap();
    let entries = instance_entries(&config, &pets);
    assert_eq!(entries[0].id, "toggle-instance:main");
    assert_eq!(entries[0].title, "隐藏 sakimiao (main)");
    assert_eq!(entries[1].title, "隐藏 Cat (instance-2)");
    assert!(!instance_toggle_target(&config, "main"));
    assert!(!instance_toggle_target(&config, "nope"));
}

#[test]
fn tray_actions_read_back_their_entries() {
    assert!(matches!(tray_action("show-hide-all"), TrayAction::ShowHideAll));
    assert!(matches!(tray_action("manage-pets"), TrayAction::ManagePets));
    assert!(matches!(tray_action("pet-settings"), TrayAction::ManagePets));
    assert!(matches!(tray_action("toggle-pause"), TrayAction::TogglePause));
    assert!(matches!(tray_action("add-pet:cat"), TrayAction::AddPet(p) if p == "cat"));
    assert!(
        matches!(tray_action("toggle-instance:main"), TrayAction::ToggleInstance(i) if i == "main")
    );
    assert!(matches!(tray_action("quit"), TrayAction::Quit));
    assert!(matches!(tray_action("other"), TrayAction::Nothing));
}

#[test]
fn dialogue_defaults_and_normalization() {
    let d = PetDialogue::default();
    assert_eq!(d.version, 1);
    assert_eq!(d.double_click, vec!["嗯？找我吗？", "今天也一起玩吧。"]);
    assert_eq!(d.right_click, vec!["轻一点嘛。"]);
    let mut raw = PetDialogue::default();
    raw.double_click = vec!["  ".to_string()];
    raw.click = (0..40).map(|i| format!(" line {i} ")).collect();
    raw.idle = vec!["".to_string(), " hi ".to_string()];
    let n = normalize_dialogue(raw);
    assert_eq!(n.double_click, vec!["嗯？找我吗？", "今天也一起玩吧。"]);
    assert_eq!(n.click.len(), 32);
    assert_eq!(n.click[0], "line 0");
    assert_eq!(n.idle, vec!["hi"]);
}

#[test]
fn empty_dialogue_lists_switch_lines_off() {
    let mut raw = PetDialogue::default();
    raw.double_click = vec![];
    raw.click = vec![];
    let n = normalize_dialogue(raw);
    assert!(n.double_click.is_empty());
    assert!(n.click.is_empty());
    assert_eq!(n.right_click, vec!["轻一点嘛。"]);
}

#[test]
fn dialogue_checks_report_each_error() {
    assert_eq!(check_dialogue_size(1024 * 1024), Ok(()));
    assert_eq!(
        check_dialogue_size(1024 * 1024 + 1).unwrap_err(),
        "character.json 不能超过 1 MB"
    );
    let mut v2 = PetDialogue::default();
    v2.version = 2;
    assert_eq!(
        check_dialogue(v2).err().unwrap(),
        "只支持 character.json version: 1"
    );
    let mut long = PetDialogue::default();
    long.walk = vec!["长".repeat(241)];
    assert_eq!(
        check_dialogue(long).err().unwrap(),
        "character.json 中的单句台词不能超过 240 个字符"
    );
    let mut ok = PetDialogue::default();
    ok.walk = vec!["长".repeat(240)];
    assert_eq!(check_dialogue(ok).ok().unwrap().walk.len(), 1);
}

fn zip_of(files: &[(&str, &[u8])]) -> Vec<u8> {
    let mut out = std::io::Cursor::new(Vec::new());
    {
        let mut writer = zip::ZipWriter::new(&mut out);
        for (name, data) in files {
            writer
                .start_file(*name, zip::write::SimpleFileOptions::default())
                .unwrap();
            writer.write_all(data).unwrap();
        }
        writer.finish().unwrap();
    }
    out.into_inner()
}

#[test]
fn package_bytes_checks_name_size_and_base64() {
    let text = base64::engine::general_purpose::STANDARD.encode(b"PK");
    assert_eq!(package_bytes("pet.ZIP", &text), Ok(b"PK".to_vec()));
    assert_eq!(
        package_bytes("pet.tar", &text).unwrap_err(),
        "请选择不超过 60 MB 的 .zip 宠物包"
    );
    assert!(package_bytes("pet.zip", "@@@")
        .unwrap_err()
        .starts_with("宠物包不是有效的 Base64: "));
}

#[test]
fn packages_find_their_manifest_and_root() {
    let bytes = zip_of(&[
        ("cat/readme.txt", b"hi"),
        ("cat/pet.json", b"{}"),
        ("cat/spritesheet.webp", b"xx"),
    ]);
    let mut archive = open_package(bytes).unwrap();
    assert_eq!(entry_count(&archive), 3);
    let name = manifest_entry(&mut archive).unwrap();
    assert_eq!(name, "cat/pet.json");
    let root = root_of(&name);
    assert_eq!(root, "cat/");
    assert!(has_entry(&archive, "cat/spritesheet.webp"));
    assert!(!has_entry(&archive, "cat/character.json"));
    assert_eq!(read_entry(&mut archive, "cat/pet.json", "pet.json", false).unwrap(), b"{}".to_vec());
    assert!(read_entry(&mut archive, "missing", "spritesheet", true)
        .unwrap_err()
        .starts_with("宠物包内缺少 spritesheet: "));
    assert!(read_entry(&mut archive, "missing", "pet.json", false)
        .unwrap_err()
        .starts_with("无法读取 pet.json: "));
    assert_eq!(root_of("pet.json"), "");
    let nested = zip_of(&[("a/b/pet.json/", b""), ("x", b"")]);
    let mut archive = open_package(nested).unwrap();
    assert_eq!(manifest_entry(&mut archive).unwrap(), "a/b/pet.json");
    let empty = zip_of(&[("readme.txt", b"")]);
    let mut archive = open_package(empty).unwrap();
    assert_eq!(manifest_entry(&mut archive).unwrap_err(), "宠物包内缺少 pet.json");
    assert!(open_package(b"not a zip".to_vec())
        .err()
        .unwrap()
        .starts_with("无法打开宠物包: "));
}

fn png(width: u32, height: u32) -> Vec<u8> {
    let image = image::RgbaImage::from_pixel(width, height, image::Rgba([1, 2, 3, 255]));
    let mut out = std::io::Cursor::new(Vec::new());
    image.write_to(&mut out, image::ImageFormat::Png).unwrap();
    out.into_inner()
}

#[test]
fn manifest_validation_reports_each_problem() {
    let m = manifest("cat");
    let sprite = png(1536, 2288);
    assert_eq!(
        validate_imported_manifest(&m, "cat", "spritesheet.webp", &sprite),
        Ok(())
    );
    assert_eq!(
        validate_imported_manifest(&m, "dog", "spritesheet.webp", &sprite).unwrap_err(),
        "pet.json 的 id 只能包含字母、数字、短横线或下划线，并且必须和目录一致"
    );
    let mut v1 = manifest("cat");
    v1.sprite_version_number = 1;
    assert_eq!(
        validate_imported_manifest(&v1, "cat", "spritesheet.webp", &sprite).unwrap_err(),
        "只支持 spriteVersionNumber: 2 的宠物资源"
    );
    let mut blank = manifest("cat");
    blank.description = "  ".to_string();
    assert_eq!(
        validate_imported_manifest(&blank, "cat", "spritesheet.webp", &sprite).unwrap_err(),
        "pet.json 缺少 displayName 或 description"
    );
    assert_eq!(
        validate_imported_manifest(&m, "cat", "other.webp", &sprite).unwrap_err(),
        "spritesheetPath 不是安全的相对路径"
    );
    assert_eq!(
        validate_imported_manifest(&m, "cat", "spritesheet.webp", &[]).unwrap_err(),
        "spritesheet 文件为空或超过 50 MB"
    );
    assert!(validate_imported_manifest(&m, "cat", "spritesheet.webp", b"junk")
        .unwrap_err()
        .starts_with("无法解码 spritesheet: "));
    assert_eq!(
        validate_imported_manifest(&m, "cat", "spritesheet.webp", &png(4, 2)).unwrap_err(),
        "spritesheet 尺寸为 4x2，应为 1536x2288"
    );
}

#[test]
fn refused_archives_carry_the_crate_message() {
    let answer = package_opening(Err("invalid Zip archive".to_string()));
    assert_eq!(answer.err().unwrap(), "无法打开宠物包: invalid Zip archive");
}

#[test]
fn package_files_sit_under_the_root_and_ids_are_new() {
    assert_eq!(entry_in_root("cat/", "spritesheet.webp"), "cat/spritesheet.webp");
    assert_eq!(entry_in_root("", "character.json"), "character.json");
    assert_eq!(check_new_pet_id("cat", false), Ok(()));
    assert_eq!(check_new_pet_id("cat", true).unwrap_err(), "宠物 id 已存在: cat");
}

use sakipet::config::{
    normalize_config, settings_for_pet, AppConfig, PetInstanceConfig, PetPosition, PetSettings,
};
use sakipet::instances::{
    add_pet_instance, all_instance_info, check_removable, forget_removed_pet,
    has_visible_pet_config, heartbeat_candidates, is_disabled, labels_for_pet, main_window_plan,
    needs_accessory_policy, remove_pet_instance, runtime_instance, save_instance_position,
    set_instance_visible, set_pet_enabled, toggle_all_pause, toggle_pet_pause, unplaced_count,
    update_pet_settings, visibility_target, visible_instances, window_shown,
};

fn instance(id: &str, pet_id: &str, visible: bool) -> PetInstanceConfig {
    PetInstanceConfig {
        id: id.to_string(),
        pet_id: pet_id.to_string(),
        visible,
        position: None,
    }
}

fn ids(config: &AppConfig) -> Vec<(String, String)> {
    config
        .instances
        .iter()
        .map(|i| (i.id.clone(), i.pet_id.clone()))
        .collect()
}

fn pair(a: &str, b: &str) -> (String, String) {
    (a.to_string(), b.to_string())
}

#[test]
fn default_config_shows_the_main_pet() {
    let config = AppConfig::default();
    assert_eq!(ids(&config), vec![pair("main", "sakimiao")]);
    assert_eq!(config.next_instance_id, 2);
    assert!(config.disabled_pet_ids.is_empty());
    let s = PetSettings::default();
    assert_eq!(s.scale_bits, 1.0f64.to_bits());
    assert_eq!(s.opacity_bits, 1.0f64.to_bits());
    assert_eq!(s.speed_bits, 95.0f64.to_bits());
    assert!(s.wander_enabled && !s.paused && !s.quiet_mode && !s.show_in_fullscreen);
}

#[test]
fn normalizing_adds_main_drops_unsafe_and_duplicate_pets() {
    let mut config = AppConfig::default();
    config.instances = vec![
        instance("a", "cat", true),
        instance("bad id", "dog", true),
        instance("b", "cat", true),
        instance("c", "dog", false),
    ];
    config.disabled_pet_ids = vec!["ok".to_string(), "no way".to_string()];
    config.pet_settings.insert("../x".to_string(), PetSettings::default());
    let mut legacy = PetSettings::default();
    legacy.paused = true;
    config.settings = legacy;
    normalize_config(&mut config);
    assert_eq!(
        ids(&config),
        vec![pair("main", "sakimiao"), pair("a", "cat"), pair("c", "dog")]
    );
    assert_eq!(config.disabled_pet_ids, vec!["ok".to_string()]);
    assert!(!config.pet_settings.contains("../x"));
    for pet in ["sakimiao", "cat", "dog"] {
        assert!(settings_for_pet(&config, pet).paused);
    }
    let once = ids(&config);
    normalize_config(&mut config);
    assert_eq!(ids(&config), once);
}

#[test]
fn normalizing_may_drop_main_when_an_earlier_instance_shows_its_pet() {
    let mut config = AppConfig::default();
    config.instances = vec![instance("x", "sakimiao", true), instance("main", "sakimiao", true)];
    normalize_config(&mut config);
    assert_eq!(ids(&config), vec![pair("x", "sakimiao")]);
    normalize_config(&mut config);
    assert_eq!(ids(&config), vec![pair("main", "sakimiao")]);
}

#[test]
fn adding_instances_refuses_disabled_and_shown_pets() {
    let mut config = AppConfig::default();
    let info = add_pet_instance(&mut config, "cat").unwrap();
    assert_eq!(info.id, "instance-2");
    assert_eq!(info.pet_id, "cat");
    assert!(info.visible && !info.is_main);
    assert_eq!(config.next_instance_id, 3);
    assert_eq!(
        add_pet_instance(&mut config, "cat").err().unwrap(),
        "每种宠物只能显示一只"
    );
    config.disabled_pet_ids.push("dog".to_string());
    assert_eq!(
        add_pet_instance(&mut config, "dog").err().unwrap(),
        "这只宠物已停用，请先启用它"
    );
    assert_eq!(config.next_instance_id, 3);
}

#[test]
fn removing_instances() {
    let mut config = AppConfig::default();
    add_pet_instance(&mut config, "cat").unwrap();
    assert_eq!(
        remove_pet_instance(&mut config, "main").unwrap_err(),
        "默认宠物不能删除，只能隐藏"
    );
    assert_eq!(
        remove_pet_instance(&mut config, "nope").unwrap_err(),
        "pet instance is not configured"
    );
    remove_pet_instance(&mut config, "instance-2").unwrap();
    assert_eq!(ids(&config), vec![pair("main", "sakimiao")]);
}

#[test]
fn visibility_and_positions() {
    let mut config = AppConfig::default();
    set_instance_visible(&mut config, "main", false).unwrap();
    assert!(!config.instances[0].visible);
    assert!(visibility_target(&config));
    assert_eq!(
        set_instance_visible(&mut config, "zzz", true).unwrap_err(),
        "pet instance is not configured"
    );
    let at = PetPosition {
        x_bits: 10.0f64.to_bits(),
        y_bits: 20.0f64.to_bits(),
    };
    save_instance_position(&mut config, "main", at).unwrap();
    assert!(config.instances[0].position == Some(at));
    let (settings, position, visible) = main_window_plan(&config);
    assert!(settings == PetSettings::default());
    assert!(position == Some(at));
    assert!(!visible);
}

#[test]
fn pausing_one_pet_twice_restores_it() {
    let mut config = AppConfig::default();
    let once = toggle_pet_pause(&mut config, "sakimiao");
    assert!(once.paused);
    let twice = toggle_pet_pause(&mut config, "sakimiao");
    assert!(!twice.paused);
    assert!(twice == PetSettings::default());
}

#[test]
fn pausing_all_pauses_when_some_pet_runs() {
    let mut config = AppConfig::default();
    add_pet_instance(&mut config, "cat").unwrap();
    toggle_pet_pause(&mut config, "cat");
    let pets = toggle_all_pause(&mut config);
    assert_eq!(pets, vec!["sakimiao".to_string(), "cat".to_string()]);
    assert!(settings_for_pet(&config, "sakimiao").paused);
    assert!(settings_for_pet(&config, "cat").paused);
    toggle_all_pause(&mut config);
    assert!(!settings_for_pet(&config, "sakimiao").paused);
    assert!(!settings_for_pet(&config, "cat").paused);
}

#[test]
fn updating_settings_returns_what_was_saved() {
    let mut config = AppConfig::default();
    let mut s = PetSettings::default();
    s.show_in_fullscreen = true;
    let saved = update_pet_settings(&mut config, "sakimiao", s);
    assert!(saved == s);
    assert!(needs_accessory_policy(&config));
    set_instance_visible(&mut config, "main", false).unwrap();
    assert!(!needs_accessory_policy(&config));
}

#[test]
fn disabling_a_pet_hides_its_instances() {
    let mut config = AppConfig::default();
    add_pet_instance(&mut config, "cat").unwrap();
    set_pet_enabled(&mut config, "cat", false);
    assert!(is_disabled(&config, "cat"));
    assert!(!config.instances[1].visible);
    assert!(!window_shown(&config, &config.instances[1]));
    set_pet_enabled(&mut config, "cat", true);
    assert!(!is_disabled(&config, "cat"));
    assert!(!config.instances[1].visible);
}

#[test]
fn removal_checks() {
    let mut config = AppConfig::default();
    assert_eq!(
        check_removable(&config, "x", true).unwrap_err(),
        "内置宠物不能删除，可以选择停用"
    );
    assert_eq!(
        check_removable(&config, "sakimiao", false).unwrap_err(),
        "请先移除使用这只宠物的实例"
    );
    assert_eq!(check_removable(&config, "x", false), Ok(()));
    config.disabled_pet_ids.push("x".to_string());
    forget_removed_pet(&mut config, "x");
    assert!(config.disabled_pet_ids.is_empty());
}

#[test]
fn instance_listings() {
    let mut config = AppConfig::default();
    add_pet_instance(&mut config, "cat").unwrap();
    let all = all_instance_info(&config);
    assert_eq!(all.len(), 2);
    assert!(all[0].is_main && all[0].id == "main");
    assert_eq!(all[1].id, "instance-2");
    let open = vec!["pet-instance-instance-2".to_string()];
    let shown = visible_instances(&config, &open);
    assert_eq!(shown.len(), 1);
    assert_eq!(shown[0].pet_id, "cat");
    assert!(shown[0].visible && !shown[0].is_main);
    toggle_pet_pause(&mut config, "cat");
    assert!(heartbeat_candidates(&config, &shown).is_empty());
    let everyone = visible_instances(&config, &vec!["main".to_string(), open[0].clone()]);
    assert_eq!(
        heartbeat_candidates(&config, &everyone),
        vec!["sakimiao".to_string()]
    );
    assert!(has_visible_pet_config(&config, &vec!["cat".to_string()]));
    assert!(!has_visible_pet_config(&config, &vec!["dog".to_string()]));
    assert_eq!(unplaced_count(&config), 1);
    let labels = vec![
        "main".to_string(),
        "pet-instance-instance-2".to_string(),
        "pet-manager".to_string(),
    ];
    assert_eq!(
        labels_for_pet(&config, "cat", &labels),
        vec!["pet-instance-instance-2".to_string()]
    );
    assert_eq!(runtime_instance(&config, "pet-instance-instance-2"), Ok(1));
    assert_eq!(
        runtime_instance(&config, "pet-manager").unwrap_err(),
        "invalid pet window label"
    );
    assert_eq!(
        runtime_instance(&config, "pet-instance-none").unwrap_err(),
        "pet instance is not configured"
    );
}

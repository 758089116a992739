use imlag_core::config::{normalize_language, AppConfig, CfgChatMode};

#[test]
fn normalize_clamps_key_delay() {
    let mut cfg = AppConfig {
        key_delay: 9999,
        ..Default::default()
    };
    cfg.normalize();
    assert_eq!(cfg.key_delay, 100);
}

#[test]
fn normalize_falls_back_when_trigger_key_is_garbage() {
    let mut cfg = AppConfig {
        trigger_key: "@@@".into(),
        ..Default::default()
    };
    cfg.normalize();
    assert_eq!(cfg.trigger_key, "k");
}

#[test]
fn normalize_picks_first_legacy_bind_key_when_trigger_empty() {
    let mut cfg = AppConfig {
        trigger_key: String::new(),
        bind_keys: vec!["m".into()],
        ..Default::default()
    };
    cfg.normalize();
    assert_eq!(cfg.trigger_key, "m");
}

/// The values that a legacy PascalCase `Config.json` yields once read
/// (no `triggerKey`, so it reads as empty), normalised.
#[test]
fn legacy_pascal_case_keys_still_load() {
    let mut cfg = AppConfig {
        player_names: vec!["alice".into()],
        only_self_death: true,
        bind_keys: vec!["j".into(), "k".into()],
        team_bind_keys: vec!["l".into()],
        trigger_key: String::new(),
        cs2_path: "C:/Steam/cs2".into(),
        use_cfg_mode: false,
        chat_key: "u".into(),
        key_delay: 200,
        language: "zh-TW".into(),
        auto_start_gsi: false,
        prefer_team_chat: true,
        ..Default::default()
    };
    cfg.normalize();
    assert_eq!(cfg.player_names, vec!["alice"]);
    assert_eq!(cfg.trigger_key, "j");
    assert_eq!(cfg.cfg_chat_mode, CfgChatMode::Team);
    assert_eq!(cfg.cs2_path, "C:/Steam/cs2");
    assert!(!cfg.use_cfg_mode);
    assert_eq!(cfg.chat_key, "u");
    assert_eq!(cfg.key_delay, 200);
    assert_eq!(cfg.language, "zh-TW");
}

#[test]
fn default_config_values() {
    let cfg = AppConfig::default();
    assert_eq!(cfg.trigger_key, "k");
    assert_eq!(cfg.cfg_chat_mode, CfgChatMode::Global);
    assert!(cfg.only_self_death);
    assert_eq!(cfg.key_delay, 100);
    assert_eq!(cfg.chat_key, "y");
    assert_eq!(cfg.language, "zh-CN");
    assert!(cfg.use_cfg_mode);
    assert!(cfg.auto_start_gsi);
    assert!(!cfg.prefer_team_chat);
}

#[test]
fn normalize_is_idempotent_on_messy_config() {
    let mut cfg = AppConfig {
        trigger_key: "  ".into(),
        bind_keys: vec!["   ".into()],
        team_bind_keys: vec![" Q7 ".into()],
        chat_key: " \t".into(),
        key_delay: 29,
        language: "EN-us".into(),
        prefer_team_chat: true,
        ..Default::default()
    };
    cfg.normalize();
    assert_eq!(cfg.trigger_key, "q");
    assert_eq!(cfg.chat_key, "y");
    assert_eq!(cfg.key_delay, 100);
    assert_eq!(cfg.language, "en");
    assert_eq!(cfg.cfg_chat_mode, CfgChatMode::Team);
    let once = cfg.clone();
    cfg.normalize();
    assert_eq!(cfg.trigger_key, once.trigger_key);
    assert_eq!(cfg.chat_key, once.chat_key);
    assert_eq!(cfg.key_delay, once.key_delay);
    assert_eq!(cfg.language, once.language);
    assert_eq!(cfg.cfg_chat_mode, once.cfg_chat_mode);
}

#[test]
fn normalize_keeps_key_delay_bounds() {
    let mut low = AppConfig { key_delay: 30, ..Default::default() };
    low.normalize();
    assert_eq!(low.key_delay, 30);
    let mut high = AppConfig { key_delay: 1000, ..Default::default() };
    high.normalize();
    assert_eq!(high.key_delay, 1000);
    let mut over = AppConfig { key_delay: 1001, ..Default::default() };
    over.normalize();
    assert_eq!(over.key_delay, 100);
}

#[test]
fn normalize_keeps_random_mode_despite_prefer_team_chat() {
    let mut cfg = AppConfig {
        cfg_chat_mode: CfgChatMode::Random,
        prefer_team_chat: true,
        ..Default::default()
    };
    cfg.normalize();
    assert_eq!(cfg.cfg_chat_mode, CfgChatMode::Random);
}

#[test]
fn normalize_lowercases_and_truncates_trigger_key() {
    let mut cfg = AppConfig { trigger_key: " F5 ".into(), ..Default::default() };
    cfg.normalize();
    assert_eq!(cfg.trigger_key, "f");
}

#[test]
fn normalize_language_maps_tags() {
    assert_eq!(normalize_language("zh-hk"), "zh-TW");
    assert_eq!(normalize_language("ZH-MO"), "zh-TW");
    assert_eq!(normalize_language("zh-TW"), "zh-TW");
    assert_eq!(normalize_language("en"), "en");
    assert_eq!(normalize_language("English"), "en");
    assert_eq!(normalize_language("fr"), "zh-CN");
    assert_eq!(normalize_language(""), "zh-CN");
    assert_eq!(normalize_language("zh-tw "), "zh-CN");
}

#[test]
fn from_loaded_normalizes_or_defaults() {
    let parsed = AppConfig { key_delay: 5, ..Default::default() };
    let cfg = AppConfig::from_loaded(Some(parsed));
    assert_eq!(cfg.key_delay, 100);
    let fallback = AppConfig::from_loaded(None);
    assert_eq!(fallback.trigger_key, "k");
    assert_eq!(fallback.language, "zh-CN");
}

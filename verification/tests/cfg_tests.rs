use imlag_core::cfg_manager::{
    add_imlag_section, autoexec_backup_needed, autoexec_has_imlag_block, autoexec_text,
    dispatch_cfg_body,
    dispatch_trigger_spec, empty_say_cfg_body_str, escape_for_cfg, format_bind_token,
    is_legacy_cfg_file, remove_imlag_section, restored_autoexec_text, select_in_team_chat,
    team_chat_for, CfgError, SAY_CFG_FILE,
};
use imlag_core::config::{AppConfig, CfgChatMode};

#[test]
fn escape_strips_semicolons_and_doubles_quotes() {
    assert_eq!(escape_for_cfg("hi; \"world\""), "hi \"\"world\"\"");
}

#[test]
fn imlag_section_round_trips_with_trigger_key() {
    let cfg = AppConfig {
        trigger_key: "j".into(),
        ..AppConfig::default()
    };
    let mut lines = vec!["echo legacy".to_string()];
    add_imlag_section(&mut lines, &cfg);
    assert!(lines.iter().any(|l| l.contains("bind \"j\" \"exec imlag_say\"")));
    remove_imlag_section(&mut lines);
    assert!(!lines.iter().any(|l| l.contains("imlag_say")));
    assert!(lines.iter().any(|l| l == "echo legacy"));
}

#[test]
fn imlag_section_uppercases_named_keys_for_bind() {
    let cfg = AppConfig {
        trigger_key: "ins".into(),
        ..AppConfig::default()
    };
    let mut lines = Vec::new();
    add_imlag_section(&mut lines, &cfg);
    assert!(lines.iter().any(|l| l.contains("bind \"INS\" \"exec imlag_say\"")));
}

#[test]
fn format_bind_token_handles_letters_and_named_keys() {
    assert_eq!(format_bind_token("k"), "k");
    assert_eq!(format_bind_token("K"), "k");
    assert_eq!(format_bind_token("ins"), "INS");
    assert_eq!(format_bind_token("F5"), "F5");
    assert_eq!(format_bind_token(""), "INS");
}

#[test]
fn remove_imlag_section_strips_orphaned_legacy_lines() {
    let mut lines: Vec<String> = vec![
        "echo before".into(),
        "exec imlag_say_global_selector".into(),
        "bind \"k\" \"imlag_do_global_say\"".into(),
        "echo after".into(),
    ];
    remove_imlag_section(&mut lines);
    assert_eq!(lines, vec!["echo before".to_string(), "echo after".into()]);
}

#[test]
fn write_dispatch_line_distinguishes_global_and_team() {
    let global = dispatch_cfg_body("lag bro", false);
    assert!(global.contains("say \"lag bro\""));
    assert!(!global.contains("say_team"));
    let team = dispatch_cfg_body("ez", true);
    assert!(team.contains("say_team \"ez\""));
}

#[test]
fn write_empty_say_cfg_produces_comment_only_body() {
    let body = empty_say_cfg_body_str();
    assert!(body.contains("dispatch slot"));
    assert!(!body.contains("say "));
}

#[test]
fn clear_legacy_files_removes_pool_but_keeps_dispatch_slot() {
    assert!(is_legacy_cfg_file("imlag_say_global_1.cfg"));
    assert!(is_legacy_cfg_file("imlag_say_team_2.cfg"));
    assert!(is_legacy_cfg_file("imlag_say_global_selector.cfg"));
    assert!(!is_legacy_cfg_file(SAY_CFG_FILE));
    assert!(!is_legacy_cfg_file("user_keybinds.cfg"));
}

#[test]
fn dispatch_body_exact_text() {
    assert_eq!(
        dispatch_cfg_body("a\"b;c", true),
        "// ImLag dispatch \u{2014} generated at runtime\nsay_team \"a\"\"bc\"\n"
    );
}

#[test]
fn section_replaced_not_duplicated() {
    let cfg = AppConfig { trigger_key: "k".into(), ..AppConfig::default() };
    let first = autoexec_text(Some("echo hi\nhost_writeconfig\n"), &cfg);
    let second = autoexec_text(Some(&first), &cfg);
    assert_eq!(second.matches("// --- ImLag Auto-Bind Start ---").count(), 1);
    assert_eq!(second.matches("host_writeconfig").count(), 1);
    assert!(second.ends_with("host_writeconfig\n"));
    assert!(autoexec_has_imlag_block(&second));
    let restored = restored_autoexec_text(&second);
    assert!(!autoexec_has_imlag_block(&restored));
    assert!(restored.starts_with("echo hi\n"));
}

#[test]
fn fresh_autoexec_has_header_and_block() {
    let cfg = AppConfig::default();
    let text = autoexec_text(None, &cfg);
    assert!(text.starts_with("// Counter-Strike 2 Autoexec Configuration File\n// Generated by ImLag\n"));
    assert!(text.contains("bind \"k\" \"exec imlag_say\""));
    assert!(text.contains("echo \"ImLag: 'k' bound to imlag_say.cfg\""));
    assert!(autoexec_has_imlag_block(&text));
    assert!(!autoexec_has_imlag_block("echo nothing"));
}

#[test]
fn trigger_spec_falls_back_to_ins() {
    assert_eq!(dispatch_trigger_spec("  "), "ins");
    assert_eq!(dispatch_trigger_spec("k"), "k");
}

#[test]
fn team_chat_follows_mode() {
    assert!(!team_chat_for(CfgChatMode::Global, true));
    assert!(team_chat_for(CfgChatMode::Team, false));
    assert!(team_chat_for(CfgChatMode::Random, true));
    assert!(!team_chat_for(CfgChatMode::Random, false));
    assert!(!select_in_team_chat(CfgChatMode::Global));
    assert!(select_in_team_chat(CfgChatMode::Team));
}

#[test]
fn cfg_error_messages() {
    assert_eq!(CfgError::Cs2NotFound.message(), "CS2 install directory not found");
    assert_eq!(CfgError::CfgDirMissing("C:/x".into()).message(), "CS2 cfg directory not found at C:/x");
    assert_eq!(CfgError::EmptyCorpus.message(), "corpus is empty");
    assert_eq!(CfgError::Io("denied".into()).message(), "io error: denied");
}

#[test]
fn rerunning_update_leaves_the_file_unchanged() {
    let cfg = AppConfig::default();
    let first = autoexec_text(Some("echo hi\n"), &cfg);
    let second = autoexec_text(Some(&first), &cfg);
    assert_eq!(second, first);
    assert_eq!(second.matches("bind \"k\" \"exec imlag_say\"").count(), 1);
    let fresh = autoexec_text(None, &cfg);
    assert_eq!(autoexec_text(Some(&fresh), &cfg), fresh);
    let third = autoexec_text(Some(&autoexec_text(Some(&fresh), &cfg)), &cfg);
    assert_eq!(third, fresh);
}

#[test]
fn backup_only_of_the_users_own_file() {
    let cfg = AppConfig::default();
    assert!(autoexec_backup_needed("echo hi\n", false));
    assert!(!autoexec_backup_needed("echo hi\n", true));
    let generated = autoexec_text(None, &cfg);
    assert!(!autoexec_backup_needed(&generated, false));
}

#[test]
fn restore_after_update_leaves_writeconfig() {
    let cfg = AppConfig::default();
    let updated = autoexec_text(Some("echo hi\nhost_writeconfig\nexec imlag_say_selector\n"), &cfg);
    assert_eq!(restored_autoexec_text(&updated), "echo hi\nhost_writeconfig\n");
}

#[test]
fn update_cuts_every_block_and_stays_fixed() {
    let cfg = AppConfig::default();
    let existing = "echo a\n// --- ImLag Auto-Bind Start ---\nbind \"x\" \"exec imlag_say\"\n// --- ImLag Auto-Bind End ---\necho b\n\n// --- ImLag Auto-Bind Start ---\nold\n// --- ImLag Auto-Bind End ---\n\necho c\n";
    let first = autoexec_text(Some(existing), &cfg);
    assert_eq!(first.matches("// --- ImLag Auto-Bind Start ---").count(), 1);
    assert!(!first.contains("old"));
    assert!(!first.contains("bind \"x\""));
    assert!(first.starts_with("echo a\necho b\necho c\n"));
    let second = autoexec_text(Some(&first), &cfg);
    assert_eq!(second, first);
}

#[test]
fn update_drops_trailing_carriage_returns() {
    let cfg = AppConfig::default();
    let first = autoexec_text(Some("echo a\r\r\necho b\r"), &cfg);
    assert!(first.starts_with("echo a\necho b\n"));
    assert_eq!(autoexec_text(Some(&first), &cfg), first);
}

#[test]
fn remove_imlag_section_cuts_every_block_with_its_blank_lines() {
    let mut lines: Vec<String> = vec![
        "echo a".into(),
        "".into(),
        "// --- ImLag Auto-Bind Start ---".into(),
        "x".into(),
        "// --- ImLag Auto-Bind End ---".into(),
        "".into(),
        "echo b".into(),
        "// --- ImLag Auto-Bind Start ---".into(),
        "y".into(),
        "// --- ImLag Auto-Bind End ---".into(),
    ];
    remove_imlag_section(&mut lines);
    assert_eq!(lines, vec!["echo a".to_string(), "echo b".into()]);
}

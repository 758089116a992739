use imlag_core::chat::{ChatMessageManager, ImportResult};
use imlag_core::config::{AppConfig, CfgChatMode};
use imlag_core::engine::{
    corpus_empty_event, data_dir_choice, dispatch_outcome_event, fallback_ports,
    import_summary_event, on_game_event, port_fallback_warning, route_reply, watched,
    DispatchTrigger, GameEvent, ReplyRoute,
};
use imlag_core::events::{UiEvent, UiEventDto, UiKind, UiLevel};
use imlag_core::i18n::{set_language, Locale};

fn en() -> Locale {
    let mut l = Locale::new();
    set_language(&mut l, "en");
    l
}

#[test]
fn fallback_ports_are_next_five_then_any() {
    assert_eq!(fallback_ports(), vec![57535, 57536, 57537, 57538, 57539, 0]);
}

#[test]
fn watched_names_compare_trimmed_case_insensitive() {
    let names = vec![" Alice ".to_string(), "bob".into()];
    assert!(watched(&names, "alice"));
    assert!(watched(&names, "BOB "));
    assert!(!watched(&names, "carol"));
}

#[test]
fn death_of_unwatched_player_is_shown_not_answered() {
    let cfg = AppConfig { player_names: vec!["alice".into()], ..AppConfig::default() };
    let r = on_game_event(&cfg, &en(), &GameEvent::PlayerDied("bob".into()));
    assert_eq!(r.reply, None);
    assert_eq!(r.status.unwrap().message, "Player bob died");
    let r = on_game_event(&cfg, &en(), &GameEvent::PlayerDied("ALICE".into()));
    assert_eq!(r.reply, Some(DispatchTrigger::Death));
}

#[test]
fn kills_only_count_when_not_strict() {
    let strict = AppConfig::default();
    let r = on_game_event(&strict, &en(), &GameEvent::PlayerGotKill("x".into()));
    assert!(r.status.is_none());
    assert_eq!(r.reply, None);
    let loose = AppConfig { only_self_death: false, ..AppConfig::default() };
    let r = on_game_event(&loose, &en(), &GameEvent::PlayerGotKill("x".into()));
    assert_eq!(r.reply, Some(DispatchTrigger::Kill));
    let r = on_game_event(&loose, &en(), &GameEvent::PlayerDied("anyone".into()));
    assert_eq!(r.reply, Some(DispatchTrigger::Death));
}

#[test]
fn reply_routes() {
    let mut corpus = ChatMessageManager::new();
    let cfg = AppConfig { cfg_chat_mode: CfgChatMode::Team, ..AppConfig::default() };
    assert_eq!(route_reply(&cfg, &corpus), ReplyRoute::CorpusEmpty);
    corpus.add("lag");
    assert_eq!(route_reply(&cfg, &corpus), ReplyRoute::Cfg { message: "lag".into(), in_team_chat: true });
    let chat = AppConfig { use_cfg_mode: false, ..AppConfig::default() };
    assert_eq!(route_reply(&chat, &corpus), ReplyRoute::Chat { message: "lag".into() });
}

#[test]
fn outcome_events() {
    let l = en();
    let ok = dispatch_outcome_event(&l, DispatchTrigger::Death, true, "hi", &Ok(()));
    assert_eq!(ok.level, UiLevel::Info);
    assert_eq!(ok.message, "Sent: hi");
    let err = dispatch_outcome_event(&l, DispatchTrigger::Kill, true, "hi", &Err("boom".into()));
    assert_eq!(err.level, UiLevel::Error);
    assert_eq!(err.kind, UiKind::Cfg);
    assert_eq!(err.message, "CFG dispatch on kill failed: boom");
    let err = dispatch_outcome_event(&l, DispatchTrigger::Death, false, "hi", &Err("x".into()));
    assert_eq!(err.kind, UiKind::ChatSent);
    let empty = corpus_empty_event(&l);
    assert_eq!(empty.level, UiLevel::Warn);
}

#[test]
fn port_warning_only_when_moved() {
    assert_eq!(port_fallback_warning(57534), None);
    assert_eq!(
        port_fallback_warning(57536).unwrap(),
        "\u{9996}\u{9009}\u{7aef}\u{53e3} 57534 \u{88ab}\u{5360}\u{7528}\u{ff0c}\u{5df2}\u{5207}\u{6362}\u{5230} 57536\u{ff08}CS2 cfg \u{540c}\u{6b65}\u{66f4}\u{65b0}\u{ff09}"
    );
}

#[test]
fn import_summary_only_when_added() {
    let l = en();
    assert!(import_summary_event(&l, ImportResult { added: 0, skipped: 4 }).is_none());
    let e = import_summary_event(&l, ImportResult { added: 12, skipped: 0 }).unwrap();
    assert_eq!(e.message, "Import finished: 12 added, 0 skipped");
    assert_eq!(e.kind, UiKind::Corpus);
}

#[test]
fn data_dir_preference() {
    assert_eq!(data_dir_choice("cwd".into(), true, Some("cfg".into())), "cwd");
    assert_eq!(data_dir_choice("cwd".into(), false, Some("cfg".into())), "cfg");
    assert_eq!(data_dir_choice("cwd".into(), false, None), "cwd");
}

#[test]
fn event_dto_names() {
    let e = UiEvent::warn(UiKind::PlayerDeath, "m".into());
    let dto = UiEventDto::from_event(e);
    assert_eq!(dto.level, "warn");
    assert_eq!(dto.kind, "playerDeath");
    assert_eq!(dto.message, "m");
    assert!(dto.timestamp_ms > 0);
    assert_eq!(UiEvent::error(UiKind::Other, "x".into()).level, UiLevel::Error);
}

use imlag_core::chat::{default_messages, messages_from_text, parse_text, ChatMessageManager, ImportResult};

#[test]
fn add_skips_duplicates() {
    let mut m = ChatMessageManager::new();
    assert!(m.add("hi"));
    assert!(!m.add("hi"));
    assert!(!m.add("   hi   "));
    assert_eq!(m.len(), 1);
}

#[test]
fn parse_text_handles_json_and_lines() {
    assert_eq!(parse_text(r#"["a","b"," "]"#), vec!["a".to_string(), "b".into()]);
    assert_eq!(parse_text("a\r\nb\nc\n\n"), vec!["a".to_string(), "b".into(), "c".into()]);
}

/// A corpus seeded with the defaults holds every default message.
#[test]
fn load_or_seed_creates_file_with_defaults() {
    let mut m = ChatMessageManager::new();
    m.seed_defaults();
    assert_eq!(m.len(), default_messages().len());
    assert_eq!(m.len(), 75);
}

#[test]
fn add_trims_and_rejects_blank() {
    let mut m = ChatMessageManager::new();
    assert!(!m.add("   "));
    assert!(!m.add(""));
    assert!(m.add("  lag  "));
    assert_eq!(m.all(), vec!["lag".to_string()]);
    assert!(m.is_empty() == false);
}

#[test]
fn remove_trims_and_reports() {
    let mut m = ChatMessageManager::new();
    m.add("a");
    m.add("b");
    m.add("c");
    assert!(m.remove(" b "));
    assert!(!m.remove("b"));
    assert_eq!(m.all(), vec!["a".to_string(), "c".into()]);
}

#[test]
fn remove_after_add_restores_corpus() {
    let mut m = ChatMessageManager::new();
    m.add("x");
    let before = m.all();
    assert!(m.add("y"));
    assert!(m.remove("y"));
    assert_eq!(m.all(), before);
}

#[test]
fn import_counts_added_and_skipped() {
    let mut m = ChatMessageManager::new();
    m.add("a");
    let items = vec!["a".to_string(), " b".into(), "".into(), "b".into(), "c ".into()];
    let r = m.import(&items);
    assert_eq!(r, ImportResult { added: 2, skipped: 3 });
    assert_eq!(m.all(), vec!["a".to_string(), "b".into(), "c".into()]);
    let again = m.import(&items);
    assert_eq!(again, ImportResult { added: 0, skipped: 5 });
    assert_eq!(ImportResult::default(), ImportResult { added: 0, skipped: 0 });
}

#[test]
fn replace_all_dedups_in_order() {
    let mut m = ChatMessageManager::new();
    m.add("old");
    m.replace_all(vec!["b".into(), "a".into(), " b ".into(), "  ".into()]);
    assert_eq!(m.all(), vec!["b".to_string(), "a".into()]);
}

#[test]
fn random_picks_from_corpus() {
    let mut m = ChatMessageManager::new();
    assert_eq!(m.random(), None);
    m.add("one");
    m.add("two");
    for _ in 0..20 {
        let r = m.random().unwrap();
        assert!(r == "one" || r == "two");
    }
    assert_eq!(m.message_at(1), Some("two".to_string()));
    assert_eq!(m.message_at(2), None);
}

#[test]
fn to_text_joins_lines() {
    let mut m = ChatMessageManager::new();
    m.add("a");
    m.add("b");
    assert_eq!(m.to_text(), "a\nb");
    assert_eq!(ChatMessageManager::new().to_text(), "");
}

#[test]
fn parse_text_json_edge_cases() {
    assert_eq!(parse_text("  [\" x \", \"y\"]  "), vec!["x".to_string(), "y".into()]);
    assert_eq!(parse_text("[not json]"), vec!["[not json]".to_string()]);
    assert_eq!(parse_text("a\rb"), vec!["a".to_string(), "b".into()]);
    assert_eq!(parse_text(""), Vec::<String>::new());
    assert_eq!(parse_text("[1, 2]"), vec!["[1, 2]".to_string()]);
}

#[test]
fn messages_from_text_uses_given_json() {
    let json = Some(vec!["  q ".to_string(), "".into()]);
    assert_eq!(messages_from_text("[ignored]", json), vec!["q".to_string()]);
    let json = Some(vec!["q".to_string()]);
    assert_eq!(messages_from_text("not bracketed", json), vec!["not bracketed".to_string()]);
}

use imlag_core::i18n::{current_language, set_language, t, t_args, Locale};

#[test]
fn falls_back_to_default_language() {
    let mut l = Locale::new();
    set_language(&mut l, "zh-TW");
    let s = t(&l, "gsi.started");
    assert!(!s.is_empty());
}

#[test]
fn substitutes_positional_args() {
    let mut l = Locale::new();
    set_language(&mut l, "zh-CN");
    let s = t_args(&l, "status.player_dead", ["alice"].as_slice());
    assert!(s.contains("alice"));
}

#[test]
fn current_language_defaults_and_normalizes() {
    let mut l = Locale::new();
    assert_eq!(current_language(&l), "zh-CN");
    set_language(&mut l, "EN-GB");
    assert_eq!(current_language(&l), "en");
    set_language(&mut l, "zh-hk");
    assert_eq!(current_language(&l), "zh-TW");
}

#[test]
fn unknown_key_is_returned_as_is() {
    let l = Locale::new();
    assert_eq!(t(&l, "no.such.key"), "no.such.key");
}

#[test]
fn english_substitution_is_exact() {
    let mut l = Locale::new();
    set_language(&mut l, "en");
    assert_eq!(t_args(&l, "status.corpus_imported", ["3", "4"].as_slice()), "Import finished: 3 added, 4 skipped");
    assert_eq!(t(&l, "trigger.death"), "death");
}

#[test]
fn current_language_is_always_supported() {
    let mut l = Locale::new();
    for tag in ["fr", "", "ZH-MO", "english", "zh-CN"] {
        set_language(&mut l, tag);
        let c = current_language(&l);
        assert!(c == "zh-CN" || c == "zh-TW" || c == "en");
    }
}

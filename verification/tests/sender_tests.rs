use std::time::Duration;
use imlag_core::config::AppConfig;
use imlag_core::sender::{first_char_or, send_decision, step_delay, typing_steps, SendError, SendPlan};

#[test]
fn step_delay_floors_at_min_step() {
    assert_eq!(step_delay(0), Duration::from_millis(15));
    assert_eq!(step_delay(5), Duration::from_millis(15));
    assert_eq!(step_delay(15), Duration::from_millis(15));
    assert_eq!(step_delay(100), Duration::from_millis(100));
}

#[test]
fn first_char_falls_back_when_empty() {
    assert_eq!(first_char_or("", 'y'), 'y');
    assert_eq!(first_char_or("u", 'y'), 'u');
}

#[test]
fn send_decision_respects_window_check() {
    let cfg = AppConfig::default();
    assert_eq!(send_decision(&cfg, false), Err(SendError::NotForeground));
    assert_eq!(send_decision(&cfg, true), Ok(SendPlan { key_delay_ms: 100, chat_key: 'y', opens: 1 }));
    let forced = AppConfig { skip_window_check: true, force_mode: true, chat_key: "u".into(), key_delay: 5, ..AppConfig::default() };
    assert_eq!(send_decision(&forced, false), Ok(SendPlan { key_delay_ms: 15, chat_key: 'u', opens: 3 }));
    assert_eq!(SendError::NotForeground.message(), "CS2 window not found in foreground");
    assert_eq!(SendError::Clipboard("busy".into()).message(), "clipboard write failed: busy");
    assert_eq!(SendError::Join("cancelled".into()).message(), "blocking task join error: cancelled");
}

#[test]
fn typing_steps_length() {
    let one = typing_steps(SendPlan { key_delay_ms: 100, chat_key: 'y', opens: 1 });
    assert_eq!(one.len(), 5 + 1 + 10 + 1 + 7 + 1 + 3);
    let three = typing_steps(SendPlan { key_delay_ms: 100, chat_key: 'y', opens: 3 });
    assert_eq!(three.len(), one.len() + 10);
}

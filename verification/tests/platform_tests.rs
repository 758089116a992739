use imlag_core::platform::{
    at_least, char_to_vk, clear_input, idle_millis, is_cs2_active, is_extended_vk, key_down,
    key_event_flags, key_up, keys_to_release, paste_clipboard, press_enter, press_key,
    press_key_spec, release_movement_keys, spec_to_vk, vk_from_key_scan, KeyStep, VirtualKey,
};

#[test]
fn spec_to_vk_resolves_names_and_letters() {
    assert_eq!(spec_to_vk("ins"), Some(VirtualKey::Code(0x2D)));
    assert_eq!(spec_to_vk("  Insert "), Some(VirtualKey::Code(0x2D)));
    assert_eq!(spec_to_vk("PgDn"), Some(VirtualKey::Code(0x22)));
    assert_eq!(spec_to_vk("f1"), Some(VirtualKey::Code(0x70)));
    assert_eq!(spec_to_vk("F24"), Some(VirtualKey::Code(0x87)));
    assert_eq!(spec_to_vk("f25"), None);
    assert_eq!(spec_to_vk("f0"), None);
    assert_eq!(spec_to_vk("f"), Some(VirtualKey::Layout('f')));
    assert_eq!(spec_to_vk("f+5"), Some(VirtualKey::Code(0x74)));
    assert_eq!(spec_to_vk("f300"), None);
    assert_eq!(spec_to_vk(""), None);
    assert_eq!(spec_to_vk("??"), None);
    assert_eq!(spec_to_vk("k"), Some(VirtualKey::Layout('k')));
    assert_eq!(spec_to_vk("A"), Some(VirtualKey::Code(0x41)));
    assert_eq!(spec_to_vk("7"), Some(VirtualKey::Layout('7')));
}

#[test]
fn extended_keys_and_flags() {
    assert!(is_extended_vk(0x2D));
    assert!(!is_extended_vk(0x41));
    assert_eq!(key_event_flags(0x41, false), 0x8);
    assert_eq!(key_event_flags(0x41, true), 0xA);
    assert_eq!(key_event_flags(0x2D, true), 0xB);
}

#[test]
fn key_scan_fallback() {
    assert_eq!(vk_from_key_scan('k', -1), b'K');
    assert_eq!(vk_from_key_scan('k', 0x014B), 0x4B);
    assert_eq!(char_to_vk('\r'), VirtualKey::Code(0x0D));
}

#[test]
fn scripts_are_exact() {
    assert_eq!(at_least(3), 15);
    assert_eq!(press_enter(), vec![
        KeyStep::Down(VirtualKey::Code(0x0D)),
        KeyStep::Pause(15),
        KeyStep::Up(VirtualKey::Code(0x0D)),
    ]);
    assert_eq!(press_key('y', 100), vec![
        KeyStep::Down(VirtualKey::Layout('y')),
        KeyStep::Pause(100),
        KeyStep::Up(VirtualKey::Layout('y')),
        KeyStep::Pause(100),
    ]);
    assert_eq!(paste_clipboard().len(), 7);
    assert_eq!(clear_input(5).len(), 10);
    assert_eq!(release_movement_keys().len(), 9);
    assert_eq!(key_down('A'), vec![KeyStep::Down(VirtualKey::Code(0x41))]);
    assert_eq!(key_up('V'), vec![KeyStep::Up(VirtualKey::Code(0x56))]);
    assert_eq!(press_key_spec("nope", 10), None);
    assert_eq!(press_key_spec("home", 10).unwrap().len(), 4);
}

#[test]
fn released_keys_skip_mouse_and_packet() {
    let mut state = [0u8; 256];
    state[0x01] = 0x80;
    state[0x41] = 0x81;
    state[0x57] = 0x7F;
    state[0xE7] = 0x80;
    state[0xFE] = 0xFF;
    state[0xFF] = 0x80;
    assert_eq!(keys_to_release(&state), vec![0x41, 0xFE]);
}

#[test]
fn cs2_window_check() {
    assert!(is_cs2_active(Some("CS2.EXE")));
    assert!(is_cs2_active(Some("cs2.exe")));
    assert!(!is_cs2_active(Some("notepad.exe")));
    assert!(!is_cs2_active(None));
    assert_eq!(idle_millis(100, 40), 60);
    assert_eq!(idle_millis(10, 40), 0);
}

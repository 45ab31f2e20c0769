use mwb_bridge::cg_events::{
    event_flags, ButtonClass, ClickTracker, EventFlags, MouseEventType, MousePost,
    DOUBLE_CLICK_INTERVAL,
};
use mwb_bridge::input_handling::{
    handle_keyboard, handle_mouse, is_key_press, xkb_modifiers, InputAction, KeyboardState,
    LockComboDetector, ModState, ModifierState, RecordedInput, BTN_EXTRA, BTN_LEFT, BTN_MIDDLE,
    BTN_RIGHT, BTN_SIDE, LOCK_COMBO_WINDOW, WM_LBUTTONDOWN, WM_LBUTTONUP, WM_MBUTTONDOWN,
    WM_MBUTTONUP, WM_MOUSEHWHEEL, WM_MOUSEMOVE, WM_MOUSEWHEEL, WM_RBUTTONDOWN, WM_RBUTTONUP,
    WM_XBUTTONDOWN, WM_XBUTTONUP,
};
use mwb_bridge::keycode_macos::evdev_to_cgkeycode;
use mwb_bridge::vk_keycode::{keypad_to_evdev, vk_to_evdev};

const UP: u32 = 0x80;

fn mouse(m1: u32, m2: u32, m3: u32, flags: u32) -> Vec<InputAction> {
    let mut sink = RecordedInput::new();
    handle_mouse(&mut sink, m1, m2, m3, flags);
    sink.actions
}

fn none() -> ModifierState {
    ModifierState::default()
}

#[test]
fn moves_are_absolute() {
    assert_eq!(
        mouse(100, 65535, 0, WM_MOUSEMOVE),
        vec![InputAction::Move { x: 100, y: 65535, x_extent: 65535, y_extent: 65535 }]
    );
}

#[test]
fn overshooting_moves_are_clamped() {
    assert_eq!(
        mouse(4294967271, 65536, 0, WM_MOUSEMOVE),
        vec![InputAction::Move { x: 0, y: 65535, x_extent: 65535, y_extent: 65535 }]
    );
    assert_eq!(
        mouse(0x7FFF_FFFF, 0x8000_0000, 0, WM_MOUSEMOVE),
        vec![InputAction::Move { x: 65535, y: 0, x_extent: 65535, y_extent: 65535 }]
    );
}

#[test]
fn buttons_are_forwarded() {
    for (flags, code, pressed) in [
        (WM_LBUTTONDOWN, BTN_LEFT, true),
        (WM_LBUTTONUP, BTN_LEFT, false),
        (WM_RBUTTONDOWN, BTN_RIGHT, true),
        (WM_RBUTTONUP, BTN_RIGHT, false),
        (WM_MBUTTONDOWN, BTN_MIDDLE, true),
        (WM_MBUTTONUP, BTN_MIDDLE, false),
    ] {
        assert_eq!(mouse(1, 2, 3, flags), vec![InputAction::Button { code, pressed }]);
    }
}

#[test]
fn extra_buttons_are_told_apart() {
    assert_eq!(mouse(0, 0, 1, WM_XBUTTONDOWN), vec![InputAction::Button { code: BTN_SIDE, pressed: true }]);
    assert_eq!(mouse(0, 0, 2, WM_XBUTTONUP), vec![InputAction::Button { code: BTN_EXTRA, pressed: false }]);
}

#[test]
fn wheels_are_signed() {
    assert_eq!(mouse(0, 0, 120, WM_MOUSEWHEEL), vec![InputAction::ScrollVertical { delta: -120 }]);
    assert_eq!(mouse(0, 0, (-120i32) as u32, WM_MOUSEWHEEL), vec![InputAction::ScrollVertical { delta: 120 }]);
    assert_eq!(mouse(0, 0, 0xFF88, WM_MOUSEHWHEEL), vec![InputAction::ScrollHorizontal { delta: -120 }]);
    assert_eq!(mouse(0, 0, 0x8000, WM_MOUSEWHEEL), vec![InputAction::ScrollVertical { delta: 32768 }]);
    assert_eq!(mouse(0, 0, 0x7_0001, WM_MOUSEHWHEEL), vec![InputAction::ScrollHorizontal { delta: 1 }]);
}

#[test]
fn unknown_mouse_messages_are_ignored() {
    assert_eq!(mouse(1, 2, 3, 0x0203), vec![]);
    assert_eq!(mouse(1, 2, 3, 0), vec![]);
}

#[test]
fn keys_are_translated() {
    assert_eq!(vk_to_evdev(0x41), Some(30));
    assert_eq!(vk_to_evdev(0x59), Some(44));
    assert_eq!(vk_to_evdev(0x5A), Some(21));
    assert_eq!(vk_to_evdev(0x30), Some(11));
    assert_eq!(vk_to_evdev(0x39), Some(10));
    assert_eq!(vk_to_evdev(0x7B), Some(88));
    assert_eq!(vk_to_evdev(0xBF), Some(12));
    assert_eq!(vk_to_evdev(0xA5), Some(100));
    assert_eq!(vk_to_evdev(0x60), None);
    assert_eq!(vk_to_evdev(0x07), None);
    assert_eq!(keypad_to_evdev(0x60), Some(82));
    assert_eq!(keypad_to_evdev(0x6F), Some(98));
    assert_eq!(keypad_to_evdev(0x6C), None);
}

#[test]
fn every_forwarded_key_is_on_a_mac() {
    let mut known = 0;
    for vk in 0..0x200u32 {
        if let Some(code) = vk_to_evdev(vk).or(keypad_to_evdev(vk)) {
            known += 1;
            assert!(evdev_to_cgkeycode(code).is_some(), "{vk:#x}");
        }
    }
    assert_eq!(known, 86 + 15);
    assert_eq!(evdev_to_cgkeycode(30), Some(0x00));
    assert_eq!(evdev_to_cgkeycode(14), Some(0x33));
    assert_eq!(evdev_to_cgkeycode(53), Some(0x2C));
    assert_eq!(evdev_to_cgkeycode(83), Some(0x41));
    assert_eq!(evdev_to_cgkeycode(70), None);
}

#[test]
fn key_goes_down_and_up() {
    let mut sink = RecordedInput::new();
    let mut kb = KeyboardState::new();
    handle_keyboard(&mut sink, &mut kb, 0x41, 0);
    handle_keyboard(&mut sink, &mut kb, 0x41, UP);
    assert_eq!(
        sink.actions,
        vec![
            InputAction::Key { code: 30, pressed: true },
            InputAction::Key { code: 30, pressed: false }
        ]
    );
}

#[test]
fn repeats_are_dropped_and_releases_are_not() {
    let mut sink = RecordedInput::new();
    let mut kb = KeyboardState::default();
    for _ in 0..5 {
        handle_keyboard(&mut sink, &mut kb, 0x42, 0x01);
    }
    assert_eq!(sink.actions.len(), 1);
    handle_keyboard(&mut sink, &mut kb, 0x42, UP);
    handle_keyboard(&mut sink, &mut kb, 0x42, UP);
    assert_eq!(sink.actions.len(), 3);
    handle_keyboard(&mut sink, &mut kb, 0x42, 0);
    assert_eq!(sink.actions.len(), 4);
}

#[test]
fn num_lock_is_kept_back() {
    let mut sink = RecordedInput::new();
    let mut kb = KeyboardState::new();
    handle_keyboard(&mut sink, &mut kb, 0x90, 0);
    handle_keyboard(&mut sink, &mut kb, 0x90, UP);
    handle_keyboard(&mut sink, &mut kb, 0x07, 0);
    assert_eq!(sink.actions, vec![]);
}

#[test]
fn keypad_forces_the_lock() {
    let mut sink = RecordedInput::new();
    let mut kb = KeyboardState::new();
    handle_keyboard(&mut sink, &mut kb, 0x67, 0);
    assert_eq!(
        sink.actions,
        vec![
            InputAction::Modifiers { state: none(), numlock: true },
            InputAction::Key { code: 71, pressed: true }
        ]
    );
}

#[test]
fn modifiers_come_before_their_key() {
    let mut sink = RecordedInput::new();
    let mut kb = KeyboardState::new();
    handle_keyboard(&mut sink, &mut kb, 0xA0, 0);
    handle_keyboard(&mut sink, &mut kb, 0xA0, 0);
    let shift = ModifierState { shift: true, ..none() };
    assert_eq!(
        sink.actions,
        vec![
            InputAction::Modifiers { state: shift, numlock: false },
            InputAction::Key { code: 42, pressed: true },
            InputAction::Modifiers { state: shift, numlock: false },
        ]
    );
}

#[test]
fn alt_gr_takes_the_false_ctrl_back() {
    let mut mods = ModState::new();
    assert!(mods.update(0xA2, true));
    assert!(mods.update(0xA5, true));
    assert_eq!(mods.state, ModifierState { level3: true, ..none() });
    assert!(mods.update(0xA2, false));
    assert!(mods.update(0xA5, false));
    assert_eq!(mods.state, none());
    assert!(!mods.update(0x41, true));
    mods.update(0x5C, true);
    mods.update(0x12, true);
    mods.update(0x11, true);
    assert_eq!(mods.state, ModifierState { ctrl: true, alt: true, super_: true, ..none() });
}

#[test]
fn xkb_bits_of_modifiers() {
    let all = ModifierState { shift: true, ctrl: true, alt: true, super_: true, level3: true };
    assert_eq!(xkb_modifiers(all, false), (0xCD, 0));
    assert_eq!(xkb_modifiers(none(), true), (0, 0x10));
    assert_eq!(xkb_modifiers(ModifierState { level3: true, ..none() }, false), (0x80, 0));
}

#[test]
fn release_bit() {
    assert!(is_key_press(0));
    assert!(is_key_press(0x101));
    assert!(!is_key_press(0x80));
    assert!(!is_key_press(0xFFFF_FFFF));
}

#[test]
fn lock_burst_fires_once() {
    let mut lock = LockComboDetector::new();
    assert!(!lock.observe_at(0x5B, true, 0));
    assert!(!lock.observe_at(0x4C, true, 1));
    assert!(!lock.observe_at(0x4C, false, 2));
    assert!(lock.observe_at(0x5B, false, LOCK_COMBO_WINDOW));
    assert!(!lock.observe_at(0x5B, false, LOCK_COMBO_WINDOW));
    assert!(!lock.observe_at(0x4C, true, LOCK_COMBO_WINDOW));
    assert!(!lock.observe_at(0x4C, false, LOCK_COMBO_WINDOW));
    assert!(lock.observe_at(0x5C, true, LOCK_COMBO_WINDOW));
}

#[test]
fn slow_keys_do_not_lock() {
    let mut lock = LockComboDetector::default();
    assert!(!lock.observe_at(0x5B, true, 0));
    assert!(!lock.observe_at(0x4C, true, 1));
    assert!(!lock.observe_at(0x4C, false, 2));
    assert!(!lock.observe_at(0x5B, false, LOCK_COMBO_WINDOW + 1));
}

#[test]
fn other_keys_in_the_burst_do_not_matter() {
    let mut lock = LockComboDetector::new();
    for vk in [0xA2, 0xA4, 0x5B] {
        assert!(!lock.observe_at(vk, true, 10));
    }
    assert!(!lock.observe_at(0x4C, true, 10));
    for vk in [0xA2, 0xA4, 0x5B] {
        assert!(!lock.observe_at(vk, false, 10));
    }
    assert!(lock.observe_at(0x4C, false, 10));
}

#[test]
fn only_eight_events_are_remembered() {
    let mut lock = LockComboDetector::new();
    assert!(!lock.observe_at(0x5B, true, 0));
    for _ in 0..5 {
        assert!(!lock.observe_at(0x41, true, 0));
    }
    assert!(!lock.observe_at(0x4C, true, 0));
    assert!(!lock.observe_at(0x4C, false, 0));
    assert!(!lock.observe_at(0x5B, false, 0));
}

#[test]
fn the_clock_runs() {
    let mut lock = LockComboDetector::new();
    assert!(!lock.observe(0x5B, true));
    assert!(!lock.observe(0x4C, true));
    assert!(!lock.observe(0x5B, false));
    assert!(lock.observe(0x4C, false));
}

#[test]
fn double_clicks_are_counted() {
    let mut t = ClickTracker::new(0);
    let down = t.button(BTN_LEFT, true, 10, true).unwrap();
    assert_eq!(
        down,
        MousePost { event_type: MouseEventType::Down(ButtonClass::Left), button: None, clicks: Some(1) }
    );
    assert_eq!(t.moved().event_type, MouseEventType::Dragged(ButtonClass::Left));
    let up = t.button(BTN_LEFT, false, 20, true).unwrap();
    assert_eq!(up.event_type, MouseEventType::Up(ButtonClass::Left));
    assert_eq!(up.clicks, Some(1));
    assert_eq!(t.moved(), MousePost { event_type: MouseEventType::Moved, button: None, clicks: None });
    let now = 10 + DOUBLE_CLICK_INTERVAL;
    assert_eq!(t.button(BTN_LEFT, true, now, true).unwrap().clicks, Some(2));
    assert_eq!(t.button(BTN_LEFT, false, now, true).unwrap().clicks, Some(2));
    assert_eq!(t.button(BTN_LEFT, true, now + DOUBLE_CLICK_INTERVAL + 1, true).unwrap().clicks, Some(1));
    assert_eq!(t.button(BTN_LEFT, true, now + DOUBLE_CLICK_INTERVAL + 2, false).unwrap().clicks, Some(1));
    assert_eq!(t.button(BTN_RIGHT, true, now + DOUBLE_CLICK_INTERVAL + 3, true).unwrap().clicks, Some(1));
}

#[test]
fn other_buttons_have_numbers() {
    let mut t = ClickTracker::new(0);
    for (code, number) in [(BTN_MIDDLE, 2), (BTN_SIDE, 3), (BTN_EXTRA, 4)] {
        let post = t.button(code, true, 0, false).unwrap();
        assert_eq!(post.event_type, MouseEventType::Down(ButtonClass::Other));
        assert_eq!(post.button, Some(number));
        assert_eq!(
            t.moved(),
            MousePost { event_type: MouseEventType::Dragged(ButtonClass::Other), button: Some(number), clicks: None }
        );
        t.button(code, false, 0, false);
    }
    assert_eq!(t.button(0x115, true, 0, true), None);
    assert_eq!(t.moved().event_type, MouseEventType::Moved);
}

#[test]
fn level_three_is_the_option_key() {
    let flags = event_flags(ModifierState { level3: true, super_: true, ..none() });
    assert_eq!(flags, EventFlags { shift: false, control: false, alternate: true, command: true });
    let flags = event_flags(ModifierState { shift: true, ctrl: true, alt: true, ..none() });
    assert_eq!(flags, EventFlags { shift: true, control: true, alternate: true, command: false });
}

use keychord::stuffs::key_code::KeyCode;
use keychord::stuffs::key_identifier::KeyIdentifier;
use keychord::stuffs::key_state::KeyState;
use keychord::stuffs::keyboard::Keyboard;
use keychord::stuffs::keyboard_event::KeyboardEvent;
use keychord::stuffs::timestamp::Timestamp;
use keychord::test_utilities::{mipoch, tke};

#[test]
fn display_trait_for_key_identifier_implemented() {
    let device = Keyboard::new("L1", "My Keyboard", "usb/0/0/input0");

    let key_identifier = KeyIdentifier::new(&device, KeyCode::new(32));
    assert_eq!(key_identifier.to_string(), "L1 D");
}

#[test]
fn getset_getters_macro_test() {
    let keyboard = Keyboard::new("L1", "My Keyboard", "usb.0.1/input0");

    assert_eq!(keyboard.alias(), "L1");
    assert_eq!(keyboard.name(), "My Keyboard");
    assert_eq!(keyboard.path(), "usb.0.1/input0");
}

#[test]
#[allow(non_snake_case)]
fn key_identifier_constructor_without_macro() {
    let L1 = Keyboard::new("L1", "My Left Keyboard", "usb/0/0/input0");
    let R1 = Keyboard::new("R1", "My Right Keyboard", "usb/1/1/input0");

    let L1_LEFTCTRL = KeyIdentifier::new(&L1, KeyCode::from_name("LEFTCTRL").unwrap());
    let _event_1 = KeyboardEvent::new(L1_LEFTCTRL, KeyState::from_name("Down").unwrap(), mipoch(0));

    let R1_J = KeyIdentifier::new(&R1, KeyCode::from_name("J").unwrap());
    let _event_2 = KeyboardEvent::new(R1_J, KeyState::from_raw(1).unwrap(), mipoch(50));
}

#[test]
#[allow(non_snake_case)]
fn key_identifier_constructor_with_tke_macro() {
    let L1 = Keyboard::new("L1", "My Left Keyboard", "usb/0/0/input0");
    let R1 = Keyboard::new("R1", "My Right Keyboard", "usb/1/1/input0");

    let _event_1 = tke(&L1, "LEFTCTRL", "Down", 0).unwrap();
    let _event_2 = tke(&R1, "J", "Down", 50).unwrap();
}

#[test]
#[allow(non_snake_case)]
fn display_trait_implemented_for_keyboard_event_struct() {
    let L1 = Keyboard::new("L1", "My Left Keyboard", "usb/0/0/input0");
    let R1 = Keyboard::new("R1", "My Right Keyboard", "usb/1/1/input0");

    let event_1 = tke(&L1, "LEFTCTRL", "Down", 0).unwrap();
    assert_eq!(event_1.to_string(), "L1 LEFTCTRL Down");

    let event_2 = tke(&R1, "J", "Down", 50).unwrap();
    assert_eq!(event_2.to_string(), "R1 J Down");
}

#[test]
fn key_state_from_raw_values() {
    assert_eq!(KeyState::from_raw(0), Some(KeyState::Up));
    assert_eq!(KeyState::from_raw(1), Some(KeyState::Down));
    assert_eq!(KeyState::from_raw(2), Some(KeyState::Hold));
    assert_eq!(KeyState::from_raw(3), None);
    assert_eq!(KeyState::from_raw(-1), None);
    assert_eq!(KeyState::from_raw(i32::MAX), None);
    assert_eq!(KeyState::from_raw(i32::MIN), None);
}

#[test]
fn key_state_from_names_in_any_case() {
    assert_eq!(KeyState::from_name("DOWN"), Some(KeyState::Down));
    assert_eq!(KeyState::from_name("down"), Some(KeyState::Down));
    assert_eq!(KeyState::from_name("Down"), Some(KeyState::Down));
    assert_eq!(KeyState::from_name("uP"), Some(KeyState::Up));
    assert_eq!(KeyState::from_name("Hold"), Some(KeyState::Hold));
    assert_eq!(KeyState::from_name(""), None);
    assert_eq!(KeyState::from_name("Downs"), None);
    assert_eq!(KeyState::from_name(" Down"), None);
    assert_eq!(KeyState::from_name("press"), None);
}

#[test]
fn key_state_from_upper_is_exact() {
    assert_eq!(KeyState::from_upper("DOWN"), Some(KeyState::Down));
    assert_eq!(KeyState::from_upper("UP"), Some(KeyState::Up));
    assert_eq!(KeyState::from_upper("HOLD"), Some(KeyState::Hold));
    assert_eq!(KeyState::from_upper("Down"), None);
    assert_eq!(KeyState::from_upper("down"), None);
    assert_eq!(KeyState::from_upper("DOW"), None);
}

#[test]
fn key_state_names() {
    assert_eq!(KeyState::Down.to_string(), "Down");
    assert_eq!(KeyState::Up.to_string(), "Up");
    assert_eq!(KeyState::Hold.to_string(), "Hold");
}

#[test]
fn key_code_names() {
    assert_eq!(KeyCode::new(32).to_string(), "D");
    assert_eq!(KeyCode::new(29).to_string(), "LEFTCTRL");
    assert_eq!(KeyCode::new(36).to_string(), "J");
    assert_eq!(KeyCode::new(1).to_string(), "ESC");
    assert_eq!(KeyCode::new(58).to_string(), "CAPSLOCK");
    // A button is no keyboard key: its name stays whole.
    assert_eq!(KeyCode::new(0x110).to_string(), "BTN_LEFT");
    // No key has the code 84.
    assert_eq!(KeyCode::new(84).to_string(), "unknown key: 84");
}

#[test]
fn key_code_from_names() {
    assert_eq!(KeyCode::from_name("LEFTCTRL"), Some(KeyCode(29)));
    assert_eq!(KeyCode::from_name("J"), Some(KeyCode(36)));
    assert_eq!(KeyCode::from_name("j"), Some(KeyCode(36)));
    assert_eq!(KeyCode::from_name("Esc"), Some(KeyCode(1)));
    assert_eq!(KeyCode::from_name("VolumeDown"), Some(KeyCode(114)));
    assert_eq!(KeyCode::from_name("LeftCtrl"), Some(KeyCode(29)));
    assert_eq!(KeyCode::from_name("F1"), Some(KeyCode(59)));
    assert_eq!(KeyCode::from_name("KEY_J"), None);
    assert_eq!(KeyCode::from_name(""), None);
    assert_eq!(KeyCode::from_name("NOSUCHKEY"), None);
}

#[test]
fn key_code_label_and_evdev_name() {
    assert_eq!(KeyCode::label_of("KEY_D"), "D");
    assert_eq!(KeyCode::label_of("KEY_"), "");
    assert_eq!(KeyCode::label_of("KEY"), "KEY");
    assert_eq!(KeyCode::label_of("BTN_LEFT"), "BTN_LEFT");
    assert_eq!(KeyCode::label_of("XKEY_D"), "XKEY_D");
    assert_eq!(KeyCode::label_of("KEY_KEY_D"), "KEY_D");
    assert_eq!(KeyCode::label_of(""), "");
    assert_eq!(KeyCode::evdev_name_of("D"), "KEY_D");
    assert_eq!(KeyCode::evdev_name_of(""), "KEY_");
}

#[test]
fn key_code_round_trip() {
    for code in [1u16, 14, 29, 30, 42, 54, 56, 57, 97, 100, 125, 126] {
        let name = KeyCode::new(code).to_string();
        assert_eq!(KeyCode::from_name(&name), Some(KeyCode(code)));
    }
}

#[test]
fn key_identifiers_are_equal_by_alias_and_code() {
    let a = Keyboard::new("L1", "One", "path/one");
    let b = Keyboard::new("L1", "Another", "path/two");
    let c = Keyboard::new("R1", "One", "path/one");
    assert!(KeyIdentifier::new(&a, KeyCode(30)) == KeyIdentifier::new(&b, KeyCode(30)));
    assert!(KeyIdentifier::new(&a, KeyCode(30)) != KeyIdentifier::new(&c, KeyCode(30)));
    assert!(KeyIdentifier::new(&a, KeyCode(30)) != KeyIdentifier::new(&a, KeyCode(31)));
    assert_eq!(*KeyIdentifier::new(&a, KeyCode(30)).code(), KeyCode(30));
}

#[test]
fn key_identifiers_are_ordered_by_code_then_alias() {
    let l = Keyboard::new("L1", "Left", "l");
    let r = Keyboard::new("R1", "Right", "r");
    let l_30 = KeyIdentifier::new(&l, KeyCode(30));
    let l_31 = KeyIdentifier::new(&l, KeyCode(31));
    let r_30 = KeyIdentifier::new(&r, KeyCode(30));
    let r_29 = KeyIdentifier::new(&r, KeyCode(29));
    assert!(l_30.le(&l_30));
    assert!(l_30.le(&l_31));
    assert!(!l_31.le(&l_30));
    assert!(l_30.le(&r_30));
    assert!(!r_30.le(&l_30));
    assert!(r_29.le(&l_30));
    assert!(!l_30.le(&r_29));
    assert!(r_30.le(&l_31));
}

#[test]
fn keyboard_events_are_equal_by_value() {
    let l = Keyboard::new("L1", "Left", "l");
    let key = KeyIdentifier::new(&l, KeyCode(30));
    let a = KeyboardEvent::new(key, KeyState::Down, mipoch(5));
    assert!(a == KeyboardEvent::new(key, KeyState::Down, mipoch(5)));
    assert!(a != KeyboardEvent::new(key, KeyState::Up, mipoch(5)));
    assert!(a != KeyboardEvent::new(key, KeyState::Down, mipoch(6)));
    assert!(a != KeyboardEvent::new(KeyIdentifier::new(&l, KeyCode(31)), KeyState::Down, mipoch(5)));
    assert!(*a.key() == key);
    assert_eq!(*a.value(), KeyState::Down);
    assert_eq!(*a.timestamp(), mipoch(5));
}

#[test]
fn tke_rejects_unknown_names() {
    let l = Keyboard::new("L1", "Left", "l");
    assert!(tke(&l, "NOSUCHKEY", "Down", 0).is_none());
    assert!(tke(&l, "J", "Sideways", 0).is_none());
    let event = tke(&l, "J", "up", 7).unwrap();
    assert_eq!(*event.key().code(), KeyCode(36));
    assert_eq!(*event.value(), KeyState::Up);
    assert_eq!(*event.timestamp(), Timestamp::from_nanos(7_000_000));
}

#[test]
fn timestamps_measure_whole_milliseconds() {
    assert_eq!(mipoch(0), Timestamp::from_nanos(0));
    assert_eq!(mipoch(50), Timestamp::from_nanos(50_000_000));
    assert_eq!(mipoch(u64::MAX), Timestamp::from_nanos(u64::MAX as u128 * 1_000_000));
    assert_eq!(Timestamp::from_millis(3), mipoch(3));
    assert_eq!(mipoch(150).millis_since(&mipoch(0)), Some(150));
    assert_eq!(mipoch(0).millis_since(&mipoch(150)), None);
    assert_eq!(mipoch(7).millis_since(&mipoch(7)), Some(0));
    let a = Timestamp::from_nanos(1_000);
    let b = Timestamp::from_nanos(50_999_999 + 1_000);
    let c = Timestamp::from_nanos(51_000_000 + 1_000);
    assert_eq!(b.millis_since(&a), Some(50));
    assert_eq!(c.millis_since(&a), Some(51));
    assert!(!b.exceeds(&a, 50));
    assert!(c.exceeds(&a, 50));
    assert!(!a.exceeds(&c, 50));
    assert!(!a.exceeds(&c, 0));
    assert!(c.exceeds(&a, 0));
    assert!(!a.exceeds(&a, 0));
}

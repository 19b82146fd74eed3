use keychord::devices::input::{index_of_path, EventKindCheck, RawEvent, EV_KEY};
use keychord::event_processor::sequence_manager::SequenceManager;
use keychord::interceptor::rule_output::{
    commands_of_rule, passthrough_events, react, sequence_events, Command, Output, Ruleset,
    UnknownKey, IGNORED_CODE,
};
use keychord::interceptor::{
    dispatch, find_device, identify, key_signals, DispatchError, IdentifyError, TransmitSignal,
};
use keychord::stuffs::key_code::KeyCode;
use keychord::stuffs::key_state::KeyState;
use keychord::stuffs::keyboard::Keyboard;
use keychord::test_utilities::{mipoch, tke};

fn devices() -> Vec<Keyboard> {
    vec![
        Keyboard::new("L1", "Left Keyboard", "usb/0/0/input0"),
        Keyboard::new("R1", "Right Keyboard", "usb/1/1/input0"),
        Keyboard::new("L1", "Shadowed", "usb/2/2/input0"),
    ]
}

fn raw(event_type: u16, code: u16, value: i32, milis: u64) -> RawEvent {
    RawEvent { event_type, code, value, timestamp: mipoch(milis) }
}

fn batches(commands: &[Command]) -> Vec<Vec<(u16, i32)>> {
    commands
        .iter()
        .map(|c| match c {
            Command::Emit(batch) => batch.clone(),
            other => panic!("not a batch: {:?}", other),
        })
        .collect()
}

#[test]
fn only_key_events_are_of_type_key() {
    assert_eq!(EV_KEY, 1);
    assert!(raw(1, 30, 1, 0).is_type_key());
    assert!(raw(1, 0, 0, 0).is_type_key());
    assert!(raw(1, 65535, 2, 0).is_type_key());
    for other in [0u16, 2, 3, 4, 5, 0x11, 0x12, 0x15, 0x16, 0x17, 0x1f, 0x101, 65535] {
        assert!(!raw(other, 30, 1, 0).is_type_key());
    }
}

#[test]
fn signals_keep_the_key_events_in_order() {
    let events = vec![
        raw(4, 4, 458756, 1),
        raw(1, 30, 1, 1),
        raw(0, 0, 0, 1),
        raw(1, 30, 0, 90),
        raw(1, 31, 7, 95),
    ];
    let signals = key_signals("L1", &events);
    assert_eq!(signals.len(), 3);
    match &signals[0] {
        TransmitSignal::Key(alias, code, value, time) => {
            assert_eq!(alias, "L1");
            assert_eq!((*code, *value, *time), (30, 1, mipoch(1)));
        }
        other => panic!("not a key signal: {:?}", other),
    }
    match &signals[1] {
        TransmitSignal::Key(alias, code, value, time) => {
            assert_eq!(alias, "L1");
            assert_eq!((*code, *value, *time), (30, 0, mipoch(90)));
        }
        other => panic!("not a key signal: {:?}", other),
    }
    match &signals[2] {
        TransmitSignal::Key(_, code, value, time) => {
            assert_eq!((*code, *value, *time), (31, 7, mipoch(95)));
        }
        other => panic!("not a key signal: {:?}", other),
    }
    assert!(key_signals("L1", &vec![]).is_empty());
    assert!(key_signals("L1", &vec![raw(0, 0, 0, 0)]).is_empty());
}

#[test]
fn devices_are_found_by_alias() {
    let devices = devices();
    assert_eq!(find_device(&devices, "L1"), Some(0));
    assert_eq!(find_device(&devices, "R1"), Some(1));
    assert_eq!(find_device(&devices, "r1"), None);
    assert_eq!(find_device(&devices, ""), None);
    assert_eq!(find_device(&vec![], "L1"), None);
}

#[test]
fn signals_are_identified() {
    let devices = devices();
    let event = identify(&devices, "R1", 36, 1, mipoch(50)).unwrap();
    assert_eq!(event, tke(&devices[1], "J", "Down", 50).unwrap());
    assert_eq!(event.to_string(), "R1 J Down");
    let event = identify(&devices, "L1", 29, 0, mipoch(60)).unwrap();
    assert_eq!(event.to_string(), "L1 LEFTCTRL Up");
    let event = identify(&devices, "L1", 29, 2, mipoch(60)).unwrap();
    assert_eq!(*event.value(), KeyState::Hold);
    assert_eq!(
        identify(&devices, "X9", 36, 1, mipoch(50)),
        Err(IdentifyError::UnknownDevice)
    );
    assert_eq!(
        identify(&devices, "L1", 36, 3, mipoch(50)),
        Err(IdentifyError::InvalidState)
    );
    assert_eq!(
        identify(&devices, "L1", 36, -1, mipoch(50)),
        Err(IdentifyError::InvalidState)
    );
    // An unknown device counts before a bad value.
    assert_eq!(
        identify(&devices, "X9", 36, 3, mipoch(50)),
        Err(IdentifyError::UnknownDevice)
    );
}

#[test]
fn paths_are_found() {
    let paths = vec![
        None,
        Some(String::from("usb/1")),
        Some(String::from("usb/2")),
        Some(String::from("usb/1")),
    ];
    assert_eq!(index_of_path(&paths, "usb/1"), Some(1));
    assert_eq!(index_of_path(&paths, "usb/2"), Some(2));
    assert_eq!(index_of_path(&paths, "usb/3"), None);
    assert_eq!(index_of_path(&paths, ""), None);
    assert_eq!(index_of_path(&vec![], "usb/1"), None);
    assert_eq!(index_of_path(&vec![None, None], "usb/1"), None);
}

#[test]
fn rules_are_found_by_the_exact_string() {
    let mut rules = Ruleset::new();
    assert!(rules.get("L1 CAPSLOCK").is_none());
    rules.insert("L1 CAPSLOCK", Output::MapKey("Esc"));
    rules.insert("L1 CAPSLOCK, R1 J", Output::MapKey("Down"));
    rules.insert("L1 E, R1 K", Output::Cmd("kitty", vec!["-1"]));
    assert!(matches!(rules.get("L1 CAPSLOCK"), Some(Output::MapKey("Esc"))));
    assert!(matches!(rules.get("L1 CAPSLOCK, R1 J"), Some(Output::MapKey("Down"))));
    assert!(matches!(rules.get("L1 E, R1 K"), Some(Output::Cmd("kitty", _))));
    assert!(rules.get("L1 CAPSLOCK,").is_none());
    assert!(rules.get("l1 capslock").is_none());
    assert!(rules.get("L1 CAPSLOCK ").is_none());
    assert!(rules.get("").is_none());
    // A later rule takes the place of an earlier one.
    rules.insert("L1 CAPSLOCK", Output::Nvim("jk"));
    assert!(matches!(rules.get("L1 CAPSLOCK"), Some(Output::Nvim("jk"))));
    assert!(matches!(rules.get("L1 CAPSLOCK, R1 J"), Some(Output::MapKey("Down"))));
}

#[test]
fn passthrough_batches() {
    // Caps lock is never passed on.
    assert_eq!(IGNORED_CODE, 58);
    assert!(passthrough_events(1, 58, &vec![29]).is_empty());
    assert!(passthrough_events(0, 58, &vec![29]).is_empty());
    // Modifiers pass as they come.
    for code in [14u16, 29, 42, 54, 56, 97, 125, 126] {
        for value in [0, 1, 2] {
            assert_eq!(passthrough_events(value, code, &vec![42]), vec![(code, value)]);
        }
    }
    // The right alt key is not among them.
    assert!(passthrough_events(1, 100, &vec![]).is_empty());
    assert_eq!(passthrough_events(0, 100, &vec![]), vec![(100, 1), (100, 0)]);
    // Other keys pass when they are released, wrapped in the modifiers.
    assert!(passthrough_events(1, 36, &vec![29, 42]).is_empty());
    assert!(passthrough_events(2, 36, &vec![29, 42]).is_empty());
    assert_eq!(
        passthrough_events(0, 36, &vec![29, 42]),
        vec![(29, 1), (42, 1), (36, 1), (29, 0), (42, 0), (36, 0)]
    );
    assert_eq!(passthrough_events(0, 36, &vec![]), vec![(36, 1), (36, 0)]);
}

#[test]
fn commands_of_each_kind_of_rule() {
    let commands = commands_of_rule(&Output::MapKey("Esc"), false).unwrap();
    assert_eq!(batches(&commands), vec![vec![(1, 1), (1, 0)]]);
    assert!(commands_of_rule(&Output::MapKey("Esc"), true).unwrap().is_empty());
    assert_eq!(commands_of_rule(&Output::MapKey("NoSuchKey"), false).unwrap_err(), UnknownKey);
    assert_eq!(commands_of_rule(&Output::MapKey("NoSuchKey"), true).unwrap_err(), UnknownKey);

    let commands = commands_of_rule(&Output::Cmd("kitty", vec!["-e", "top"]), false).unwrap();
    assert_eq!(commands.len(), 1);
    assert!(matches!(&commands[0], Command::Spawn("kitty", args) if *args == vec!["-e", "top"]));
    assert!(commands_of_rule(&Output::Cmd("kitty", vec![]), true).unwrap().is_empty());

    let commands = commands_of_rule(&Output::Nvim(":w<CR>"), true).unwrap();
    assert!(matches!(&commands[..], [Command::SendKeys(":w<CR>")]));

    let sequence = vec![("LeftCtrl", 1), ("F1", 1), ("F1", 0), ("LeftCtrl", 0)];
    let commands = commands_of_rule(&Output::Sequence(sequence.clone()), true).unwrap();
    assert_eq!(
        batches(&commands),
        vec![vec![(29, 1)], vec![(59, 1)], vec![(59, 0)], vec![(29, 0)]]
    );
    assert_eq!(batches(&sequence_events(&sequence).unwrap()), batches(&commands));
    assert!(sequence_events(&vec![]).unwrap().is_empty());
    assert_eq!(
        sequence_events(&vec![("F1", 1), ("Nope", 1), ("F1", 0)]).unwrap_err(),
        UnknownKey
    );
}

#[test]
fn a_rule_is_acted_on_and_marks_the_chord() {
    let l = Keyboard::new("L1", "Left", "l");
    let mut sm = SequenceManager::new();
    sm.receive(tke(&l, "CAPSLOCK", "Down", 0).unwrap());
    sm.receive(tke(&l, "CAPSLOCK", "Up", 10).unwrap());
    assert_eq!(sm.output(), "L1 CAPSLOCK Down");
    let rule = Output::MapKey("Esc");
    let commands = react(&mut sm, Some(&rule), 58, 0).unwrap();
    assert_eq!(batches(&commands), vec![vec![(1, 1), (1, 0)]]);
    assert!(*sm.emitted());
    // Once emitted, the same rule presses no key again.
    let commands = react(&mut sm, Some(&rule), 58, 0).unwrap();
    assert!(commands.is_empty());
    assert!(*sm.emitted());
    // And without a rule nothing is passed on.
    let commands = react(&mut sm, None, 36, 0).unwrap();
    assert!(commands.is_empty());
    assert!(*sm.emitted());
}

#[test]
fn a_rule_with_an_unknown_key_leaves_the_engine_alone() {
    let l = Keyboard::new("L1", "Left", "l");
    let mut sm = SequenceManager::new();
    sm.receive(tke(&l, "A", "Down", 0).unwrap());
    let rule = Output::Sequence(vec![("F1", 1), ("Nope", 1)]);
    assert_eq!(react(&mut sm, Some(&rule), 30, 1).unwrap_err(), UnknownKey);
    assert!(!*sm.emitted());
    assert_eq!(sm.sequence().len(), 1);
}

#[test]
fn a_combined_output_is_signalled() {
    let l = Keyboard::new("L1", "Left", "l");
    let mut sm = SequenceManager::new();
    sm.receive(tke(&l, "H", "Down", 0).unwrap());
    sm.receive(tke(&l, "J", "Down", 100).unwrap());
    sm.receive(tke(&l, "J", "Up", 150).unwrap());
    assert_eq!(sm.output(), "L1 H Down, L1 J Down");
    let commands = react(&mut sm, None, 36, 0).unwrap();
    assert!(matches!(&commands[..], [Command::Signal(text)] if text == "L1 H Down, L1 J Down"));
    assert!(*sm.emitted());
}

#[test]
fn a_chord_that_starts_with_a_modifier_is_passed_through() {
    let l = Keyboard::new("L1", "Left", "l");
    let mut sm = SequenceManager::new();
    sm.receive(tke(&l, "LEFTCTRL", "Down", 0).unwrap());
    let commands = react(&mut sm, None, 29, 1).unwrap();
    assert_eq!(batches(&commands), vec![vec![(29, 1)]]);
    sm.receive(tke(&l, "LEFTSHIFT", "Down", 100).unwrap());
    let commands = react(&mut sm, None, 42, 1).unwrap();
    assert_eq!(batches(&commands), vec![vec![(42, 1)]]);
    sm.receive(tke(&l, "J", "Down", 200).unwrap());
    assert!(react(&mut sm, None, 36, 1).unwrap().is_empty());
    sm.receive(tke(&l, "J", "Up", 250).unwrap());
    assert_eq!(sm.output(), "L1 LEFTCTRL Down, L1 LEFTSHIFT Down, L1 J Down");
    // The output is combined, but the chord starts with the control key.
    let commands = react(&mut sm, None, 36, 0).unwrap();
    assert_eq!(batches(&commands), vec![vec![(42, 1), (36, 1), (42, 0), (36, 0)]]);
    assert!(!*sm.emitted());
}

#[test]
fn a_combined_output_with_nothing_left_is_passed_through() {
    let l = Keyboard::new("L1", "Left", "l");
    let mut sm = SequenceManager::new();
    sm.receive(tke(&l, "A", "Down", 0).unwrap());
    sm.receive(tke(&l, "A", "Down", 60).unwrap());
    sm.receive(tke(&l, "A", "Up", 100).unwrap());
    assert!(sm.is_combined());
    assert_eq!(sm.first_code(), None);
    let commands = react(&mut sm, None, 30, 0).unwrap();
    assert_eq!(batches(&commands), vec![vec![(30, 1), (30, 0)]]);
    assert!(!*sm.emitted());
}

#[test]
fn key_codes_of_the_rule_names() {
    for (name, code) in [
        ("Esc", 1u16),
        ("Left", 105),
        ("Down", 108),
        ("Up", 103),
        ("Right", 106),
        ("VolumeDown", 114),
        ("VolumeUp", 115),
        ("PreviousSong", 165),
        ("NextSong", 163),
        ("PlayPause", 164),
    ] {
        assert_eq!(KeyCode::from_name(name), Some(KeyCode(code)));
    }
}

fn rules() -> Ruleset {
    let mut rules = Ruleset::new();
    rules.insert("L1 CAPSLOCK Down", Output::MapKey("Esc"));
    rules.insert("[L1 H Down, R1 J Down]", Output::MapKey("VolumeDown"));
    rules.insert("R1 RIGHTALT Down", Output::Sequence(vec![("LeftCtrl", 1), ("F1", 1)]));
    rules.insert("R1 Q Down", Output::MapKey("NoSuchKey"));
    rules.insert("R1 W Down", Output::Cmd("kitty", vec![]));
    rules
}

#[test]
fn a_key_signal_runs_through_engine_rules_and_reaction() {
    let devices = devices();
    let rules = rules();
    let mut sm = SequenceManager::new();

    // The press of a plain key: nothing yet.
    let commands = dispatch(&mut sm, &devices, &rules, "L1", 58, 1, mipoch(0)).unwrap();
    assert!(commands.is_empty());
    assert_eq!(sm.sequence().len(), 1);
    // Its release completes a step for which there is a rule.
    let commands = dispatch(&mut sm, &devices, &rules, "L1", 58, 0, mipoch(80)).unwrap();
    assert_eq!(sm.output(), "L1 CAPSLOCK Down");
    assert_eq!(batches(&commands), vec![vec![(1, 1), (1, 0)]]);
    assert!(*sm.emitted());
    assert!(sm.sequence().is_empty());

    // A chord over two keyboards.
    assert!(dispatch(&mut sm, &devices, &rules, "R1", 36, 1, mipoch(1000)).unwrap().is_empty());
    assert!(!*sm.emitted());
    assert!(dispatch(&mut sm, &devices, &rules, "L1", 35, 1, mipoch(1020)).unwrap().is_empty());
    let commands = dispatch(&mut sm, &devices, &rules, "L1", 35, 0, mipoch(1100)).unwrap();
    assert_eq!(sm.output(), "[L1 H Down, R1 J Down]");
    assert_eq!(batches(&commands), vec![vec![(114, 1), (114, 0)]]);
    // The other key of the chord leaves without a word.
    let commands = dispatch(&mut sm, &devices, &rules, "R1", 36, 0, mipoch(1200)).unwrap();
    assert_eq!(sm.output(), "R1 J Down");
    assert!(commands.is_empty());
    assert!(sm.sequence().is_empty());

    // A key without a rule is passed through on its release.
    assert!(dispatch(&mut sm, &devices, &rules, "R1", 30, 1, mipoch(2000)).unwrap().is_empty());
    let commands = dispatch(&mut sm, &devices, &rules, "R1", 30, 0, mipoch(2100)).unwrap();
    assert_eq!(batches(&commands), vec![vec![(30, 1), (30, 0)]]);
    assert!(!*sm.emitted());

    // A rule that asks for a list of key events.
    assert!(dispatch(&mut sm, &devices, &rules, "R1", 100, 1, mipoch(3000)).unwrap().is_empty());
    let commands = dispatch(&mut sm, &devices, &rules, "R1", 100, 0, mipoch(3100)).unwrap();
    assert_eq!(batches(&commands), vec![vec![(29, 1)], vec![(59, 1)]]);

    // A rule that starts a program.
    assert!(dispatch(&mut sm, &devices, &rules, "R1", 17, 1, mipoch(4000)).unwrap().is_empty());
    let commands = dispatch(&mut sm, &devices, &rules, "R1", 17, 0, mipoch(4100)).unwrap();
    assert!(matches!(&commands[..], [Command::Spawn("kitty", args)] if args.is_empty()));
}

#[test]
fn a_key_signal_that_cannot_be_worked_off() {
    let devices = devices();
    let rules = rules();
    let mut sm = SequenceManager::new();
    dispatch(&mut sm, &devices, &rules, "L1", 30, 1, mipoch(0)).unwrap();

    // An unknown device: nothing happens.
    let commands = dispatch(&mut sm, &devices, &rules, "X9", 31, 1, mipoch(10)).unwrap();
    assert!(commands.is_empty());
    assert_eq!(sm.sequence().len(), 1);
    let commands = dispatch(&mut sm, &devices, &rules, "X9", 31, 7, mipoch(10)).unwrap();
    assert!(commands.is_empty());

    // A raw value that stands for no state: an error, and nothing happens.
    assert_eq!(
        dispatch(&mut sm, &devices, &rules, "L1", 31, 3, mipoch(20)).unwrap_err(),
        DispatchError::InvalidState
    );
    assert_eq!(sm.sequence().len(), 1);
    dispatch(&mut sm, &devices, &rules, "L1", 30, 0, mipoch(30)).unwrap();
    assert!(sm.sequence().is_empty());

    // A rule with an unknown key: the engine has taken the event.
    dispatch(&mut sm, &devices, &rules, "R1", 16, 1, mipoch(100)).unwrap();
    assert_eq!(
        dispatch(&mut sm, &devices, &rules, "R1", 16, 0, mipoch(200)).unwrap_err(),
        DispatchError::UnknownKey
    );
    assert_eq!(sm.output(), "R1 Q Down");
    assert!(sm.sequence().is_empty());
    assert!(!*sm.emitted());
}

use sgc_demos::steal::{parse, plan_from_args, InputResource, PlanError, Resource};
use sgc_demos::text::IntErrorKind;
use sgc_demos::uinput::{
    abs_event, capabilities, default_device_name, dispatch, key_event, parse_key, rel_event,
    split_chars, syn, DispatchErrorKind, InputEvent, ABS_X, ABS_Y, BTN_LEFT, BTN_RIGHT, BTN_TOUCH,
    EV_ABS, EV_KEY, EV_REL, EV_SYN, REL_X, REL_Y, SYN_REPORT,
};

fn args(list: &[&str]) -> Vec<String> {
    list.iter().map(|a| a.to_string()).collect()
}

fn key(code: u16, value: i32) -> InputEvent {
    InputEvent { kind: EV_KEY, code, value }
}

fn sync() -> InputEvent {
    InputEvent { kind: EV_SYN, code: SYN_REPORT, value: 0 }
}

#[test]
fn event_builders() {
    assert_eq!(syn(), sync());
    assert_eq!(key_event(30, 1), key(30, 1));
    assert_eq!(rel_event(REL_Y, -5), InputEvent { kind: EV_REL, code: 1, value: -5 });
    assert_eq!(abs_event(ABS_X, 4095), InputEvent { kind: EV_ABS, code: 0, value: 4095 });
}

#[test]
fn key_names_and_raw_codes() {
    assert_eq!(parse_key("LEFTCTRL"), Some(29));
    assert_eq!(parse_key("ctrl"), Some(29));
    assert_eq!(parse_key(" alt "), Some(56));
    assert_eq!(parse_key("BackSpace"), Some(14));
    assert_eq!(parse_key("escape"), Some(1));
    assert_eq!(parse_key("ESC"), Some(1));
    assert_eq!(parse_key("enter"), Some(28));
    assert_eq!(parse_key("space"), Some(57));
    assert_eq!(parse_key("tab"), Some(15));
    assert_eq!(parse_key("left"), Some(105));
    assert_eq!(parse_key("right"), Some(106));
    assert_eq!(parse_key("up"), Some(103));
    assert_eq!(parse_key("down"), Some(108));
    assert_eq!(parse_key("a"), Some(30));
    assert_eq!(parse_key("B"), Some(48));
    assert_eq!(parse_key("c"), Some(46));
    assert_eq!(parse_key("d"), Some(32));
    assert_eq!(parse_key("e"), Some(18));
    assert_eq!(parse_key("164"), Some(164));
    assert_eq!(parse_key("+2"), Some(2));
    assert_eq!(parse_key("65535"), Some(65535));
    assert_eq!(parse_key("65536"), None);
    assert_eq!(parse_key("F"), None);
    assert_eq!(parse_key(""), None);
    assert_eq!(parse_key("-1"), None);
}

#[test]
fn a_chord_releases_in_reverse() {
    let command = dispatch("key LEFTCTRL+LEFTALT+BACKSPACE").unwrap();
    assert_eq!(command.ack, "key LEFTCTRL+LEFTALT+BACKSPACE");
    assert_eq!(
        command.batches,
        vec![vec![key(29, 1), key(56, 1), key(14, 1), sync(), key(14, 0), key(56, 0), key(29, 0), sync()]]
    );
}

#[test]
fn a_tap_is_one_key_down_and_up() {
    let command = dispatch("  tap   A  ").unwrap();
    assert_eq!(command.ack, "tap A");
    assert_eq!(command.batches, vec![vec![key(30, 1), sync(), key(30, 0), sync()]]);
}

#[test]
fn press_and_release_hold_a_key() {
    let command = dispatch("press leftctrl").unwrap();
    assert_eq!(command.ack, "press leftctrl");
    assert_eq!(command.batches, vec![vec![key(29, 1), sync()]]);
    let command = dispatch("release 29").unwrap();
    assert_eq!(command.ack, "release 29");
    assert_eq!(command.batches, vec![vec![key(29, 0), sync()]]);
}

#[test]
fn move_click_touch_and_quit() {
    let command = dispatch("move 10 -5").unwrap();
    assert_eq!(command.ack, "move 10 -5");
    assert_eq!(
        command.batches,
        vec![vec![
            InputEvent { kind: EV_REL, code: REL_X, value: 10 },
            InputEvent { kind: EV_REL, code: REL_Y, value: -5 },
            sync()
        ]]
    );
    assert_eq!(dispatch("move +3 0").unwrap().ack, "move 3 0");
    assert_eq!(dispatch("move -2147483648 2147483647").unwrap().ack, "move -2147483648 2147483647");

    let command = dispatch("click").unwrap();
    assert_eq!(command.ack, "click");
    assert_eq!(command.batches, vec![vec![key(BTN_LEFT, 1), sync(), key(BTN_LEFT, 0), sync()]]);

    let command = dispatch("touch 100 200").unwrap();
    assert_eq!(command.ack, "touch 100 200");
    assert_eq!(
        command.batches,
        vec![
            vec![
                InputEvent { kind: EV_ABS, code: ABS_X, value: 100 },
                InputEvent { kind: EV_ABS, code: ABS_Y, value: 200 },
                key(BTN_TOUCH, 1),
                sync()
            ],
            vec![key(BTN_TOUCH, 0), sync()],
        ]
    );

    let command = dispatch("quit").unwrap();
    assert_eq!(command.ack, "quit");
    assert!(command.batches.is_empty());
}

#[test]
fn dispatch_errors() {
    let err = dispatch("key").unwrap_err();
    assert_eq!(err.kind, DispatchErrorKind::Expected);
    assert_eq!(err.text, "expected <NAME>[+<NAME>...]");
    let err = dispatch("tap LEFTCTRL+NOPE").unwrap_err();
    assert_eq!(err.kind, DispatchErrorKind::UnknownKey);
    assert_eq!(err.text, "NOPE");
    let err = dispatch("key A+").unwrap_err();
    assert_eq!(err.kind, DispatchErrorKind::UnknownKey);
    assert_eq!(err.text, "");
    let err = dispatch("press").unwrap_err();
    assert_eq!(err.kind, DispatchErrorKind::Expected);
    assert_eq!(err.text, "expected <NAME>");
    let err = dispatch("release WHAT").unwrap_err();
    assert_eq!(err.kind, DispatchErrorKind::UnknownKey);
    assert_eq!(err.text, "WHAT");
    let err = dispatch("move").unwrap_err();
    assert_eq!((err.kind, err.text.as_str()), (DispatchErrorKind::Expected, "expected <dx>"));
    let err = dispatch("move 1").unwrap_err();
    assert_eq!((err.kind, err.text.as_str()), (DispatchErrorKind::Expected, "expected <dy>"));
    let err = dispatch("move x 1").unwrap_err();
    assert_eq!(err.kind, DispatchErrorKind::BadNumber(IntErrorKind::InvalidDigit));
    let err = dispatch("move 1 2147483648").unwrap_err();
    assert_eq!(err.kind, DispatchErrorKind::BadNumber(IntErrorKind::PosOverflow));
    let err = dispatch("touch -2147483649 0").unwrap_err();
    assert_eq!(err.kind, DispatchErrorKind::BadNumber(IntErrorKind::NegOverflow));
    let err = dispatch("touch 5").unwrap_err();
    assert_eq!((err.kind, err.text.as_str()), (DispatchErrorKind::Expected, "expected <y>"));
    let err = dispatch("jump 1").unwrap_err();
    assert_eq!(err.kind, DispatchErrorKind::UnknownCommand);
    assert_eq!(err.text, "jump");
    let err = dispatch("").unwrap_err();
    assert_eq!(err.kind, DispatchErrorKind::UnknownCommand);
    assert_eq!(err.text, "");
}

#[test]
fn split_on_a_character() {
    let chars: Vec<char> = "a++b".chars().collect();
    let parts: Vec<String> = split_chars(&chars, '+').iter().map(|p| p.iter().collect()).collect();
    assert_eq!(parts, vec!["a", "", "b"]);
    let parts = split_chars(&Vec::new(), '+');
    assert_eq!(parts, vec![Vec::<char>::new()]);
}

#[test]
fn device_capabilities_by_kind() {
    let keyboard = capabilities("keyboard").unwrap();
    assert_eq!(keyboard.keys, vec![1, 14, 28, 57, 29, 56, 15, 105, 106, 103, 108, 30, 48, 46, 32, 18]);
    assert!(keyboard.relative_axes.is_empty());
    assert!(keyboard.absolute_axes.is_empty());
    let mouse = capabilities("mouse").unwrap();
    assert_eq!(mouse.keys, vec![BTN_LEFT, BTN_RIGHT]);
    assert_eq!(mouse.relative_axes, vec![REL_X, REL_Y]);
    let touch = capabilities("touch").unwrap();
    assert_eq!(touch.keys, vec![BTN_TOUCH]);
    assert_eq!(touch.absolute_axes, vec![ABS_X, ABS_Y]);
    assert_eq!(touch.abs_max, 4095);
    assert!(capabilities("joystick").is_none());
    assert!(capabilities("Keyboard").is_none());
    assert_eq!(default_device_name("keyboard"), "sgc-virtual-keyboard");
}

#[test]
fn steal_parses_kind_and_index() {
    assert_eq!(parse("mouse:0"), Some(Resource::Input(InputResource::Mouse(0))));
    assert_eq!(parse("keyboard:2"), Some(Resource::Input(InputResource::Keyboard(2))));
    assert_eq!(parse("touch:255"), Some(Resource::Input(InputResource::Touch(255))));
    assert_eq!(parse("drm:1"), Some(Resource::Drm { card: 1 }));
    assert_eq!(parse("drm:+1"), Some(Resource::Drm { card: 1 }));
    assert_eq!(parse("touch:256"), None);
    assert_eq!(parse("mouse"), None);
    assert_eq!(parse("mouse:"), None);
    assert_eq!(parse("mouse:1:2"), None);
    assert_eq!(parse("fbdev:0"), None);
    assert_eq!(parse("Mouse:0"), None);
    assert_eq!(parse(":0"), None);
}

#[test]
fn steal_plan_defaults_and_errors() {
    let plan = plan_from_args(&[]).unwrap();
    assert_eq!(plan.resource, Resource::Input(InputResource::Mouse(0)));
    assert_eq!((plan.hold_ms, plan.cycles, plan.gap_ms), (2000, 1, 1000));
    let plan = plan_from_args(&args(&["drm:1", "500", "3", "250"])).unwrap();
    assert_eq!(plan.resource, Resource::Drm { card: 1 });
    assert_eq!((plan.hold_ms, plan.cycles, plan.gap_ms), (500, 3, 250));
    assert_eq!(plan_from_args(&args(&["keyboard:0", "x"])), Err(PlanError::HoldMs(IntErrorKind::InvalidDigit)));
    assert_eq!(
        plan_from_args(&args(&["keyboard:0", "1", "4294967296"])),
        Err(PlanError::Cycles(IntErrorKind::PosOverflow))
    );
    assert_eq!(plan_from_args(&args(&["keyboard:0", "1", "1", ""])), Err(PlanError::GapMs(IntErrorKind::Empty)));
    // The numbers are checked before the resource.
    assert_eq!(plan_from_args(&args(&["nope", "x"])), Err(PlanError::HoldMs(IntErrorKind::InvalidDigit)));
    assert_eq!(plan_from_args(&args(&["nope"])), Err(PlanError::Resource));
}

#[test]
fn every_code_in_decimal_names_itself() {
    for code in [0u16, 1, 9, 10, 29, 99, 100, 255, 256, 4095, 65534, 65535] {
        assert_eq!(parse_key(&code.to_string()), Some(code));
    }
}

#[test]
fn every_resource_name_parses_back() {
    for n in 0..=255u8 {
        assert_eq!(parse(&format!("mouse:{n}")), Some(Resource::Input(InputResource::Mouse(n))));
        assert_eq!(parse(&format!("keyboard:{n}")), Some(Resource::Input(InputResource::Keyboard(n))));
        assert_eq!(parse(&format!("touch:{n}")), Some(Resource::Input(InputResource::Touch(n))));
        assert_eq!(parse(&format!("drm:{n}")), Some(Resource::Drm { card: n }));
    }
}

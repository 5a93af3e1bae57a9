use sgc_demos::keys::{code_name, codepoints, printable, symbol_name, KeyLog, VISIBLE_ROWS};
use sgc_demos::raw::{decode_event, find_in, mode_line, read_target, Mode, RawKey, Target, EVENT_LEN};

fn args(list: &[&str]) -> Vec<String> {
    list.iter().map(|a| a.to_string()).collect()
}

#[test]
fn codepoints_are_four_hex_digits_at_least() {
    assert_eq!(codepoints(""), "-");
    assert_eq!(codepoints("A"), "U+0041");
    assert_eq!(codepoints("\u{f700}"), "U+F700");
    assert_eq!(codepoints("ab"), "U+0061 U+0062");
    assert_eq!(codepoints("\u{1F600}"), "U+1F600");
    assert_eq!(codepoints("\0"), "U+0000");
}

#[test]
fn printable_shows_glyphs_or_codepoints() {
    assert_eq!(printable("a"), "a");
    assert_eq!(printable("ab"), "a");
    assert_eq!(printable(" "), " ");
    assert_eq!(printable("\u{f700}"), "U+F700");
    assert_eq!(printable("\u{1F600}"), "U+1F600");
    assert_eq!(printable("\u{1f}"), "U+001F");
    assert_eq!(printable(""), "-");
}

#[test]
fn symbol_names_of_the_named_keys() {
    assert_eq!(symbol_name(""), "(empty text)");
    assert_eq!(symbol_name("\0"), "no character (keysym unmapped)");
    assert_eq!(symbol_name("\u{8}"), "Backspace");
    assert_eq!(symbol_name("\t"), "Tab");
    assert_eq!(symbol_name("\n"), "Return");
    assert_eq!(symbol_name("\u{1b}"), "Escape");
    assert_eq!(symbol_name("\u{7f}"), "Delete");
    assert_eq!(symbol_name("\u{f700}"), "ArrowUp");
    assert_eq!(symbol_name("\u{f701}"), "ArrowDown");
    assert_eq!(symbol_name("\u{f702}"), "ArrowLeft");
    assert_eq!(symbol_name("\u{f703}"), "ArrowRight");
    assert_eq!(symbol_name("\u{f70d}"), "F10");
    assert_eq!(symbol_name("\u{f70f}"), "F12");
    assert_eq!(symbol_name("\u{f710}"), "F13");
    assert_eq!(symbol_name("\u{f716}"), "F19");
    assert_eq!(symbol_name("\u{f717}"), "U+F717");
    assert_eq!(symbol_name("\u{f729}"), "Home");
    assert_eq!(symbol_name("\u{f735}"), "Menu");
    assert_eq!(symbol_name("\u{f746}"), "Help");
    assert_eq!(symbol_name("\u{f748}"), "Back");
    assert_eq!(symbol_name("q"), "q");
}

#[test]
fn code_names_of_the_remote() {
    assert_eq!(code_name(1), "ESC");
    assert_eq!(code_name(28), "ENTER");
    assert_eq!(code_name(115), "VOLUMEUP");
    assert_eq!(code_name(183), "F13");
    assert_eq!(code_name(186), "F16");
    assert_eq!(code_name(187), "KEY_187");
    assert_eq!(code_name(352), "OK");
    assert_eq!(code_name(583), "ASSISTANT");
    assert_eq!(code_name(0), "KEY_0");
    assert_eq!(code_name(65535), "KEY_65535");
}

#[test]
fn key_log_names_seat_keys() {
    let mut log = KeyLog::new();
    assert_eq!(log.count_label(), "0 events, 0 presses");
    log.on_seat_key("a", true);
    let last = log.last.as_ref().unwrap();
    assert_eq!(last.source, "seat");
    assert_eq!(last.symbol, "a");
    assert_eq!(last.name, "a");
    assert_eq!(last.detail, "press  xkb text U+0061");
    log.on_seat_key("\0", false);
    let last = log.last.as_ref().unwrap();
    assert_eq!(last.symbol, "U+0000");
    assert_eq!(last.name, "no character (keysym unmapped)");
    assert_eq!(
        last.detail,
        "release  xkb text U+0000  (xkb has no character for this keysym - the raw rows name it)"
    );
    log.on_seat_key("", true);
    let last = log.last.as_ref().unwrap();
    assert_eq!(last.symbol, "(no text)");
    assert_eq!(last.name, "(empty text)");
    assert_eq!(last.detail, "press  xkb text -");
    assert_eq!(log.count_label(), "3 events, 2 presses");
    assert_eq!(log.rows[0].seq, 3);
    assert_eq!(log.rows[2].symbol, "a");
}

#[test]
fn key_log_names_raw_keys() {
    let mut log = KeyLog::new();
    log.on_raw_key(115, 1);
    let last = log.last.as_ref().unwrap();
    assert_eq!(last.source, "raw");
    assert_eq!(last.symbol, "VOLUMEUP");
    assert_eq!(last.name, "VOLUMEUP");
    assert_eq!(last.detail, "press  evdev code 115");
    log.on_raw_key(183, 0);
    assert_eq!(log.last.as_ref().unwrap().detail, "release  evdev code 183");
    log.on_raw_key(1, 2);
    assert_eq!(log.last.as_ref().unwrap().detail, "repeat  evdev code 1");
    log.on_raw_key(999, 7);
    assert_eq!(log.last.as_ref().unwrap().detail, "value  evdev code 999");
    assert_eq!(log.last.as_ref().unwrap().name, "KEY_999");
    assert_eq!(log.count_label(), "4 events, 0 presses");
}

#[test]
fn key_log_keeps_the_newest_ten_first() {
    let mut log = KeyLog::new();
    for code in 0..12u16 {
        log.on_raw_key(code, 1);
    }
    assert_eq!(log.rows.len(), VISIBLE_ROWS);
    assert_eq!(log.rows[0].seq, 12);
    assert_eq!(log.rows[0].symbol, "KEY_11");
    assert_eq!(log.rows[9].seq, 3);
    assert_eq!(log.rows[0].source, "raw");
    assert_eq!(log.rows[0].detail, "press  evdev code 11");
    assert_eq!(log.seq, 12);
}

#[test]
fn raw_mode_from_args() {
    assert!(matches!(Mode::from_args(&args(&["app"])), Mode::Off));
    assert!(matches!(Mode::from_args(&args(&["app", "--raw"])), Mode::Auto));
    assert!(matches!(Mode::from_args(&args(&["app", "--raw", "-v"])), Mode::Auto));
    assert!(matches!(
        Mode::from_args(&args(&["app", "--raw", "sunxi-ir", "--raw", "x"])),
        Mode::Device(d) if d == "sunxi-ir"
    ));
}

fn record(kind: u16, code: u16, value: i32) -> Vec<u8> {
    let mut buf = vec![0xAAu8; 16];
    buf.extend_from_slice(&kind.to_le_bytes());
    buf.extend_from_slice(&code.to_le_bytes());
    buf.extend_from_slice(&value.to_le_bytes());
    buf
}

#[test]
fn decode_keeps_key_events_only() {
    let buf = record(1, 115, 1);
    assert_eq!(buf.len(), EVENT_LEN);
    assert_eq!(decode_event(&buf), Some(RawKey { code: 115, value: 1 }));
    assert_eq!(decode_event(&record(1, 0x1ab, -1)), Some(RawKey { code: 0x1ab, value: -1 }));
    assert_eq!(decode_event(&record(1, 65535, i32::MIN)), Some(RawKey { code: 65535, value: i32::MIN }));
    assert_eq!(decode_event(&record(1, 2, i32::MAX)), Some(RawKey { code: 2, value: i32::MAX }));
    assert_eq!(decode_event(&record(0, 0, 0)), None);
    assert_eq!(decode_event(&record(4, 4, 30)), None);
    assert_eq!(decode_event(&record(0x101, 1, 1)), None);
}

#[test]
fn find_names_the_first_matching_event_node() {
    let entries = vec![
        ("input0".to_string(), "sunxi-ir".to_string()),
        ("event0".to_string(), " gpio-keys\n".to_string()),
        ("event1".to_string(), "sunxi-ir\n".to_string()),
        ("event2".to_string(), "sunxi-ir".to_string()),
    ];
    assert_eq!(find_in(&entries, "sunxi"), Ok("/dev/input/event1".to_string()));
    assert_eq!(
        find_in(&entries, "zzz"),
        Err(vec![
            "event0 = gpio-keys".to_string(),
            "event1 = sunxi-ir".to_string(),
            "event2 = sunxi-ir".to_string()
        ])
    );
    assert_eq!(find_in(&Vec::new(), "x"), Err(Vec::new()));
}

#[test]
fn read_target_follows_the_mode() {
    assert_eq!(read_target(&Mode::Off, true), Target::Off);
    assert_eq!(read_target(&Mode::Auto, false), Target::Find("sunxi".to_string()));
    assert_eq!(
        read_target(&Mode::Device("/dev/input/event3".to_string()), true),
        Target::Path("/dev/input/event3".to_string())
    );
    assert_eq!(read_target(&Mode::Device("ir".to_string()), false), Target::Find("ir".to_string()));
}

#[test]
fn mode_line_names_the_live_layers() {
    assert_eq!(
        mode_line(Some("/dev/input/event1")),
        "seat: @sgc lease + granted devices | raw read-back: /dev/input/event1 | Ctrl+Alt+Backspace quits"
    );
    assert_eq!(
        mode_line(None),
        "seat: @sgc lease + granted devices | raw read-back off (--raw [device]) | Ctrl+Alt+Backspace quits"
    );
}

#[test]
fn decode_ignores_the_timestamp() {
    let mut a = record(1, 28, 1);
    let b = record(1, 28, 1);
    for (i, byte) in a.iter_mut().take(16).enumerate() {
        *byte = i as u8;
    }
    assert_eq!(decode_event(&a), decode_event(&b));
    let mut c = record(3, 0, 17);
    c[0] = 0;
    assert_eq!(decode_event(&c), None);
}

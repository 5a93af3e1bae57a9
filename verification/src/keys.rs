//! Naming and bookkeeping for the key events the IR remote test screen
//! reports: the seat layer's key text, the raw layer's evdev keycodes, and the
//! rolling log of the last events, newest first.
//!
//! A key event from the seat carries text, not a keycode: either a printable
//! character or one of the private-use placeholders used for named keys
//! (arrows are U+F700.., F13 is U+F710, Home is U+F729, Menu U+F735); a keysym
//! without a character arrives as U+0000.

use vstd::prelude::*;
use crate::uinput::spec_parse_key;
use crate::text::{char_code, chars_of, decimal, decimal_string, digits, push_char, push_number, push_str};

verus! {

/// How many log rows the screen shows at once.
pub const VISIBLE_ROWS: usize = 10;

/// `U+XXXX`: the codepoint in upper-case hex, at least four digits.
pub open spec fn codepoint(c: char) -> Seq<char> {
    "U+"@ + digits(c as nat, 16, 4)
}

/// The codepoints of a non-empty text, separated by spaces.
pub open spec fn joined_codepoints(s: Seq<char>) -> Seq<char>
    decreases s.len(),
{
    if s.len() <= 1 {
        codepoint(s[0])
    } else {
        joined_codepoints(s.drop_last()) + " "@ + codepoint(s.last())
    }
}

/// `U+F700` for one character, a space-separated list when the text holds
/// more, `-` for an empty text.
pub open spec fn spec_codepoints(s: Seq<char>) -> Seq<char> {
    if s.len() == 0 {
        "-"@
    } else {
        joined_codepoints(s)
    }
}

/// The text as it should be shown: its first character when it can be drawn
/// (U+0020 up to the private-use area), otherwise its codepoints.
pub open spec fn spec_printable(s: Seq<char>) -> Seq<char> {
    if s.len() > 0 && 0x20 <= (s[0] as int) < 0xf000 {
        seq![s[0]]
    } else {
        spec_codepoints(s)
    }
}

/// The name of the key a text stands for, by its first character.
pub open spec fn spec_symbol_name(s: Seq<char>) -> Seq<char> {
    if s.len() == 0 {
        "(empty text)"@
    } else {
        let c = s[0] as int;
        if c == 0x00 {
            "no character (keysym unmapped)"@
        } else if c == 0x08 {
            "Backspace"@
        } else if c == 0x09 {
            "Tab"@
        } else if c == 0x0a {
            "Return"@
        } else if c == 0x1b {
            "Escape"@
        } else if c == 0x7f {
            "Delete"@
        } else if c == 0xf700 {
            "ArrowUp"@
        } else if c == 0xf701 {
            "ArrowDown"@
        } else if c == 0xf702 {
            "ArrowLeft"@
        } else if c == 0xf703 {
            "ArrowRight"@
        } else if 0xf70d <= c <= 0xf70f {
            "F"@ + decimal((10 + c - 0xf70d) as nat)
        } else if 0xf710 <= c <= 0xf716 {
            "F"@ + decimal((13 + c - 0xf710) as nat)
        } else if c == 0xf729 {
            "Home"@
        } else if c == 0xf735 {
            "Menu"@
        } else if c == 0xf746 {
            "Help"@
        } else if c == 0xf748 {
            "Back"@
        } else {
            spec_printable(s)
        }
    }
}

/// The name of an evdev keycode: the codes the X98H/Z8Pro remote sends are
/// spelled out, anything else is `KEY_<n>`.
pub open spec fn spec_code_name(code: u16) -> Seq<char> {
    if code == 1 {
        "ESC"@
    } else if code == 28 {
        "ENTER"@
    } else if code == 102 {
        "HOME"@
    } else if code == 103 {
        "UP"@
    } else if code == 105 {
        "LEFT"@
    } else if code == 106 {
        "RIGHT"@
    } else if code == 108 {
        "DOWN"@
    } else if code == 113 {
        "MUTE"@
    } else if code == 114 {
        "VOLUMEDOWN"@
    } else if code == 115 {
        "VOLUMEUP"@
    } else if code == 116 {
        "POWER"@
    } else if code == 139 {
        "MENU"@
    } else if code == 141 {
        "SETUP"@
    } else if code == 158 {
        "BACK"@
    } else if code == 167 {
        "NEXTSONG"@
    } else if 183 <= code <= 186 {
        "F"@ + decimal((13 + code - 183) as nat)
    } else if code == 352 {
        "OK"@
    } else if code == 373 {
        "MODE"@
    } else if code == 377 {
        "TV"@
    } else if code == 398 {
        "RED"@
    } else if code == 399 {
        "GREEN"@
    } else if code == 400 {
        "YELLOW"@
    } else if code == 401 {
        "BLUE"@
    } else if code == 402 {
        "CHANNELUP"@
    } else if code == 403 {
        "CHANNELDOWN"@
    } else if code == 583 {
        "ASSISTANT"@
    } else {
        "KEY_"@ + decimal(code as nat)
    }
}

/// No keycode is given the name of another key: whenever the name of a
/// keycode is a key name the input harness knows, that key name parses to
/// the same code.
pub proof fn law_code_name_never_names_another_key(code: u16)
    ensures
        spec_parse_key(spec_code_name(code)) matches Some(c) ==> c == code,
{
    reveal_strlit("ESC");
    reveal_strlit("ENTER");
    reveal_strlit("HOME");
    reveal_strlit("UP");
    reveal_strlit("LEFT");
    reveal_strlit("RIGHT");
    reveal_strlit("DOWN");
    reveal_strlit("MUTE");
    reveal_strlit("VOLUMEDOWN");
    reveal_strlit("VOLUMEUP");
    reveal_strlit("POWER");
    reveal_strlit("MENU");
    reveal_strlit("SETUP");
    reveal_strlit("BACK");
    reveal_strlit("NEXTSONG");
    reveal_strlit("OK");
    reveal_strlit("MODE");
    reveal_strlit("TV");
    reveal_strlit("RED");
    reveal_strlit("GREEN");
    reveal_strlit("YELLOW");
    reveal_strlit("BLUE");
    reveal_strlit("CHANNELUP");
    reveal_strlit("CHANNELDOWN");
    reveal_strlit("ASSISTANT");
    reveal_strlit("F");
    reveal_strlit("KEY_");
    reveal_strlit("LEFTCTRL");
    reveal_strlit("CTRL");
    reveal_strlit("LEFTALT");
    reveal_strlit("ALT");
    reveal_strlit("BACKSPACE");
    reveal_strlit("ESCAPE");
    reveal_strlit("SPACE");
    reveal_strlit("TAB");
    reveal_strlit("A");
    reveal_strlit("B");
    reveal_strlit("C");
    reveal_strlit("D");
    reveal_strlit("E");
    let name = spec_code_name(code);
    if 183 <= code <= 186 || !(code == 1 || code == 28 || code == 102 || code == 103 || code == 105
        || code == 106 || code == 108 || code == 113 || code == 114 || code == 115 || code == 116
        || code == 139 || code == 141 || code == 158 || code == 167 || code == 352 || code == 373
        || code == 377 || code == 398 || code == 399 || code == 400 || code == 401 || code == 402
        || code == 403 || code == 583) {
        let n: nat = if 183 <= code <= 186 {
            (13 + code - 183) as nat
        } else {
            code as nat
        };
        let prefix = if 183 <= code <= 186 {
            "F"@
        } else {
            "KEY_"@
        };
        assert(name == prefix + decimal(n));
        crate::text::lemma_decimal_digits(n, 1);
        assert forall|k: int| 0 <= k < name.len() implies !crate::text::is_whitespace(
            #[trigger] name[k],
        ) && !('a' <= name[k] <= 'z') by {
            if k >= prefix.len() {
                assert(name[k] == decimal(n)[k - prefix.len()]);
            }
        }
        crate::uinput::lemma_parse_key_of_name(name);
        assert(name[0] == prefix[0]);
        assert(crate::uinput::named_key(name) is None);
    } else {
        assert(forall|k: int| 0 <= k < name.len() ==> 'A' <= #[trigger] name[k] <= 'Z');
        crate::uinput::lemma_parse_key_of_name(name);
    }
}

/// The keycode names agree with the key names of the input harness (both
/// follow linux/input-event-codes.h): for the keys both know (ESC, ENTER and
/// the arrows UP, LEFT, RIGHT, DOWN) the name given to a keycode is the key
/// name that parses to that very code.
pub proof fn law_code_names_match_key_names(code: u16)
    requires
        code == 1 || code == 28 || code == 103 || code == 105 || code == 106 || code == 108,
    ensures
        spec_parse_key(spec_code_name(code)) == Some(code),
{
    reveal_strlit("ESC");
    reveal_strlit("ENTER");
    reveal_strlit("UP");
    reveal_strlit("LEFT");
    reveal_strlit("RIGHT");
    reveal_strlit("DOWN");
    reveal_strlit("LEFTCTRL");
    reveal_strlit("CTRL");
    reveal_strlit("LEFTALT");
    reveal_strlit("ALT");
    reveal_strlit("BACKSPACE");
    reveal_strlit("ESCAPE");
    reveal_strlit("SPACE");
    reveal_strlit("TAB");
    let name = spec_code_name(code);
    assert(forall|k: int|
        0 <= k < name.len() ==> 'A' <= #[trigger] name[k] <= 'Z');
    crate::uinput::lemma_parse_key_of_name(name);
}

/// `U+F700` for one character, or a space-separated list when the text
/// carried more (an empty text shows as `-`).
pub fn codepoints(text: &str) -> (res: String)
    ensures
        res@ == spec_codepoints(text@),
{
    let v = chars_of(text);
    if v.len() == 0 {
        return String::from_str("-");
    }
    let mut res = String::new();
    let mut i: usize = 0;
    while i < v.len()
        invariant
            i <= v@.len(),
            v@ == text@,
            v@.len() > 0,
            i > 0 ==> res@ == joined_codepoints(v@.take(i as int)),
            i == 0 ==> res@.len() == 0,
        decreases v@.len() - i,
    {
        if i > 0 {
            push_char(&mut res, ' ');
        }
        push_str(&mut res, "U+");
        push_number(&mut res, char_code(v[i]) as u64, 16, 4);
        proof {
            let t = v@.take(i + 1);
            assert(t.drop_last() =~= v@.take(i as int));
            assert(t.last() == v@[i as int]);
            if i == 0 {
                assert(res@ =~= codepoint(v@[0]));
            } else {
                reveal_strlit(" ");
                assert(res@ =~= joined_codepoints(v@.take(i as int)) + " "@ + codepoint(v@[i as int]));
            }
        }
        i = i + 1;
    }
    assert(v@.take(v@.len() as int) =~= v@);
    res
}

/// The text as it should be shown: a glyph when it can be drawn, otherwise
/// the codepoints (DejaVu has no glyphs in the private-use area the named keys
/// use).
pub fn printable(text: &str) -> (res: String)
    ensures
        res@ == spec_printable(text@),
{
    let v = chars_of(text);
    if v.len() > 0 && 0x20 <= char_code(v[0]) && char_code(v[0]) < 0xf000 {
        let mut res = String::new();
        push_char(&mut res, v[0]);
        assert(res@ =~= seq![v@[0]]);
        res
    } else {
        codepoints(text)
    }
}

fn f_key(n: u64) -> (res: String)
    ensures
        res@ == "F"@ + decimal(n as nat),
{
    let mut res = String::from_str("F");
    let d = decimal_string(n);
    push_str(&mut res, d.as_str());
    res
}

/// A label for the key text the seat delivered: printable characters speak
/// for themselves, the private-use placeholders get the name used for them.
pub fn symbol_name(text: &str) -> (res: String)
    ensures
        res@ == spec_symbol_name(text@),
{
    let v = chars_of(text);
    if v.len() == 0 {
        return String::from_str("(empty text)");
    }
    let c = char_code(v[0]);
    let named: &str = if c == 0x00 {
        "no character (keysym unmapped)"
    } else if c == 0x08 {
        "Backspace"
    } else if c == 0x09 {
        "Tab"
    } else if c == 0x0a {
        "Return"
    } else if c == 0x1b {
        "Escape"
    } else if c == 0x7f {
        "Delete"
    } else if c == 0xf700 {
        "ArrowUp"
    } else if c == 0xf701 {
        "ArrowDown"
    } else if c == 0xf702 {
        "ArrowLeft"
    } else if c == 0xf703 {
        "ArrowRight"
    } else if 0xf70d <= c && c <= 0xf70f {
        return f_key((10 + (c - 0xf70d)) as u64);
    } else if 0xf710 <= c && c <= 0xf716 {
        return f_key((13 + (c - 0xf710)) as u64);
    } else if c == 0xf729 {
        "Home"
    } else if c == 0xf735 {
        "Menu"
    } else if c == 0xf746 {
        "Help"
    } else if c == 0xf748 {
        "Back"
    } else {
        return printable(text);
    };
    String::from_str(named)
}

/// Name an evdev keycode. The codes the X98H/Z8Pro remote sends are spelled
/// out; anything else falls back to `KEY_<n>` so the number is still readable.
pub fn code_name(code: u16) -> (res: String)
    ensures
        res@ == spec_code_name(code),
        spec_parse_key(res@) matches Some(c) ==> c == code,
        code == 1 || code == 28 || code == 103 || code == 105 || code == 106 || code == 108
            ==> spec_parse_key(res@) == Some(code),
{
    proof {
        law_code_name_never_names_another_key(code);
        if code == 1 || code == 28 || code == 103 || code == 105 || code == 106 || code == 108 {
            law_code_names_match_key_names(code);
        }
    }
    let named: &str = if code == 1 {
        "ESC"
    } else if code == 28 {
        "ENTER"
    } else if code == 102 {
        "HOME"
    } else if code == 103 {
        "UP"
    } else if code == 105 {
        "LEFT"
    } else if code == 106 {
        "RIGHT"
    } else if code == 108 {
        "DOWN"
    } else if code == 113 {
        "MUTE"
    } else if code == 114 {
        "VOLUMEDOWN"
    } else if code == 115 {
        "VOLUMEUP"
    } else if code == 116 {
        "POWER"
    } else if code == 139 {
        "MENU"
    } else if code == 141 {
        "SETUP"
    } else if code == 158 {
        "BACK"
    } else if code == 167 {
        "NEXTSONG"
    } else if 183 <= code && code <= 186 {
        return f_key((13 + (code - 183)) as u64);
    } else if code == 352 {
        "OK"
    } else if code == 373 {
        "MODE"
    } else if code == 377 {
        "TV"
    } else if code == 398 {
        "RED"
    } else if code == 399 {
        "GREEN"
    } else if code == 400 {
        "YELLOW"
    } else if code == 401 {
        "BLUE"
    } else if code == 402 {
        "CHANNELUP"
    } else if code == 403 {
        "CHANNELDOWN"
    } else if code == 583 {
        "ASSISTANT"
    } else {
        let mut res = String::from_str("KEY_");
        let d = decimal_string(code as u64);
        push_str(&mut res, d.as_str());
        return res;
    };
    String::from_str(named)
}

/// One event, already named for the screen.
#[derive(Debug)]
pub struct Entry {
    /// `seat` or `raw`.
    pub source: String,
    pub symbol: String,
    pub name: String,
    pub detail: String,
}

/// One row of the rolling log.
#[derive(Debug)]
pub struct KeyRow {
    pub seq: i32,
    pub source: String,
    pub symbol: String,
    pub detail: String,
}

/// The rolling log plus the last-key summary.
#[derive(Debug)]
pub struct KeyLog {
    /// The newest events first, at most `VISIBLE_ROWS` of them.
    pub rows: Vec<KeyRow>,
    /// Events reported so far.
    pub seq: i32,
    /// Seat key presses reported so far.
    pub presses: i32,
    /// The event shown in the key panel.
    pub last: Option<Entry>,
}

/// The detail line of a seat key.
pub open spec fn seat_detail(text: Seq<char>, down: bool) -> Seq<char> {
    (if down {
        "press"@
    } else {
        "release"@
    }) + "  xkb text "@ + spec_codepoints(text) + if text.len() > 0 && text[0] == '\0' {
        "  (xkb has no character for this keysym - the raw rows name it)"@
    } else {
        ""@
    }
}

/// The word for an evdev key value.
pub open spec fn raw_what(value: i32) -> Seq<char> {
    if value == 0 {
        "release"@
    } else if value == 1 {
        "press"@
    } else if value == 2 {
        "repeat"@
    } else {
        "value"@
    }
}

impl KeyLog {
    /// The log holds the last `min(seq, VISIBLE_ROWS)` events, newest first,
    /// numbered `seq`, `seq - 1`, ...; presses are among the events.
    pub open spec fn wf(&self) -> bool {
        &&& 0 <= self.presses <= self.seq
        &&& self.rows@.len() == if self.seq < VISIBLE_ROWS {
            self.seq as int
        } else {
            VISIBLE_ROWS as int
        }
        &&& forall|i: int| 0 <= i < self.rows@.len() ==> (#[trigger] self.rows@[i]).seq == self.seq - i
        &&& (self.seq > 0) == (self.last is Some)
    }

    /// An empty log: no events, no presses, nothing in the key panel.
    pub fn new() -> (res: KeyLog)
        ensures
            res.wf(),
            res.seq == 0,
            res.presses == 0,
            res.rows@.len() == 0,
            res.last is None,
    {
        KeyLog { rows: Vec::new(), seq: 0, presses: 0, last: None }
    }

    /// `<events> events, <presses> presses`.
    pub fn count_label(&self) -> (res: String)
        requires
            self.wf(),
        ensures
            res@ == decimal(self.seq as nat) + " events, "@ + decimal(self.presses as nat)
                + " presses"@,
    {
        let mut res = decimal_string(self.seq as u64);
        push_str(&mut res, " events, ");
        let p = decimal_string(self.presses as u64);
        push_str(&mut res, p.as_str());
        push_str(&mut res, " presses");
        res
    }

    fn push(&mut self, entry: Entry)
        requires
            old(self).wf(),
            old(self).seq < i32::MAX,
        ensures
            final(self).seq == old(self).seq + 1,
            final(self).presses == old(self).presses,
            final(self).wf(),
            final(self).rows@[0].seq == final(self).seq,
            final(self).rows@[0].source@ == entry.source@,
            final(self).rows@[0].symbol@ == entry.symbol@,
            final(self).rows@[0].detail@ == entry.detail@,
            forall|i: int| 1 <= i < final(self).rows@.len() ==> #[trigger] final(self).rows@[i] == old(self).rows@[i - 1],
            final(self).last == Some(entry),
    {
        self.seq = self.seq + 1;
        let row = KeyRow {
            seq: self.seq,
            source: entry.source.clone(),
            symbol: entry.symbol.clone(),
            detail: entry.detail.clone(),
        };
        let ghost before = self.rows@;
        self.rows.insert(0, row);
        assert(forall|i: int| 1 <= i < self.rows@.len() ==> #[trigger] self.rows@[i] == before[i - 1]);
        if self.rows.len() > VISIBLE_ROWS {
            let last = self.rows.len() - 1;
            self.rows.remove(last);
        }
        self.last = Some(entry);
    }

    /// Report a key event the window received through the seat: its name,
    /// what it shows, and a detail line; a press counts towards the presses.
    pub fn on_seat_key(&mut self, text: &str, down: bool)
        requires
            old(self).wf(),
            old(self).seq < i32::MAX,
        ensures
            final(self).wf(),
            final(self).seq == old(self).seq + 1,
            final(self).presses == old(self).presses + if down {
                1int
            } else {
                0int
            },
            final(self).last matches Some(e) && {
                &&& e.source@ == "seat"@
                &&& e.name@ == spec_symbol_name(text@)
                &&& e.symbol@ == if text@.len() == 0 {
                    "(no text)"@
                } else {
                    spec_printable(text@)
                }
                &&& e.detail@ == seat_detail(text@, down)
            },
            final(self).rows@[0].seq == final(self).seq,
            final(self).rows@[0].source@ == "seat"@,
            final(self).rows@[0].symbol@ == if text@.len() == 0 {
                "(no text)"@
            } else {
                spec_printable(text@)
            },
            final(self).rows@[0].detail@ == seat_detail(text@, down),
            forall|i: int| 1 <= i < final(self).rows@.len() ==> #[trigger] final(self).rows@[i] == old(self).rows@[i - 1],
    {
        let name = symbol_name(text);
        let v = chars_of(text);
        let mut detail = String::from_str(if down { "press" } else { "release" });
        push_str(&mut detail, "  xkb text ");
        let cps = codepoints(text);
        push_str(&mut detail, cps.as_str());
        if v.len() > 0 && v[0] == '\0' {
            push_str(&mut detail, "  (xkb has no character for this keysym - the raw rows name it)");
        } else {
            push_str(&mut detail, "");
        }
        let symbol = if v.len() == 0 {
            String::from_str("(no text)")
        } else {
            printable(text)
        };
        self.push(Entry { source: String::from_str("seat"), symbol, name, detail });
        if down {
            self.presses = self.presses + 1;
        }
    }

    /// Report a key event the raw evdev read-back read off the device.
    pub fn on_raw_key(&mut self, code: u16, value: i32)
        requires
            old(self).wf(),
            old(self).seq < i32::MAX,
        ensures
            final(self).wf(),
            final(self).seq == old(self).seq + 1,
            final(self).presses == old(self).presses,
            final(self).last matches Some(e) && {
                &&& e.source@ == "raw"@
                &&& e.name@ == spec_code_name(code)
                &&& e.symbol@ == spec_code_name(code)
                &&& e.detail@ == raw_what(value) + "  evdev code "@ + decimal(code as nat)
            },
            final(self).rows@[0].seq == final(self).seq,
            final(self).rows@[0].source@ == "raw"@,
            final(self).rows@[0].symbol@ == spec_code_name(code),
            final(self).rows@[0].detail@ == raw_what(value) + "  evdev code "@ + decimal(code as nat),
            forall|i: int| 1 <= i < final(self).rows@.len() ==> #[trigger] final(self).rows@[i] == old(self).rows@[i - 1],
    {
        let name = code_name(code);
        let what = if value == 0 {
            "release"
        } else if value == 1 {
            "press"
        } else if value == 2 {
            "repeat"
        } else {
            "value"
        };
        let mut detail = String::from_str(what);
        push_str(&mut detail, "  evdev code ");
        let d = decimal_string(code as u64);
        push_str(&mut detail, d.as_str());
        let symbol = name.clone();
        self.push(Entry { source: String::from_str("raw"), symbol, name, detail });
    }
}

} // verus!

//! The input harness's virtual device: which capabilities each kind of
//! device declares, how a command line becomes the events it injects, and the
//! key names it understands.

use vstd::prelude::*;
use crate::text::{
    ascii_upper, chars_of, decimal, decimal_string, is_whitespace, parse_int, parse_unsigned,
    push_char, push_str, split, str_eq, string_from, to_ascii_uppercase, trim, trim_chars,
    IntErrorKind,
};

verus! {

/// Event types and codes (linux/input-event-codes.h).
pub const EV_SYN: u16 = 0;
pub const EV_KEY: u16 = 1;
pub const EV_REL: u16 = 2;
pub const EV_ABS: u16 = 3;
pub const SYN_REPORT: u16 = 0;
pub const REL_X: u16 = 0;
pub const REL_Y: u16 = 1;
pub const ABS_X: u16 = 0;
pub const ABS_Y: u16 = 1;
pub const BTN_LEFT: u16 = 0x110;
pub const BTN_RIGHT: u16 = 0x111;
pub const BTN_TOUCH: u16 = 0x14a;

/// One input event to inject.
#[derive(Debug, Clone, Copy, PartialEq, Eq, Structural)]
pub struct InputEvent {
    pub kind: u16,
    pub code: u16,
    pub value: i32,
}

/// A `SYN_REPORT`: libinput only consumes a batch of events once it is
/// terminated by one, and a press+release in one batch reads as a tap.
pub fn syn() -> (res: InputEvent)
    ensures
        res == (InputEvent { kind: EV_SYN, code: SYN_REPORT, value: 0 }),
{
    InputEvent { kind: EV_SYN, code: SYN_REPORT, value: 0 }
}

/// A key event: `value` 1 presses, 0 releases.
pub fn key_event(code: u16, value: i32) -> (res: InputEvent)
    ensures
        res == (InputEvent { kind: EV_KEY, code, value }),
{
    InputEvent { kind: EV_KEY, code, value }
}

/// A relative axis move.
pub fn rel_event(code: u16, value: i32) -> (res: InputEvent)
    ensures
        res == (InputEvent { kind: EV_REL, code, value }),
{
    InputEvent { kind: EV_REL, code, value }
}

/// An absolute axis position.
pub fn abs_event(code: u16, value: i32) -> (res: InputEvent)
    ensures
        res == (InputEvent { kind: EV_ABS, code, value }),
{
    InputEvent { kind: EV_ABS, code, value }
}

/// The key code of a key name the harness knows (upper-cased), if any.
pub open spec fn named_key(upper: Seq<char>) -> Option<u16> {
    if upper == "LEFTCTRL"@ || upper == "CTRL"@ {
        Some(29u16)
    } else if upper == "LEFTALT"@ || upper == "ALT"@ {
        Some(56u16)
    } else if upper == "BACKSPACE"@ {
        Some(14u16)
    } else if upper == "ESC"@ || upper == "ESCAPE"@ {
        Some(1u16)
    } else if upper == "ENTER"@ {
        Some(28u16)
    } else if upper == "SPACE"@ {
        Some(57u16)
    } else if upper == "TAB"@ {
        Some(15u16)
    } else if upper == "LEFT"@ {
        Some(105u16)
    } else if upper == "RIGHT"@ {
        Some(106u16)
    } else if upper == "UP"@ {
        Some(103u16)
    } else if upper == "DOWN"@ {
        Some(108u16)
    } else if upper == "A"@ {
        Some(30u16)
    } else if upper == "B"@ {
        Some(48u16)
    } else if upper == "C"@ {
        Some(46u16)
    } else if upper == "D"@ {
        Some(32u16)
    } else if upper == "E"@ {
        Some(18u16)
    } else {
        None
    }
}

/// A key name (trimmed, case-insensitive) or a raw evdev code number.
pub open spec fn spec_parse_key(name: Seq<char>) -> Option<u16> {
    let upper = trim(name).map_values(|c: char| ascii_upper(c));
    match named_key(upper) {
        Some(code) => Some(code),
        None => match parse_int(upper, 0, u16::MAX as int) {
            Ok(code) => Some(code as u16),
            Err(_) => None,
        },
    }
}

/// A name that starts with a capital letter and holds no whitespace and no
/// lower-case letter parses only as a key name, never as a code number.
pub proof fn lemma_parse_key_of_name(s: Seq<char>)
    requires
        s.len() > 0,
        'A' <= s[0] <= 'Z',
        forall|k: int|
            0 <= k < s.len() ==> !is_whitespace(#[trigger] s[k]) && !('a' <= s[k] <= 'z'),
    ensures
        spec_parse_key(s) == named_key(s),
{
    assert(!is_whitespace(s.last()));
    assert(crate::text::trim_start(s) == s);
    assert(crate::text::trim_end(s) == s);
    let upper = trim(s).map_values(|c: char| ascii_upper(c));
    assert(upper =~= s);
    assert(!crate::text::is_digit(s[0]));
}

/// The raw evdev code escape hatch covers every code: any `u16` written in
/// decimal names that code (no key name is made of digits).
pub proof fn law_raw_code_names_itself(code: u16)
    ensures
        spec_parse_key(decimal(code as nat)) == Some(code),
{
    let s = decimal(code as nat);
    crate::text::lemma_decimal_digits(code as nat, 1);
    crate::text::lemma_parse_decimal(code as nat, 0, u16::MAX as int);
    assert(crate::text::is_digit(s[0]));
    assert(crate::text::is_digit(s.last()));
    assert(crate::text::trim_start(s) == s);
    assert(crate::text::trim_end(s) == s);
    let upper = trim(s).map_values(|c: char| ascii_upper(c));
    assert(upper =~= s);
    reveal_strlit("LEFTCTRL");
    reveal_strlit("CTRL");
    reveal_strlit("LEFTALT");
    reveal_strlit("ALT");
    reveal_strlit("BACKSPACE");
    reveal_strlit("ESC");
    reveal_strlit("ESCAPE");
    reveal_strlit("ENTER");
    reveal_strlit("SPACE");
    reveal_strlit("TAB");
    reveal_strlit("LEFT");
    reveal_strlit("RIGHT");
    reveal_strlit("UP");
    reveal_strlit("DOWN");
    reveal_strlit("A");
    reveal_strlit("B");
    reveal_strlit("C");
    reveal_strlit("D");
    reveal_strlit("E");
    assert(named_key(upper) is None);
}

/// Key names the harness needs, plus a raw evdev code escape hatch; `None`
/// for an unknown key.
pub fn parse_key(name: &str) -> (res: Option<u16>)
    ensures
        res == spec_parse_key(name@),
{
    let trimmed = trim_chars(&chars_of(name));
    let upper_chars = to_ascii_uppercase(&trimmed);
    let upper = string_from(&upper_chars);
    let u = upper.as_str();
    let named: u16 = if str_eq(u, "LEFTCTRL") || str_eq(u, "CTRL") {
        29
    } else if str_eq(u, "LEFTALT") || str_eq(u, "ALT") {
        56
    } else if str_eq(u, "BACKSPACE") {
        14
    } else if str_eq(u, "ESC") || str_eq(u, "ESCAPE") {
        1
    } else if str_eq(u, "ENTER") {
        28
    } else if str_eq(u, "SPACE") {
        57
    } else if str_eq(u, "TAB") {
        15
    } else if str_eq(u, "LEFT") {
        105
    } else if str_eq(u, "RIGHT") {
        106
    } else if str_eq(u, "UP") {
        103
    } else if str_eq(u, "DOWN") {
        108
    } else if str_eq(u, "A") {
        30
    } else if str_eq(u, "B") {
        48
    } else if str_eq(u, "C") {
        46
    } else if str_eq(u, "D") {
        32
    } else if str_eq(u, "E") {
        18
    } else {
        return match parse_unsigned(u, u16::MAX as u64) {
            Ok(code) => {
                proof {
                    crate::selfcheck::lemma_parse_int_bounds(u@, 0, u16::MAX as int);
                }
                Some(code as u16)
            },
            Err(_) => None,
        };
    };
    Some(named)
}

/// The length of the leading run of non-whitespace characters.
pub open spec fn word_len(s: Seq<char>) -> nat
    decreases s.len(),
{
    if s.len() == 0 || is_whitespace(s[0]) {
        0
    } else {
        1 + word_len(s.drop_first())
    }
}

/// A word is a run of non-whitespace characters ended by whitespace or the end.
pub proof fn lemma_word_len(s: Seq<char>)
    ensures
        word_len(s) <= s.len(),
        s.len() > 0 && !is_whitespace(s[0]) ==> word_len(s) >= 1,
        forall|k: int| 0 <= k < word_len(s) ==> !is_whitespace(#[trigger] s[k]),
        word_len(s) < s.len() ==> is_whitespace(s[word_len(s) as int]),
    decreases s.len(),
{
    if s.len() > 0 && !is_whitespace(s[0]) {
        lemma_word_len(s.drop_first());
        assert forall|k: int| 0 <= k < word_len(s) implies !is_whitespace(#[trigger] s[k]) by {
            if k > 0 {
                assert(s[k] == s.drop_first()[k - 1]);
            }
        }
    }
}

/// `str::split_whitespace`: the maximal runs of non-whitespace characters.
pub open spec fn words(s: Seq<char>) -> Seq<Seq<char>>
    decreases s.len(),
{
    if s.len() == 0 {
        Seq::empty()
    } else if is_whitespace(s[0]) {
        words(s.drop_first())
    } else {
        proof {
            lemma_word_len(s);
        }
        let n = word_len(s);
        if 1 <= n <= s.len() {
            seq![s.take(n as int)] + words(s.skip(n as int))
        } else {
            Seq::empty()
        }
    }
}

fn words_of(v: &Vec<char>) -> (res: Vec<Vec<char>>)
    ensures
        res@.map_values(|w: Vec<char>| w@) == words(v@),
{
    let mut res: Vec<Vec<char>> = Vec::new();
    let mut p: usize = 0;
    let n = v.len();
    assert(v@.skip(0) =~= v@);
    while p < n
        invariant
            n == v@.len(),
            p <= n,
            words(v@) == res@.map_values(|w: Vec<char>| w@) + words(v@.skip(p as int)),
        decreases n - p,
    {
        let ghost s = v@.skip(p as int);
        if crate::text::is_whitespace_exec(v[p]) {
            assert(s.drop_first() =~= v@.skip(p + 1));
            p = p + 1;
        } else {
            let mut q = p;
            while q < n && !crate::text::is_whitespace_exec(v[q])
                invariant
                    n == v@.len(),
                    p <= q <= n,
                    forall|k: int| p <= k < q ==> !is_whitespace(#[trigger] v@[k]),
                decreases n - q,
            {
                q = q + 1;
            }
            proof {
                lemma_word_len(s);
                let wl = word_len(s) as int;
                if wl < q - p {
                    assert(s[wl] == v@[p + wl]);
                }
                if wl > q - p {
                    assert(s[q - p] == v@[q as int]);
                }
                assert(wl == q - p);
            }
            let word = crate::text::slice_chars(v, p, q);
            let ghost before = res@.map_values(|w: Vec<char>| w@);
            res.push(word);
            proof {
                assert(word@ =~= s.take((q - p) as int));
                assert(s.skip((q - p) as int) =~= v@.skip(q as int));
                assert(res@.map_values(|w: Vec<char>| w@) =~= before.push(word@));
                assert(before + words(s) =~= res@.map_values(|w: Vec<char>| w@) + words(
                    v@.skip(q as int),
                ));
            }
            p = q;
        }
    }
    assert(v@.skip(n as int).len() == 0);
    assert(res@.map_values(|w: Vec<char>| w@) + Seq::<Seq<char>>::empty() =~= res@.map_values(
        |w: Vec<char>| w@,
    ));
    res
}

/// Why a command line could not be run.
#[derive(Debug, Clone, Copy, PartialEq, Eq)]
pub enum DispatchErrorKind {
    /// An argument is missing; the text says which.
    Expected,
    /// A key name the harness does not know; the text is the name as given.
    UnknownKey,
    /// A number did not parse.
    BadNumber(IntErrorKind),
    /// The command is not one of the harness's; the text is the command.
    UnknownCommand,
}

/// A refused command line: why, and the text that says what or where.
#[derive(Debug)]
pub struct DispatchError {
    pub kind: DispatchErrorKind,
    pub text: String,
}

/// What a command line does: the events to emit, batch by batch, and the
/// acknowledgement to print.
#[derive(Debug)]
pub struct Command {
    pub ack: String,
    pub batches: Vec<Vec<InputEvent>>,
}

/// The codes of every key of a chord, or the first name that is unknown.
pub open spec fn spec_parse_keys(names: Seq<Seq<char>>) -> Result<Seq<u16>, Seq<char>>
    decreases names.len(),
{
    if names.len() == 0 {
        Ok(Seq::empty())
    } else {
        match spec_parse_key(names[0]) {
            None => Err(names[0]),
            Some(code) => match spec_parse_keys(names.drop_first()) {
                Ok(rest) => Ok(seq![code] + rest),
                Err(e) => Err(e),
            },
        }
    }
}

/// A chord: every key down in order, sync, every key up in reverse order,
/// sync.
pub open spec fn chord_events(codes: Seq<u16>) -> Seq<InputEvent> {
    codes.map_values(|c: u16| InputEvent { kind: EV_KEY, code: c, value: 1 }) + seq![
        InputEvent { kind: EV_SYN, code: SYN_REPORT, value: 0 },
    ] + codes.reverse().map_values(|c: u16| InputEvent { kind: EV_KEY, code: c, value: 0 })
        + seq![InputEvent { kind: EV_SYN, code: SYN_REPORT, value: 0 }]
}

/// An `i32` in decimal, with a `-` when negative.
pub open spec fn signed_decimal(v: int) -> Seq<char> {
    if v < 0 {
        "-"@ + decimal((-v) as nat)
    } else {
        decimal(v as nat)
    }
}

/// A command as sequences: the acknowledgement and the event batches, or the error.
pub type CommandView = Result<(Seq<char>, Seq<Seq<InputEvent>>), (DispatchErrorKind, Seq<char>)>;

/// A missing argument.
pub open spec fn expected(text: Seq<char>) -> CommandView {
    Err((DispatchErrorKind::Expected, text))
}

/// A number that did not parse.
pub open spec fn bad_number(e: IntErrorKind) -> CommandView {
    Err((DispatchErrorKind::BadNumber(e), Seq::empty()))
}

/// Two `i32` arguments at word positions 1 and 2, or the first problem.
pub open spec fn two_numbers(w: Seq<Seq<char>>, first: Seq<char>, second: Seq<char>) -> Result<
    (int, int),
    CommandView,
> {
    if w.len() < 2 {
        Err(expected(first))
    } else {
        match parse_int(w[1], i32::MIN as int, i32::MAX as int) {
            Err(e) => Err(bad_number(e)),
            Ok(a) => if w.len() < 3 {
                Err(expected(second))
            } else {
                match parse_int(w[2], i32::MIN as int, i32::MAX as int) {
                    Err(e) => Err(bad_number(e)),
                    Ok(b) => Ok((a, b)),
                }
            },
        }
    }
}

/// What a command line does, by its first word.
pub open spec fn spec_dispatch(line: Seq<char>) -> CommandView {
    let w = words(line);
    let command = if w.len() > 0 {
        w[0]
    } else {
        Seq::empty()
    };
    if command == "key"@ || command == "tap"@ {
        if w.len() < 2 {
            expected("expected <NAME>[+<NAME>...]"@)
        } else {
            match spec_parse_keys(split(w[1], '+')) {
                Err(name) => Err((DispatchErrorKind::UnknownKey, name)),
                Ok(codes) => Ok((command + " "@ + w[1], seq![chord_events(codes)])),
            }
        }
    } else if command == "press"@ || command == "release"@ {
        if w.len() < 2 {
            expected("expected <NAME>"@)
        } else {
            match spec_parse_key(w[1]) {
                None => Err((DispatchErrorKind::UnknownKey, w[1])),
                Some(code) => Ok(
                    (
                        command + " "@ + w[1],
                        seq![
                            seq![
                                InputEvent {
                                    kind: EV_KEY,
                                    code,
                                    value: if command == "press"@ {
                                        1i32
                                    } else {
                                        0i32
                                    },
                                },
                                InputEvent { kind: EV_SYN, code: SYN_REPORT, value: 0 },
                            ],
                        ],
                    ),
                ),
            }
        }
    } else if command == "move"@ {
        match two_numbers(w, "expected <dx>"@, "expected <dy>"@) {
            Err(e) => e,
            Ok((dx, dy)) => Ok(
                (
                    "move "@ + signed_decimal(dx) + " "@ + signed_decimal(dy),
                    seq![
                        seq![
                            InputEvent { kind: EV_REL, code: REL_X, value: dx as i32 },
                            InputEvent { kind: EV_REL, code: REL_Y, value: dy as i32 },
                            InputEvent { kind: EV_SYN, code: SYN_REPORT, value: 0 },
                        ],
                    ],
                ),
            ),
        }
    } else if command == "click"@ {
        Ok(
            (
                "click"@,
                seq![
                    seq![
                        InputEvent { kind: EV_KEY, code: BTN_LEFT, value: 1 },
                        InputEvent { kind: EV_SYN, code: SYN_REPORT, value: 0 },
                        InputEvent { kind: EV_KEY, code: BTN_LEFT, value: 0 },
                        InputEvent { kind: EV_SYN, code: SYN_REPORT, value: 0 },
                    ],
                ],
            ),
        )
    } else if command == "touch"@ {
        match two_numbers(w, "expected <x>"@, "expected <y>"@) {
            Err(e) => e,
            Ok((x, y)) => Ok(
                (
                    "touch "@ + signed_decimal(x) + " "@ + signed_decimal(y),
                    seq![
                        seq![
                            InputEvent { kind: EV_ABS, code: ABS_X, value: x as i32 },
                            InputEvent { kind: EV_ABS, code: ABS_Y, value: y as i32 },
                            InputEvent { kind: EV_KEY, code: BTN_TOUCH, value: 1 },
                            InputEvent { kind: EV_SYN, code: SYN_REPORT, value: 0 },
                        ],
                        seq![
                            InputEvent { kind: EV_KEY, code: BTN_TOUCH, value: 0 },
                            InputEvent { kind: EV_SYN, code: SYN_REPORT, value: 0 },
                        ],
                    ],
                ),
            ),
        }
    } else if command == "quit"@ {
        Ok(("quit"@, Seq::empty()))
    } else {
        Err((DispatchErrorKind::UnknownCommand, command))
    }
}

/// The view of a dispatch result.
pub open spec fn command_view(r: Result<Command, DispatchError>) -> CommandView {
    match r {
        Ok(c) => Ok((c.ack@, c.batches@.map_values(|b: Vec<InputEvent>| b@))),
        Err(e) => Err((e.kind, e.text@)),
    }
}

fn push_signed(out: &mut String, v: i32)
    ensures
        final(out)@ == old(out)@ + signed_decimal(v as int),
{
    if v < 0 {
        push_char(out, '-');
        let magnitude = (0 - (v as i64)) as u64;
        let d = decimal_string(magnitude);
        push_str(out, d.as_str());
        proof {
            reveal_strlit("-");
        }
    } else {
        let d = decimal_string(v as u64);
        push_str(out, d.as_str());
    }
}

fn err(kind: DispatchErrorKind, text: &str) -> (res: Result<Command, DispatchError>)
    ensures
        command_view(res) == Err::<(Seq<char>, Seq<Seq<InputEvent>>), (DispatchErrorKind, Seq<char>)>(
            (kind, text@),
        ),
{
    Err(DispatchError { kind, text: String::from_str(text) })
}

fn parse_i32_word(word: &Vec<char>) -> (res: Result<i32, IntErrorKind>)
    ensures
        crate::text::widen_i32(res) == parse_int(word@, i32::MIN as int, i32::MAX as int),
{
    let s = string_from(word);
    crate::text::parse_i32(s.as_str())
}

fn parse_keys(names: &Vec<Vec<char>>) -> (res: Result<Vec<u16>, String>)
    ensures
        match spec_parse_keys(names@.map_values(|n: Vec<char>| n@)) {
            Ok(codes) => res matches Ok(c) && c@ == codes,
            Err(name) => res matches Err(n) && n@ == name,
        },
{
    let ghost all = names@.map_values(|n: Vec<char>| n@);
    let mut codes: Vec<u16> = Vec::new();
    let mut i: usize = 0;
    assert(all.skip(0) =~= all);
    while i < names.len()
        invariant
            all == names@.map_values(|n: Vec<char>| n@),
            i <= names@.len(),
            spec_parse_keys(all) == match spec_parse_keys(all.skip(i as int)) {
                Ok(rest) => Ok(codes@ + rest),
                Err(e) => Err(e),
            },
        decreases names@.len() - i,
    {
        let name = string_from(&names[i]);
        assert(all.skip(i as int)[0] == names@[i as int]@);
        assert(all.skip(i as int).drop_first() =~= all.skip(i + 1));
        match parse_key(name.as_str()) {
            None => {
                return Err(name);
            },
            Some(code) => {
                let ghost before = codes@;
                codes.push(code);
                proof {
                    match spec_parse_keys(all.skip(i + 1)) {
                        Ok(rest) => {
                            assert(codes@ + rest =~= before + (seq![code] + rest));
                        },
                        Err(e) => {},
                    }
                }
            },
        }
        i = i + 1;
    }
    assert(all.skip(i as int).len() == 0);
    assert(codes@ + Seq::<u16>::empty() =~= codes@);
    Ok(codes)
}

fn chord(codes: &Vec<u16>) -> (res: Vec<InputEvent>)
    ensures
        res@ == chord_events(codes@),
{
    let mut events: Vec<InputEvent> = Vec::new();
    let mut i: usize = 0;
    while i < codes.len()
        invariant
            i <= codes@.len(),
            events@ == codes@.take(i as int).map_values(
                |c: u16| InputEvent { kind: EV_KEY, code: c, value: 1 },
            ),
        decreases codes@.len() - i,
    {
        events.push(key_event(codes[i], 1));
        i = i + 1;
        assert(events@ =~= codes@.take(i as int).map_values(
            |c: u16| InputEvent { kind: EV_KEY, code: c, value: 1 },
        ));
    }
    assert(codes@.take(codes@.len() as int) =~= codes@);
    events.push(syn());
    let ghost pressed = events@;
    let mut j: usize = codes.len();
    while j > 0
        invariant
            j <= codes@.len(),
            events@ == pressed + codes@.reverse().take(codes@.len() - j).map_values(
                |c: u16| InputEvent { kind: EV_KEY, code: c, value: 0 },
            ),
        decreases j,
    {
        j = j - 1;
        events.push(key_event(codes[j], 0));
        proof {
            let r = codes@.reverse();
            assert(r[codes@.len() - 1 - j] == codes@[j as int]);
            assert(r.take(codes@.len() - j) =~= r.take(codes@.len() - j - 1).push(codes@[j as int]));
        }
        assert(events@ =~= pressed + codes@.reverse().take(codes@.len() - j).map_values(
            |c: u16| InputEvent { kind: EV_KEY, code: c, value: 0 },
        ));
    }
    assert(codes@.reverse().take(codes@.len() as int) =~= codes@.reverse());
    events.push(syn());
    events
}

fn number_pair(
    w: &Vec<Vec<char>>,
    first: &str,
    second: &str,
) -> (res: Result<(i32, i32), Result<Command, DispatchError>>)
    ensures
        match two_numbers(w@.map_values(|x: Vec<char>| x@), first@, second@) {
            Ok((a, b)) => res matches Ok(p) && p.0 == a && p.1 == b,
            Err(e) => res matches Err(r) && command_view(r) == e,
        },
{
    proof {
        reveal_strlit("");
        assert(""@ =~= Seq::<char>::empty());
    }
    let ghost all = w@.map_values(|x: Vec<char>| x@);
    if w.len() < 2 {
        return Err(err(DispatchErrorKind::Expected, first));
    }
    assert(all[1] == w@[1]@);
    let a = match parse_i32_word(&w[1]) {
        Ok(a) => a,
        Err(e) => {
            return Err(err(DispatchErrorKind::BadNumber(e), ""));
        },
    };
    if w.len() < 3 {
        return Err(err(DispatchErrorKind::Expected, second));
    }
    assert(all[2] == w@[2]@);
    let b = match parse_i32_word(&w[2]) {
        Ok(b) => b,
        Err(e) => {
            return Err(err(DispatchErrorKind::BadNumber(e), ""));
        },
    };
    Ok((a, b))
}

/// Turn one command line into the events it injects and its
/// acknowledgement, as `spec_dispatch` describes.
pub fn dispatch(line: &str) -> (res: Result<Command, DispatchError>)
    ensures
        command_view(res) == spec_dispatch(line@),
{
    proof {
        reveal_strlit("");
        assert(""@ =~= Seq::<char>::empty());
    }
    let w = words_of(&chars_of(line));
    let ghost all = w@.map_values(|x: Vec<char>| x@);
    let command: String = if w.len() > 0 {
        string_from(&w[0])
    } else {
        String::new()
    };
    proof {
        if w@.len() > 0 {
            assert(all[0] == w@[0]@);
        }
        if w@.len() > 1 {
            assert(all[1] == w@[1]@);
        }
    }
    let c = command.as_str();
    if str_eq(c, "key") || str_eq(c, "tap") {
        if w.len() < 2 {
            return err(DispatchErrorKind::Expected, "expected <NAME>[+<NAME>...]");
        }
        let chord_text = string_from(&w[1]);
        let parts = split_chars(&w[1], '+');
        match parse_keys(&parts) {
            Err(name) => Err(DispatchError { kind: DispatchErrorKind::UnknownKey, text: name }),
            Ok(codes) => {
                let events = chord(&codes);
                let mut ack = command.clone();
                push_str(&mut ack, " ");
                push_str(&mut ack, chord_text.as_str());
                let mut batches: Vec<Vec<InputEvent>> = Vec::new();
                batches.push(events);
                assert(batches@.map_values(|b: Vec<InputEvent>| b@) =~~= seq![chord_events(codes@)]);
                Ok(Command { ack, batches })
            },
        }
    } else if str_eq(c, "press") || str_eq(c, "release") {
        if w.len() < 2 {
            return err(DispatchErrorKind::Expected, "expected <NAME>");
        }
        let name = string_from(&w[1]);
        match parse_key(name.as_str()) {
            None => Err(DispatchError { kind: DispatchErrorKind::UnknownKey, text: name }),
            Some(code) => {
                let value: i32 = if str_eq(c, "press") {
                    1
                } else {
                    0
                };
                let mut batch: Vec<InputEvent> = Vec::new();
                batch.push(key_event(code, value));
                batch.push(syn());
                let mut batches: Vec<Vec<InputEvent>> = Vec::new();
                batches.push(batch);
                let mut ack = command.clone();
                push_str(&mut ack, " ");
                push_str(&mut ack, name.as_str());
                assert(batches@.map_values(|b: Vec<InputEvent>| b@) =~~= seq![
                    seq![
                        InputEvent { kind: EV_KEY, code, value },
                        InputEvent { kind: EV_SYN, code: SYN_REPORT, value: 0 },
                    ],
                ]);
                Ok(Command { ack, batches })
            },
        }
    } else if str_eq(c, "move") {
        let (dx, dy) = match number_pair(&w, "expected <dx>", "expected <dy>") {
            Ok(p) => p,
            Err(r) => {
                return r;
            },
        };
        let mut ack = String::from_str("move ");
        push_signed(&mut ack, dx);
        push_str(&mut ack, " ");
        push_signed(&mut ack, dy);
        let mut batch: Vec<InputEvent> = Vec::new();
        batch.push(rel_event(REL_X, dx));
        batch.push(rel_event(REL_Y, dy));
        batch.push(syn());
        let mut batches: Vec<Vec<InputEvent>> = Vec::new();
        batches.push(batch);
        assert(batches@.map_values(|b: Vec<InputEvent>| b@) =~~= seq![
            seq![
                InputEvent { kind: EV_REL, code: REL_X, value: dx },
                InputEvent { kind: EV_REL, code: REL_Y, value: dy },
                InputEvent { kind: EV_SYN, code: SYN_REPORT, value: 0 },
            ],
        ]);
        Ok(Command { ack, batches })
    } else if str_eq(c, "click") {
        let mut batch: Vec<InputEvent> = Vec::new();
        batch.push(key_event(BTN_LEFT, 1));
        batch.push(syn());
        batch.push(key_event(BTN_LEFT, 0));
        batch.push(syn());
        let mut batches: Vec<Vec<InputEvent>> = Vec::new();
        batches.push(batch);
        assert(batches@.map_values(|b: Vec<InputEvent>| b@) =~~= seq![
            seq![
                InputEvent { kind: EV_KEY, code: BTN_LEFT, value: 1 },
                InputEvent { kind: EV_SYN, code: SYN_REPORT, value: 0 },
                InputEvent { kind: EV_KEY, code: BTN_LEFT, value: 0 },
                InputEvent { kind: EV_SYN, code: SYN_REPORT, value: 0 },
            ],
        ]);
        Ok(Command { ack: String::from_str("click"), batches })
    } else if str_eq(c, "touch") {
        let (x, y) = match number_pair(&w, "expected <x>", "expected <y>") {
            Ok(p) => p,
            Err(r) => {
                return r;
            },
        };
        let mut ack = String::from_str("touch ");
        push_signed(&mut ack, x);
        push_str(&mut ack, " ");
        push_signed(&mut ack, y);
        let mut down: Vec<InputEvent> = Vec::new();
        down.push(abs_event(ABS_X, x));
        down.push(abs_event(ABS_Y, y));
        down.push(key_event(BTN_TOUCH, 1));
        down.push(syn());
        let mut up: Vec<InputEvent> = Vec::new();
        up.push(key_event(BTN_TOUCH, 0));
        up.push(syn());
        let mut batches: Vec<Vec<InputEvent>> = Vec::new();
        batches.push(down);
        batches.push(up);
        assert(batches@.map_values(|b: Vec<InputEvent>| b@) =~~= seq![
            seq![
                InputEvent { kind: EV_ABS, code: ABS_X, value: x },
                InputEvent { kind: EV_ABS, code: ABS_Y, value: y },
                InputEvent { kind: EV_KEY, code: BTN_TOUCH, value: 1 },
                InputEvent { kind: EV_SYN, code: SYN_REPORT, value: 0 },
            ],
            seq![
                InputEvent { kind: EV_KEY, code: BTN_TOUCH, value: 0 },
                InputEvent { kind: EV_SYN, code: SYN_REPORT, value: 0 },
            ],
        ]);
        Ok(Command { ack, batches })
    } else if str_eq(c, "quit") {
        let batches: Vec<Vec<InputEvent>> = Vec::new();
        assert(batches@.map_values(|b: Vec<InputEvent>| b@) =~= Seq::<Seq<InputEvent>>::empty());
        Ok(Command { ack: String::from_str("quit"), batches })
    } else {
        Err(DispatchError { kind: DispatchErrorKind::UnknownCommand, text: command })
    }
}

/// `str::split` on one character, on a character vector.
pub fn split_chars(v: &Vec<char>, sep: char) -> (res: Vec<Vec<char>>)
    ensures
        res@.map_values(|p: Vec<char>| p@) == split(v@, sep),
{
    let seps: Vec<char> = vec![sep];
    assert(seps@ =~= seq![sep]);
    let mut parts: Vec<Vec<char>> = Vec::new();
    let n = v.len();
    let mut p: usize = 0;
    assert(v@.skip(0) =~= v@);
    loop
        invariant
            n == v@.len(),
            p <= n,
            seps@ == seq![sep],
            split(v@, sep) == parts@.map_values(|p: Vec<char>| p@) + split(v@.skip(p as int), sep),
        decreases n - p,
    {
        let found = crate::text::find_first(v, p, n, &seps);
        assert(v@.subrange(p as int, n as int) =~= v@.skip(p as int));
        let ghost s = v@.skip(p as int);
        let ghost before = parts@.map_values(|p: Vec<char>| p@);
        match found {
            None => {
                let part = crate::text::slice_chars(v, p, n);
                parts.push(part);
                proof {
                    assert(part@ =~= s);
                    assert(split(s, sep) == seq![s]);
                    assert(parts@.map_values(|p: Vec<char>| p@) =~= before.push(s));
                }
                return parts;
            },
            Some(i) => {
                let part = crate::text::slice_chars(v, p, i);
                parts.push(part);
                proof {
                    crate::text::lemma_first_index(s, seq![sep]);
                    assert(part@ =~= s.take(i - p));
                    assert(s.skip(i - p + 1) =~= v@.skip(i + 1));
                    assert(split(s, sep) == seq![s.take(i - p)] + split(s.skip(i - p + 1), sep));
                    assert(parts@.map_values(|p: Vec<char>| p@) =~= before.push(part@));
                    assert(before + split(s, sep) =~= parts@.map_values(|p: Vec<char>| p@) + split(
                        v@.skip(i + 1),
                        sep,
                    ));
                }
                p = i + 1;
            },
        }
    }
}

/// The capabilities a virtual device declares; they decide how the daemon
/// classifies it (a keyboard needs a code in 1..=57, a mouse REL_X + REL_Y
/// and a mouse button, a touchscreen ABS_X + ABS_Y).
#[derive(Debug)]
pub struct Capabilities {
    pub keys: Vec<u16>,
    pub relative_axes: Vec<u16>,
    /// Absolute axes, each with the range `0..=abs_max`.
    pub absolute_axes: Vec<u16>,
    pub abs_max: i32,
}

/// The keys a virtual keyboard declares: those the harness can name.
pub open spec fn keyboard_keys() -> Seq<u16> {
    seq![1u16, 14, 28, 57, 29, 56, 15, 105, 106, 103, 108, 30, 48, 46, 32, 18]
}

/// The capabilities of a `keyboard`, `mouse` or `touch` device; `None` for
/// any other kind.
pub fn capabilities(kind: &str) -> (res: Option<Capabilities>)
    ensures
        kind@ == "keyboard"@ ==> (res matches Some(c) && c.keys@ == keyboard_keys()
            && c.relative_axes@.len() == 0 && c.absolute_axes@.len() == 0 && c.abs_max == 0),
        kind@ == "mouse"@ ==> (res matches Some(c) && c.keys@ == seq![BTN_LEFT, BTN_RIGHT]
            && c.relative_axes@ == seq![REL_X, REL_Y] && c.absolute_axes@.len() == 0
            && c.abs_max == 0),
        kind@ == "touch"@ ==> (res matches Some(c) && c.keys@ == seq![BTN_TOUCH]
            && c.relative_axes@.len() == 0 && c.absolute_axes@ == seq![ABS_X, ABS_Y] && c.abs_max
            == 4095),
        kind@ != "keyboard"@ && kind@ != "mouse"@ && kind@ != "touch"@ ==> res is None,
{
    proof {
        reveal_strlit("keyboard");
        reveal_strlit("mouse");
        reveal_strlit("touch");
        assert("keyboard"@.len() != "mouse"@.len());
        assert("keyboard"@.len() != "touch"@.len());
        assert("mouse"@[0] != "touch"@[0]);
    }
    if str_eq(kind, "keyboard") {
        let keys: Vec<u16> = vec![1, 14, 28, 57, 29, 56, 15, 105, 106, 103, 108, 30, 48, 46, 32, 18];
        assert(keys@ =~= keyboard_keys());
        Some(Capabilities { keys, relative_axes: Vec::new(), absolute_axes: Vec::new(), abs_max: 0 })
    } else if str_eq(kind, "mouse") {
        let keys: Vec<u16> = vec![BTN_LEFT, BTN_RIGHT];
        let rel: Vec<u16> = vec![REL_X, REL_Y];
        assert(keys@ =~= seq![BTN_LEFT, BTN_RIGHT]);
        assert(rel@ =~= seq![REL_X, REL_Y]);
        Some(Capabilities { keys, relative_axes: rel, absolute_axes: Vec::new(), abs_max: 0 })
    } else if str_eq(kind, "touch") {
        let keys: Vec<u16> = vec![BTN_TOUCH];
        let abs: Vec<u16> = vec![ABS_X, ABS_Y];
        assert(keys@ =~= seq![BTN_TOUCH]);
        assert(abs@ =~= seq![ABS_X, ABS_Y]);
        Some(Capabilities { keys, relative_axes: Vec::new(), absolute_axes: abs, abs_max: 4095 })
    } else {
        None
    }
}

/// The device name used when none is given: `sgc-virtual-<kind>`.
pub fn default_device_name(kind: &str) -> (res: String)
    ensures
        res@ == "sgc-virtual-"@ + kind@,
{
    let mut res = String::from_str("sgc-virtual-");
    push_str(&mut res, kind);
    res
}

} // verus!

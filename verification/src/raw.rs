//! The IR remote test screen's optional raw-evdev read-back: which node to
//! read, how an event record decodes, and the footer line naming the layers.

use vstd::prelude::*;
use crate::config::strings_view;
use crate::selfcheck::position;
use crate::text::{chars_of, contains, contains_chars, starts_with, starts_with_chars, string_from, trim, trim_chars, push_str};

verus! {

/// Bytes in one `struct input_event` on 64-bit Linux: timeval(16) + type(2) +
/// code(2) + value(4).
pub const EVENT_LEN: usize = 24;

/// The event type of a key event.
pub const EV_KEY: u16 = 1;

/// What to read: nothing, the auto-detected IR receiver, or a named node.
#[derive(Debug)]
pub enum Mode {
    Off,
    Auto,
    Device(String),
}

/// One key event read from the device.
#[derive(Debug, Clone, Copy, PartialEq, Eq)]
pub struct RawKey {
    pub code: u16,
    pub value: i32,
}

impl Mode {
    /// `--raw` (auto-detect) or `--raw <path-or-name-fragment>`: the argument
    /// after the first `--raw`, unless there is none or it starts with `-`.
    pub fn from_args(args: &[String]) -> (res: Self)
        ensures
            match position(strings_view(args@), "--raw"@) {
                None => res is Off,
                Some(i) => if i + 1 < args@.len() && !starts_with(args@[i + 1]@, "-"@) {
                    res matches Mode::Device(v) && v@ == args@[i + 1]@
                } else {
                    res is Auto
                },
            },
    {
        let flag = match crate::selfcheck::position_of(args, "--raw") {
            None => return Mode::Off,
            Some(i) => i,
        };
        if args.len() - flag > 1 {
            let value = chars_of(args[flag + 1].as_str());
            let dash = chars_of("-");
            if !starts_with_chars(&value, &dash) {
                return Mode::Device(args[flag + 1].clone());
            }
        }
        Mode::Auto
    }
}

/// A little-endian `u16`.
pub open spec fn le_u16(lo: u8, hi: u8) -> int {
    lo + 256 * hi
}

/// A little-endian two's-complement `i32`.
pub open spec fn le_i32(b0: u8, b1: u8, b2: u8, b3: u8) -> int {
    let u = b0 + 256 * b1 + 65536 * b2 + 16777216 * b3;
    if u >= 0x8000_0000 {
        u - 0x1_0000_0000
    } else {
        u
    }
}

/// The key event of one `struct input_event` record, if it is one: type at
/// bytes 16..18, code at 18..20, value at 20..24, all little-endian.
pub open spec fn spec_decode(buf: Seq<u8>) -> Option<(int, int)> {
    if le_u16(buf[16], buf[17]) != EV_KEY {
        None
    } else {
        Some((le_u16(buf[18], buf[19]), le_i32(buf[20], buf[21], buf[22], buf[23])))
    }
}

/// Decode one event record; only key events yield a key.
pub fn decode_event(buf: &[u8]) -> (res: Option<RawKey>)
    requires
        buf@.len() == EVENT_LEN,
    ensures
        match spec_decode(buf@) {
            None => res is None,
            Some((code, value)) => res matches Some(k) && k.code == code && k.value == value,
        },
{
    let kind: u16 = buf[16] as u16 + 256 * buf[17] as u16;
    if kind != EV_KEY {
        return None;
    }
    let code: u16 = buf[18] as u16 + 256 * buf[19] as u16;
    let u: u32 = buf[20] as u32 + 256 * buf[21] as u32 + 65536 * buf[22] as u32 + 16777216
        * buf[23] as u32;
    let value: i32 = if u >= 0x8000_0000 {
        let neg: i64 = u as i64 - 0x1_0000_0000;
        neg as i32
    } else {
        u as i32
    };
    Some(RawKey { code, value })
}

/// The timestamp is never read: two records that agree from byte 16 on (type,
/// code and value) decode to the same key, or both to none.
pub proof fn law_decode_ignores_timestamp(a: Seq<u8>, b: Seq<u8>)
    requires
        a.len() == EVENT_LEN,
        b.len() == EVENT_LEN,
        a.subrange(16, 24) == b.subrange(16, 24),
    ensures
        spec_decode(a) == spec_decode(b),
{
    assert forall|k: int| 16 <= k < 24 implies a[k] == b[k] by {
        assert(a[k] == a.subrange(16, 24)[k - 16]);
        assert(b[k] == b.subrange(16, 24)[k - 16]);
    }
}

/// The `/dev/input` node of the first event device (among `(file name,
/// device name)` pairs) whose trimmed name contains `wanted`; entries that are
/// not `event*` nodes are skipped.
pub open spec fn spec_find(entries: Seq<(Seq<char>, Seq<char>)>, wanted: Seq<char>) -> Result<
    Seq<char>,
    Seq<Seq<char>>,
>
    decreases entries.len(),
{
    if entries.len() == 0 {
        Err(Seq::empty())
    } else {
        let (node, name) = entries[0];
        if !starts_with(node, "event"@) {
            spec_find(entries.drop_first(), wanted)
        } else if contains(trim(name), wanted) {
            Ok("/dev/input/"@ + node)
        } else {
            match spec_find(entries.drop_first(), wanted) {
                Ok(p) => Ok(p),
                Err(seen) => Err(seq![node + " = "@ + trim(name)] + seen),
            }
        }
    }
}

/// The search returns the `/dev/input` path of the first `event*` entry whose
/// trimmed device name contains the fragment anywhere.
pub proof fn law_find_first_match(entries: Seq<(Seq<char>, Seq<char>)>, wanted: Seq<char>, j: int)
    requires
        0 <= j < entries.len(),
        starts_with(entries[j].0, "event"@),
        contains(trim(entries[j].1), wanted),
        forall|k: int|
            0 <= k < j ==> !(starts_with(#[trigger] entries[k].0, "event"@) && contains(
                trim(entries[k].1),
                wanted,
            )),
    ensures
        spec_find(entries, wanted) == Ok::<Seq<char>, Seq<Seq<char>>>("/dev/input/"@ + entries[j].0),
    decreases j,
{
    if j > 0 {
        let rest = entries.drop_first();
        assert(!(starts_with(entries[0].0, "event"@) && contains(trim(entries[0].1), wanted)));
        assert forall|k: int| 0 <= k < j - 1 implies !(starts_with(#[trigger] rest[k].0, "event"@)
            && contains(trim(rest[k].1), wanted)) by {
            assert(rest[k] == entries[k + 1]);
        }
        assert(rest[j - 1] == entries[j]);
        law_find_first_match(rest, wanted, j - 1);
    }
}

/// When no `event*` entry's trimmed device name contains the fragment, the
/// search finds nothing.
pub proof fn law_find_no_match(entries: Seq<(Seq<char>, Seq<char>)>, wanted: Seq<char>)
    requires
        forall|k: int|
            0 <= k < entries.len() ==> !(starts_with(#[trigger] entries[k].0, "event"@) && contains(
                trim(entries[k].1),
                wanted,
            )),
    ensures
        spec_find(entries, wanted) is Err,
    decreases entries.len(),
{
    if entries.len() > 0 {
        let rest = entries.drop_first();
        assert(!(starts_with(entries[0].0, "event"@) && contains(trim(entries[0].1), wanted)));
        assert forall|k: int| 0 <= k < rest.len() implies !(starts_with(#[trigger] rest[k].0, "event"@)
            && contains(trim(rest[k].1), wanted)) by {
            assert(rest[k] == entries[k + 1]);
        }
        law_find_no_match(rest, wanted);
    }
}

/// `(file name, device name)` pairs as character sequences.
pub open spec fn pairs_view(v: Seq<(String, String)>) -> Seq<(Seq<char>, Seq<char>)> {
    v.map_values(|e: (String, String)| (e.0@, e.1@))
}

/// What `find_in` returns, in terms of the entries: the first `event*`
/// entry whose trimmed name contains the fragment, or nothing.
proof fn lemma_find_meaning(entries: Seq<(String, String)>, wanted: Seq<char>)
    ensures
        forall|j: int|
            0 <= j < entries.len() && starts_with(#[trigger] entries[j].0@, "event"@) && contains(
                trim(entries[j].1@),
                wanted,
            ) && (forall|k: int|
                0 <= k < j ==> !(starts_with(#[trigger] entries[k].0@, "event"@) && contains(
                    trim(entries[k].1@),
                    wanted,
                ))) ==> spec_find(pairs_view(entries), wanted) == Ok::<Seq<char>, Seq<Seq<char>>>(
                "/dev/input/"@ + entries[j].0@,
            ),
        (forall|k: int|
            0 <= k < entries.len() ==> !(starts_with(#[trigger] entries[k].0@, "event"@) && contains(
                trim(entries[k].1@),
                wanted,
            ))) ==> spec_find(pairs_view(entries), wanted) is Err,
{
        let all = pairs_view(entries);
        assert forall|k: int| 0 <= k < entries.len() implies #[trigger] all[k] == (
            entries[k].0@,
            entries[k].1@,
        ) by {}
        assert forall|j: int|
            0 <= j < entries.len() && starts_with(#[trigger] entries[j].0@, "event"@) && contains(
                trim(entries[j].1@),
                wanted,
            ) && (forall|k: int|
                0 <= k < j ==> !(starts_with(#[trigger] entries[k].0@, "event"@) && contains(
                    trim(entries[k].1@),
                    wanted,
                ))) implies spec_find(all, wanted) == Ok::<Seq<char>, Seq<Seq<char>>>(
            "/dev/input/"@ + entries[j].0@,
        ) by {
            assert(all[j] == (entries[j].0@, entries[j].1@));
            assert forall|k: int| 0 <= k < j implies !(starts_with(#[trigger] all[k].0, "event"@)
                && contains(trim(all[k].1), wanted)) by {
                assert(all[k] == (entries[k].0@, entries[k].1@));
            }
            law_find_first_match(all, wanted, j);
        }
        if forall|k: int|
            0 <= k < entries.len() ==> !(starts_with(#[trigger] entries[k].0@, "event"@) && contains(
                trim(entries[k].1@),
                wanted,
            )) {
            assert forall|k: int| 0 <= k < all.len() implies !(starts_with(#[trigger] all[k].0, "event"@)
                && contains(trim(all[k].1), wanted)) by {
                assert(all[k] == (entries[k].0@, entries[k].1@));
            }
            law_find_no_match(all, wanted);
        }
    }

/// Find an event node by a fragment of its device name: the node's path, or
/// the `<node> = <name>` list of the event devices seen.
pub fn find_in(entries: &Vec<(String, String)>, wanted: &str) -> (res: Result<String, Vec<String>>)
    ensures
        match spec_find(pairs_view(entries@), wanted@) {
            Ok(p) => res matches Ok(r) && r@ == p,
            Err(seen) => res matches Err(s) && strings_view(s@) == seen,
        },
        forall|j: int|
            0 <= j < entries@.len() && starts_with(#[trigger] entries@[j].0@, "event"@) && contains(
                trim(entries@[j].1@),
                wanted@,
            ) && (forall|k: int|
                0 <= k < j ==> !(starts_with(#[trigger] entries@[k].0@, "event"@) && contains(
                    trim(entries@[k].1@),
                    wanted@,
                ))) ==> (res matches Ok(r) && r@ == "/dev/input/"@ + entries@[j].0@),
        (forall|k: int|
            0 <= k < entries@.len() ==> !(starts_with(#[trigger] entries@[k].0@, "event"@) && contains(
                trim(entries@[k].1@),
                wanted@,
            ))) ==> res is Err,
{
    let ghost all = pairs_view(entries@);
    let want = chars_of(wanted);
    let prefix = chars_of("event");
    let mut seen: Vec<String> = Vec::new();
    let mut i: usize = 0;
    assert(all.skip(0) =~= all);
    while i < entries.len()
        invariant
            all == pairs_view(entries@),
            want@ == wanted@,
            prefix@ == "event"@,
            i <= entries@.len(),
            spec_find(all, wanted@) == match spec_find(all.skip(i as int), wanted@) {
                Ok(p) => Ok(p),
                Err(rest) => Err(strings_view(seen@) + rest),
            },
        decreases entries@.len() - i,
    {
        let node = chars_of(entries[i].0.as_str());
        let ghost s = all.skip(i as int);
        assert(s[0] == (entries@[i as int].0@, entries@[i as int].1@));
        assert(s.drop_first() =~= all.skip(i + 1));
        if starts_with_chars(&node, &prefix) {
            let raw_name = chars_of(entries[i].1.as_str());
            let name = trim_chars(&raw_name);
            if contains_chars(&name, &want) {
                let mut path = String::from_str("/dev/input/");
                push_str(&mut path, entries[i].0.as_str());
                proof {
                    lemma_find_meaning(entries@, wanted@);
                }
                return Ok(path);
            }
            let mut line = string_from(&node);
            push_str(&mut line, " = ");
            let name_text = string_from(&name);
            push_str(&mut line, name_text.as_str());
            let ghost before = seen@;
            seen.push(line);
            proof {
                match spec_find(all.skip(i + 1), wanted@) {
                    Ok(p) => {},
                    Err(rest) => {
                        assert(strings_view(seen@) =~= strings_view(before).push(line@));
                        assert(strings_view(before) + (seq![line@] + rest) =~= strings_view(seen@)
                            + rest);
                    },
                }
            }
        }
        i = i + 1;
    }
    assert(all.skip(i as int).len() == 0);
    assert(strings_view(seen@) + Seq::<Seq<char>>::empty() =~= strings_view(seen@));
    proof {
        lemma_find_meaning(entries@, wanted@);
    }
    Err(seen)
}

/// Where the read-back comes from.
#[derive(Debug, PartialEq, Eq)]
pub enum Target {
    /// The read-back is off.
    Off,
    /// Read this node.
    Path(String),
    /// Find the node whose device name contains this fragment.
    Find(String),
}

/// The read-back's source: off, the IR receiver (`sunxi`), a path that
/// exists (`spec_exists`), or the node whose name contains the fragment.
pub fn read_target(mode: &Mode, spec_exists: bool) -> (res: Target)
    ensures
        match mode {
            Mode::Off => res == Target::Off,
            Mode::Auto => res matches Target::Find(f) && f@ == "sunxi"@,
            Mode::Device(spec) => if spec_exists {
                res matches Target::Path(p) && p@ == spec@
            } else {
                res matches Target::Find(f) && f@ == spec@
            },
        },
{
    match mode {
        Mode::Off => Target::Off,
        Mode::Auto => Target::Find(String::from_str("sunxi")),
        Mode::Device(spec) => if spec_exists {
            Target::Path(spec.clone())
        } else {
            Target::Find(spec.clone())
        },
    }
}

/// The footer line: which layers are live and how to leave the app.
pub fn mode_line(reader_path: Option<&str>) -> (res: String)
    ensures
        res@ == "seat: @sgc lease + granted devices | "@ + match reader_path {
            Some(p) => "raw read-back: "@ + p@,
            None => "raw read-back off (--raw [device])"@,
        } + " | Ctrl+Alt+Backspace quits"@,
{
    let mut res = String::from_str("seat: @sgc lease + granted devices | ");
    match reader_path {
        Some(p) => {
            push_str(&mut res, "raw read-back: ");
            push_str(&mut res, p);
        },
        None => {
            push_str(&mut res, "raw read-back off (--raw [device])");
        },
    }
    push_str(&mut res, " | Ctrl+Alt+Backspace quits");
    res
}

} // verus!

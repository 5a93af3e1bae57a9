//! The offscreen self-check's logic: the pixel type the renderer paints
//! into, the panel sizes to check, and the measurements and verdicts taken
//! from a rendered buffer.

use vstd::prelude::*;
use crate::config::strings_view;
use crate::text::{
    decimal, decimal_string, find_first, first_index, lemma_first_index, parse_int,
    parse_unsigned, push_str, slice_chars, split, str_eq, string_from, trim, trim_chars,
    chars_of, IntErrorKind,
};
use crate::view::{CARD, GRID, PAGE, PROT_OFF, PROT_ON, SERIES, TEXT};

use crate::agh::{FetchOutcome, Snapshot};

verus! {

/// Opaque 32-bit pixel with exact colours, which is what makes counting them
/// simple.
#[derive(Clone, Copy, Debug, PartialEq, Eq, Structural)]
pub struct Pixel {
    pub r: u8,
    pub g: u8,
    pub b: u8,
}

/// One channel of premultiplied source over an opaque destination, kept to
/// eight bits.
pub open spec fn blend_channel(src: u8, dst: u8, alpha: u8) -> u8 {
    ((src + dst * (255 - alpha) / 255) % 256) as u8
}

impl Pixel {
    /// The opaque pixel of a colour.
    pub fn from_rgb(red: u8, green: u8, blue: u8) -> (res: Pixel)
        ensures
            res.r == red && res.g == green && res.b == blue,
    {
        Pixel { r: red, g: green, b: blue }
    }

    /// The pixel as an `(r, g, b)` triple, the form the palette uses.
    pub open spec fn rgb(self) -> (u8, u8, u8) {
        (self.r, self.g, self.b)
    }

    /// Premultiplied source colour over this opaque pixel.
    pub fn blend(&mut self, red: u8, green: u8, blue: u8, alpha: u8)
        ensures
            final(self).r == blend_channel(red, old(self).r, alpha),
            final(self).g == blend_channel(green, old(self).g, alpha),
            final(self).b == blend_channel(blue, old(self).b, alpha),
    {
        let inverse: u32 = 255 - alpha as u32;
        proof {
            assert(self.r as u32 * inverse <= 255 * 255) by (nonlinear_arith)
                requires
                    self.r <= 255,
                    inverse <= 255,
            ;
            assert(self.g as u32 * inverse <= 255 * 255) by (nonlinear_arith)
                requires
                    self.g <= 255,
                    inverse <= 255,
            ;
            assert(self.b as u32 * inverse <= 255 * 255) by (nonlinear_arith)
                requires
                    self.b <= 255,
                    inverse <= 255,
            ;
        }
        self.r = ((red as u32 + self.r as u32 * inverse / 255) % 256) as u8;
        self.g = ((green as u32 + self.g as u32 * inverse / 255) % 256) as u8;
        self.b = ((blue as u32 + self.b as u32 * inverse / 255) % 256) as u8;
    }
}

/// Premultiplied colour never overflows a channel: a source channel no larger
/// than its alpha lands in range; an opaque source replaces the destination,
/// a fully transparent black source leaves it as it was.
pub proof fn law_blend_premultiplied(src: u8, dst: u8, alpha: u8)
    ensures
        src <= alpha ==> blend_channel(src, dst, alpha) == src + dst * (255 - alpha) / 255,
        alpha == 255 ==> blend_channel(src, dst, alpha) == src,
        alpha == 0 && src == 0 ==> blend_channel(src, dst, alpha) == dst,
{
    let inv = 255 - alpha;
    assert(dst * inv / 255 <= inv) by (nonlinear_arith)
        requires
            0 <= dst <= 255,
            0 <= inv <= 255,
    ;
    if alpha == 0 {
        assert(dst * 255 / 255 == dst) by (nonlinear_arith);
    }
}

/// `"label"=count` of the first row, or `(none)`.
pub fn first_of(rows: &Vec<(String, u64)>) -> (res: String)
    ensures
        rows@.len() == 0 ==> res@ == "(none)"@,
        rows@.len() > 0 ==> res@ == "\""@ + rows@[0].0@ + "\"="@ + decimal(rows@[0].1 as nat),
{
    if rows.len() == 0 {
        String::from_str("(none)")
    } else {
        let mut res = String::new();
        push_str(&mut res, "\"");
        push_str(&mut res, rows[0].0.as_str());
        push_str(&mut res, "\"=");
        let d = decimal_string(rows[0].1);
        push_str(&mut res, d.as_str());
        res
    }
}

/// Whether a non-empty top list parsed to labels that are all empty: the sign
/// that the API's shape changed again.
pub fn labels_parsed_empty(rows: &Vec<(String, u64)>) -> (res: bool)
    ensures
        res == (rows@.len() > 0 && forall|i: int| 0 <= i < rows@.len() ==> #[trigger] rows@[i].0@.len() == 0),
{
    if rows.len() == 0 {
        return false;
    }
    let mut i: usize = 0;
    while i < rows.len()
        invariant
            i <= rows@.len(),
            forall|k: int| 0 <= k < i ==> #[trigger] rows@[k].0@.len() == 0,
        decreases rows@.len() - i,
    {
        if rows[i].0.as_str().unicode_len() != 0 {
            return false;
        }
        i = i + 1;
    }
    true
}

/// Why the self-check's data stage stops.
#[derive(Debug, Clone, Copy, PartialEq, Eq)]
pub enum DataProblem {
    /// HTTP 401: the credentials in the config are wrong.
    CredentialsRejected,
    /// A non-empty top list parsed to labels that are all empty: the API's
    /// shape changed again.
    LabelsParsedEmpty,
}

/// The self-check's data stage: the snapshot to render from one fetch. A
/// failed fetch renders an empty snapshot; rejected credentials, and a top
/// client list whose labels all parsed empty, stop the check.
pub fn selfcheck_snapshot(outcome: FetchOutcome) -> (res: Result<Snapshot, DataProblem>)
    ensures
        outcome is CredentialsRejected ==> res == Err::<Snapshot, DataProblem>(
            DataProblem::CredentialsRejected,
        ),
        outcome is Failed ==> (res matches Ok(s) && s.no_data()),
        outcome matches FetchOutcome::Refreshed(s) ==> if s.top_clients@.len() > 0 && forall|i: int|
            0 <= i < s.top_clients@.len() ==> #[trigger] s.top_clients@[i].0@.len() == 0 {
            res == Err::<Snapshot, DataProblem>(DataProblem::LabelsParsedEmpty)
        } else {
            res == Ok::<Snapshot, DataProblem>(s)
        },
{
    match outcome {
        FetchOutcome::Refreshed(s) => {
            if labels_parsed_empty(&s.top_clients) {
                Err(DataProblem::LabelsParsedEmpty)
            } else {
                Ok(s)
            }
        },
        FetchOutcome::CredentialsRejected => Err(DataProblem::CredentialsRejected),
        FetchOutcome::Failed(_) => Ok(Snapshot::empty()),
    }
}

/// The panel sizes checked when nothing else is asked for: the panels the app
/// is deployed on plus the two the design was measured on.
pub open spec fn default_sizes() -> Seq<(u32, u32)> {
    seq![(1366u32, 768u32), (1720u32, 1440u32), (1920u32, 1080u32)]
}

/// What was wrong with a `--size` part.
#[derive(Debug, Clone, Copy, PartialEq, Eq)]
pub enum SizeErrorKind {
    /// No `x` or `X` between width and height.
    ExpectedWxH,
    Width(IntErrorKind),
    Height(IntErrorKind),
    /// Below 320x240: smaller than any panel the app runs on.
    TooSmall,
    /// The list held no size at all.
    NoSize,
}

/// A `--size` problem and the (trimmed) part it was found in.
#[derive(Debug)]
pub struct SizeError {
    pub kind: SizeErrorKind,
    pub part: String,
}

/// One `--size` part: `W` `x`|`X` `H`, each side trimmed and a decimal `u32`,
/// at least 320x240.
pub open spec fn parse_size(part: Seq<char>) -> Result<(u32, u32), SizeErrorKind> {
    let t = trim(part);
    match first_index(t, seq!['x', 'X']) {
        None => Err(SizeErrorKind::ExpectedWxH),
        Some(i) => match parse_int(trim(t.take(i)), 0, u32::MAX as int) {
            Err(e) => Err(SizeErrorKind::Width(e)),
            Ok(w) => match parse_int(trim(t.skip(i + 1)), 0, u32::MAX as int) {
                Err(e) => Err(SizeErrorKind::Height(e)),
                Ok(h) => if w < 320 || h < 240 {
                    Err(SizeErrorKind::TooSmall)
                } else {
                    Ok((w as u32, h as u32))
                },
            },
        },
    }
}

/// Every part's size in order, or the first part's problem and that part
/// (trimmed).
pub open spec fn parse_sizes(parts: Seq<Seq<char>>) -> Result<
    Seq<(u32, u32)>,
    (SizeErrorKind, Seq<char>),
>
    decreases parts.len(),
{
    if parts.len() == 0 {
        Ok(Seq::empty())
    } else {
        match parse_size(parts[0]) {
            Err(e) => Err((e, trim(parts[0]))),
            Ok(size) => match parse_sizes(parts.drop_first()) {
                Ok(rest) => Ok(seq![size] + rest),
                Err(e) => Err(e),
            },
        }
    }
}

/// The first index holding `key`.
pub open spec fn position(args: Seq<Seq<char>>, key: Seq<char>) -> Option<int>
    decreases args.len(),
{
    if args.len() == 0 {
        None
    } else if args[0] == key {
        Some(0)
    } else {
        match position(args.drop_first(), key) {
            Some(i) => Some(i + 1),
            None => None,
        }
    }
}

/// The size list asked for: the argument after the first `--size`, else the
/// environment's `SLINT_SELFCHECK_SIZE`.
pub open spec fn size_spec(args: Seq<Seq<char>>, env: Option<Seq<char>>) -> Option<Seq<char>> {
    match position(args, "--size"@) {
        Some(i) => if i + 1 < args.len() {
            Some(args[i + 1])
        } else {
            env
        },
        None => env,
    }
}

/// The panel sizes of `--size` / the environment, or the defaults.
pub open spec fn spec_sizes(args: Seq<Seq<char>>, env: Option<Seq<char>>) -> Result<
    Seq<(u32, u32)>,
    (SizeErrorKind, Seq<char>),
> {
    match size_spec(args, env) {
        None => Ok(default_sizes()),
        Some(spec) => match parse_sizes(split(spec, ',')) {
            Ok(sizes) => if sizes.len() == 0 {
                Err((SizeErrorKind::NoSize, Seq::empty()))
            } else {
                Ok(sizes)
            },
            Err(e) => Err(e),
        },
    }
}

/// A size list or its error, as sequences.
pub open spec fn size_result_view(r: Result<Vec<(u32, u32)>, SizeError>) -> Result<
    Seq<(u32, u32)>,
    (SizeErrorKind, Seq<char>),
> {
    match r {
        Ok(v) => Ok(v@),
        Err(e) => Err((e.kind, e.part@)),
    }
}

fn parse_size_exec(v: &Vec<char>, lo: usize, hi: usize) -> (res: Result<(u32, u32), SizeError>)
    requires
        lo <= hi <= v@.len(),
    ensures
        match res {
            Ok(size) => parse_size(v@.subrange(lo as int, hi as int)) == Ok::<
                (u32, u32),
                SizeErrorKind,
            >(size),
            Err(e) => parse_size(v@.subrange(lo as int, hi as int)) == Err::<
                (u32, u32),
                SizeErrorKind,
            >(e.kind) && e.part@ == trim(v@.subrange(lo as int, hi as int)),
        },
{
    let part = slice_chars(v, lo, hi);
    let t = trim_chars(&part);
    let xs: Vec<char> = vec!['x', 'X'];
    let n = t.len();
    let i = match find_first(&t, 0, n, &xs) {
        None => {
            assert(t@.subrange(0, n as int) =~= t@);
            return Err(SizeError { kind: SizeErrorKind::ExpectedWxH, part: string_from(&t) });
        },
        Some(i) => i,
    };
    assert(t@.subrange(0, n as int) =~= t@);
    let w_chars = slice_chars(&t, 0, i);
    let h_chars = slice_chars(&t, i + 1, n);
    assert(w_chars@ =~= t@.take(i as int));
    assert(h_chars@ =~= t@.skip(i + 1));
    let w_text = string_from(&trim_chars(&w_chars));
    let h_text = string_from(&trim_chars(&h_chars));
    let w = match parse_unsigned(w_text.as_str(), u32::MAX as u64) {
        Ok(w) => w,
        Err(e) => {
            return Err(SizeError { kind: SizeErrorKind::Width(e), part: string_from(&t) });
        },
    };
    let h = match parse_unsigned(h_text.as_str(), u32::MAX as u64) {
        Ok(h) => h,
        Err(e) => {
            return Err(SizeError { kind: SizeErrorKind::Height(e), part: string_from(&t) });
        },
    };
    proof {
        lemma_parse_int_bounds(w_text@, 0, u32::MAX as int);
        lemma_parse_int_bounds(h_text@, 0, u32::MAX as int);
    }
    if w < 320 || h < 240 {
        return Err(SizeError { kind: SizeErrorKind::TooSmall, part: string_from(&t) });
    }
    Ok((w as u32, h as u32))
}

/// A successful parse lands in `min..=max`.
pub proof fn lemma_parse_int_bounds(s: Seq<char>, min: int, max: int)
    requires
        min <= 0 <= max,
    ensures
        parse_int(s, min, max) matches Ok(v) ==> min <= v <= max,
{
    if s.len() > 0 {
        lemma_scan_up_bounds(s, 0, max);
        lemma_scan_up_bounds(s.drop_first(), 0, max);
        lemma_scan_down_bounds(s.drop_first(), 0, min);
    }
}

proof fn lemma_scan_up_bounds(s: Seq<char>, acc: int, max: int)
    requires
        0 <= acc <= max,
    ensures
        crate::text::scan_up(s, acc, max) matches Ok(v) ==> 0 <= v <= max,
    decreases s.len(),
{
    if s.len() > 0 && crate::text::is_digit(s[0]) {
        let next = acc * 10 + crate::text::digit_value(s[0]);
        if next <= max {
            lemma_scan_up_bounds(s.drop_first(), next, max);
        }
    }
}

proof fn lemma_scan_down_bounds(s: Seq<char>, acc: int, min: int)
    requires
        min <= acc <= 0,
    ensures
        crate::text::scan_down(s, acc, min) matches Ok(v) ==> min <= v <= 0,
    decreases s.len(),
{
    if s.len() > 0 && crate::text::is_digit(s[0]) {
        let next = acc * 10 - crate::text::digit_value(s[0]);
        if next >= min {
            lemma_scan_down_bounds(s.drop_first(), next, min);
        }
    }
}

/// The index of the first argument equal to `key`.
pub fn position_of(args: &[String], key: &str) -> (res: Option<usize>)
    ensures
        match res {
            Some(i) => i < args@.len() && position(strings_view(args@), key@) == Some(i as int),
            None => position(strings_view(args@), key@) is None,
        },
{
    let ghost all = strings_view(args@);
    let mut i: usize = 0;
    assert(all.skip(0) =~= all);
    while i < args.len()
        invariant
            all == strings_view(args@),
            i <= args@.len(),
            forall|k: int| 0 <= k < i ==> all[k] != key@,
            position(all, key@) == match position(all.skip(i as int), key@) {
                Some(j) => Some(j + i),
                None => None,
            },
        decreases args@.len() - i,
    {
        assert(all.skip(i as int)[0] == args@[i as int]@);
        assert(all.skip(i as int).drop_first() =~= all.skip(i + 1));
        if str_eq(args[i].as_str(), key) {
            return Some(i);
        }
        i = i + 1;
    }
    None
}

/// An optional string as characters.
pub open spec fn opt_view(o: Option<String>) -> Option<Seq<char>> {
    match o {
        Some(s) => Some(s@),
        None => None,
    }
}

/// Panel sizes from `--size WxH[,WxH...]`, or the value of
/// `SLINT_SELFCHECK_SIZE` (`env_sizes`), or the defaults.
pub fn sizes_from_args(args: &[String], env_sizes: Option<String>) -> (res: Result<
    Vec<(u32, u32)>,
    SizeError,
>)
    ensures
        size_result_view(res) == spec_sizes(strings_view(args@), opt_view(env_sizes)),
{
    let ghost all = strings_view(args@);
    let ghost env_view = opt_view(env_sizes);
    let spec_text: Option<String> = match position_of(args, "--size") {
        Some(i) => if args.len() - i > 1 {
            assert(all[i + 1] == args@[i + 1]@);
            Some(args[i + 1].clone())
        } else {
            env_sizes
        },
        None => env_sizes,
    };
    assert(size_spec(all, env_view) == opt_view(spec_text));
    let text = match spec_text {
        None => {
            let mut d: Vec<(u32, u32)> = Vec::new();
            d.push((1366, 768));
            d.push((1720, 1440));
            d.push((1920, 1080));
            assert(d@ =~= default_sizes());
            return Ok(d);
        },
        Some(t) => t,
    };
    let v = chars_of(text.as_str());
    let ghost whole = v@;
    let mut sizes: Vec<(u32, u32)> = Vec::new();
    let mut p: usize = 0;
    let commas: Vec<char> = vec![','];
    assert(commas@ =~= seq![',']);
    assert(v@.skip(0) =~= v@);
    assert(sizes@ + Seq::<(u32, u32)>::empty() =~= sizes@);
    loop
        invariant_except_break
            parse_sizes(split(whole, ',')) == match parse_sizes(split(v@.skip(p as int), ',')) {
                Ok(rest) => Ok(sizes@ + rest),
                Err(e) => Err(e),
            },
        invariant
            p <= v@.len(),
            whole == v@,
            commas@ == seq![','],
            size_spec(strings_view(args@), opt_view(env_sizes)) == Some(whole),
        ensures
            parse_sizes(split(whole, ',')) == Ok::<Seq<(u32, u32)>, (SizeErrorKind, Seq<char>)>(
                sizes@,
            ),
            sizes@.len() > 0,
        decreases v@.len() - p,
    {
        let n = v.len();
        let found = find_first(&v, p, n, &commas);
        assert(v@.subrange(p as int, n as int) =~= v@.skip(p as int));
        let end = match found {
            Some(i) => i,
            None => n,
        };
        let ghost s = v@.skip(p as int);
        let ghost part0 = v@.subrange(p as int, end as int);
        let ghost rest_parts = match found {
            Some(i) => split(v@.skip(i + 1), ','),
            None => Seq::<Seq<char>>::empty(),
        };
        proof {
            if let Some(i) = found {
                lemma_first_index(s, seq![',']);
                assert(s.take(i - p) =~= part0);
                assert(s.skip(i - p + 1) =~= v@.skip(i + 1));
                assert(split(s, ',') == seq![part0] + rest_parts);
            } else {
                assert(s =~= part0);
                assert(split(s, ',') == seq![s]);
                assert(seq![part0] + rest_parts =~= seq![part0]);
            }
            let parts = seq![part0] + rest_parts;
            assert(parts[0] == part0);
            assert(parts.drop_first() =~= rest_parts);
            assert(parse_sizes(split(s, ',')) == match parse_size(part0) {
                Err(k) => Err((k, trim(part0))),
                Ok(size) => match parse_sizes(rest_parts) {
                    Ok(rest) => Ok(seq![size] + rest),
                    Err(e) => Err(e),
                },
            });
        }
        let size = match parse_size_exec(&v, p, end) {
            Err(e) => {
                return Err(e);
            },
            Ok(size) => size,
        };
        let ghost before = sizes@;
        sizes.push(size);
        assert(sizes@ == before + seq![size]);
        proof {
            match parse_sizes(rest_parts) {
                Ok(rest) => {
                    assert(sizes@ + rest =~= before + (seq![size] + rest));
                },
                Err(e) => {},
            }
        }
        match found {
            None => {
                proof {
                    assert(parse_sizes(rest_parts) == Ok::<
                        Seq<(u32, u32)>,
                        (SizeErrorKind, Seq<char>),
                    >(Seq::empty()));
                    assert(seq![size] + Seq::<(u32, u32)>::empty() =~= seq![size]);
                }
                break;
            },
            Some(i) => {
                p = i + 1;
            },
        }
    }
    if sizes.len() == 0 {
        return Err(SizeError { kind: SizeErrorKind::NoSize, part: String::new() });
    }
    Ok(sizes)
}

/// Some pixel of `s` has colour `c`.
pub open spec fn has_color(s: Seq<Pixel>, c: (u8, u8, u8)) -> bool {
    exists|i: int| 0 <= i < s.len() && (#[trigger] s[i]).rgb() == c
}

/// Columns `lo..hi` of row `y` of a buffer `w` pixels wide.
pub open spec fn row_slice(buf: Seq<Pixel>, w: int, y: int, lo: int, hi: int) -> Seq<Pixel> {
    buf.subrange(y * w + lo, y * w + hi)
}

/// A buffer that holds `height` rows of `width` pixels.
pub open spec fn fits(buf: Seq<Pixel>, width: u32, height: u32) -> bool {
    width as int * height as int <= buf.len()
}

proof fn lemma_row_in_buffer(w: int, h: int, y: int)
    requires
        0 <= y < h,
        0 <= w,
    ensures
        y * w + w <= w * h,
        0 <= y * w,
{
    assert(y * w + w <= w * h) by (nonlinear_arith)
        requires
            0 <= y < h,
            0 <= w,
    ;
    assert(0 <= y * w) by (nonlinear_arith)
        requires
            0 <= y,
            0 <= w,
    ;
}

fn range_has(buf: &[Pixel], lo: usize, hi: usize, c: (u8, u8, u8)) -> (res: bool)
    requires
        lo <= hi <= buf@.len(),
    ensures
        res == has_color(buf@.subrange(lo as int, hi as int), c),
{
    let mut i = lo;
    while i < hi
        invariant
            lo <= i <= hi <= buf@.len(),
            forall|k: int| lo <= k < i ==> (#[trigger] buf@[k]).rgb() != c,
        decreases hi - i,
    {
        let p = buf[i];
        if p.r == c.0 && p.g == c.1 && p.b == c.2 {
            assert(buf@.subrange(lo as int, hi as int)[i - lo] == p);
            return true;
        }
        i = i + 1;
    }
    assert forall|k: int| 0 <= k < hi - lo implies (#[trigger] buf@.subrange(
        lo as int,
        hi as int,
    )[k]).rgb() != c by {
        assert(buf@.subrange(lo as int, hi as int)[k] == buf@[lo + k]);
    }
    false
}

/// The runs of consecutive rows among `0..y` whose columns `lo..hi` hold cell
/// text, as `(first, last)` row pairs.
pub open spec fn text_bands(buf: Seq<Pixel>, w: int, lo: int, hi: int, y: nat) -> Seq<(u32, u32)>
    decreases y,
{
    if y == 0 {
        Seq::empty()
    } else {
        let bands = text_bands(buf, w, lo, hi, (y - 1) as nat);
        let row = (y - 1) as int;
        if has_color(row_slice(buf, w, row, lo, hi), TEXT) {
            if bands.len() > 0 && bands.last().1 + 1 == row {
                bands.update(bands.len() - 1, (bands.last().0, row as u32))
            } else {
                bands.push((row as u32, row as u32))
            }
        } else {
            bands
        }
    }
}

/// The rows among `0..y` whose columns `lo..hi` hold a row separator.
pub open spec fn separator_rows(buf: Seq<Pixel>, w: int, lo: int, hi: int, y: nat) -> Seq<u32>
    decreases y,
{
    if y == 0 {
        Seq::empty()
    } else {
        let rows = separator_rows(buf, w, lo, hi, (y - 1) as nat);
        let row = (y - 1) as int;
        if has_color(row_slice(buf, w, row, lo, hi), GRID) {
            rows.push(row as u32)
        } else {
            rows
        }
    }
}

/// At most the first twenty elements.
pub open spec fn first20<T>(s: Seq<T>) -> Seq<T> {
    if s.len() <= 20 {
        s
    } else {
        s.take(20)
    }
}

proof fn lemma_bands_below(buf: Seq<Pixel>, w: int, lo: int, hi: int, y: nat)
    requires
        y <= u32::MAX,
    ensures
        forall|i: int|
            0 <= i < text_bands(buf, w, lo, hi, y).len() ==> #[trigger] text_bands(
                buf,
                w,
                lo,
                hi,
                y,
            )[i].1 < y && text_bands(buf, w, lo, hi, y)[i].0 <= text_bands(buf, w, lo, hi, y)[i].1,
    decreases y,
{
    if y > 0 {
        let prev = (y - 1) as nat;
        lemma_bands_below(buf, w, lo, hi, prev);
        let before = text_bands(buf, w, lo, hi, prev);
        let after = text_bands(buf, w, lo, hi, y);
        let row = (y - 1) as int;
        if before.len() > 0 {
            assert(before[before.len() - 1].1 < prev);
            assert(before.last() == before[before.len() - 1]);
        }
        if has_color(row_slice(buf, w, row, lo, hi), TEXT) {
            if before.len() > 0 && before.last().1 + 1 == row {
                let upd = before.update(before.len() - 1, (before.last().0, row as u32));
                assert(after == upd);
                assert forall|i: int| 0 <= i < after.len() implies #[trigger] after[i].1 < y
                    && after[i].0 <= after[i].1 by {
                    if i < before.len() - 1 {
                        assert(after[i] == before[i]);
                    }
                }
            } else {
                assert(after == before.push((row as u32, row as u32)));
                assert forall|i: int| 0 <= i < after.len() implies #[trigger] after[i].1 < y
                    && after[i].0 <= after[i].1 by {
                    if i < before.len() {
                        assert(after[i] == before[i]);
                    }
                }
            }
        } else {
            assert(after == before);
        }
    }
}

/// Y positions of cell-text bands and row separators within the columns
/// `x0..x1` (cut to the buffer's width) of every row: at most twenty of each.
pub fn row_rhythm(buffer: &[Pixel], width: u32, height: u32, x0: usize, x1: usize) -> (res: (
    Vec<(u32, u32)>,
    Vec<u32>,
))
    requires
        fits(buffer@, width, height),
        height > 0 ==> x0 <= x1 && x0 <= width,
    ensures
        ({
            let hi = if x1 < width { x1 as int } else { width as int };
            &&& res.0@ == first20(text_bands(buffer@, width as int, x0 as int, hi, height as nat))
            &&& res.1@ == first20(separator_rows(buffer@, width as int, x0 as int, hi, height as nat))
        }),
{
    if height == 0 {
        return (Vec::new(), Vec::new());
    }
    let blen = buffer.len();
    let w = width as usize;
    let hi: usize = if x1 < w { x1 } else { w };
    let ghost g_hi = hi as int;
    let mut bands: Vec<(u32, u32)> = Vec::new();
    let mut separators: Vec<u32> = Vec::new();
    let mut y: usize = 0;
    let mut start: usize = 0;
    while y < height as usize
        invariant
            fits(buffer@, width, height),
            blen == buffer@.len(),
            w == width as usize,
            x0 <= hi <= w,
            g_hi == hi as int,
            y <= height,
            start == y * w,
            bands@ == text_bands(buffer@, w as int, x0 as int, g_hi, y as nat),
            separators@ == separator_rows(buffer@, w as int, x0 as int, g_hi, y as nat),
        decreases height - y,
    {
        proof {
            lemma_row_in_buffer(w as int, height as int, y as int);
            lemma_bands_below(buffer@, w as int, x0 as int, g_hi, y as nat);
        }
        let ghost slice = row_slice(buffer@, w as int, y as int, x0 as int, g_hi);
        assert(slice == buffer@.subrange((start + x0) as int, (start + hi) as int));
        let ghost old_bands = bands@;
        let ghost old_seps = separators@;
        if range_has(buffer, start + x0, start + hi, GRID) {
            separators.push(y as u32);
        }
        if range_has(buffer, start + x0, start + hi, TEXT) {
            let n = bands.len();
            if n > 0 && bands[n - 1].1 + 1 == y as u32 {
                let first = bands[n - 1].0;
                bands.set(n - 1, (first, y as u32));
                assert(bands@ == old_bands.update(
                    old_bands.len() - 1,
                    (old_bands.last().0, y as u32),
                ));
            } else {
                bands.push((y as u32, y as u32));
            }
        }
        assert(bands@ == text_bands(buffer@, w as int, x0 as int, g_hi, (y + 1) as nat));
        assert(separators@ == separator_rows(buffer@, w as int, x0 as int, g_hi, (y + 1) as nat));
        proof {
            assert((y + 1) * w == y * w + w) by (nonlinear_arith);
        }
        y = y + 1;
        start = start + w;
    }
    let ghost full_bands = bands@;
    let ghost full_seps = separators@;
    if bands.len() > 20 {
        bands.truncate(20);
    }
    if separators.len() > 20 {
        separators.truncate(20);
    }
    assert(bands@ =~= first20(full_bands));
    assert(separators@ =~= first20(full_seps));
    (bands, separators)
}

/// Scans rows `0..y` for card colour: the band still open at row `y` and
/// the bands closed so far, each a `(first, last)` run of consecutive rows
/// holding card colour.
pub open spec fn card_scan(buf: Seq<Pixel>, w: int, y: nat) -> (Option<(u32, u32)>, Seq<(u32, u32)>)
    decreases y,
{
    if y == 0 {
        (None, Seq::empty())
    } else {
        let (band, bands) = card_scan(buf, w, (y - 1) as nat);
        let row = (y - 1) as int;
        if has_color(row_slice(buf, w, row, 0, w), CARD) {
            (
                Some(
                    match band {
                        Some((y0, _)) => (y0, row as u32),
                        None => (row as u32, row as u32),
                    },
                ),
                bands,
            )
        } else {
            match band {
                Some(finished) => (None, bands.push(finished)),
                None => (None, bands),
            }
        }
    }
}

/// The maximal runs of consecutive rows that hold card colour.
pub open spec fn card_bands(buf: Seq<Pixel>, w: int, h: nat) -> Seq<(u32, u32)> {
    let (band, bands) = card_scan(buf, w, h);
    match band {
        Some(finished) => bands.push(finished),
        None => bands,
    }
}

/// Scans pixels `0..x` of a row: the run of non-page pixels still open and
/// the runs closed so far, as `(first, last)` columns.
pub open spec fn runs_scan(row: Seq<Pixel>, x: nat) -> (Option<u32>, Seq<(u32, u32)>)
    decreases x,
{
    if x == 0 {
        (None, Seq::empty())
    } else {
        let (start, runs) = runs_scan(row, (x - 1) as nat);
        let col = (x - 1) as int;
        if row[col].rgb() != PAGE {
            (
                Some(
                    match start {
                        Some(s) => s,
                        None => col as u32,
                    },
                ),
                runs,
            )
        } else {
            match start {
                Some(s) => (None, runs.push((s, (col - 1) as u32))),
                None => (None, runs),
            }
        }
    }
}

/// The maximal runs of non-page pixels of a row: the page colour separates
/// the cards of a row.
pub open spec fn row_runs(row: Seq<Pixel>) -> Seq<(u32, u32)> {
    let (start, runs) = runs_scan(row, row.len());
    match start {
        Some(s) => runs.push((s, (row.len() - 1) as u32)),
        None => runs,
    }
}

/// The card boxes `(x0, x1, y0, y1)` of one band, measured on its middle row.
pub open spec fn band_boxes(buf: Seq<Pixel>, w: int, band: (u32, u32)) -> Seq<(u32, u32, u32, u32)> {
    let y = (band.0 + band.1) / 2;
    row_runs(row_slice(buf, w, y, 0, w)).map_values(
        |r: (u32, u32)| (r.0, r.1, band.0, band.1),
    )
}

/// The card boxes of every band, top to bottom.
pub open spec fn spec_card_rows(buf: Seq<Pixel>, w: int, h: nat) -> Seq<Seq<(u32, u32, u32, u32)>> {
    card_bands(buf, w, h).map_values(|band: (u32, u32)| band_boxes(buf, w, band))
}

proof fn lemma_card_scan_bounds(buf: Seq<Pixel>, w: int, y: nat)
    requires
        y <= u32::MAX,
    ensures
        card_scan(buf, w, y).0 matches Some(b) ==> b.0 <= b.1 < y,
        forall|i: int|
            0 <= i < card_scan(buf, w, y).1.len() ==> (#[trigger] card_scan(buf, w, y).1[i]).0
                <= card_scan(buf, w, y).1[i].1 < y,
    decreases y,
{
    if y > 0 {
        let prev = (y - 1) as nat;
        lemma_card_scan_bounds(buf, w, prev);
        let before = card_scan(buf, w, prev).1;
        let after = card_scan(buf, w, y).1;
        assert forall|i: int| 0 <= i < after.len() implies (#[trigger] after[i]).0 <= after[i].1
            < y by {
            if i < before.len() {
                assert(after[i] == before[i]);
            }
        }
    }
}

proof fn lemma_runs_scan_bounds(row: Seq<Pixel>, x: nat)
    requires
        x <= row.len(),
        row.len() <= u32::MAX,
    ensures
        runs_scan(row, x).0 matches Some(s) ==> s < x,
        forall|i: int|
            0 <= i < runs_scan(row, x).1.len() ==> (#[trigger] runs_scan(row, x).1[i]).0
                <= runs_scan(row, x).1[i].1 < x,
    decreases x,
{
    if x > 0 {
        let prev = (x - 1) as nat;
        lemma_runs_scan_bounds(row, prev);
        let before = runs_scan(row, prev).1;
        let after = runs_scan(row, x).1;
        assert forall|i: int| 0 <= i < after.len() implies (#[trigger] after[i]).0 <= after[i].1
            < x by {
            if i < before.len() {
                assert(after[i] == before[i]);
            }
        }
    }
}

fn runs_exec(buffer: &[Pixel], start: usize, width: u32) -> (res: Vec<(u32, u32)>)
    requires
        start + width <= buffer@.len(),
    ensures
        res@ == row_runs(buffer@.subrange(start as int, start + width)),
        forall|i: int| 0 <= i < res@.len() ==> (#[trigger] res@[i]).0 <= res@[i].1 < width,
{
    let ghost row = buffer@.subrange(start as int, start + width);
    let blen = buffer.len();
    let mut runs: Vec<(u32, u32)> = Vec::new();
    let mut open: Option<u32> = None;
    let mut x: u32 = 0;
    while x < width
        invariant
            blen == buffer@.len(),
            start + width <= buffer@.len(),
            row == buffer@.subrange(start as int, start + width),
            x <= width,
            (open, runs@) == runs_scan(row, x as nat),
        decreases width - x,
    {
        proof {
            lemma_runs_scan_bounds(row, x as nat);
        }
        let p = buffer[start + x as usize];
        assert(row[x as int] == p);
        let is_page = p.r == PAGE.0 && p.g == PAGE.1 && p.b == PAGE.2;
        if !is_page {
            if open.is_none() {
                open = Some(x);
            }
        } else {
            match open {
                Some(s) => {
                    runs.push((s, x - 1));
                    open = None;
                },
                None => {},
            }
        }
        x = x + 1;
    }
    proof {
        lemma_runs_scan_bounds(row, width as nat);
    }
    let ghost closed = runs@;
    match open {
        Some(s) => {
            runs.push((s, width - 1));
        },
        None => {},
    }
    assert(closed == runs_scan(row, width as nat).1);
    assert forall|i: int| 0 <= i < runs@.len() implies (#[trigger] runs@[i]).0 <= runs@[i].1
        < width by {
        if i < closed.len() {
            assert(runs@[i] == closed[i]);
            assert(closed[i] == runs_scan(row, width as nat).1[i]);
        }
    }
    runs
}

fn boxes_exec(runs: &Vec<(u32, u32)>, y0: u32, y1: u32) -> (res: Vec<(u32, u32, u32, u32)>)
    ensures
        res@ == runs@.map_values(|r: (u32, u32)| (r.0, r.1, y0, y1)),
{
    let mut res: Vec<(u32, u32, u32, u32)> = Vec::new();
    let mut i: usize = 0;
    while i < runs.len()
        invariant
            i <= runs@.len(),
            res@ == runs@.take(i as int).map_values(|r: (u32, u32)| (r.0, r.1, y0, y1)),
        decreases runs@.len() - i,
    {
        res.push((runs[i].0, runs[i].1, y0, y1));
        i = i + 1;
        assert(res@ =~= runs@.take(i as int).map_values(|r: (u32, u32)| (r.0, r.1, y0, y1)));
    }
    assert(runs@.take(runs@.len() as int) =~= runs@);
    res
}

/// Bounding boxes of every card row on the page: the page colour separates
/// the cards horizontally and between rows, so a row of card colour yields one
/// run per card, and the band of rows containing card colour gives the
/// vertical span. Every box lies inside the panel.
pub fn card_rows(buffer: &[Pixel], width: u32, height: u32) -> (res: Vec<Vec<(u32, u32, u32, u32)>>)
    requires
        fits(buffer@, width, height),
        height <= 0x8000_0000,
    ensures
        res@.map_values(|r: Vec<(u32, u32, u32, u32)>| r@) == spec_card_rows(
            buffer@,
            width as int,
            height as nat,
        ),
        forall|i: int, j: int|
            0 <= i < res@.len() && 0 <= j < res@[i]@.len() ==> {
                let b = #[trigger] res@[i]@[j];
                b.0 <= b.1 < width && b.2 <= b.3 < height
            },
{
    let blen = buffer.len();
    let w = width as usize;
    let mut bands: Vec<(u32, u32)> = Vec::new();
    let mut band: Option<(u32, u32)> = None;
    let mut y: u32 = 0;
    let mut start: usize = 0;
    while y < height
        invariant
            fits(buffer@, width, height),
            blen == buffer@.len(),
            w == width as usize,
            y <= height,
            start == y * w,
            (band, bands@) == card_scan(buffer@, w as int, y as nat),
        decreases height - y,
    {
        proof {
            lemma_row_in_buffer(w as int, height as int, y as int);
            lemma_card_scan_bounds(buffer@, w as int, y as nat);
        }
        let ghost slice = row_slice(buffer@, w as int, y as int, 0, w as int);
        assert(slice == buffer@.subrange(start as int, (start + w) as int));
        if range_has(buffer, start, start + w, CARD) {
            band = Some(
                match band {
                    Some((y0, _)) => (y0, y),
                    None => (y, y),
                },
            );
        } else {
            match band {
                Some(finished) => {
                    bands.push(finished);
                    band = None;
                },
                None => {},
            }
        }
        proof {
            assert((y + 1) * w == y * w + w) by (nonlinear_arith);
        }
        y = y + 1;
        start = start + w;
    }
    proof {
        lemma_card_scan_bounds(buffer@, w as int, height as nat);
    }
    match band {
        Some(finished) => {
            bands.push(finished);
        },
        None => {},
    }
    let ghost all_bands = bands@;
    assert(all_bands == card_bands(buffer@, w as int, height as nat));
    assert(forall|i: int| 0 <= i < all_bands.len() ==> (#[trigger] all_bands[i]).0 <= all_bands[i].1 < height);

    let mut rows: Vec<Vec<(u32, u32, u32, u32)>> = Vec::new();
    let mut i: usize = 0;
    while i < bands.len()
        invariant
            fits(buffer@, width, height),
            blen == buffer@.len(),
            w == width as usize,
            height <= 0x8000_0000,
            bands@ == all_bands,
            forall|k: int| 0 <= k < all_bands.len() ==> (#[trigger] all_bands[k]).0 <= all_bands[k].1 < height,
            i <= bands@.len(),
            rows@.map_values(|r: Vec<(u32, u32, u32, u32)>| r@) == all_bands.take(i as int).map_values(
                |band: (u32, u32)| band_boxes(buffer@, w as int, band),
            ),
            forall|k: int, j: int|
                0 <= k < rows@.len() && 0 <= j < rows@[k]@.len() ==> {
                    let b = #[trigger] rows@[k]@[j];
                    b.0 <= b.1 < width && b.2 <= b.3 < height
                },
        decreases bands@.len() - i,
    {
        let (y0, y1) = bands[i];
        assert(all_bands[i as int] == (y0, y1));
        let y = (y0 + y1) / 2;
        proof {
            lemma_row_in_buffer(w as int, height as int, y as int);
        }
        let row_start = y as usize * w;
        let runs = runs_exec(buffer, row_start, width);
        assert(buffer@.subrange(row_start as int, row_start + width) == row_slice(
            buffer@,
            w as int,
            y as int,
            0,
            w as int,
        ));
        let boxes = boxes_exec(&runs, y0, y1);
        assert(boxes@ == band_boxes(buffer@, w as int, all_bands[i as int]));
        let ghost before = rows@;
        rows.push(boxes);
        assert(rows@.map_values(|r: Vec<(u32, u32, u32, u32)>| r@) =~= before.map_values(
            |r: Vec<(u32, u32, u32, u32)>| r@,
        ).push(boxes@));
        i = i + 1;
        assert(rows@.map_values(|r: Vec<(u32, u32, u32, u32)>| r@) =~= all_bands.take(i as int).map_values(
            |band: (u32, u32)| band_boxes(buffer@, w as int, band),
        )) by {
            assert(all_bands.take(i as int) =~= all_bands.take(i - 1).push(all_bands[i - 1]));
            assert(before.map_values(|r: Vec<(u32, u32, u32, u32)>| r@) =~= all_bands.take(i - 1).map_values(
                |band: (u32, u32)| band_boxes(buffer@, w as int, band),
            ));
        }
        assert forall|k: int, j: int|
            0 <= k < rows@.len() && 0 <= j < rows@[k]@.len() implies {
                let b = #[trigger] rows@[k]@[j];
                b.0 <= b.1 < width && b.2 <= b.3 < height
            } by {
            if k < before.len() {
                assert(rows@[k] == before[k]);
            } else {
                assert(rows@[k]@[j] == (runs@[j].0, runs@[j].1, y0, y1));
            }
        }
    }
    assert(all_bands.take(all_bands.len() as int) =~= all_bands);
    rows
}

/// How many pixels have colour `c`.
pub open spec fn count_of(s: Seq<Pixel>, c: (u8, u8, u8)) -> nat
    decreases s.len(),
{
    if s.len() == 0 {
        0
    } else {
        count_of(s.drop_last(), c) + if s.last().rgb() == c {
            1nat
        } else {
            0nat
        }
    }
}

proof fn lemma_count_le(s: Seq<Pixel>, c: (u8, u8, u8))
    ensures
        count_of(s, c) <= s.len(),
    decreases s.len(),
{
    if s.len() > 0 {
        lemma_count_le(s.drop_last(), c);
    }
}

proof fn lemma_count_pair_le(s: Seq<Pixel>, a: (u8, u8, u8), b: (u8, u8, u8))
    requires
        a != b,
    ensures
        count_of(s, a) + count_of(s, b) <= s.len(),
    decreases s.len(),
{
    if s.len() > 0 {
        lemma_count_pair_le(s.drop_last(), a, b);
    }
}

/// Pixels per known colour of a rendered buffer.
#[derive(Debug)]
pub struct ColorCounts {
    pub page: u64,
    pub card: u64,
    pub grid: u64,
    /// Protection badge pixels, enabled or disabled colour.
    pub badge: u64,
    /// Bar pixels of each chart's series colour.
    pub bars: [u64; 4],
}

/// The counts are those of the buffer.
pub open spec fn counts_of(c: ColorCounts, buf: Seq<Pixel>) -> bool {
    &&& c.page == count_of(buf, PAGE)
    &&& c.card == count_of(buf, CARD)
    &&& c.grid == count_of(buf, GRID)
    &&& c.badge == count_of(buf, PROT_ON) + count_of(buf, PROT_OFF)
    &&& forall|i: int| 0 <= i < 4 ==> c.bars[i] == count_of(buf, #[trigger] SERIES[i])
}

/// Whether the pixel has exactly this colour.
pub fn is_color(p: Pixel, c: (u8, u8, u8)) -> (res: bool)
    ensures
        res == (p.rgb() == c),
{
    p.r == c.0 && p.g == c.1 && p.b == c.2
}

/// Count the pixels of every known colour.
pub fn count_colors(buffer: &[Pixel]) -> (res: ColorCounts)
    ensures
        counts_of(res, buffer@),
{
    let n = buffer.len();
    let mut page: u64 = 0;
    let mut card: u64 = 0;
    let mut grid: u64 = 0;
    let mut badge: u64 = 0;
    let mut bars: [u64; 4] = [0, 0, 0, 0];
    let mut k: usize = 0;
    while k < n
        invariant
            n == buffer@.len(),
            k <= n,
            page == count_of(buffer@.take(k as int), PAGE),
            card == count_of(buffer@.take(k as int), CARD),
            grid == count_of(buffer@.take(k as int), GRID),
            badge == count_of(buffer@.take(k as int), PROT_ON) + count_of(
                buffer@.take(k as int),
                PROT_OFF,
            ),
            forall|i: int|
                0 <= i < 4 ==> bars[i] == count_of(buffer@.take(k as int), #[trigger] SERIES[i]),
        decreases n - k,
    {
        proof {
            let t = buffer@.take(k as int);
            lemma_count_le(t, PAGE);
            lemma_count_le(t, CARD);
            lemma_count_le(t, GRID);
            lemma_count_le(t, PROT_ON);
            lemma_count_le(t, PROT_OFF);
            assert forall|i: int| 0 <= i < 4 implies count_of(t, #[trigger] SERIES[i]) <= k by {
                lemma_count_le(t, SERIES[i]);
            }
            lemma_count_pair_le(t, PROT_ON, PROT_OFF);
            assert(buffer@.take(k + 1).drop_last() =~= t);
            assert(buffer@.take(k + 1).last() == buffer@[k as int]);
        }
        let p = buffer[k];
        if is_color(p, PAGE) {
            page = page + 1;
        } else if is_color(p, CARD) {
            card = card + 1;
        } else if is_color(p, GRID) {
            grid = grid + 1;
        } else if is_color(p, PROT_ON) || is_color(p, PROT_OFF) {
            badge = badge + 1;
        } else {
            let mut index: usize = 0;
            while index < 4
                invariant
                    index <= 4,
                    k < n,
                    n == buffer@.len(),
                    buffer@.take(k + 1).drop_last() == buffer@.take(k as int),
                    buffer@.take(k + 1).last() == p,
                    forall|i: int| 0 <= i < 4 ==> count_of(buffer@.take(k as int), #[trigger] SERIES[i]) <= k,
                    forall|i: int|
                        0 <= i < index ==> bars[i] == count_of(
                            buffer@.take(k + 1),
                            #[trigger] SERIES[i],
                        ),
                    forall|i: int|
                        index <= i < 4 ==> bars[i] == count_of(
                            buffer@.take(k as int),
                            #[trigger] SERIES[i],
                        ),
                decreases 4 - index,
            {
                if is_color(p, SERIES[index]) {
                    bars[index] = bars[index] + 1;
                }
                index = index + 1;
            }
        }
        k = k + 1;
    }
    assert(buffer@.take(n as int) =~= buffer@);
    ColorCounts { page, card, grid, badge, bars }
}

/// The pixel at column `x` of row `y` is not page background.
pub open spec fn is_content(buf: Seq<Pixel>, w: int, x: int, y: int) -> bool {
    buf[y * w + x].rgb() != PAGE
}

/// Some pixel of the panel is not page background.
pub open spec fn has_content(buf: Seq<Pixel>, w: int, h: int) -> bool {
    exists|x: int, y: int| 0 <= x < w && 0 <= y < h && #[trigger] is_content(buf, w, x, y)
}

/// Every pixel that is not page background lies inside `(min_x, max_x,
/// min_y, max_y)`.
pub open spec fn box_covers(buf: Seq<Pixel>, w: int, h: int, b: (usize, usize, usize, usize)) -> bool {
    forall|x: int, y: int|
        0 <= x < w && 0 <= y < h && #[trigger] is_content(buf, w, x, y) ==> b.0 <= x <= b.1 && b.2
            <= y <= b.3
}

/// Each edge of the box touches a pixel that is not page background.
pub open spec fn box_tight(buf: Seq<Pixel>, w: int, h: int, b: (usize, usize, usize, usize)) -> bool {
    &&& exists|y: int| 0 <= y < h && #[trigger] is_content(buf, w, b.0 as int, y)
    &&& exists|y: int| 0 <= y < h && #[trigger] is_content(buf, w, b.1 as int, y)
    &&& exists|x: int| 0 <= x < w && #[trigger] is_content(buf, w, x, b.2 as int)
    &&& exists|x: int| 0 <= x < w && #[trigger] is_content(buf, w, x, b.3 as int)
}

/// The bounding box of everything that is not page background: how far the
/// page reaches into the panel.
pub fn content_box(buffer: &[Pixel], width: u32, height: u32) -> (res: (usize, usize, usize, usize))
    requires
        fits(buffer@, width, height),
    ensures
        box_covers(buffer@, width as int, height as int, res),
        has_content(buffer@, width as int, height as int) ==> box_tight(
            buffer@,
            width as int,
            height as int,
            res,
        ),
        !has_content(buffer@, width as int, height as int) ==> res == (
            width as usize,
            0usize,
            height as usize,
            0usize,
        ),
        has_content(buffer@, width as int, height as int) ==> res.0 <= res.1 < width && res.2
            <= res.3 < height,
{
    let blen = buffer.len();
    let w = width as usize;
    let h = height as usize;
    let mut min_x: usize = w;
    let mut max_x: usize = 0;
    let mut min_y: usize = h;
    let mut max_y: usize = 0;
    let ghost mut found = false;
    let ghost mut y_at_min_x: int = 0;
    let ghost mut y_at_max_x: int = 0;
    let ghost mut x_at_min_y: int = 0;
    let ghost mut x_at_max_y: int = 0;
    let mut y: usize = 0;
    let mut start: usize = 0;
    while y < h
        invariant
            fits(buffer@, width, height),
            blen == buffer@.len(),
            w == width as usize,
            h == height as usize,
            y <= h,
            start == y * w,
            forall|x: int, yy: int|
                0 <= x < w && 0 <= yy < y && #[trigger] is_content(buffer@, w as int, x, yy)
                    ==> min_x <= x <= max_x && min_y <= yy <= max_y,
            found ==> {
                &&& 0 <= y_at_min_x < h && is_content(buffer@, w as int, min_x as int, y_at_min_x)
                &&& 0 <= y_at_max_x < h && is_content(buffer@, w as int, max_x as int, y_at_max_x)
                &&& 0 <= x_at_min_y < w && is_content(buffer@, w as int, x_at_min_y, min_y as int)
                &&& 0 <= x_at_max_y < w && is_content(buffer@, w as int, x_at_max_y, max_y as int)
                &&& min_x < w && max_x < w && min_y < h && max_y < h
            },
            found <==> exists|x: int, yy: int|
                0 <= x < w && 0 <= yy < y && #[trigger] is_content(buffer@, w as int, x, yy),
            !found ==> min_x == w && max_x == 0 && min_y == h && max_y == 0,
        decreases h - y,
    {
        proof {
            lemma_row_in_buffer(w as int, height as int, y as int);
        }
        let mut x: usize = 0;
        while x < w
            invariant
                fits(buffer@, width, height),
                blen == buffer@.len(),
                w == width as usize,
                h == height as usize,
                y < h,
                start == y * w,
                start + w <= blen,
                x <= w,
                forall|xx: int, yy: int|
                    0 <= xx < w && 0 <= yy < y && #[trigger] is_content(buffer@, w as int, xx, yy)
                        ==> min_x <= xx <= max_x && min_y <= yy <= max_y,
                forall|xx: int|
                    0 <= xx < x && #[trigger] is_content(buffer@, w as int, xx, y as int) ==> min_x
                        <= xx <= max_x && min_y <= y <= max_y,
                found ==> {
                    &&& 0 <= y_at_min_x < h && is_content(
                        buffer@,
                        w as int,
                        min_x as int,
                        y_at_min_x,
                    )
                    &&& 0 <= y_at_max_x < h && is_content(
                        buffer@,
                        w as int,
                        max_x as int,
                        y_at_max_x,
                    )
                    &&& 0 <= x_at_min_y < w && is_content(
                        buffer@,
                        w as int,
                        x_at_min_y,
                        min_y as int,
                    )
                    &&& 0 <= x_at_max_y < w && is_content(
                        buffer@,
                        w as int,
                        x_at_max_y,
                        max_y as int,
                    )
                    &&& min_x < w && max_x < w && min_y < h && max_y < h
                },
                found <==> (exists|xx: int, yy: int|
                    0 <= xx < w && 0 <= yy < y && #[trigger] is_content(buffer@, w as int, xx, yy))
                    || (exists|xx: int|
                    0 <= xx < x && #[trigger] is_content(buffer@, w as int, xx, y as int)),
                !found ==> min_x == w && max_x == 0 && min_y == h && max_y == 0,
            decreases w - x,
        {
            let p = buffer[start + x];
            assert(is_content(buffer@, w as int, x as int, y as int) == (p.rgb() != PAGE));
            if p.r != PAGE.0 || p.g != PAGE.1 || p.b != PAGE.2 {
                proof {
                    if !found {
                        y_at_min_x = y as int;
                        y_at_max_x = y as int;
                        x_at_min_y = x as int;
                        x_at_max_y = x as int;
                    } else {
                        if x < min_x {
                            y_at_min_x = y as int;
                        }
                        if x > max_x {
                            y_at_max_x = y as int;
                        }
                        if y < min_y {
                            x_at_min_y = x as int;
                        }
                        if y > max_y {
                            x_at_max_y = x as int;
                        }
                    }
                    found = true;
                }
                if x < min_x {
                    min_x = x;
                }
                if x > max_x {
                    max_x = x;
                }
                if y < min_y {
                    min_y = y;
                }
                if y > max_y {
                    max_y = y;
                }
            }
            x = x + 1;
        }
        proof {
            assert forall|xx: int, yy: int|
                0 <= xx < w && 0 <= yy < y + 1 && #[trigger] is_content(buffer@, w as int, xx, yy)
                    implies min_x <= xx <= max_x && min_y <= yy <= max_y by {
                if yy == y {
                }
            }
            assert((y + 1) * w == y * w + w) by (nonlinear_arith);
            if found {
                if !(exists|xx: int, yy: int|
                    0 <= xx < w && 0 <= yy < y && #[trigger] is_content(buffer@, w as int, xx, yy)) {
                    let xx = choose|xx: int|
                        0 <= xx < w && #[trigger] is_content(buffer@, w as int, xx, y as int);
                    assert(is_content(buffer@, w as int, xx, y as int));
                }
            } else {
                assert forall|xx: int, yy: int|
                    0 <= xx < w && 0 <= yy < y + 1 implies !#[trigger] is_content(
                        buffer@,
                        w as int,
                        xx,
                        yy,
                    ) by {
                    if yy < y {
                    } else {
                    }
                }
            }
        }
        y = y + 1;
        start = start + w;
    }
    proof {
        if found {
            let (xx, yy) = choose|xx: int, yy: int|
                0 <= xx < w && 0 <= yy < y && #[trigger] is_content(buffer@, w as int, xx, yy);
            assert(is_content(buffer@, width as int, xx, yy));
            assert(has_content(buffer@, width as int, height as int));
            assert(is_content(buffer@, width as int, min_x as int, y_at_min_x));
            assert(is_content(buffer@, width as int, max_x as int, y_at_max_x));
            assert(is_content(buffer@, width as int, x_at_min_y, min_y as int));
            assert(is_content(buffer@, width as int, x_at_max_y, max_y as int));
        } else {
            assert(!has_content(buffer@, width as int, height as int));
        }
        assert(forall|x: int, yy: int|
            0 <= x < width && 0 <= yy < height && #[trigger] is_content(buffer@, width as int, x, yy)
                ==> min_x <= x <= max_x && min_y <= yy <= max_y);
    }
    (min_x, max_x, min_y, max_y)
}

/// How close to the buffer's edge content may come before the page counts as
/// larger than the panel.
pub const EDGE_MARGIN: u32 = 4;

/// Why a rendered panel failed the check.
#[derive(Debug, Clone, Copy, PartialEq, Eq)]
pub enum CheckProblem {
    /// The cards of this row have different heights.
    HeightsDiffer(usize),
    /// The cards of this row differ in width by more than a pixel.
    WidthsDiffer(usize),
    /// The grid is not four charts, then two rows of two tables.
    CardCount,
    /// Content reaches into the edge margin: the page is larger than the panel.
    PageTooLarge,
    /// No card background at all: nothing was laid out or painted.
    NoCards,
    /// Data was expected but not one bar pixel was drawn.
    NoBars,
}

/// The width of a card box, in pixels.
pub open spec fn box_width(b: (u32, u32, u32, u32)) -> int {
    b.1 - b.0 + 1
}

/// The height of a card box, in pixels.
pub open spec fn box_height(b: (u32, u32, u32, u32)) -> int {
    b.3 - b.2 + 1
}

/// Neighbouring cards of the row have the same height.
pub open spec fn heights_equal(row: Seq<(u32, u32, u32, u32)>) -> bool {
    forall|i: int| 0 <= i < row.len() - 1 ==> box_height(#[trigger] row[i]) == box_height(row[i + 1])
}

/// No two cards of the row differ in width by more than a pixel.
pub open spec fn widths_close(row: Seq<(u32, u32, u32, u32)>) -> bool {
    forall|i: int, j: int|
        0 <= i < row.len() && 0 <= j < row.len() ==> box_width(#[trigger] row[i]) <= box_width(
            #[trigger] row[j],
        ) + 1
}

/// The first row, from `i` on, whose cards do not match.
pub open spec fn row_problem(rows: Seq<Seq<(u32, u32, u32, u32)>>, i: int) -> Option<CheckProblem>
    decreases rows.len() - i,
{
    if i < 0 || i >= rows.len() {
        None
    } else if !heights_equal(rows[i]) {
        Some(CheckProblem::HeightsDiffer(i as usize))
    } else if !widths_close(rows[i]) {
        Some(CheckProblem::WidthsDiffer(i as usize))
    } else {
        row_problem(rows, i + 1)
    }
}

/// The card grid every panel has to produce: four charts, then two rows of two
/// tables.
pub open spec fn expected_grid(rows: Seq<Seq<(u32, u32, u32, u32)>>) -> bool {
    rows.len() == 3 && rows[0].len() == 4 && rows[1].len() == 2 && rows[2].len() == 2
}

/// The verdict on one rendered panel, checks in order: each card row's
/// geometry, the grid, the page inside the panel, card background present,
/// and bars present when data was expected.
pub open spec fn spec_verdict(
    rows: Seq<Seq<(u32, u32, u32, u32)>>,
    counts: ColorCounts,
    max_x: int,
    max_y: int,
    width: int,
    height: int,
    expect_bars: bool,
) -> Result<(), CheckProblem> {
    match row_problem(rows, 0) {
        Some(p) => Err(p),
        None => if !expected_grid(rows) {
            Err(CheckProblem::CardCount)
        } else if max_x + EDGE_MARGIN > width - 1 || max_y + EDGE_MARGIN > height - 1 {
            Err(CheckProblem::PageTooLarge)
        } else if counts.card == 0 {
            Err(CheckProblem::NoCards)
        } else if expect_bars && (forall|i: int| 0 <= i < 4 ==> counts.bars[i] == 0) {
            Err(CheckProblem::NoBars)
        } else {
            Ok(())
        },
    }
}

proof fn lemma_no_row_problem(rows: Seq<Seq<(u32, u32, u32, u32)>>, i: int)
    requires
        0 <= i,
        row_problem(rows, i) is None,
    ensures
        forall|r: int| i <= r < rows.len() ==> heights_equal(#[trigger] rows[r]) && widths_close(
            rows[r],
        ),
    decreases rows.len() - i,
{
    if i < rows.len() {
        lemma_no_row_problem(rows, i + 1);
    }
}

/// A panel passes only when its card grid is four charts, then two rows of
/// two tables; the cards of each row have the same height and widths within
/// a pixel of each other; the content keeps the edge margin on the right and
/// at the bottom; card background is present; and, when data was expected,
/// some bar was drawn.
pub proof fn law_a_passing_panel(
    rows: Seq<Seq<(u32, u32, u32, u32)>>,
    counts: ColorCounts,
    max_x: int,
    max_y: int,
    width: int,
    height: int,
    expect_bars: bool,
)
    requires
        spec_verdict(rows, counts, max_x, max_y, width, height, expect_bars) is Ok,
    ensures
        rows.len() == 3,
        rows[0].len() == 4,
        rows[1].len() == 2,
        rows[2].len() == 2,
        forall|r: int, j: int|
            #![trigger rows[r][j]]
            0 <= r < rows.len() && 0 <= j < rows[r].len() - 1 ==> rows[r][j].3 - rows[r][j].2
                == rows[r][j + 1].3 - rows[r][j + 1].2,
        forall|r: int, j: int, k: int|
            #![trigger rows[r][j], rows[r][k]]
            0 <= r < rows.len() && 0 <= j < rows[r].len() && 0 <= k < rows[r].len() ==> rows[r][j].1
                - rows[r][j].0 <= rows[r][k].1 - rows[r][k].0 + 1,
        max_x + EDGE_MARGIN <= width - 1,
        max_y + EDGE_MARGIN <= height - 1,
        counts.card > 0,
        expect_bars ==> counts.bars[0] > 0 || counts.bars[1] > 0 || counts.bars[2] > 0
            || counts.bars[3] > 0,
{
    lemma_no_row_problem(rows, 0);
    assert forall|r: int, j: int|
        #![trigger rows[r][j]]
        0 <= r < rows.len() && 0 <= j < rows[r].len() - 1 implies rows[r][j].3 - rows[r][j].2
        == rows[r][j + 1].3 - rows[r][j + 1].2 by {
        assert(heights_equal(rows[r]));
        assert(box_height(rows[r][j]) == box_height(rows[r][j + 1]));
    }
    assert forall|r: int, j: int, k: int|
        #![trigger rows[r][j], rows[r][k]]
        0 <= r < rows.len() && 0 <= j < rows[r].len() && 0 <= k < rows[r].len() implies rows[r][j].1
        - rows[r][j].0 <= rows[r][k].1 - rows[r][k].0 + 1 by {
        assert(widths_close(rows[r]));
        assert(box_width(rows[r][j]) <= box_width(rows[r][k]) + 1);
    }
    if expect_bars && !(counts.bars[0] > 0 || counts.bars[1] > 0 || counts.bars[2] > 0
        || counts.bars[3] > 0) {
        assert(forall|i: int| 0 <= i < 4 ==> counts.bars[i] == 0);
    }
}

/// Card rows as sequences of boxes.
pub open spec fn rows_seq(rows: Seq<Vec<(u32, u32, u32, u32)>>) -> Seq<Seq<(u32, u32, u32, u32)>> {
    rows.map_values(|r: Vec<(u32, u32, u32, u32)>| r@)
}

fn row_geometry(row: &Vec<(u32, u32, u32, u32)>, index: usize) -> (res: Option<CheckProblem>)
    requires
        forall|j: int| 0 <= j < row@.len() ==> (#[trigger] row@[j]).0 <= row@[j].1 < u32::MAX && row@[j].2 <= row@[j].3 < u32::MAX,
    ensures
        res == if !heights_equal(row@) {
            Some(CheckProblem::HeightsDiffer(index))
        } else if !widths_close(row@) {
            Some(CheckProblem::WidthsDiffer(index))
        } else {
            None::<CheckProblem>
        },
{
    let n = row.len();
    let mut i: usize = 0;
    while n - i > 1
        invariant
            n == row@.len(),
            forall|j: int| 0 <= j < row@.len() ==> (#[trigger] row@[j]).0 <= row@[j].1 < u32::MAX && row@[j].2 <= row@[j].3 < u32::MAX,
            i <= n,
            forall|k: int| 0 <= k < i && k < n - 1 ==> box_height(#[trigger] row@[k]) == box_height(row@[k + 1]),
        decreases n - i,
    {
        let a = row[i];
        let b = row[i + 1];
        if a.3 - a.2 + 1 != b.3 - b.2 + 1 {
            assert(!heights_equal(row@));
            return Some(CheckProblem::HeightsDiffer(index));
        }
        i = i + 1;
    }
    if n == 0 {
        return None;
    }
    let mut min_w: u32 = row[0].1 - row[0].0 + 1;
    let mut max_w: u32 = min_w;
    let ghost mut at_min: int = 0;
    let ghost mut at_max: int = 0;
    let mut k: usize = 1;
    while k < n
        invariant
            n == row@.len(),
            n > 0,
            forall|j: int| 0 <= j < row@.len() ==> (#[trigger] row@[j]).0 <= row@[j].1 < u32::MAX && row@[j].2 <= row@[j].3 < u32::MAX,
            1 <= k <= n,
            0 <= at_min < n && box_width(row@[at_min]) == min_w,
            0 <= at_max < n && box_width(row@[at_max]) == max_w,
            forall|j: int| 0 <= j < k ==> min_w <= box_width(#[trigger] row@[j]) <= max_w,
        decreases n - k,
    {
        let wk = row[k].1 - row[k].0 + 1;
        if wk < min_w {
            min_w = wk;
            proof {
                at_min = k as int;
            }
        }
        if wk > max_w {
            max_w = wk;
            proof {
                at_max = k as int;
            }
        }
        k = k + 1;
    }
    if max_w - min_w > 1 {
        assert(box_width(row@[at_max]) > box_width(row@[at_min]) + 1);
        assert(!widths_close(row@));
        return Some(CheckProblem::WidthsDiffer(index));
    }
    None
}

/// Check one rendered panel's measurements, in the order `spec_verdict`
/// gives.
pub fn verdict(
    rows: &Vec<Vec<(u32, u32, u32, u32)>>,
    counts: &ColorCounts,
    max_x: usize,
    max_y: usize,
    width: u32,
    height: u32,
    expect_bars: bool,
) -> (res: Result<(), CheckProblem>)
    requires
        forall|i: int, j: int|
            0 <= i < rows@.len() && 0 <= j < rows@[i]@.len() ==> {
                let b = #[trigger] rows@[i]@[j];
                b.0 <= b.1 < width && b.2 <= b.3 < height
            },
        max_x + EDGE_MARGIN <= u32::MAX,
        max_y + EDGE_MARGIN <= u32::MAX,
    ensures
        res == spec_verdict(
            rows_seq(rows@),
            *counts,
            max_x as int,
            max_y as int,
            width as int,
            height as int,
            expect_bars,
        ),
        res is Ok ==> rows@.len() == 3 && rows@[0]@.len() == 4 && rows@[1]@.len() == 2
            && rows@[2]@.len() == 2,
        res is Ok ==> max_x + EDGE_MARGIN <= width - 1 && max_y + EDGE_MARGIN <= height - 1
            && counts.card > 0,
{
    proof {
        let v = spec_verdict(
            rows_seq(rows@),
            *counts,
            max_x as int,
            max_y as int,
            width as int,
            height as int,
            expect_bars,
        );
        if v is Ok {
            law_a_passing_panel(
                rows_seq(rows@),
                *counts,
                max_x as int,
                max_y as int,
                width as int,
                height as int,
                expect_bars,
            );
        }
    }
    let ghost all = rows_seq(rows@);
    let mut i: usize = 0;
    while i < rows.len()
        invariant
            all == rows_seq(rows@),
            i <= rows@.len(),
            forall|i: int, j: int|
                0 <= i < rows@.len() && 0 <= j < rows@[i]@.len() ==> {
                    let b = #[trigger] rows@[i]@[j];
                    b.0 <= b.1 < width && b.2 <= b.3 < height
                },
            row_problem(all, 0) == row_problem(all, i as int),
        decreases rows@.len() - i,
    {
        assert(all[i as int] == rows@[i as int]@);
        match row_geometry(&rows[i], i) {
            Some(p) => {
                return Err(p);
            },
            None => {},
        }
        i = i + 1;
    }
    assert(row_problem(all, i as int) is None);
    if !(rows.len() == 3 && rows[0].len() == 4 && rows[1].len() == 2 && rows[2].len() == 2) {
        return Err(CheckProblem::CardCount);
    }
    // A card lies inside the panel, so the panel is not empty.
    assert(rows@[0]@[0].1 < width && rows@[0]@[0].3 < height);
    if max_x as u32 + EDGE_MARGIN > width - 1 || max_y as u32 + EDGE_MARGIN > height - 1 {
        return Err(CheckProblem::PageTooLarge);
    }
    if counts.card == 0 {
        return Err(CheckProblem::NoCards);
    }
    if expect_bars && counts.bars[0] == 0 && counts.bars[1] == 0 && counts.bars[2] == 0
        && counts.bars[3] == 0 {
        return Err(CheckProblem::NoBars);
    }
    Ok(())
}

/// The columns of the tables' label column whose row rhythm is measured.
pub const RHYTHM_X0: usize = 28;
pub const RHYTHM_X1: usize = 640;

/// Everything the self-check measures on one rendered panel, and its verdict.
#[derive(Debug)]
pub struct PanelReport {
    pub counts: ColorCounts,
    /// Text bands and row separators of the label column.
    pub bands: Vec<(u32, u32)>,
    pub separators: Vec<u32>,
    /// The card boxes, row by row.
    pub rows: Vec<Vec<(u32, u32, u32, u32)>>,
    /// `(min_x, max_x, min_y, max_y)` of everything that is not page.
    pub content: (usize, usize, usize, usize),
    pub verdict: Result<(), CheckProblem>,
}

/// Measure one rendered panel and check it: the colour counts, the row
/// rhythm of columns `RHYTHM_X0..RHYTHM_X1`, the card grid, the content box,
/// and the verdict on them.
pub fn check_panel(buffer: &[Pixel], width: u32, height: u32, expect_bars: bool) -> (res: PanelReport)
    requires
        fits(buffer@, width, height),
        height > 0 ==> RHYTHM_X0 <= width,
        height <= 0x8000_0000,
        forall|x: int, y: int|
            0 <= x < width && 0 <= y < height && #[trigger] is_content(buffer@, width as int, x, y)
                ==> x + EDGE_MARGIN <= u32::MAX && y + EDGE_MARGIN <= u32::MAX,
    ensures
        counts_of(res.counts, buffer@),
        ({
            let hi = if RHYTHM_X1 < width { RHYTHM_X1 as int } else { width as int };
            &&& res.bands@ == first20(
                text_bands(buffer@, width as int, RHYTHM_X0 as int, hi, height as nat),
            )
            &&& res.separators@ == first20(
                separator_rows(buffer@, width as int, RHYTHM_X0 as int, hi, height as nat),
            )
        }),
        rows_seq(res.rows@) == spec_card_rows(buffer@, width as int, height as nat),
        box_covers(buffer@, width as int, height as int, res.content),
        has_content(buffer@, width as int, height as int) ==> box_tight(
            buffer@,
            width as int,
            height as int,
            res.content,
        ),
        !has_content(buffer@, width as int, height as int) ==> res.content == (
            width as usize,
            0usize,
            height as usize,
            0usize,
        ),
        has_content(buffer@, width as int, height as int) ==> res.content.0 <= res.content.1
            < width && res.content.2 <= res.content.3 < height,
        res.verdict is Ok ==> res.rows@.len() == 3 && res.rows@[0]@.len() == 4 && res.rows@[1]@.len()
            == 2 && res.rows@[2]@.len() == 2,
        res.verdict is Ok ==> res.content.1 + EDGE_MARGIN <= width - 1 && res.content.3
            + EDGE_MARGIN <= height - 1 && res.counts.card > 0,
        res.verdict == spec_verdict(
            rows_seq(res.rows@),
            res.counts,
            res.content.1 as int,
            res.content.3 as int,
            width as int,
            height as int,
            expect_bars,
        ),
{
    let counts = count_colors(buffer);
    let (bands, separators) = row_rhythm(buffer, width, height, RHYTHM_X0, RHYTHM_X1);
    let rows = card_rows(buffer, width, height);
    let content = content_box(buffer, width, height);
    assert(rows_seq(rows@) == rows@.map_values(|r: Vec<(u32, u32, u32, u32)>| r@));
    let verdict = verdict(&rows, &counts, content.1, content.3, width, height, expect_bars);
    PanelReport { counts, bands, separators, rows, content, verdict }
}

} // verus!

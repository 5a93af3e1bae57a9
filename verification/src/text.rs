//! Character-level text helpers: building strings, number formatting and
//! parsing, whitespace trimming.

use vstd::prelude::*;

verus! {

/// The digit character for a value below 16 (upper-case hex letters).
pub open spec fn digit_char(d: int) -> char {
    if d < 10 {
        (('0' as int) + d) as char
    } else {
        (('A' as int) + d - 10) as char
    }
}

/// Dividing a natural number by a base of at least two never makes it larger,
/// and makes a positive one strictly smaller.
pub proof fn lemma_quotient_smaller(n: int, base: int)
    requires
        0 <= n,
        2 <= base,
    ensures
        0 <= n / base <= n,
        0 < n ==> n / base < n,
{
    vstd::arithmetic::div_mod::lemma_div_basics(base);
    if n > 0 {
        vstd::arithmetic::div_mod::lemma_div_decreases(n, base);
    }
    vstd::arithmetic::div_mod::lemma_div_pos_is_pos(n, base);
}

/// `n` written in `base`, zero-padded on the left to at least `width` digits.
pub open spec fn digits(n: nat, base: nat, width: nat) -> Seq<char>
    recommends
        2 <= base <= 16,
    decreases n + width,
{
    if base < 2 {
        Seq::empty()
    } else if n < base && width <= 1 {
        seq![digit_char(n as int)]
    } else {
        proof {
            lemma_quotient_smaller(n as int, base as int);
        }
        digits(n / base, base, if width > 0 { (width - 1) as nat } else { 0 }).push(
            digit_char((n % base) as int),
        )
    }
}

/// Decimal representation, as `u64::to_string` writes it.
pub open spec fn decimal(n: nat) -> Seq<char> {
    digits(n, 10, 1)
}

/// Appends one character with std's `String::push`, which vstd gives no
/// contract: the contract claims that the string's characters afterwards are
/// the old ones followed by `c`.
#[verifier::external_body]
pub(crate) fn push_char(s: &mut String, c: char)
    ensures
        final(s)@ == old(s)@.push(c),
{
    s.push(c);
}

/// A string holding exactly the given characters.
pub fn string_from(chars: &Vec<char>) -> (res: String)
    ensures
        res@ == chars@,
{
    let mut res = String::new();
    let mut i: usize = 0;
    while i < chars.len()
        invariant
            i <= chars@.len(),
            res@ == chars@.take(i as int),
        decreases chars@.len() - i,
    {
        push_char(&mut res, chars[i]);
        i = i + 1;
        assert(res@ =~= chars@.take(i as int));
    }
    assert(chars@.take(chars@.len() as int) =~= chars@);
    res
}

/// The characters of a string slice.
pub fn chars_of(s: &str) -> (res: Vec<char>)
    ensures
        res@ == s@,
{
    let n = s.unicode_len();
    let mut res: Vec<char> = Vec::new();
    let mut i: usize = 0;
    while i < n
        invariant
            n == s@.len(),
            i <= n,
            res@ == s@.take(i as int),
        decreases n - i,
    {
        res.push(s.get_char(i));
        i = i + 1;
        assert(res@ =~= s@.take(i as int));
    }
    assert(s@.take(n as int) =~= s@);
    res
}

/// Whether two string slices hold the same characters.
pub fn str_eq(a: &str, b: &str) -> (res: bool)
    ensures
        res == (a@ == b@),
{
    let n = a.unicode_len();
    let m = b.unicode_len();
    if n != m {
        return false;
    }
    let mut i: usize = 0;
    while i < n
        invariant
            n == a@.len(),
            m == b@.len(),
            n == m,
            i <= n,
            a@.take(i as int) == b@.take(i as int),
        decreases n - i,
    {
        if a.get_char(i) != b.get_char(i) {
            assert(a@[i as int] != b@[i as int]);
            return false;
        }
        assert(a@.take(i + 1) =~= a@.take(i as int).push(a@[i as int]));
        assert(b@.take(i + 1) =~= b@.take(i as int).push(b@[i as int]));
        i = i + 1;
    }
    assert(a@.take(n as int) =~= a@);
    assert(b@.take(n as int) =~= b@);
    true
}

/// Appends a string slice: `out@ + s@`.
pub fn push_str(out: &mut String, s: &str)
    ensures
        final(out)@ == old(out)@ + s@,
{
    out.append(s);
}

fn push_digits(out: &mut String, n: u64, base: u64, width: u64)
    requires
        2 <= base <= 16,
    ensures
        final(out)@ == old(out)@ + digits(n as nat, base as nat, width as nat),
    decreases n + width,
{
    if n < base && width <= 1 {
        push_char(out, digit_exec(n));
    } else {
        proof {
            lemma_quotient_smaller(n as int, base as int);
        }
        let w = if width > 0 { width - 1 } else { 0 };
        push_digits(out, n / base, base, w);
        push_char(out, digit_exec(n % base));
        assert(final(out)@ =~= old(out)@ + digits(n as nat, base as nat, width as nat));
    }
}

fn digit_exec(d: u64) -> (c: char)
    requires
        d < 16,
    ensures
        c == digit_char(d as int),
{
    let c: char = if d < 10 {
        ((48u8 + d as u8) as char)
    } else {
        ((55u8 + d as u8) as char)
    };
    c
}

/// `n` in decimal, as `to_string` writes it.
pub fn decimal_string(n: u64) -> (res: String)
    ensures
        res@ == decimal(n as nat),
{
    let mut res = String::new();
    push_digits(&mut res, n, 10, 1);
    assert(res@ =~= decimal(n as nat));
    res
}

/// Appends `n` written in `base`, zero-padded to at least `width` digits
/// (`{:0width$}`, `{:0width$X}`, `{:0width$o}`).
pub fn push_number(out: &mut String, n: u64, base: u64, width: u64)
    requires
        2 <= base <= 16,
    ensures
        final(out)@ == old(out)@ + digits(n as nat, base as nat, width as nat),
{
    push_digits(out, n, base, width);
}


/// Why an integer did not parse (the kinds of `std::num::IntErrorKind` that
/// decimal parsing can produce).
#[derive(Debug, Clone, Copy, PartialEq, Eq)]
pub enum IntErrorKind {
    Empty,
    InvalidDigit,
    PosOverflow,
    NegOverflow,
}

/// An ASCII decimal digit.
pub open spec fn is_digit(c: char) -> bool {
    '0' <= c && c <= '9'
}

/// The value of a decimal digit character.
pub open spec fn digit_value(c: char) -> int {
    (c as int) - ('0' as int)
}

/// Accumulates decimal digits left to right onto `acc`, failing on the first
/// character that is not a digit or on the first step that passes `max`.
pub open spec fn scan_up(s: Seq<char>, acc: int, max: int) -> Result<int, IntErrorKind>
    decreases s.len(),
{
    if s.len() == 0 {
        Ok(acc)
    } else if !is_digit(s[0]) {
        Err(IntErrorKind::InvalidDigit)
    } else if acc * 10 + digit_value(s[0]) > max {
        Err(IntErrorKind::PosOverflow)
    } else {
        scan_up(s.drop_first(), acc * 10 + digit_value(s[0]), max)
    }
}

/// The negative counterpart of `scan_up`: digits are subtracted, and the
/// first step below `min` fails.
pub open spec fn scan_down(s: Seq<char>, acc: int, min: int) -> Result<int, IntErrorKind>
    decreases s.len(),
{
    if s.len() == 0 {
        Ok(acc)
    } else if !is_digit(s[0]) {
        Err(IntErrorKind::InvalidDigit)
    } else if acc * 10 - digit_value(s[0]) < min {
        Err(IntErrorKind::NegOverflow)
    } else {
        scan_down(s.drop_first(), acc * 10 - digit_value(s[0]), min)
    }
}

/// Decimal parsing of an integer in `min..=max` as `str::parse` does it: an
/// optional `+` (and `-` when `min < 0`) followed by at least one digit.
pub open spec fn parse_int(s: Seq<char>, min: int, max: int) -> Result<int, IntErrorKind> {
    if s.len() == 0 {
        Err(IntErrorKind::Empty)
    } else if s.len() == 1 && (s[0] == '+' || s[0] == '-') {
        Err(IntErrorKind::InvalidDigit)
    } else if s[0] == '+' {
        scan_up(s.drop_first(), 0, max)
    } else if s[0] == '-' && min < 0 {
        scan_down(s.drop_first(), 0, min)
    } else {
        scan_up(s, 0, max)
    }
}

/// Every character of a number written in base ten is a decimal digit, and
/// there is at least one.
pub proof fn lemma_decimal_digits(n: nat, w: nat)
    requires
        w <= 1,
    ensures
        digits(n, 10, w).len() >= 1,
        forall|k: int| 0 <= k < digits(n, 10, w).len() ==> is_digit(#[trigger] digits(n, 10, w)[k]),
    decreases n,
{
    if n >= 10 {
        lemma_quotient_smaller(n as int, 10);
        lemma_decimal_digits(n / 10, 0);
        let d = digits(n / 10, 10, 0);
        assert(digits(n, 10, w) == d.push(digit_char((n % 10) as int)));
        assert forall|k: int| 0 <= k < digits(n, 10, w).len() implies is_digit(
            #[trigger] digits(n, 10, w)[k],
        ) by {
            if k < d.len() {
                assert(digits(n, 10, w)[k] == d[k]);
            }
        }
    }
}

/// Scanning a sequence with one more character continues from where the
/// shorter scan stopped.
proof fn lemma_scan_up_push(s: Seq<char>, c: char, acc: int, max: int)
    ensures
        scan_up(s.push(c), acc, max) == match scan_up(s, acc, max) {
            Ok(v) => scan_up(seq![c], v, max),
            Err(e) => Err(e),
        },
    decreases s.len(),
{
    if s.len() > 0 {
        assert(s.push(c)[0] == s[0]);
        assert(s.push(c).drop_first() =~= s.drop_first().push(c));
        if is_digit(s[0]) && acc * 10 + digit_value(s[0]) <= max {
            lemma_scan_up_push(s.drop_first(), c, acc * 10 + digit_value(s[0]), max);
        }
    } else {
        assert(s.push(c) =~= seq![c]);
    }
}

proof fn lemma_scan_one(c: char, acc: int, max: int)
    requires
        is_digit(c),
        acc * 10 + digit_value(c) <= max,
    ensures
        scan_up(seq![c], acc, max) == Ok::<int, IntErrorKind>(acc * 10 + digit_value(c)),
{
    let one = seq![c];
    assert(one[0] == c);
    assert(one.drop_first().len() == 0);
    assert(scan_up(one.drop_first(), acc * 10 + digit_value(c), max) == Ok::<int, IntErrorKind>(
        acc * 10 + digit_value(c),
    ));
}

proof fn lemma_scan_decimal(n: nat, w: nat, max: int)
    requires
        w <= 1,
        n <= max,
    ensures
        scan_up(digits(n, 10, w), 0, max) == Ok::<int, IntErrorKind>(n as int),
    decreases n,
{
    let d = n % 10;
    let c = digit_char(d as int);
    assert(is_digit(c) && digit_value(c) == d);
    if n < 10 {
        assert(digits(n, 10, w) == seq![c]);
        lemma_scan_one(c, 0, max);
    } else {
        lemma_quotient_smaller(n as int, 10);
        lemma_scan_decimal(n / 10, 0, max);
        vstd::arithmetic::div_mod::lemma_fundamental_div_mod(n as int, 10);
        lemma_scan_up_push(digits(n / 10, 10, 0), c, 0, max);
        lemma_scan_one(c, (n / 10) as int, max);
        assert(digits(n, 10, w) == digits(n / 10, 10, 0).push(c));
    }
}

/// A number written in decimal parses back to itself, in any range that
/// holds it.
pub proof fn lemma_parse_decimal(n: nat, min: int, max: int)
    requires
        min <= 0,
        n <= max,
    ensures
        parse_int(decimal(n), min, max) == Ok::<int, IntErrorKind>(n as int),
{
    lemma_decimal_digits(n, 1);
    lemma_scan_decimal(n, 1, max);
    assert(is_digit(decimal(n)[0]));
}

/// A parse result with its value as an integer.
pub open spec fn widen_u64(r: Result<u64, IntErrorKind>) -> Result<int, IntErrorKind> {
    match r {
        Ok(v) => Ok(v as int),
        Err(e) => Err(e),
    }
}

/// A parse result with its value as an integer.
pub open spec fn widen_i32(r: Result<i32, IntErrorKind>) -> Result<int, IntErrorKind> {
    match r {
        Ok(v) => Ok(v as int),
        Err(e) => Err(e),
    }
}

fn scan_up_exec(v: &Vec<char>, start: usize, max: u64) -> (res: Result<u64, IntErrorKind>)
    requires
        start <= v@.len(),
    ensures
        widen_u64(res) == scan_up(v@.skip(start as int), 0, max as int),
        res matches Ok(x) ==> x <= max,
{
    let mut acc: u64 = 0;
    let mut i: usize = start;
    while i < v.len()
        invariant
            start <= i <= v@.len(),
            acc <= max,
            scan_up(v@.skip(start as int), 0, max as int) == scan_up(
                v@.skip(i as int),
                acc as int,
                max as int,
            ),
        decreases v@.len() - i,
    {
        let c = v[i];
        assert(v@.skip(i as int)[0] == c);
        assert(v@.skip(i as int).drop_first() =~= v@.skip(i + 1));
        if !('0' <= c && c <= '9') {
            return Err(IntErrorKind::InvalidDigit);
        }
        let d = (c as u32 - '0' as u32) as u64;
        let next: u128 = acc as u128 * 10 + d as u128;
        if next > max as u128 {
            return Err(IntErrorKind::PosOverflow);
        }
        acc = next as u64;
        i = i + 1;
    }
    assert(v@.skip(i as int).len() == 0);
    Ok(acc)
}

fn scan_down_exec(v: &Vec<char>, start: usize, min: i32) -> (res: Result<i32, IntErrorKind>)
    requires
        start <= v@.len(),
        min <= 0,
    ensures
        widen_i32(res) == scan_down(v@.skip(start as int), 0, min as int),
{
    let mut acc: i32 = 0;
    let mut i: usize = start;
    while i < v.len()
        invariant
            start <= i <= v@.len(),
            min <= acc <= 0,
            scan_down(v@.skip(start as int), 0, min as int) == scan_down(
                v@.skip(i as int),
                acc as int,
                min as int,
            ),
        decreases v@.len() - i,
    {
        let c = v[i];
        assert(v@.skip(i as int)[0] == c);
        assert(v@.skip(i as int).drop_first() =~= v@.skip(i + 1));
        if !('0' <= c && c <= '9') {
            return Err(IntErrorKind::InvalidDigit);
        }
        let d = (c as u32 - '0' as u32) as i64;
        let next: i64 = acc as i64 * 10 - d;
        if next < min as i64 {
            return Err(IntErrorKind::NegOverflow);
        }
        acc = next as i32;
        i = i + 1;
    }
    assert(v@.skip(i as int).len() == 0);
    Ok(acc)
}

fn scan_up_i32(v: &Vec<char>, start: usize) -> (res: Result<i32, IntErrorKind>)
    requires
        start <= v@.len(),
    ensures
        widen_i32(res) == scan_up(v@.skip(start as int), 0, i32::MAX as int),
{
    match scan_up_exec(v, start, i32::MAX as u64) {
        Ok(x) => Ok(x as i32),
        Err(e) => Err(e),
    }
}

/// Parses an unsigned decimal no larger than `max`: `str::parse::<u64>` when
/// `max` is `u64::MAX`, `::<u32>` for `u32::MAX`, `::<u8>` for `u8::MAX`.
pub fn parse_unsigned(s: &str, max: u64) -> (res: Result<u64, IntErrorKind>)
    ensures
        widen_u64(res) == parse_int(s@, 0, max as int),
{
    let v = chars_of(s);
    if v.len() == 0 {
        return Err(IntErrorKind::Empty);
    }
    if v.len() == 1 && (v[0] == '+' || v[0] == '-') {
        return Err(IntErrorKind::InvalidDigit);
    }
    if v[0] == '+' {
        assert(v@.skip(1) =~= s@.drop_first());
        scan_up_exec(&v, 1, max)
    } else {
        assert(v@.skip(0) =~= s@);
        scan_up_exec(&v, 0, max)
    }
}

/// Parses a signed decimal `i32`: `str::parse::<i32>`.
pub fn parse_i32(s: &str) -> (res: Result<i32, IntErrorKind>)
    ensures
        widen_i32(res) == parse_int(s@, i32::MIN as int, i32::MAX as int),
{
    let v = chars_of(s);
    if v.len() == 0 {
        return Err(IntErrorKind::Empty);
    }
    if v.len() == 1 && (v[0] == '+' || v[0] == '-') {
        return Err(IntErrorKind::InvalidDigit);
    }
    if v[0] == '+' {
        assert(v@.skip(1) =~= s@.drop_first());
        scan_up_i32(&v, 1)
    } else if v[0] == '-' {
        assert(v@.skip(1) =~= s@.drop_first());
        scan_down_exec(&v, 1, i32::MIN)
    } else {
        assert(v@.skip(0) =~= s@);
        scan_up_i32(&v, 0)
    }
}

/// `char::is_whitespace`: the Unicode `White_Space` property.
pub open spec fn is_whitespace(c: char) -> bool {
    ||| ('\t' <= c && c <= '\r')
    ||| c == ' '
    ||| c == '\u{85}'
    ||| c == '\u{a0}'
    ||| c == '\u{1680}'
    ||| ('\u{2000}' <= c && c <= '\u{200a}')
    ||| c == '\u{2028}'
    ||| c == '\u{2029}'
    ||| c == '\u{202f}'
    ||| c == '\u{205f}'
    ||| c == '\u{3000}'
}

/// Whether a character is whitespace, as `is_whitespace` defines it.
pub fn is_whitespace_exec(c: char) -> (res: bool)
    ensures
        res == is_whitespace(c),
{
    ('\t' <= c && c <= '\r') || c == ' ' || c == '\u{85}' || c == '\u{a0}' || c == '\u{1680}'
        || ('\u{2000}' <= c && c <= '\u{200a}') || c == '\u{2028}' || c == '\u{2029}' || c
        == '\u{202f}' || c == '\u{205f}' || c == '\u{3000}'
}

/// `str::trim_start`: leading whitespace removed.
pub open spec fn trim_start(s: Seq<char>) -> Seq<char>
    decreases s.len(),
{
    if s.len() > 0 && is_whitespace(s[0]) {
        trim_start(s.drop_first())
    } else {
        s
    }
}

/// `str::trim_end`: trailing whitespace removed.
pub open spec fn trim_end(s: Seq<char>) -> Seq<char>
    decreases s.len(),
{
    if s.len() > 0 && is_whitespace(s.last()) {
        trim_end(s.drop_last())
    } else {
        s
    }
}

/// `str::trim`: leading and trailing whitespace removed.
pub open spec fn trim(s: Seq<char>) -> Seq<char> {
    trim_end(trim_start(s))
}

/// The characters `lo..hi` of `v`.
pub fn slice_chars(v: &Vec<char>, lo: usize, hi: usize) -> (res: Vec<char>)
    requires
        lo <= hi <= v@.len(),
    ensures
        res@ == v@.subrange(lo as int, hi as int),
{
    let mut res: Vec<char> = Vec::new();
    let mut i = lo;
    while i < hi
        invariant
            lo <= i <= hi <= v@.len(),
            res@ == v@.subrange(lo as int, i as int),
        decreases hi - i,
    {
        res.push(v[i]);
        i = i + 1;
        assert(res@ =~= v@.subrange(lo as int, i as int));
    }
    res
}

/// `trim` on a character vector.
pub fn trim_chars(v: &Vec<char>) -> (res: Vec<char>)
    ensures
        res@ == trim(v@),
{
    let mut lo: usize = 0;
    assert(v@.skip(0) =~= v@);
    while lo < v.len() && is_whitespace_exec(v[lo])
        invariant
            lo <= v@.len(),
            trim_start(v@) == trim_start(v@.skip(lo as int)),
        decreases v@.len() - lo,
    {
        assert(v@.skip(lo as int).drop_first() =~= v@.skip(lo + 1));
        lo = lo + 1;
    }
    assert(trim_start(v@) == v@.skip(lo as int));
    let mut hi: usize = v.len();
    while hi > lo && is_whitespace_exec(v[hi - 1])
        invariant
            lo <= hi <= v@.len(),
            trim(v@) == trim_end(v@.subrange(lo as int, hi as int)),
        decreases hi,
    {
        assert(v@.subrange(lo as int, hi as int).drop_last() =~= v@.subrange(
            lo as int,
            hi - 1,
        ));
        hi = hi - 1;
    }
    assert(v@.skip(lo as int) =~= v@.subrange(lo as int, v@.len() as int));
    slice_chars(v, lo, hi)
}

/// `char::to_ascii_uppercase`.
pub open spec fn ascii_upper(c: char) -> char {
    if 'a' <= c && c <= 'z' {
        ((c as int) - 32) as char
    } else {
        c
    }
}

/// `str::to_ascii_uppercase` on a character vector.
pub fn to_ascii_uppercase(v: &Vec<char>) -> (res: Vec<char>)
    ensures
        res@ == v@.map_values(|c: char| ascii_upper(c)),
{
    let mut res: Vec<char> = Vec::new();
    let mut i: usize = 0;
    while i < v.len()
        invariant
            i <= v@.len(),
            res@ == v@.take(i as int).map_values(|c: char| ascii_upper(c)),
        decreases v@.len() - i,
    {
        let c = v[i];
        let u = if 'a' <= c && c <= 'z' {
            ((c as u32 - 32) as u8) as char
        } else {
            c
        };
        res.push(u);
        i = i + 1;
        assert(res@ =~= v@.take(i as int).map_values(|c: char| ascii_upper(c)));
    }
    assert(v@.take(v@.len() as int) =~= v@);
    res
}

/// `needle` occurs in `hay` at position `at`.
pub open spec fn occurs_at(hay: Seq<char>, needle: Seq<char>, at: int) -> bool {
    0 <= at && at + needle.len() <= hay.len() && hay.subrange(at, at + needle.len()) == needle
}

/// `str::contains` with a string pattern.
pub open spec fn contains(hay: Seq<char>, needle: Seq<char>) -> bool {
    exists|at: int| occurs_at(hay, needle, at)
}

/// `str::starts_with` with a string pattern.
pub open spec fn starts_with(hay: Seq<char>, prefix: Seq<char>) -> bool {
    occurs_at(hay, prefix, 0)
}

fn occurs_at_exec(hay: &Vec<char>, needle: &Vec<char>, at: usize) -> (res: bool)
    requires
        at + needle@.len() <= hay@.len(),
    ensures
        res == occurs_at(hay@, needle@, at as int),
{
    let hl = hay.len();
    let mut j: usize = 0;
    while j < needle.len()
        invariant
            hl == hay@.len(),
            at + needle@.len() <= hay@.len(),
            j <= needle@.len(),
            forall|k: int| 0 <= k < j ==> hay@[at + k] == needle@[k],
        decreases needle@.len() - j,
    {
        if hay[at + j] != needle[j] {
            assert(hay@.subrange(at as int, at + needle@.len())[j as int] != needle@[j as int]);
            return false;
        }
        j = j + 1;
    }
    assert(hay@.subrange(at as int, at + needle@.len()) =~= needle@);
    true
}

/// Whether `needle` occurs in `hay`.
pub fn contains_chars(hay: &Vec<char>, needle: &Vec<char>) -> (res: bool)
    ensures
        res == contains(hay@, needle@),
{
    if needle.len() > hay.len() {
        return false;
    }
    let last = hay.len() - needle.len();
    let mut at: usize = 0;
    loop
        invariant
            at <= last,
            last + needle@.len() == hay@.len(),
            forall|k: int| 0 <= k < at ==> !occurs_at(hay@, needle@, k),
        decreases last - at,
    {
        if occurs_at_exec(hay, needle, at) {
            return true;
        }
        if at == last {
            assert forall|k: int| #![trigger occurs_at(hay@, needle@, k)] !occurs_at(hay@, needle@, k) by {
                if 0 <= k && k <= last {
                }
            }
            return false;
        }
        at = at + 1;
    }
}

/// Whether `hay` starts with `prefix`.
pub fn starts_with_chars(hay: &Vec<char>, prefix: &Vec<char>) -> (res: bool)
    ensures
        res == starts_with(hay@, prefix@),
{
    if prefix.len() > hay.len() {
        false
    } else {
        occurs_at_exec(hay, prefix, 0)
    }
}

/// The codepoint of a character (`c as u32`).
pub fn char_code(c: char) -> (res: u32)
    ensures
        res as int == c as int,
{
    assert(0 <= (c as int) <= 0x10FFFF);
    c as u32
}

/// The index of the first character of `s` that is one of `set`.
pub open spec fn first_index(s: Seq<char>, set: Seq<char>) -> Option<int>
    decreases s.len(),
{
    if s.len() == 0 {
        None
    } else if set.contains(s[0]) {
        Some(0)
    } else {
        match first_index(s.drop_first(), set) {
            Some(i) => Some(i + 1),
            None => None,
        }
    }
}

/// `first_index` finds the first member of the set, and `None` means there is none.
pub proof fn lemma_first_index(s: Seq<char>, set: Seq<char>)
    ensures
        first_index(s, set) matches Some(i) ==> 0 <= i < s.len() && set.contains(s[i]) && forall|
            k: int,
        | 0 <= k < i ==> !set.contains(#[trigger] s[k]),
        first_index(s, set) is None ==> forall|k: int|
            0 <= k < s.len() ==> !set.contains(#[trigger] s[k]),
    decreases s.len(),
{
    if s.len() > 0 {
        lemma_first_index(s.drop_first(), set);
        assert forall|k: int| 0 < k < s.len() implies s[k] == s.drop_first()[k - 1] by {}
    }
}

/// `str::split` on one separator character.
pub open spec fn split(s: Seq<char>, sep: char) -> Seq<Seq<char>>
    decreases s.len(),
{
    match first_index(s, seq![sep]) {
        None => seq![s],
        Some(i) => {
            proof {
                lemma_first_index(s, seq![sep]);
            }
            if 0 <= i < s.len() {
                seq![s.take(i)] + split(s.skip(i + 1), sep)
            } else {
                seq![s]
            }
        },
    }
}

/// The first index in `lo..hi` holding one of the characters of `set`.
pub fn find_first(v: &Vec<char>, lo: usize, hi: usize, set: &Vec<char>) -> (res: Option<usize>)
    requires
        lo <= hi <= v@.len(),
    ensures
        match res {
            Some(i) => lo <= i < hi && first_index(v@.subrange(lo as int, hi as int), set@) == Some(
                i - lo,
            ),
            None => first_index(v@.subrange(lo as int, hi as int), set@) is None,
        },
{
    let mut i = lo;
    while i < hi
        invariant
            lo <= i <= hi <= v@.len(),
            forall|k: int| lo <= k < i ==> !set@.contains(#[trigger] v@[k]),
        decreases hi - i,
    {
        let mut j: usize = 0;
        let mut found = false;
        while j < set.len()
            invariant
                lo <= i < hi <= v@.len(),
                j <= set@.len(),
                found == exists|m: int| 0 <= m < j && set@[m] == v@[i as int],
            decreases set@.len() - j,
        {
            if set[j] == v[i] {
                found = true;
            }
            j = j + 1;
        }
        if found {
            proof {
                let s = v@.subrange(lo as int, hi as int);
                lemma_first_index(s, set@);
                assert(set@.contains(s[i - lo]));
                assert forall|k: int| 0 <= k < i - lo implies !set@.contains(#[trigger] s[k]) by {
                    assert(s[k] == v@[lo + k]);
                }
                if let Some(f) = first_index(s, set@) {
                    if f < i - lo {
                        assert(s[f] == v@[lo + f]);
                    }
                    if f > i - lo {
                    }
                } else {
                }
            }
            return Some(i);
        }
        proof {
            assert(!set@.contains(v@[i as int]));
        }
        i = i + 1;
    }
    proof {
        let s = v@.subrange(lo as int, hi as int);
        lemma_first_index(s, set@);
        if let Some(f) = first_index(s, set@) {
            assert(s[f] == v@[lo + f]);
        }
    }
    None
}

} // verus!

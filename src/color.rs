//! Color specs: `#rgb`, `#rrggbb`, `rgb(r,g,b)` and a fixed table of names.

use crate::text::{chars_eq, chars_of, copy_range, lower, lower_chars, trim, trim_chars};
use vstd::prelude::*;

verus! {

/// A terminal color.
#[derive(Clone, Copy, Debug, PartialEq, Eq, Structural)]
pub enum Color {
    Black,
    White,
    Red,
    DarkRed,
    Yellow,
    DarkYellow,
    Green,
    Blue,
    Cyan,
    Magenta,
    Grey,
    DarkGrey,
    Rgb { r: u8, g: u8, b: u8 },
}

pub open spec fn hex_digit(c: char) -> Option<int> {
    if '0' <= c && c <= '9' {
        Some(c as int - '0' as int)
    } else if 'a' <= c && c <= 'f' {
        Some(c as int - 'a' as int + 10)
    } else if 'A' <= c && c <= 'F' {
        Some(c as int - 'A' as int + 10)
    } else {
        None
    }
}

pub open spec fn all_hex(s: Seq<char>) -> bool {
    forall|i: int| 0 <= i < s.len() ==> #[trigger] hex_digit(s[i]).is_some()
}

pub open spec fn hx(c: char) -> int {
    hex_digit(c).unwrap()
}

/// `#rgb` (each digit times 17) or `#rrggbb`.
pub open spec fn hex_color(s: Seq<char>) -> Option<Color> {
    if s.len() == 4 && s[0] == '#' && all_hex(s.drop_first()) {
        Some(Color::Rgb { r: (hx(s[1]) * 17) as u8, g: (hx(s[2]) * 17) as u8, b: (hx(s[3]) * 17) as u8 })
    } else if s.len() == 7 && s[0] == '#' && all_hex(s.drop_first()) {
        Some(
            Color::Rgb {
                r: (hx(s[1]) * 16 + hx(s[2])) as u8,
                g: (hx(s[3]) * 16 + hx(s[4])) as u8,
                b: (hx(s[5]) * 16 + hx(s[6])) as u8,
            },
        )
    } else {
        None
    }
}

pub open spec fn is_digit(c: char) -> bool {
    '0' <= c && c <= '9'
}

pub open spec fn all_digits(s: Seq<char>) -> bool {
    forall|i: int| 0 <= i < s.len() ==> #[trigger] is_digit(s[i])
}

/// The value of a string of decimal digits.
pub open spec fn dec_value(s: Seq<char>) -> int
    decreases s.len(),
{
    if s.len() == 0 {
        0
    } else {
        dec_value(s.drop_last()) * 10 + (s.last() as int - '0' as int)
    }
}

/// A byte written in decimal: one or more digits, value at most 255.
pub open spec fn dec_byte(s: Seq<char>) -> Option<u8> {
    if s.len() > 0 && all_digits(s) && dec_value(s) <= 255 {
        Some(dec_value(s) as u8)
    } else {
        None
    }
}

/// `s` cut at every `sep`, as `str::split`.
pub open spec fn split_plain(s: Seq<char>, sep: char) -> Seq<Seq<char>>
    decreases s.len(),
{
    if s.len() == 0 {
        seq![Seq::<char>::empty()]
    } else {
        let rest = split_plain(s.drop_last(), sep);
        if s.last() == sep {
            rest.push(Seq::<char>::empty())
        } else {
            rest.update(rest.len() - 1, rest.last().push(s.last()))
        }
    }
}

pub open spec fn rgb_prefix() -> Seq<char> {
    seq!['r', 'g', 'b', '(']
}

/// `rgb(r,g,b)`, case-insensitive, each part a trimmed decimal byte.
pub open spec fn rgb_color(s: Seq<char>) -> Option<Color> {
    let l = lower(s);
    if l.len() >= 5 && l.subrange(0, 4) == rgb_prefix() && l.last() == ')' {
        let parts = split_plain(l.subrange(4, l.len() - 1), ',');
        if parts.len() == 3 && dec_byte(trim(parts[0])).is_some() && dec_byte(
            trim(parts[1]),
        ).is_some() && dec_byte(trim(parts[2])).is_some() {
            Some(
                Color::Rgb {
                    r: dec_byte(trim(parts[0])).unwrap(),
                    g: dec_byte(trim(parts[1])).unwrap(),
                    b: dec_byte(trim(parts[2])).unwrap(),
                },
            )
        } else {
            None
        }
    } else {
        None
    }
}

/// The fixed table of color names (already lower-cased).
pub open spec fn named_color(s: Seq<char>) -> Option<Color> {
    if s == seq!['b', 'l', 'a', 'c', 'k'] {
        Some(Color::Black)
    } else if s == seq!['w', 'h', 'i', 't', 'e'] {
        Some(Color::White)
    } else if s == seq!['r', 'e', 'd'] || s == seq!['l', 'i', 'g', 'h', 't', '_', 'r', 'e', 'd'] {
        Some(Color::Red)
    } else if s == seq!['d', 'a', 'r', 'k', '_', 'r', 'e', 'd'] {
        Some(Color::DarkRed)
    } else if s == seq!['y', 'e', 'l', 'l', 'o', 'w'] || s == seq!['l', 'i', 'g', 'h', 't', '_', 'y', 'e', 'l', 'l', 'o', 'w'] {
        Some(Color::Yellow)
    } else if s == seq!['d', 'a', 'r', 'k', '_', 'y', 'e', 'l', 'l', 'o', 'w'] || s == seq!['o', 'r', 'a', 'n', 'g', 'e'] {
        Some(Color::DarkYellow)
    } else if s == seq!['g', 'r', 'e', 'e', 'n'] || s == seq!['l', 'i', 'g', 'h', 't', '_', 'g', 'r', 'e', 'e', 'n'] {
        Some(Color::Green)
    } else if s == seq!['b', 'l', 'u', 'e'] || s == seq!['l', 'i', 'g', 'h', 't', '_', 'b', 'l', 'u', 'e'] {
        Some(Color::Blue)
    } else if s == seq!['c', 'y', 'a', 'n'] || s == seq!['l', 'i', 'g', 'h', 't', '_', 'c', 'y', 'a', 'n'] {
        Some(Color::Cyan)
    } else if s == seq!['m', 'a', 'g', 'e', 'n', 't', 'a'] || s == seq!['l', 'i', 'g', 'h', 't', '_', 'm', 'a', 'g', 'e', 'n', 't', 'a'] {
        Some(Color::Magenta)
    } else if s == seq!['g', 'r', 'e', 'y'] || s == seq!['g', 'r', 'a', 'y'] {
        Some(Color::Grey)
    } else if s == seq!['d', 'a', 'r', 'k', '_', 'g', 'r', 'e', 'y'] || s == seq!['d', 'a', 'r', 'k', '_', 'g', 'r', 'a', 'y'] {
        Some(Color::DarkGrey)
    } else {
        None
    }
}

/// What a color spec denotes: hex first, then `rgb(...)`, then a name.
pub open spec fn color_of(raw: Seq<char>) -> Option<Color> {
    let t = trim(raw);
    if hex_color(t).is_some() {
        hex_color(t)
    } else if rgb_color(t).is_some() {
        rgb_color(t)
    } else {
        named_color(lower(t))
    }
}

fn hex_digit_exec(c: char) -> (r: Option<u8>)
    ensures
        r.is_some() == hex_digit(c).is_some(),
        r.is_some() ==> r.unwrap() as int == hex_digit(c).unwrap(),
        r.is_some() ==> r.unwrap() < 16,
{
    if '0' <= c && c <= '9' {
        Some((c as u8) - ('0' as u8))
    } else if 'a' <= c && c <= 'f' {
        Some((c as u8) - ('a' as u8) + 10)
    } else if 'A' <= c && c <= 'F' {
        Some((c as u8) - ('A' as u8) + 10)
    } else {
        None
    }
}

/// Parses `#rgb` or `#rrggbb`.
pub fn parse_hex_color(s: &[char]) -> (r: Option<Color>)
    ensures
        r == hex_color(s@),
{
    if (s.len() != 4 && s.len() != 7) || s[0] != '#' {
        return None;
    }
    let mut d: Vec<u8> = Vec::new();
    let mut k: usize = 1;
    while k < s.len()
        invariant
            1 <= k <= s@.len(),
            s@.len() == 4 || s@.len() == 7,
            d@.len() == k - 1,
            forall|m: int| 1 <= m < k ==> hex_digit(#[trigger] s@[m]).is_some(),
            forall|m: int| 1 <= m < k ==> d@[m - 1] as int == hx(#[trigger] s@[m]) && d@[m - 1] < 16,
        decreases s@.len() - k,
    {
        match hex_digit_exec(s[k]) {
            Some(v) => d.push(v),
            None => {
                proof {
                    assert(s@.drop_first()[k - 1] == s@[k as int]);
                }
                return None;
            },
        }
        k = k + 1;
    }
    proof {
        assert forall|i: int| 0 <= i < s@.drop_first().len() implies #[trigger] hex_digit(
            s@.drop_first()[i],
        ).is_some() by {
            assert(s@.drop_first()[i] == s@[i + 1]);
        }
    }
    assert(d@[0] == hx(s@[1]));
    if s.len() == 4 {
        Some(Color::Rgb { r: d[0] * 17, g: d[1] * 17, b: d[2] * 17 })
    } else {
        assert(d@[3] == hx(s@[4]) && d@[4] == hx(s@[5]) && d@[5] == hx(s@[6]));
        Some(Color::Rgb { r: d[0] * 16 + d[1], g: d[2] * 16 + d[3], b: d[4] * 16 + d[5] })
    }
}

/// The pieces of `s` as plain sequences.
pub open spec fn views(v: Seq<Vec<char>>) -> Seq<Seq<char>> {
    v.map_values(|x: Vec<char>| x@)
}

/// Cuts `s` at every `sep`.
pub fn split_plain_exec(s: &[char], sep: char) -> (r: Vec<Vec<char>>)
    ensures
        views(r@) == split_plain(s@, sep),
{
    let mut done: Vec<Vec<char>> = Vec::new();
    let mut cur: Vec<char> = Vec::new();
    let mut k: usize = 0;
    assert(views(done@).push(cur@) =~= split_plain(s@.subrange(0, 0), sep));
    while k < s.len()
        invariant
            k <= s@.len(),
            views(done@).push(cur@) == split_plain(s@.subrange(0, k as int), sep),
        decreases s@.len() - k,
    {
        let ghost pre = s@.subrange(0, k as int);
        assert(s@.subrange(0, k + 1).drop_last() =~= pre);
        if s[k] == sep {
            done.push(cur);
            cur = Vec::new();
            assert(views(done@).push(cur@) =~= split_plain(pre, sep).push(Seq::<char>::empty()));
        } else {
            let ghost old_cur = cur@;
            cur.push(s[k]);
            assert(views(done@).push(cur@) =~= split_plain(pre, sep).update(
                split_plain(pre, sep).len() - 1,
                old_cur.push(s@[k as int]),
            ));
        }
        k = k + 1;
    }
    done.push(cur);
    assert(s@.subrange(0, s@.len() as int) =~= s@);
    assert(views(done@) =~= split_plain(s@, sep));
    done
}

proof fn lemma_dec_nonneg(s: Seq<char>)
    requires
        all_digits(s),
    ensures
        dec_value(s) >= 0,
    decreases s.len(),
{
    if s.len() > 0 {
        assert(is_digit(s[s.len() - 1]));
        lemma_dec_nonneg(s.drop_last());
    }
}

proof fn lemma_dec_mono(s: Seq<char>, i: int, j: int)
    requires
        0 <= i <= j <= s.len(),
        all_digits(s),
    ensures
        dec_value(s.subrange(0, j)) >= dec_value(s.subrange(0, i)),
    decreases j - i,
{
    if i < j {
        lemma_dec_mono(s, i, j - 1);
        assert(s.subrange(0, j).drop_last() =~= s.subrange(0, j - 1));
        assert(is_digit(s[j - 1]));
        lemma_dec_nonneg(s.subrange(0, j - 1));
    }
}

/// Parses a decimal number of digits only, at most `max`.
pub fn parse_dec(s: &[char], max: u64) -> (r: Option<u64>)
    ensures
        r.is_some() == (s@.len() > 0 && all_digits(s@) && dec_value(s@) <= max),
        r.is_some() ==> r.unwrap() as int == dec_value(s@),
{
    if s.len() == 0 {
        return None;
    }
    let mut acc: u128 = 0;
    let mut k: usize = 0;
    assert(s@.subrange(0, 0) =~= Seq::<char>::empty());
    while k < s.len()
        invariant
            k <= s@.len(),
            all_digits(s@.subrange(0, k as int)),
            acc as int == dec_value(s@.subrange(0, k as int)),
            acc <= max,
        decreases s@.len() - k,
    {
        let c = s[k];
        if !('0' <= c && c <= '9') {
            assert(!is_digit(s@[k as int]));
            return None;
        }
        assert(s@.subrange(0, k + 1).drop_last() =~= s@.subrange(0, k as int));
        let v: u128 = acc * 10 + ((c as u32) - ('0' as u32)) as u128;
        assert(all_digits(s@.subrange(0, k + 1))) by {
            assert forall|m: int| 0 <= m < k + 1 implies #[trigger] is_digit(
                s@.subrange(0, k + 1)[m],
            ) by {
                if m < k {
                    assert(s@.subrange(0, k + 1)[m] == s@.subrange(0, k as int)[m]);
                }
            }
        }
        if v > max as u128 {
            proof {
                if all_digits(s@) {
                    lemma_dec_mono(s@, k + 1, s@.len() as int);
                    assert(s@.subrange(0, s@.len() as int) =~= s@);
                }
            }
            return None;
        }
        acc = v;
        k = k + 1;
    }
    assert(s@.subrange(0, s@.len() as int) =~= s@);
    Some(acc as u64)
}

/// Parses a decimal byte (`0`..`255`, digits only).
pub fn parse_dec_byte(s: &[char]) -> (r: Option<u8>)
    ensures
        r == dec_byte(s@),
{
    match parse_dec(s, 255) {
        Some(v) => Some(v as u8),
        None => None,
    }
}

/// Parses `rgb(r,g,b)`.
pub fn parse_rgb_color(s: &[char]) -> (r: Option<Color>)
    ensures
        r == rgb_color(s@),
{
    let l = lower_chars(s);
    let n = l.len();
    if n < 5 || !chars_eq(copy_range(l.as_slice(), 0, 4).as_slice(), &['r', 'g', 'b', '('])
        || l[n - 1] != ')' {
        return None;
    }
    let inner = copy_range(l.as_slice(), 4, n - 1);
    let parts = split_plain_exec(inner.as_slice(), ',');
    if parts.len() != 3 {
        return None;
    }
    assert(views(parts@)[0] == parts@[0]@ && views(parts@)[1] == parts@[1]@ && views(parts@)[2]
        == parts@[2]@);
    let a = trim_chars(parts[0].as_slice());
    let b = trim_chars(parts[1].as_slice());
    let c = trim_chars(parts[2].as_slice());
    match (parse_dec_byte(a.as_slice()), parse_dec_byte(b.as_slice()), parse_dec_byte(c.as_slice())) {
        (Some(r), Some(g), Some(bb)) => Some(Color::Rgb { r, g, b: bb }),
        _ => None,
    }
}

/// Looks up a lower-cased color name.
pub fn named_color_exec(l: &[char]) -> (r: Option<Color>)
    ensures
        r == named_color(l@),
{
    if chars_eq(l, &['b', 'l', 'a', 'c', 'k']) {
        Some(Color::Black)
    } else if chars_eq(l, &['w', 'h', 'i', 't', 'e']) {
        Some(Color::White)
    } else if chars_eq(l, &['r', 'e', 'd']) || chars_eq(
        l,
        &['l', 'i', 'g', 'h', 't', '_', 'r', 'e', 'd'],
    ) {
        Some(Color::Red)
    } else if chars_eq(l, &['d', 'a', 'r', 'k', '_', 'r', 'e', 'd']) {
        Some(Color::DarkRed)
    } else if chars_eq(l, &['y', 'e', 'l', 'l', 'o', 'w']) || chars_eq(
        l,
        &['l', 'i', 'g', 'h', 't', '_', 'y', 'e', 'l', 'l', 'o', 'w'],
    ) {
        Some(Color::Yellow)
    } else if chars_eq(l, &['d', 'a', 'r', 'k', '_', 'y', 'e', 'l', 'l', 'o', 'w']) || chars_eq(
        l,
        &['o', 'r', 'a', 'n', 'g', 'e'],
    ) {
        Some(Color::DarkYellow)
    } else if chars_eq(l, &['g', 'r', 'e', 'e', 'n']) || chars_eq(
        l,
        &['l', 'i', 'g', 'h', 't', '_', 'g', 'r', 'e', 'e', 'n'],
    ) {
        Some(Color::Green)
    } else if chars_eq(l, &['b', 'l', 'u', 'e']) || chars_eq(
        l,
        &['l', 'i', 'g', 'h', 't', '_', 'b', 'l', 'u', 'e'],
    ) {
        Some(Color::Blue)
    } else if chars_eq(l, &['c', 'y', 'a', 'n']) || chars_eq(
        l,
        &['l', 'i', 'g', 'h', 't', '_', 'c', 'y', 'a', 'n'],
    ) {
        Some(Color::Cyan)
    } else if chars_eq(l, &['m', 'a', 'g', 'e', 'n', 't', 'a']) || chars_eq(
        l,
        &['l', 'i', 'g', 'h', 't', '_', 'm', 'a', 'g', 'e', 'n', 't', 'a'],
    ) {
        Some(Color::Magenta)
    } else if chars_eq(l, &['g', 'r', 'e', 'y']) || chars_eq(l, &['g', 'r', 'a', 'y']) {
        Some(Color::Grey)
    } else if chars_eq(l, &['d', 'a', 'r', 'k', '_', 'g', 'r', 'e', 'y']) || chars_eq(
        l,
        &['d', 'a', 'r', 'k', '_', 'g', 'r', 'a', 'y'],
    ) {
        Some(Color::DarkGrey)
    } else {
        None
    }
}

/// Resolves a color spec: `#rgb` / `#rrggbb`, then `rgb(r,g,b)`, then a name
/// (case-insensitive); surrounding whitespace is ignored.
pub fn parse_color(raw: &[char]) -> (r: Option<Color>)
    ensures
        r == color_of(raw@),
{
    let t = trim_chars(raw);
    if let Some(c) = parse_hex_color(t.as_slice()) {
        return Some(c);
    }
    if let Some(c) = parse_rgb_color(t.as_slice()) {
        return Some(c);
    }
    let l = lower_chars(t.as_slice());
    named_color_exec(l.as_slice())
}

/// Resolves a color spec given as a string.
pub fn parse_color_str(raw: &str) -> (r: Option<Color>)
    ensures
        r == color_of(raw@),
{
    let v = chars_of(raw);
    parse_color(v.as_slice())
}

} // verus!

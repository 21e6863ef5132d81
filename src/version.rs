//! Release tags and their comparison.

use crate::color::{all_digits, dec_value, parse_dec, split_plain, split_plain_exec, views};
use crate::text::{chars_of, copy_range, string_of, trim, trim_chars};
use core::cmp::Ordering;
use vstd::prelude::*;

verus! {

pub open spec fn is_v(c: char) -> bool {
    c == 'v' || c == 'V'
}

/// `s` without its leading `v` / `V` characters.
pub open spec fn strip_vs(s: Seq<char>) -> Seq<char>
    decreases s.len(),
{
    if s.len() > 0 && is_v(s[0]) {
        strip_vs(s.drop_first())
    } else {
        s
    }
}

/// The version this build reports.
pub open spec fn current_tag_chars() -> Seq<char> {
    seq!['0', '.', '4', '.', '1']
}

/// A tag in canonical form: trimmed, with one leading `v`; a blank tag is
/// the current version.
pub open spec fn tag_of(raw: Seq<char>) -> Seq<char> {
    let t = trim(raw);
    if t.len() == 0 {
        seq!['v'] + strip_vs(current_tag_chars())
    } else if is_v(t[0]) {
        seq!['v'] + trim(t.drop_first())
    } else {
        seq!['v'] + t
    }
}

/// The numeric segments of a version: dot-separated runs of digits, each
/// fitting in `u64`, after the leading `v`s.
pub open spec fn segments_of(version: Seq<char>) -> Option<Seq<int>> {
    let clean = strip_vs(trim(version));
    let parts = split_plain(clean, '.');
    if clean.len() == 0 {
        None
    } else if forall|i: int|
        0 <= i < parts.len() ==> #[trigger] parts[i].len() > 0 && all_digits(parts[i]) && dec_value(
            parts[i],
        ) <= u64::MAX {
        Some(Seq::new(parts.len(), |i: int| dec_value(parts[i])))
    } else {
        None
    }
}

pub open spec fn as_ints(v: Seq<u64>) -> Seq<int> {
    v.map_values(|x: u64| x as int)
}

/// Segment `i`, zero past the end.
pub open spec fn seg_at(a: Seq<int>, i: int) -> int {
    if 0 <= i < a.len() {
        a[i]
    } else {
        0
    }
}

/// Compares segment by segment from `i` on; missing segments count as zero.
pub open spec fn cmp_from(a: Seq<int>, b: Seq<int>, i: int) -> Ordering
    decreases a.len() + b.len() - i,
{
    if i >= a.len() && i >= b.len() {
        Ordering::Equal
    } else if seg_at(a, i) < seg_at(b, i) {
        Ordering::Less
    } else if seg_at(a, i) > seg_at(b, i) {
        Ordering::Greater
    } else if i < 0 {
        Ordering::Equal
    } else {
        cmp_from(a, b, i + 1)
    }
}

pub open spec fn version_cmp(remote: Seq<char>, current: Seq<char>) -> Option<Ordering> {
    match (segments_of(remote), segments_of(current)) {
        (Some(a), Some(b)) => Some(cmp_from(a, b, 0)),
        _ => None,
    }
}

fn strip_vs_exec(s: &[char]) -> (r: Vec<char>)
    ensures
        r@ == strip_vs(s@),
{
    let n = s.len();
    let mut i: usize = 0;
    assert(s@.subrange(0, n as int) =~= s@);
    while i < n && (s[i] == 'v' || s[i] == 'V')
        invariant
            i <= n == s@.len(),
            strip_vs(s@.subrange(i as int, n as int)) == strip_vs(s@),
        decreases n - i,
    {
        assert(s@.subrange(i as int, n as int).drop_first() =~= s@.subrange(i + 1, n as int));
        i = i + 1;
    }
    copy_range(s, i, n)
}

/// The canonical form of a release tag: `v` and the trimmed number.
pub fn normalize_tag(raw: &str) -> (r: String)
    ensures
        r@ == tag_of(raw@),
{
    let v = chars_of(raw);
    let t = trim_chars(v.as_slice());
    let mut out: Vec<char> = Vec::new();
    out.push('v');
    let rest: Vec<char> = if t.len() == 0 {
        let cur: &[char] = &['0', '.', '4', '.', '1'];
        strip_vs_exec(cur)
    } else if t[0] == 'v' || t[0] == 'V' {
        let tail = copy_range(t.as_slice(), 1, t.len());
        assert(tail@ =~= t@.drop_first());
        trim_chars(tail.as_slice())
    } else {
        t
    };
    let mut k: usize = 0;
    while k < rest.len()
        invariant
            k <= rest@.len(),
            out@ == seq!['v'] + rest@.subrange(0, k as int),
        decreases rest@.len() - k,
    {
        out.push(rest[k]);
        assert(seq!['v'] + rest@.subrange(0, k + 1) =~= (seq!['v'] + rest@.subrange(0, k as int)).push(rest@[k as int]));
        k = k + 1;
    }
    assert(rest@.subrange(0, rest@.len() as int) =~= rest@);
    string_of(out.as_slice())
}

/// The numeric segments of a version string, or `None` when it is not
/// dot-separated numbers.
pub fn parse_version_segments(version: &str) -> (r: Option<Vec<u64>>)
    ensures
        r matches Some(v) ==> segments_of(version@) == Some(as_ints(v@)),
        r is None ==> segments_of(version@) is None,
{
    let v = chars_of(version);
    let t = trim_chars(v.as_slice());
    let clean = strip_vs_exec(t.as_slice());
    if clean.len() == 0 {
        return None;
    }
    let parts = split_plain_exec(clean.as_slice(), '.');
    let ghost ps = split_plain(clean@, '.');
    let mut out: Vec<u64> = Vec::new();
    let mut i: usize = 0;
    while i < parts.len()
        invariant
            i <= parts@.len(),
            views(parts@) == ps,
            ps == split_plain(clean@, '.'),
            clean@ == strip_vs(trim(version@)),
            clean@.len() > 0,
            out@.len() == i,
            forall|m: int| 0 <= m < i ==> #[trigger] ps[m].len() > 0 && all_digits(ps[m]) && dec_value(ps[m]) <= u64::MAX,
            forall|m: int| 0 <= m < i ==> #[trigger] out@[m] as int == dec_value(ps[m]),
        decreases parts@.len() - i,
    {
        assert(ps[i as int] == parts@[i as int]@);
        match parse_dec(parts[i].as_slice(), u64::MAX) {
            Some(x) => {
                out.push(x);
            },
            None => {
                assert(!(ps[i as int].len() > 0 && all_digits(ps[i as int]) && dec_value(ps[i as int]) <= u64::MAX));
                return None;
            },
        }
        i = i + 1;
    }
    assert(as_ints(out@) =~= Seq::new(ps.len(), |i: int| dec_value(ps[i])));
    Some(out)
}

/// Compares two versions segment by segment; `None` when either does not parse.
pub fn compare_versions(remote: &str, current: &str) -> (r: Option<Ordering>)
    ensures
        r == version_cmp(remote@, current@),
{
    let a = match parse_version_segments(remote) {
        Some(a) => a,
        None => {
            return None;
        },
    };
    let b = match parse_version_segments(current) {
        Some(b) => b,
        None => {
            return None;
        },
    };
    let ghost sa = as_ints(a@);
    let ghost sb = as_ints(b@);
    let max_len = if a.len() > b.len() {
        a.len()
    } else {
        b.len()
    };
    let mut i: usize = 0;
    while i < max_len
        invariant
            max_len == if a@.len() > b@.len() { a@.len() } else { b@.len() },
            i <= max_len,
            sa == as_ints(a@),
            sb == as_ints(b@),
            cmp_from(sa, sb, i as int) == cmp_from(sa, sb, 0),
            version_cmp(remote@, current@) == Some(cmp_from(sa, sb, 0)),
        decreases max_len - i,
    {
        let av: u64 = if i < a.len() {
            a[i]
        } else {
            0
        };
        let bv: u64 = if i < b.len() {
            b[i]
        } else {
            0
        };
        assert(sa.len() == a@.len() && sb.len() == b@.len());
        assert(av as int == seg_at(sa, i as int));
        assert(bv as int == seg_at(sb, i as int));
        if av < bv {
            return Some(Ordering::Less);
        }
        if av > bv {
            return Some(Ordering::Greater);
        }
        i = i + 1;
    }
    Some(Ordering::Equal)
}

/// `remote` is a strictly later version than `current`.
pub fn is_version_newer(remote: &str, current: &str) -> (r: bool)
    ensures
        r == (version_cmp(remote@, current@) == Some(Ordering::Greater)),
{
    match compare_versions(remote, current) {
        Some(Ordering::Greater) => true,
        _ => false,
    }
}

/// The updater script to run.
#[derive(Clone, Copy, Debug, PartialEq, Eq, Structural)]
pub enum VersionScript {
    Bat,
    Sh,
}

/// Which updater script runs, given which exist: on Windows the batch file
/// first, elsewhere the shell script first.
pub fn select_version_script(bat_exists: bool, sh_exists: bool, windows: bool) -> (r: Option<VersionScript>)
    ensures
        r == (if windows {
            if bat_exists { Some(VersionScript::Bat) } else if sh_exists { Some(VersionScript::Sh) } else { None }
        } else {
            if sh_exists { Some(VersionScript::Sh) } else if bat_exists { Some(VersionScript::Bat) } else { None }
        }),
{
    if windows {
        if bat_exists {
            return Some(VersionScript::Bat);
        }
        if sh_exists {
            return Some(VersionScript::Sh);
        }
        None
    } else {
        if sh_exists {
            return Some(VersionScript::Sh);
        }
        if bat_exists {
            return Some(VersionScript::Bat);
        }
        None
    }
}

} // verus!

//! Inline color markup.
//!
//! A text that starts with `f%` holds literal characters and `{...}` blocks of
//! `|`-separated commands `name:arg[>count]`. `tc` sets the foreground, `bg`
//! the background; `clear` goes back to the base color of the call, and a
//! count applies the color to exactly that many following characters. A
//! backslash escapes the next character (`\n` is a line break). Malformed
//! blocks never abort the parse: each becomes a visible error token.

use crate::color::{all_digits, color_of, dec_value, parse_color, parse_dec, views, Color};
use crate::text::{
    chars_eq, chars_eq_ignore_case, chars_of, copy_range, eq_ignore_case, lower, lower_chars, string_of, trim,
    trim_chars,
};
use vstd::prelude::*;

verus! {

/// Foreground and background of a character; `None` leaves the terminal's own.
#[derive(Clone, Copy, Debug, PartialEq, Eq, Structural)]
pub struct Style {
    pub fg: Option<Color>,
    pub bg: Option<Color>,
}

/// Parse state while expanding one markup text.
#[derive(Clone, Copy, Debug, PartialEq, Eq, Structural)]
pub struct StyleState {
    pub base: Style,
    pub cur: Style,
    pub fg_count: Option<usize>,
    pub bg_count: Option<usize>,
    pub fg_need_clear: bool,
    pub bg_need_clear: bool,
}

/// Why a block was replaced by an error token.
#[derive(Clone, Copy, Debug, PartialEq, Eq, Structural)]
pub enum MarkupError {
    EmptyBlock,
    Unclosed,
    Invalid,
    Unterminated,
}

/// A maximal span of characters that share one style.
#[derive(Clone, Debug)]
pub struct StyledRun {
    pub text: String,
    pub fg: Option<Color>,
    pub bg: Option<Color>,
}

impl StyledRun {
    pub open spec fn view(&self) -> (Seq<char>, Style) {
        (self.text@, Style { fg: self.fg, bg: self.bg })
    }
}

pub open spec fn reason_text(e: MarkupError) -> Seq<char> {
    match e {
        MarkupError::EmptyBlock => seq!['e', 'm', 'p', 't', 'y'],
        MarkupError::Unclosed => seq!['u', 'n', 'c', 'l', 'o', 's', 'e', 'd'],
        MarkupError::Invalid => seq!['i', 'n', 'v', 'a', 'l', 'i', 'd'],
        MarkupError::Unterminated => seq!['u', 'n', 't', 'e', 'r', 'm', 'i', 'n', 'a', 't', 'e', 'd'],
    }
}

/// Error tokens are drawn in red on the terminal's own background.
pub open spec fn alert_style() -> Style {
    Style { fg: Some(Color::Red), bg: None }
}

/// The text of an error token: the reason in braces.
pub open spec fn error_token(e: MarkupError) -> Seq<char> {
    seq!['{'] + reason_text(e) + seq!['}']
}

pub open spec fn error_cells(e: MarkupError) -> Seq<(char, Style)> {
    error_token(e).map_values(|c: char| (c, alert_style()))
}

/// `s` cut at every unescaped `sep`, escapes removed, each piece trimmed.
pub open spec fn split_esc_acc(
    s: Seq<char>,
    sep: char,
    cur: Seq<char>,
    done: Seq<Seq<char>>,
) -> Seq<Seq<char>>
    decreases s.len(),
{
    if s.len() == 0 {
        done.push(trim(cur))
    } else if s[0] == '\\' {
        if s.len() == 1 {
            done.push(trim(cur.push('\\')))
        } else {
            split_esc_acc(s.subrange(2, s.len() as int), sep, cur.push(s[1]), done)
        }
    } else if s[0] == sep {
        split_esc_acc(s.drop_first(), sep, Seq::<char>::empty(), done.push(trim(cur)))
    } else {
        split_esc_acc(s.drop_first(), sep, cur.push(s[0]), done)
    }
}

pub open spec fn split_esc(s: Seq<char>, sep: char) -> Seq<Seq<char>> {
    split_esc_acc(s, sep, Seq::<char>::empty(), Seq::<Seq<char>>::empty())
}

/// Position of the first unescaped `}` at or after `i`.
pub open spec fn find_close(s: Seq<char>, i: int) -> Option<int>
    decreases s.len() - i,
{
    if i < 0 || i >= s.len() {
        None
    } else if s[i] == '\\' {
        if i + 1 >= s.len() {
            None
        } else {
            find_close(s, i + 2)
        }
    } else if s[i] == '}' {
        Some(i)
    } else {
        find_close(s, i + 1)
    }
}

/// Splits at every unescaped `sep`, removing escapes and trimming each piece.
pub fn split_unescaped(s: &[char], sep: char) -> (r: Vec<Vec<char>>)
    ensures
        views(r@) == split_esc(s@, sep),
{
    let n = s.len();
    let mut done: Vec<Vec<char>> = Vec::new();
    let mut cur: Vec<char> = Vec::new();
    let mut i: usize = 0;
    assert(s@.subrange(0, n as int) =~= s@);
    assert(views(done@) =~= Seq::<Seq<char>>::empty());
    while i < n
        invariant
            i <= n == s@.len(),
            split_esc_acc(s@.subrange(i as int, n as int), sep, cur@, views(done@)) == split_esc(
                s@,
                sep,
            ),
        decreases n - i,
    {
        let ghost t = s@.subrange(i as int, n as int);
        let c = s[i];
        if c == '\\' {
            if i + 1 == n {
                cur.push('\\');
                let piece = trim_chars(cur.as_slice());
                done.push(piece);
                assert(views(done@) =~= split_esc(s@, sep));
                return done;
            }
            assert(t.subrange(2, t.len() as int) =~= s@.subrange(i + 2, n as int));
            cur.push(s[i + 1]);
            i = i + 2;
        } else if c == sep {
            let ghost old_done = views(done@);
            let ghost old_cur = cur@;
            let piece = trim_chars(cur.as_slice());
            done.push(piece);
            cur = Vec::new();
            assert(views(done@) =~= old_done.push(trim(old_cur)));
            assert(t.drop_first() =~= s@.subrange(i + 1, n as int));
            assert(cur@ =~= Seq::<char>::empty());
            i = i + 1;
        } else {
            assert(t.drop_first() =~= s@.subrange(i + 1, n as int));
            cur.push(c);
            i = i + 1;
        }
    }
    let piece = trim_chars(cur.as_slice());
    let ghost old_done = views(done@);
    done.push(piece);
    assert(views(done@) =~= old_done.push(piece@));
    done
}

pub open spec fn clear_word() -> Seq<char> {
    seq!['c', 'l', 'e', 'a', 'r']
}

pub open spec fn fg_word() -> Seq<char> {
    seq!['t', 'c']
}

pub open spec fn bg_word() -> Seq<char> {
    seq!['b', 'g']
}

/// `cmd` is `<name>:clear`.
pub open spec fn cmd_is_clear(cmd: Seq<char>, name: Seq<char>) -> bool {
    let pair = split_esc(cmd, ':');
    &&& pair.len() == 2
    &&& eq_ignore_case(pair[0], name)
    &&& split_esc(pair[1], '>').len() == 1
    &&& eq_ignore_case(split_esc(pair[1], '>')[0], clear_word())
}

pub open spec fn block_clears(inner: Seq<char>, name: Seq<char>) -> bool {
    exists|j: int|
        0 <= j < split_esc(inner, '|').len() && #[trigger] cmd_is_clear(
            split_esc(inner, '|')[j],
            name,
        )
}

/// Some later block of `s` holds `<name>:clear` (looked at, not consumed).
pub open spec fn future_clear(s: Seq<char>, name: Seq<char>) -> bool
    decreases s.len(),
{
    if s.len() == 0 {
        false
    } else if s[0] == '\\' {
        if s.len() < 2 {
            false
        } else {
            future_clear(s.subrange(2, s.len() as int), name)
        }
    } else if s[0] == '{' && find_close(s, 1).is_some() && 1 <= find_close(s, 1).unwrap()
        < s.len() {
        block_clears(s.subrange(1, find_close(s, 1).unwrap()), name) || future_clear(
            s.subrange(find_close(s, 1).unwrap() + 1, s.len() as int),
            name,
        )
    } else {
        future_clear(s.drop_first(), name)
    }
}

proof fn lemma_find_close_bounds(s: Seq<char>, i: int)
    ensures
        find_close(s, i) matches Some(k) ==> i <= k < s.len() && s[k] == '}',
    decreases s.len() - i,
{
    if 0 <= i < s.len() {
        if s[i] == '\\' {
            if i + 1 < s.len() {
                lemma_find_close_bounds(s, i + 2);
            }
        } else if s[i] != '}' {
            lemma_find_close_bounds(s, i + 1);
        }
    }
}

/// Finds the first unescaped `}` at or after `start`.
pub fn find_close_exec(s: &[char], start: usize) -> (r: Option<usize>)
    ensures
        r matches Some(k) ==> find_close(s@, start as int) == Some(k as int),
        r is None ==> find_close(s@, start as int) is None,
{
    let mut i: usize = start;
    while i < s.len()
        invariant
            start <= i,
            find_close(s@, i as int) == find_close(s@, start as int),
        decreases s@.len() - i,
    {
        if s[i] == '\\' {
            if i + 1 >= s.len() {
                return None;
            }
            i = i + 2;
        } else if s[i] == '}' {
            return Some(i);
        } else {
            i = i + 1;
        }
    }
    None
}

fn cmd_is_clear_exec(cmd: &[char], name: &[char]) -> (r: bool)
    ensures
        r == cmd_is_clear(cmd@, name@),
{
    let pair = split_unescaped(cmd, ':');
    if pair.len() != 2 {
        return false;
    }
    assert(views(pair@)[0] == pair@[0]@ && views(pair@)[1] == pair@[1]@);
    if !chars_eq_ignore_case(pair[0].as_slice(), name) {
        return false;
    }
    let params = split_unescaped(pair[1].as_slice(), '>');
    if params.len() != 1 {
        return false;
    }
    assert(views(params@)[0] == params@[0]@);
    chars_eq_ignore_case(params[0].as_slice(), &['c', 'l', 'e', 'a', 'r'])
}

fn block_clears_exec(inner: &[char], name: &[char]) -> (r: bool)
    ensures
        r == block_clears(inner@, name@),
{
    let cmds = split_unescaped(inner, '|');
    let mut j: usize = 0;
    while j < cmds.len()
        invariant
            j <= cmds@.len(),
            views(cmds@) == split_esc(inner@, '|'),
            forall|m: int| 0 <= m < j ==> !cmd_is_clear(#[trigger] split_esc(inner@, '|')[m], name@),
        decreases cmds@.len() - j,
    {
        assert(views(cmds@)[j as int] == cmds@[j as int]@);
        if cmd_is_clear_exec(cmds[j].as_slice(), name) {
            return true;
        }
        j = j + 1;
    }
    false
}

/// Looks ahead in `s` for a block that clears channel `name`.
pub fn has_future_clear(s: &[char], name: &[char]) -> (r: bool)
    ensures
        r == future_clear(s@, name@),
{
    let n = s.len();
    let mut i: usize = 0;
    assert(s@.subrange(0, n as int) =~= s@);
    while i < n
        invariant
            i <= n == s@.len(),
            future_clear(s@.subrange(i as int, n as int), name@) == future_clear(s@, name@),
        decreases n - i,
    {
        let ghost t = s@.subrange(i as int, n as int);
        if s[i] == '\\' {
            if i + 1 >= n {
                return false;
            }
            assert(t.subrange(2, t.len() as int) =~= s@.subrange(i + 2, n as int));
            i = i + 2;
        } else {
            if s[i] == '{' {
                let tail = copy_range(s, i, n);
                proof {
                    lemma_find_close_bounds(t, 1);
                }
                match find_close_exec(tail.as_slice(), 1) {
                    Some(k) => {
                        let inner = copy_range(tail.as_slice(), 1, k);
                        if block_clears_exec(inner.as_slice(), name) {
                            return true;
                        }
                        assert(t.subrange(k + 1, t.len() as int) =~= s@.subrange(
                            (i + k + 1) as int,
                            n as int,
                        ));
                        i = i + k + 1;
                        continue;
                    },
                    None => {},
                }
            }
            assert(t.drop_first() =~= s@.subrange(i + 1, n as int));
            i = i + 1;
        }
    }
    false
}

/// The state after one rendered character: active counters go down, and a
/// counter that runs out puts its channel back to the base color.
pub open spec fn tick(st: StyleState) -> StyleState {
    let a = match st.fg_count {
        Some(n) => if n <= 1 {
            StyleState {
                cur: Style { fg: st.base.fg, bg: st.cur.bg },
                fg_count: None,
                ..st
            }
        } else {
            StyleState { fg_count: Some((n - 1) as usize), ..st }
        },
        None => st,
    };
    match a.bg_count {
        Some(n) => if n <= 1 {
            StyleState {
                cur: Style { fg: a.cur.fg, bg: a.base.bg },
                bg_count: None,
                ..a
            }
        } else {
            StyleState { bg_count: Some((n - 1) as usize), ..a }
        },
        None => a,
    }
}

/// `{tc:clear}` / `{bg:clear}`.
pub open spec fn clear_channel(st: StyleState, fg: bool) -> StyleState {
    if fg {
        StyleState {
            cur: Style { fg: st.base.fg, bg: st.cur.bg },
            fg_count: None,
            fg_need_clear: false,
            ..st
        }
    } else {
        StyleState {
            cur: Style { fg: st.cur.fg, bg: st.base.bg },
            bg_count: None,
            bg_need_clear: false,
            ..st
        }
    }
}

/// A color set on one channel, for `count` characters or until cleared.
pub open spec fn set_channel(st: StyleState, fg: bool, c: Color, count: Option<usize>) -> StyleState {
    if fg {
        StyleState {
            cur: Style { fg: Some(c), bg: st.cur.bg },
            fg_count: count,
            fg_need_clear: count is None,
            ..st
        }
    } else {
        StyleState {
            cur: Style { fg: st.cur.fg, bg: Some(c) },
            bg_count: count,
            bg_need_clear: count is None,
            ..st
        }
    }
}

/// A valid repeat count: digits only, positive, fits in `usize`.
pub open spec fn count_ok(p: Seq<char>) -> bool {
    p.len() > 0 && all_digits(p) && 0 < dec_value(p) <= usize::MAX
}

/// The effect of the arguments of a `tc` (`fg`) or `bg` command.
pub open spec fn apply_color(
    params: Seq<Seq<char>>,
    fg: bool,
    st: StyleState,
    rest: Seq<char>,
) -> Result<StyleState, MarkupError> {
    if params.len() == 0 || params[0].len() == 0 {
        Err(MarkupError::Invalid)
    } else if eq_ignore_case(params[0], clear_word()) {
        if params.len() != 1 {
            Err(MarkupError::Invalid)
        } else {
            Ok(clear_channel(st, fg))
        }
    } else if color_of(params[0]) is None || params.len() > 2 {
        Err(MarkupError::Invalid)
    } else if params.len() == 2 && params[1].len() > 0 {
        if count_ok(params[1]) {
            Ok(set_channel(st, fg, color_of(params[0]).unwrap(), Some(dec_value(params[1]) as usize)))
        } else {
            Err(MarkupError::Invalid)
        }
    } else if future_clear(rest, if fg { fg_word() } else { bg_word() }) {
        Ok(set_channel(st, fg, color_of(params[0]).unwrap(), None))
    } else {
        Err(MarkupError::Unterminated)
    }
}

/// The effect of one command `name:args`.
pub open spec fn apply_cmd(cmd: Seq<char>, st: StyleState, rest: Seq<char>) -> Result<
    StyleState,
    MarkupError,
> {
    if cmd.len() == 0 {
        Err(MarkupError::EmptyBlock)
    } else {
        let pair = split_esc(cmd, ':');
        if pair.len() != 2 {
            Err(MarkupError::Invalid)
        } else if lower(pair[0]) == fg_word() {
            apply_color(split_esc(pair[1], '>'), true, st, rest)
        } else if lower(pair[0]) == bg_word() {
            apply_color(split_esc(pair[1], '>'), false, st, rest)
        } else {
            Err(MarkupError::Invalid)
        }
    }
}

/// The commands of a block, in order; the first failure decides.
pub open spec fn apply_cmds(cmds: Seq<Seq<char>>, st: StyleState, rest: Seq<char>) -> Result<
    StyleState,
    MarkupError,
>
    decreases cmds.len(),
{
    if cmds.len() == 0 {
        Ok(st)
    } else {
        match apply_cmd(cmds[0], st, rest) {
            Ok(next) => apply_cmds(cmds.drop_first(), next, rest),
            Err(e) => Err(e),
        }
    }
}

pub open spec fn apply_block(inner: Seq<char>, st: StyleState, rest: Seq<char>) -> Result<
    StyleState,
    MarkupError,
> {
    apply_cmds(split_esc(inner, '|'), st, rest)
}

fn tick_exec(st: StyleState) -> (r: StyleState)
    ensures
        r == tick(st),
{
    let mut a = st;
    match st.fg_count {
        Some(n) => if n <= 1 {
            a.cur.fg = st.base.fg;
            a.fg_count = None;
        } else {
            a.fg_count = Some(n - 1);
        },
        None => {},
    }
    let mut b = a;
    match a.bg_count {
        Some(n) => if n <= 1 {
            b.cur.bg = a.base.bg;
            b.bg_count = None;
        } else {
            b.bg_count = Some(n - 1);
        },
        None => {},
    }
    b
}

fn apply_color_exec(params: &Vec<Vec<char>>, fg: bool, st: StyleState, rest: &[char]) -> (r: Result<
    StyleState,
    MarkupError,
>)
    ensures
        r == apply_color(views(params@), fg, st, rest@),
{
    let ghost ps = views(params@);
    if params.len() == 0 {
        return Err(MarkupError::Invalid);
    }
    assert(ps[0] == params@[0]@);
    if params[0].len() == 0 {
        return Err(MarkupError::Invalid);
    }
    if chars_eq_ignore_case(params[0].as_slice(), &['c', 'l', 'e', 'a', 'r']) {
        if params.len() != 1 {
            return Err(MarkupError::Invalid);
        }
        let mut next = st;
        if fg {
            next.cur.fg = st.base.fg;
            next.fg_count = None;
            next.fg_need_clear = false;
        } else {
            next.cur.bg = st.base.bg;
            next.bg_count = None;
            next.bg_need_clear = false;
        }
        return Ok(next);
    }
    let color = match parse_color(params[0].as_slice()) {
        Some(c) => c,
        None => {
            return Err(MarkupError::Invalid);
        },
    };
    if params.len() > 2 {
        return Err(MarkupError::Invalid);
    }
    let mut count: Option<usize> = None;
    if params.len() == 2 && params[1].len() > 0 {
        assert(ps[1] == params@[1]@);
        match parse_dec(params[1].as_slice(), usize::MAX as u64) {
            Some(v) => {
                if v == 0 {
                    return Err(MarkupError::Invalid);
                }
                count = Some(v as usize);
            },
            None => {
                return Err(MarkupError::Invalid);
            },
        }
    } else {
        let found = if fg {
            has_future_clear(rest, &['t', 'c'])
        } else {
            has_future_clear(rest, &['b', 'g'])
        };
        if !found {
            return Err(MarkupError::Unterminated);
        }
    }
    let mut next = st;
    if fg {
        next.cur.fg = Some(color);
        next.fg_count = count;
        next.fg_need_clear = count.is_none();
    } else {
        next.cur.bg = Some(color);
        next.bg_count = count;
        next.bg_need_clear = count.is_none();
    }
    Ok(next)
}

fn apply_cmd_exec(cmd: &[char], st: StyleState, rest: &[char]) -> (r: Result<StyleState, MarkupError>)
    ensures
        r == apply_cmd(cmd@, st, rest@),
{
    if cmd.len() == 0 {
        return Err(MarkupError::EmptyBlock);
    }
    let pair = split_unescaped(cmd, ':');
    if pair.len() != 2 {
        return Err(MarkupError::Invalid);
    }
    assert(views(pair@)[0] == pair@[0]@ && views(pair@)[1] == pair@[1]@);
    let name = lower_chars(pair[0].as_slice());
    let params = split_unescaped(pair[1].as_slice(), '>');
    if chars_eq(name.as_slice(), &['t', 'c']) {
        apply_color_exec(&params, true, st, rest)
    } else if chars_eq(name.as_slice(), &['b', 'g']) {
        apply_color_exec(&params, false, st, rest)
    } else {
        Err(MarkupError::Invalid)
    }
}

/// Applies the commands of a block to a copy of `st`: all of them, or none.
pub fn apply_block_exec(inner: &[char], st: StyleState, rest: &[char]) -> (r: Result<
    StyleState,
    MarkupError,
>)
    ensures
        r == apply_block(inner@, st, rest@),
{
    let cmds = split_unescaped(inner, '|');
    let ghost all = views(cmds@);
    let mut cur = st;
    let mut j: usize = 0;
    assert(all.subrange(0, all.len() as int) =~= all);
    while j < cmds.len()
        invariant
            j <= cmds@.len() == all.len(),
            all == views(cmds@),
            all == split_esc(inner@, '|'),
            apply_cmds(all.subrange(j as int, all.len() as int), cur, rest@) == apply_block(
                inner@,
                st,
                rest@,
            ),
        decreases cmds@.len() - j,
    {
        let ghost t = all.subrange(j as int, all.len() as int);
        assert(t[0] == cmds@[j as int]@);
        assert(t.drop_first() =~= all.subrange(j + 1, all.len() as int));
        match apply_cmd_exec(cmds[j].as_slice(), cur, rest) {
            Ok(next) => {
                cur = next;
            },
            Err(e) => {
                return Err(e);
            },
        }
        j = j + 1;
    }
    Ok(cur)
}

/// The state a text starts in: both channels at the call's base colors.
pub open spec fn initial_state(base: Style) -> StyleState {
    StyleState {
        base,
        cur: base,
        fg_count: None,
        bg_count: None,
        fg_need_clear: false,
        bg_need_clear: false,
    }
}

/// The styled characters that markup text `s` expands to from state `st`.
pub open spec fn cells(s: Seq<char>, st: StyleState) -> Seq<(char, Style)>
    decreases s.len(),
{
    if s.len() == 0 {
        if st.fg_need_clear || st.bg_need_clear {
            error_cells(MarkupError::Unterminated)
        } else {
            Seq::empty()
        }
    } else if s[0] == '\\' {
        if s.len() >= 2 {
            let c = if s[1] == 'n' {
                '\n'
            } else {
                s[1]
            };
            seq![(c, st.cur)] + cells(s.subrange(2, s.len() as int), tick(st))
        } else {
            seq![('\\', st.cur)] + cells(s.drop_first(), tick(st))
        }
    } else if s[0] == '{' {
        if find_close(s, 1) is Some && 1 <= find_close(s, 1).unwrap() < s.len() {
            let k = find_close(s, 1).unwrap();
            let inner = s.subrange(1, k);
            let rest = s.subrange(k + 1, s.len() as int);
            if trim(inner).len() == 0 {
                error_cells(MarkupError::EmptyBlock) + cells(rest, st)
            } else {
                match apply_block(inner, st, rest) {
                    Ok(next) => cells(rest, next),
                    Err(e) => error_cells(e) + cells(rest, st),
                }
            }
        } else {
            error_cells(MarkupError::Unclosed) + cells(s.drop_first(), st)
        }
    } else if s[0] == '}' {
        error_cells(MarkupError::Unclosed) + cells(s.drop_first(), st)
    } else {
        seq![(s[0], st.cur)] + cells(s.drop_first(), tick(st))
    }
}

/// Character `c` extends `run`: same style, and neither is a line break.
pub open spec fn joins(run: (Seq<char>, Style), c: (char, Style)) -> bool {
    run.1 == c.1 && c.0 != '\n' && run.0.len() > 0 && run.0.last() != '\n'
}

/// Styled characters gathered into maximal runs; a line break stands alone.
pub open spec fn group(cs: Seq<(char, Style)>) -> Seq<(Seq<char>, Style)>
    decreases cs.len(),
{
    if cs.len() == 0 {
        Seq::empty()
    } else {
        let g = group(cs.drop_last());
        let c = cs.last();
        if g.len() > 0 && joins(g.last(), c) {
            g.update(g.len() - 1, (g.last().0.push(c.0), c.1))
        } else {
            g.push((seq![c.0], c.1))
        }
    }
}

pub open spec fn run_views(v: Seq<StyledRun>) -> Seq<(Seq<char>, Style)> {
    v.map_values(|r: StyledRun| r@)
}

fn push_error(out: &mut Vec<(char, Style)>, e: MarkupError)
    ensures
        final(out)@ == old(out)@ + error_cells(e),
{
    let reason: &[char] = match e {
        MarkupError::EmptyBlock => &['e', 'm', 'p', 't', 'y'],
        MarkupError::Unclosed => &['u', 'n', 'c', 'l', 'o', 's', 'e', 'd'],
        MarkupError::Invalid => &['i', 'n', 'v', 'a', 'l', 'i', 'd'],
        MarkupError::Unterminated => &['u', 'n', 't', 'e', 'r', 'm', 'i', 'n', 'a', 't', 'e', 'd'],
    };
    assert(reason@ == reason_text(e));
    let alert = Style { fg: Some(Color::Red), bg: None };
    let ghost start = out@;
    out.push(('{', alert));
    let mut k: usize = 0;
    while k < reason.len()
        invariant
            k <= reason@.len(),
            alert == alert_style(),
            out@ == start + (seq!['{'] + reason@.subrange(0, k as int)).map_values(
                |c: char| (c, alert_style()),
            ),
        decreases reason@.len() - k,
    {
        out.push((reason[k], alert));
        assert((seq!['{'] + reason@.subrange(0, k + 1)).map_values(|c: char| (c, alert_style()))
            =~= (seq!['{'] + reason@.subrange(0, k as int)).map_values(
            |c: char| (c, alert_style()),
        ).push((reason@[k as int], alert_style())));
        k = k + 1;
    }
    out.push(('}', alert));
    assert(reason@.subrange(0, reason@.len() as int) =~= reason@);
    assert(error_cells(e) =~= (seq!['{'] + reason@).map_values(|c: char| (c, alert_style())).push(
        ('}', alert_style()),
    ));
}

/// Expands markup text (without its `f%` marker) into styled characters.
pub fn expand_markup(s: &[char], start: StyleState) -> (r: Vec<(char, Style)>)
    ensures
        r@ == cells(s@, start),
{
    let n = s.len();
    let mut out: Vec<(char, Style)> = Vec::new();
    let mut st = start;
    let mut i: usize = 0;
    assert(s@.subrange(0, n as int) =~= s@);
    assert(out@ + cells(s@, start) =~= cells(s@, start));
    while i < n
        invariant
            i <= n == s@.len(),
            out@ + cells(s@.subrange(i as int, n as int), st) == cells(s@, start),
        decreases n - i,
    {
        let ghost t = s@.subrange(i as int, n as int);
        let ghost before = out@;
        let ghost st0 = st;
        let c = s[i];
        if c == '\\' {
            if i + 1 < n {
                let e = if s[i + 1] == 'n' {
                    '\n'
                } else {
                    s[i + 1]
                };
                out.push((e, st.cur));
                st = tick_exec(st);
                assert(t.subrange(2, t.len() as int) =~= s@.subrange(i + 2, n as int));
                assert(before + cells(t, st0) =~= out@ + cells(s@.subrange(i + 2, n as int), st));
                i = i + 2;
            } else {
                out.push(('\\', st.cur));
                st = tick_exec(st);
                assert(t.drop_first() =~= s@.subrange(i + 1, n as int));
                assert(before + cells(t, st0) =~= out@ + cells(s@.subrange(i + 1, n as int), st));
                i = i + 1;
            }
        } else if c == '{' {
            let tail = copy_range(s, i, n);
            proof {
                lemma_find_close_bounds(t, 1);
            }
            match find_close_exec(tail.as_slice(), 1) {
                Some(k) => {
                    let inner = copy_range(tail.as_slice(), 1, k);
                    let rest = copy_range(tail.as_slice(), k + 1, tail.len());
                    assert(rest@ =~= s@.subrange((i + k + 1) as int, n as int));
                    let trimmed = trim_chars(inner.as_slice());
                    if trimmed.len() == 0 {
                        push_error(&mut out, MarkupError::EmptyBlock);
                    } else {
                        match apply_block_exec(inner.as_slice(), st, rest.as_slice()) {
                            Ok(next) => {
                                st = next;
                            },
                            Err(e) => {
                                push_error(&mut out, e);
                            },
                        }
                    }
                    assert(before + cells(t, st0) =~= out@ + cells(rest@, st));
                    i = i + k + 1;
                },
                None => {
                    push_error(&mut out, MarkupError::Unclosed);
                    assert(t.drop_first() =~= s@.subrange(i + 1, n as int));
                    assert(before + cells(t, st0) =~= out@ + cells(
                        s@.subrange(i + 1, n as int),
                        st,
                    ));
                    i = i + 1;
                },
            }
        } else if c == '}' {
            push_error(&mut out, MarkupError::Unclosed);
            assert(t.drop_first() =~= s@.subrange(i + 1, n as int));
            assert(before + cells(t, st0) =~= out@ + cells(s@.subrange(i + 1, n as int), st));
            i = i + 1;
        } else {
            out.push((c, st.cur));
            st = tick_exec(st);
            assert(t.drop_first() =~= s@.subrange(i + 1, n as int));
            assert(before + cells(t, st0) =~= out@ + cells(s@.subrange(i + 1, n as int), st));
            i = i + 1;
        }
    }
    assert(s@.subrange(n as int, n as int) =~= Seq::<char>::empty());
    if st.fg_need_clear || st.bg_need_clear {
        push_error(&mut out, MarkupError::Unterminated);
    }
    assert(out@ =~= cells(s@, start));
    out
}

/// Gathers styled characters into maximal runs of one style, each line
/// break a run of its own.
pub fn group_runs(cs: &Vec<(char, Style)>) -> (r: Vec<StyledRun>)
    ensures
        run_views(r@) == group(cs@),
{
    let mut done: Vec<StyledRun> = Vec::new();
    if cs.len() == 0 {
        assert(run_views(done@) =~= group(cs@));
        return done;
    }
    let mut cur: Vec<char> = Vec::new();
    cur.push(cs[0].0);
    let mut style: Style = cs[0].1;
    let mut k: usize = 1;
    assert(cs@.subrange(0, 1).drop_last() =~= Seq::<(char, Style)>::empty());
    assert(group(cs@.subrange(0, 1).drop_last()) == Seq::<(Seq<char>, Style)>::empty());
    assert(cur@ =~= seq![cs@[0].0]);
    assert(cs@.subrange(0, 1).last() == cs@[0]);
    assert(run_views(done@).push((cur@, style)) =~= group(cs@.subrange(0, 1)));
    while k < cs.len()
        invariant
            1 <= k <= cs@.len(),
            cur@.len() > 0,
            run_views(done@).push((cur@, style)) == group(cs@.subrange(0, k as int)),
        decreases cs@.len() - k,
    {
        let (c, cst) = cs[k];
        let ghost g = group(cs@.subrange(0, k as int));
        assert(cs@.subrange(0, k + 1).drop_last() =~= cs@.subrange(0, k as int));
        assert(cs@.subrange(0, k + 1).last() == cs@[k as int]);
        if cst == style && c != '\n' && cur[cur.len() - 1] != '\n' {
            cur.push(c);
            assert(run_views(done@).push((cur@, style)) =~= group(cs@.subrange(0, k + 1)));
        } else {
            let text = string_of(cur.as_slice());
            let ghost old_done = run_views(done@);
            done.push(StyledRun { text, fg: style.fg, bg: style.bg });
            assert(run_views(done@) =~= old_done.push((cur@, style)));
            cur = Vec::new();
            cur.push(c);
            style = cst;
            assert(run_views(done@).push((cur@, style)) =~= group(cs@.subrange(0, k + 1)));
        }
        k = k + 1;
    }
    let text = string_of(cur.as_slice());
    let ghost old_done = run_views(done@);
    done.push(StyledRun { text, fg: style.fg, bg: style.bg });
    assert(run_views(done@) =~= old_done.push((cur@, style)));
    assert(cs@.subrange(0, cs@.len() as int) =~= cs@);
    done
}

pub open spec fn marker() -> Seq<char> {
    seq!['f', '%']
}

pub open spec fn has_marker(s: Seq<char>) -> bool {
    s.len() >= 2 && s.subrange(0, 2) == marker()
}

/// The runs a draw call renders: markup text (with the `f%` marker) is
/// expanded from the base colors; any other text is one run in the base colors.
pub open spec fn runs_of(text: Seq<char>, base: Style) -> Seq<(Seq<char>, Style)> {
    if has_marker(text) {
        group(cells(text.subrange(2, text.len() as int), initial_state(base)))
    } else {
        seq![(text, base)]
    }
}

/// Splits `text` into styled runs for drawing with base colors `fg` / `bg`.
pub fn styled_runs(text: &str, fg: Option<Color>, bg: Option<Color>) -> (r: Vec<StyledRun>)
    ensures
        run_views(r@) == runs_of(text@, Style { fg, bg }),
{
    let base = Style { fg, bg };
    let v = chars_of(text);
    if v.len() >= 2 && v[0] == 'f' && v[1] == '%' {
        assert(v@.subrange(0, 2) =~= marker());
        let body = copy_range(v.as_slice(), 2, v.len());
        let start = StyleState {
            base,
            cur: base,
            fg_count: None,
            bg_count: None,
            fg_need_clear: false,
            bg_need_clear: false,
        };
        let cs = expand_markup(body.as_slice(), start);
        group_runs(&cs)
    } else {
        proof {
            if v@.len() >= 2 {
                assert(v@.subrange(0, 2)[0] == v@[0]);
                assert(v@.subrange(0, 2)[1] == v@[1]);
            }
        }
        let mut r: Vec<StyledRun> = Vec::new();
        r.push(StyledRun { text: string_of(v.as_slice()), fg, bg });
        assert(run_views(r@) =~= seq![(text@, base)]);
        r
    }
}

} // verus!

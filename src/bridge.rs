//! Decisions of the script runtime bridge that do not touch the terminal:
//! the launch mode, how a run ends, the "terminal dirty" flag, coordinates,
//! padding for aligned drawing and where each styled run is drawn.

use crate::markup::{run_views, Style, StyledRun};
use crate::text::{chars_eq, chars_of, string_of};
use vstd::prelude::*;
use vstd::string::StringSliceAdditionalSpecFns;

verus! {

/// How a script was launched; fixed for the whole run.
#[derive(Clone, Copy, Debug, PartialEq, Eq, Structural)]
pub enum LaunchMode {
    New,
    Continue,
}

impl LaunchMode {
    pub open spec fn text(self) -> Seq<char> {
        match self {
            LaunchMode::New => seq!['n', 'e', 'w'],
            LaunchMode::Continue => seq!['c', 'o', 'n', 't', 'i', 'n', 'u', 'e'],
        }
    }

    /// `"new"` or `"continue"`.
    pub fn as_str(self) -> (r: String)
        ensures
            r@ == self.text(),
    {
        match self {
            LaunchMode::New => string_of(&['n', 'e', 'w']),
            LaunchMode::Continue => string_of(&['c', 'o', 'n', 't', 'i', 'n', 'u', 'e']),
        }
    }
}

/// Set when a script has drawn on the terminal behind the host's back; the
/// host reads it once and redraws.
pub struct DirtyFlag {
    dirty: bool,
}

impl DirtyFlag {
    pub closed spec fn is_set(&self) -> bool {
        self.dirty
    }

    pub fn new() -> (r: DirtyFlag)
        ensures
            !r.is_set(),
    {
        DirtyFlag { dirty: false }
    }

    pub fn mark(&mut self)
        ensures
            final(self).is_set(),
    {
        self.dirty = true;
    }
}

/// Reads the flag and clears it: `true` once after each script run.
pub fn take_terminal_dirty_from_lua(flag: &mut DirtyFlag) -> (r: bool)
    ensures
        r == old(flag).is_set(),
        !final(flag).is_set(),
{
    let r = flag.dirty;
    flag.dirty = false;
    r
}

/// How a script run ended.
#[derive(Clone, Debug)]
pub enum RunOutcome {
    /// The script ran to its end.
    Completed,
    /// The script called `exit()`.
    ExitedEarly,
    /// The script raised an error with this message.
    Failed(String),
}

/// The text the `exit()` host function raises; an error that holds it is the
/// script asking to end, not a failure.
pub open spec fn exit_sentinel() -> Seq<char> {
    seq!['_', '_', 'T', 'U', 'I', '_', 'G', 'A', 'M', 'E', '_', 'E', 'X', 'I', 'T', '_', '_']
}

pub open spec fn contains_at(s: Seq<char>, pat: Seq<char>, i: int) -> bool {
    0 <= i && i + pat.len() <= s.len() && s.subrange(i, i + pat.len()) == pat
}

pub open spec fn contains(s: Seq<char>, pat: Seq<char>) -> bool {
    exists|i: int| #[trigger] contains_at(s, pat, i)
}

/// The sentinel raised by the `exit()` host function.
pub fn exit_sentinel_text() -> (r: String)
    ensures
        r@ == exit_sentinel(),
{
    string_of(&['_', '_', 'T', 'U', 'I', '_', 'G', 'A', 'M', 'E', '_', 'E', 'X', 'I', 'T', '_', '_'])
}

fn contains_exec(s: &[char], pat: &[char]) -> (r: bool)
    ensures
        r == contains(s@, pat@),
{
    if pat.len() > s.len() {
        assert forall|i: int| !#[trigger] contains_at(s@, pat@, i) by {}
        return false;
    }
    if pat.len() == 0 {
        assert(s@.subrange(0, 0) =~= pat@);
        assert(contains_at(s@, pat@, 0));
        return true;
    }
    let plen = pat.len();
    let n = s.len();
    let last = n - plen;
    let mut i: usize = 0;
    while i <= last
        invariant
            0 < pat@.len() <= s@.len(),
            last == s@.len() - pat@.len(),
            plen == pat@.len(),
            n == s@.len(),
            i <= last + 1,
            forall|j: int| 0 <= j < i ==> !#[trigger] contains_at(s@, pat@, j),
        decreases last + 1 - i,
    {
        let window = crate::text::copy_range(s, i, i + plen);
        if chars_eq(window.as_slice(), pat) {
            assert(contains_at(s@, pat@, i as int));
            return true;
        }
        i = i + 1;
    }
    assert forall|j: int| !#[trigger] contains_at(s@, pat@, j) by {
        if 0 <= j && j < i {
        }
    }
    false
}

/// The outcome of a run whose engine finished with `error` (`None`: no
/// error): an error that holds the exit sentinel is an early exit.
pub open spec fn outcome_of(error: Option<Seq<char>>) -> Option<Seq<char>> {
    match error {
        None => None,
        Some(msg) => if contains(msg, exit_sentinel()) {
            None
        } else {
            Some(msg)
        },
    }
}

/// Classifies how the engine finished a run.
pub fn classify_run(error: Option<String>) -> (r: RunOutcome)
    ensures
        error is None ==> r is Completed,
        error matches Some(msg) ==> (contains(msg@, exit_sentinel()) ==> r is ExitedEarly),
        error matches Some(msg) ==> (!contains(msg@, exit_sentinel()) ==> (r matches RunOutcome::Failed(
            m,
        ) && m@ == msg@)),
{
    match error {
        None => RunOutcome::Completed,
        Some(msg) => {
            let v = chars_of(msg.as_str());
            let sentinel = exit_sentinel_text();
            let p = chars_of(sentinel.as_str());
            if contains_exec(v.as_slice(), p.as_slice()) {
                RunOutcome::ExitedEarly
            } else {
                RunOutcome::Failed(msg)
            }
        },
    }
}

/// Ends a run: the host has reset the terminal's color and cursor; the flag
/// is set so that the host redraws, and the result is success for a
/// completed run or an early exit, else the script's error message.
pub fn finish_run(outcome: RunOutcome, flag: &mut DirtyFlag) -> (r: Result<(), String>)
    ensures
        final(flag).is_set(),
        outcome is Completed || outcome is ExitedEarly ==> r is Ok,
        outcome matches RunOutcome::Failed(m) ==> (r matches Err(e) && e@ == m@),
{
    flag.mark();
    match outcome {
        RunOutcome::Failed(m) => Err(m),
        _ => Ok(()),
    }
}

/// A run that calls `exit()` ends in success and one that raises any other
/// error ends in that error's message; either way the dirty flag is set.
pub proof fn lemma_run_results(msg: Seq<char>)
    ensures
        outcome_of(Some(msg)) is None <==> contains(msg, exit_sentinel()),
        !contains(msg, exit_sentinel()) ==> outcome_of(Some(msg)) == Some(msg),
        contains(exit_sentinel(), exit_sentinel()),
{
    assert(exit_sentinel().subrange(0, exit_sentinel().len() as int) =~= exit_sentinel());
    assert(contains_at(exit_sentinel(), exit_sentinel(), 0));
}

/// A 1-based script coordinate as a 0-based terminal cell; non-positive
/// input is clamped to the origin.
pub open spec fn cell_of(v: int) -> u16 {
    if v <= 0 {
        0
    } else if v - 1 > u16::MAX {
        u16::MAX
    } else {
        (v - 1) as u16
    }
}

pub fn coord_to_terminal(v: i64) -> (r: u16)
    ensures
        r == cell_of(v as int),
{
    if v <= 0 {
        0
    } else if v - 1 > u16::MAX as i64 {
        u16::MAX
    } else {
        (v - 1) as u16
    }
}

/// Sleeping for `ms` milliseconds (negative: none); a pause of 200 ms or more
/// also drops the keys pressed meanwhile.
pub fn sleep_plan(ms: i64) -> (r: (u64, bool))
    ensures
        r.0 == (if ms < 0 { 0 } else { ms as u64 }),
        r.1 == (ms >= 200),
{
    let m: u64 = if ms < 0 {
        0
    } else {
        ms as u64
    };
    (m, m >= 200)
}

/// The columns a string takes on a terminal.
pub uninterp spec fn display_width(s: Seq<char>) -> nat;

/// Relies on `unicode_width::UnicodeWidthStr::width`: the display width of a
/// string, which depends on its characters alone.
#[verifier::external_body]
pub(crate) fn columns(s: &str) -> (r: usize)
    ensures
        r as nat == display_width(s@),
{
    unicode_width::UnicodeWidthStr::width(s)
}

/// The display width of `s`, as the `text_width` host function reports it.
pub fn text_width(s: &str) -> (r: usize)
    ensures
        r as nat == display_width(s@),
{
    columns(s)
}

/// Alignment for `draw_ex`.
#[derive(Clone, Copy, Debug, PartialEq, Eq, Structural)]
pub enum Align {
    Left,
    Center,
    Right,
}

/// `"center"` and `"right"` name those alignments; anything else is left.
pub fn align_from_name(name: Option<&str>) -> (r: Align)
    ensures
        name is None ==> r == Align::Left,
        name matches Some(n) ==> r == (if n@ == seq!['c', 'e', 'n', 't', 'e', 'r'] {
            Align::Center
        } else if n@ == seq!['r', 'i', 'g', 'h', 't'] {
            Align::Right
        } else {
            Align::Left
        }),
{
    match name {
        None => Align::Left,
        Some(n) => {
            let v = chars_of(n);
            if chars_eq(v.as_slice(), &['c', 'e', 'n', 't', 'e', 'r']) {
                Align::Center
            } else if chars_eq(v.as_slice(), &['r', 'i', 'g', 'h', 't']) {
                Align::Right
            } else {
                Align::Left
            }
        },
    }
}

pub open spec fn spaces(n: nat) -> Seq<char> {
    Seq::new(n, |i: int| ' ')
}

/// `t` (of display width `w`) padded with spaces to `width` columns, placed
/// by `align`; unchanged when `width` is zero or `t` already fills it.
pub open spec fn padded(t: Seq<char>, w: nat, width: nat, align: Align) -> Seq<char> {
    if width > 0 && w < width {
        let pad = (width - w) as nat;
        match align {
            Align::Center => spaces(pad / 2) + t + spaces((pad - pad / 2) as nat),
            Align::Right => spaces(pad) + t,
            Align::Left => t,
        }
    } else {
        t
    }
}

fn push_spaces(out: &mut Vec<char>, n: usize)
    ensures
        final(out)@ == old(out)@ + spaces(n as nat),
{
    let ghost start = out@;
    let mut k: usize = 0;
    while k < n
        invariant
            k <= n,
            out@ == start + spaces(k as nat),
        decreases n - k,
    {
        out.push(' ');
        assert(start + spaces((k + 1) as nat) =~= (start + spaces(k as nat)).push(' '));
        k = k + 1;
    }
}

fn push_all(out: &mut Vec<char>, s: &[char])
    ensures
        final(out)@ == old(out)@ + s@,
{
    let ghost start = out@;
    let mut k: usize = 0;
    while k < s.len()
        invariant
            k <= s@.len(),
            out@ == start + s@.subrange(0, k as int),
        decreases s@.len() - k,
    {
        out.push(s[k]);
        assert(start + s@.subrange(0, k + 1) =~= (start + s@.subrange(0, k as int)).push(s@[k as int]));
        k = k + 1;
    }
    assert(s@.subrange(0, s@.len() as int) =~= s@);
}

/// Pads `text`, whose display width is `text_w`, to `width` columns.
pub fn pad_to_width(text: &str, text_w: usize, width: usize, align: Align) -> (r: String)
    ensures
        r@ == padded(text@, text_w as nat, width as nat, align),
{
    let t = chars_of(text);
    if width == 0 || text_w >= width {
        return string_of(t.as_slice());
    }
    let pad = width - text_w;
    let mut out: Vec<char> = Vec::new();
    match align {
        Align::Center => {
            push_spaces(&mut out, pad / 2);
            push_all(&mut out, t.as_slice());
            push_spaces(&mut out, pad - pad / 2);
        },
        Align::Right => {
            push_spaces(&mut out, pad);
            push_all(&mut out, t.as_slice());
        },
        Align::Left => {
            push_all(&mut out, t.as_slice());
        },
    }
    assert(out@ =~= padded(text@, text_w as nat, width as nat, align));
    string_of(out.as_slice())
}

/// The width `draw_ex` pads to: the one asked for (never below zero, at
/// most `usize::MAX`), else the text's length in bytes.
pub open spec fn requested_width(text: &str, max_width: Option<i64>) -> int {
    match max_width {
        Some(w) => if w < 0 {
            0
        } else if w > usize::MAX {
            usize::MAX as int
        } else {
            w as int
        },
        None => text.spec_bytes().len() as usize as int,
    }
}

/// The text `draw_ex` draws: `text` aligned within the requested width.
pub fn align_text(text: &str, max_width: Option<i64>, align: Option<&str>) -> (r: String)
    ensures
        r@ == padded(
            text@,
            display_width(text@),
            requested_width(text, max_width) as nat,
            if align is None {
                Align::Left
            } else if align.unwrap()@ == seq!['c', 'e', 'n', 't', 'e', 'r'] {
                Align::Center
            } else if align.unwrap()@ == seq!['r', 'i', 'g', 'h', 't'] {
                Align::Right
            } else {
                Align::Left
            },
        ),
{
    let width: usize = match max_width {
        Some(w) => if w < 0 {
            0
        } else if w as u64 > usize::MAX as u64 {
            usize::MAX
        } else {
            w as usize
        },
        None => text.len(),
    };
    let w = columns(text);
    let a = align_from_name(align);
    pad_to_width(text, w, width, a)
}

/// The script-coordinate cursor after drawing runs `rs`, whose display
/// widths are `ws`, from `(x, y)`: each run moves it right by its width; a
/// line break goes back to column `x` on the next row.
pub open spec fn cursor_after(x: int, y: int, rs: Seq<(Seq<char>, Style)>, ws: Seq<nat>) -> (int, int)
    decreases rs.len(),
{
    if rs.len() == 0 {
        (x, y)
    } else {
        let c = cursor_after(x, y, rs.drop_last(), ws);
        if rs.last().0 == seq!['\n'] {
            (x, c.1 + 1)
        } else {
            (c.0 + ws[rs.len() - 1], c.1)
        }
    }
}

/// The terminal cell where run `k` starts.
pub open spec fn run_cell(x: int, y: int, rs: Seq<(Seq<char>, Style)>, ws: Seq<nat>, k: int) -> (u16, u16) {
    let c = cursor_after(x, y, rs.subrange(0, k), ws);
    (cell_of(c.0), cell_of(c.1))
}

pub open spec fn cap() -> int {
    0x1_0000_0000_0000_0000_0000_0000i128 as int
}

pub open spec fn capped(v: int) -> int {
    if v > cap() {
        cap()
    } else {
        v
    }
}

pub open spec fn nat_views(ws: Seq<usize>) -> Seq<nat> {
    ws.map_values(|w: usize| w as nat)
}

/// The display widths of the runs' texts.
pub open spec fn widths_of(rs: Seq<(Seq<char>, Style)>) -> Seq<nat> {
    rs.map_values(|r: (Seq<char>, Style)| display_width(r.0))
}

/// Where each styled run of a draw call at script position `(x, y)` starts
/// on the terminal, given the runs' display widths. Line-break runs get a
/// cell too; they are not drawn.
pub fn place_runs_with_widths(x: i64, y: i64, runs: &Vec<StyledRun>, widths: &Vec<usize>) -> (r: Vec<
    (u16, u16),
>)
    requires
        widths@.len() == runs@.len(),
    ensures
        r@.len() == runs@.len(),
        forall|k: int|
            0 <= k < runs@.len() ==> #[trigger] r@[k] == run_cell(
                x as int,
                y as int,
                run_views(runs@),
                nat_views(widths@),
                k,
            ),
{
    let ghost rs = run_views(runs@);
    let ghost ws = nat_views(widths@);
    let mut out: Vec<(u16, u16)> = Vec::new();
    let mut cx: i128 = x as i128;
    let mut cy: i128 = y as i128;
    let mut k: usize = 0;
    assert(rs.subrange(0, 0) =~= Seq::<(Seq<char>, Style)>::empty());
    while k < runs.len()
        invariant
            k <= runs@.len() == widths@.len(),
            rs == run_views(runs@),
            ws == nat_views(widths@),
            cx as int == capped(cursor_after(x as int, y as int, rs.subrange(0, k as int), ws).0),
            cy as int == cursor_after(x as int, y as int, rs.subrange(0, k as int), ws).1,
            i64::MIN <= cx,
            y as int <= cy <= y as int + k,
            out@.len() == k,
            forall|j: int| 0 <= j < k ==> #[trigger] out@[j] == run_cell(x as int, y as int, rs, ws, j),
        decreases runs@.len() - k,
    {
        let ghost c = cursor_after(x as int, y as int, rs.subrange(0, k as int), ws);
        let col: u16 = if cx <= 0 {
            0
        } else if cx - 1 > u16::MAX as i128 {
            u16::MAX
        } else {
            (cx - 1) as u16
        };
        let row: u16 = if cy <= 0 {
            0
        } else if cy - 1 > u16::MAX as i128 {
            u16::MAX
        } else {
            (cy - 1) as u16
        };
        out.push((col, row));
        assert(rs.subrange(0, k + 1).drop_last() =~= rs.subrange(0, k as int));
        assert(rs[k as int] == runs@[k as int]@);
        let text = &runs[k].text;
        assert(text@ == rs[k as int].0);
        let v = chars_of(text.as_str());
        let nl: [char; 1] = ['\n'];
        assert(nl@ =~= seq!['\n']);
        let is_break = chars_eq(v.as_slice(), &nl);
        assert(is_break == (rs[k as int].0 == seq!['\n']));
        let ghost c2 = cursor_after(x as int, y as int, rs.subrange(0, k + 1), ws);
        if is_break {
            cx = x as i128;
            cy = cy + 1;
        } else {
            let w = widths[k];
            assert(c2 == (c.0 + ws[k as int], c.1));
            let next: i128 = cx + w as i128;
            cx = if next > 0x1_0000_0000_0000_0000_0000_0000i128 {
                0x1_0000_0000_0000_0000_0000_0000i128
            } else {
                next
            };
        }
        k = k + 1;
    }
    out
}

/// Where each styled run of a draw call at `(x, y)` starts on the terminal,
/// each run advancing the cursor by its display width.
pub fn place_runs(x: i64, y: i64, runs: &Vec<StyledRun>) -> (r: Vec<(u16, u16)>)
    ensures
        r@.len() == runs@.len(),
        forall|k: int|
            0 <= k < runs@.len() ==> #[trigger] r@[k] == run_cell(
                x as int,
                y as int,
                run_views(runs@),
                widths_of(run_views(runs@)),
                k,
            ),
{
    let mut widths: Vec<usize> = Vec::new();
    let mut k: usize = 0;
    while k < runs.len()
        invariant
            k <= runs@.len(),
            widths@.len() == k,
            forall|j: int| 0 <= j < k ==> #[trigger] widths@[j] as nat == display_width(runs@[j].text@),
        decreases runs@.len() - k,
    {
        widths.push(columns(runs[k].text.as_str()));
        k = k + 1;
    }
    assert(nat_views(widths@) =~= widths_of(run_views(runs@)));
    place_runs_with_widths(x, y, runs, &widths)
}

} // verus!

//! Host-side UI state that the screens share: menu and page identifiers,
//! the settings state and the terminal size check.

use crate::bridge::{columns, display_width};
use crate::i18n::{codes_of, pack_index, set_language, t, text_in, I18nState};
use crate::text::{chars_of, string_of};
use crate::keys::KeyCode;
use crate::script::GameMeta;
use vstd::prelude::*;

verus! {

/// What the game list asks the host to do.
#[derive(Clone, Debug)]
pub enum GameSelectionAction {
    BackToMenu,
    LaunchGame(GameMeta),
}

/// The entries of the main menu.
#[derive(Clone, Copy, Debug, PartialEq, Eq, Structural)]
pub enum MenuAction {
    Play,
    Continue,
    Settings,
    About,
    Quit,
}

/// Pages that show a fixed text.
#[derive(Clone, Copy, Debug, PartialEq, Eq, Structural)]
pub enum PlaceholderPage {
    Settings,
    About,
    Continue,
}

/// The settings screens.
#[derive(Clone, Copy, Debug, PartialEq, Eq, Structural)]
pub enum SettingsPage {
    Hub,
    Language,
}

/// Where the settings screens stand.
#[derive(Clone, Copy, Debug, PartialEq, Eq, Structural)]
pub struct SettingsState {
    pub page: SettingsPage,
    pub hub_selected: usize,
    pub lang_selected: usize,
}

/// What a key press on the settings screens asks of the host.
#[derive(Clone, Copy, Debug, PartialEq, Eq, Structural)]
pub enum SettingsAction {
    Stay,
    BackToMenu,
    RunUninstall,
}

/// The layout of the language grid.
#[derive(Clone, Copy, Debug, PartialEq, Eq, Structural)]
pub struct GridMetrics {
    pub cols: usize,
    pub inner_width: u16,
    pub outer_width: u16,
}

/// The terminal's size and whether it meets a screen's minimum.
#[derive(Clone, Copy, Debug, PartialEq, Eq, Structural)]
pub struct SizeState {
    pub width: u16,
    pub height: u16,
    pub size_ok: bool,
}

impl SizeState {
    /// The size check of a `width` x `height` terminal against a minimum.
    pub fn check(width: u16, height: u16, min_width: u16, min_height: u16) -> (r: SizeState)
        ensures
            r.width == width,
            r.height == height,
            r.size_ok == (width >= min_width && height >= min_height),
    {
        SizeState { width, height, size_ok: width >= min_width && height >= min_height }
    }
}

/// The position of the active language among the packs; `0` when none has
/// its code.
pub fn default_selected_index(st: &I18nState) -> (r: usize)
    ensures
        r as int == (match pack_index(codes_of(st.packs@), st.current_code@) {
            Some(i) => i,
            None => 0,
        }),
{
    let current = crate::i18n::current_language_code(st);
    match crate::i18n::find_pack(&st.packs, &current) {
        Some(i) => i,
        None => 0,
    }
}

impl SettingsState {
    /// The settings hub, with the active language preselected.
    pub fn new(st: &I18nState) -> (r: SettingsState)
        ensures
            r.page == SettingsPage::Hub,
            r.hub_selected == 0,
            r.lang_selected as int == (match pack_index(codes_of(st.packs@), st.current_code@) {
                Some(i) => i,
                None => 0,
            }),
    {
        SettingsState { page: SettingsPage::Hub, hub_selected: 0, lang_selected: default_selected_index(st) }
    }
}

/// At most this many columns in the language grid.
pub open spec fn max_cols() -> nat {
    12
}

pub open spec fn sat_u16(v: int) -> u16 {
    if v > u16::MAX {
        u16::MAX
    } else {
        v as u16
    }
}

/// The language grid for `n` packs whose widest name takes `name_w`
/// columns, on a terminal `term_width` wide: each cell is the name plus two
/// columns inside a border, cells one column apart, at most twelve per row.
pub open spec fn grid_of(term_width: u16, n: nat, name_w: nat) -> GridMetrics {
    if n == 0 {
        GridMetrics { cols: 1, inner_width: 6, outer_width: 8 }
    } else {
        let inner = sat_u16(name_w as int + 2);
        let outer = sat_u16(inner as int + 2);
        let by_width = (term_width + 1) / (outer + 1);
        let c = if n < max_cols() { n } else { max_cols() };
        let c2 = if c < by_width { c } else { by_width as nat };
        GridMetrics { cols: (if c2 < 1 { 1 } else { c2 }) as usize, inner_width: inner, outer_width: outer }
    }
}

/// The grid layout given the widest name's display width.
pub fn grid_metrics_for(term_width: u16, n: usize, name_w: usize) -> (r: GridMetrics)
    ensures
        r == grid_of(term_width, n as nat, name_w as nat),
{
    if n == 0 {
        return GridMetrics { cols: 1, inner_width: 6, outer_width: 8 };
    }
    let inner: u16 = if name_w > 65533 {
        u16::MAX
    } else {
        (name_w + 2) as u16
    };
    let outer: u16 = if inner > 65533 {
        u16::MAX
    } else {
        inner + 2
    };
    let by_width: usize = (term_width as usize + 1) / (outer as usize + 1);
    let c: usize = if n < 12 {
        n
    } else {
        12
    };
    let c2: usize = if c < by_width {
        c
    } else {
        by_width
    };
    GridMetrics { cols: if c2 < 1 { 1 } else { c2 }, inner_width: inner, outer_width: outer }
}

pub open spec fn max_name_width(packs: Seq<crate::i18n::LanguagePack>) -> nat
    decreases packs.len(),
{
    if packs.len() == 0 {
        0
    } else {
        let m = max_name_width(packs.drop_last());
        let w = display_width(packs.last().name@);
        if w > m {
            w
        } else {
            m
        }
    }
}

/// The language grid for the loaded packs on a terminal `term_width` wide.
pub fn grid_metrics(term_width: u16, packs: &Vec<crate::i18n::LanguagePack>) -> (r: GridMetrics)
    ensures
        r == grid_of(term_width, packs@.len(), max_name_width(packs@)),
{
    let mut m: usize = 0;
    let mut k: usize = 0;
    assert(packs@.subrange(0, 0) =~= Seq::<crate::i18n::LanguagePack>::empty());
    while k < packs.len()
        invariant
            k <= packs@.len(),
            m as nat == max_name_width(packs@.subrange(0, k as int)),
        decreases packs@.len() - k,
    {
        assert(packs@.subrange(0, k + 1).drop_last() =~= packs@.subrange(0, k as int));
        let w = columns(packs[k].name.as_str());
        if w > m {
            m = w;
        }
        k = k + 1;
    }
    assert(packs@.subrange(0, packs@.len() as int) =~= packs@);
    grid_metrics_for(term_width, packs.len(), m)
}

/// Moving the selection in a grid of `total` cells, `cols` per row, without
/// wrapping around; other keys leave it where it is.
pub open spec fn moved(selected: nat, key: KeyCode, cols0: nat, total: nat) -> nat {
    let cols = if cols0 < 1 { 1 } else { cols0 };
    let row = selected / cols;
    let col = selected % cols;
    if total == 0 {
        0
    } else {
        match key {
            KeyCode::Left => if col > 0 { (selected - 1) as nat } else { selected },
            KeyCode::Right => if col + 1 < cols && selected + 1 < total { selected + 1 } else { selected },
            KeyCode::Up => if row > 0 {
                if selected >= cols { (selected - cols) as nat } else { 0 }
            } else {
                selected
            },
            KeyCode::Down => if selected + cols < total { selected + cols } else { selected },
            _ => selected,
        }
    }
}

/// Moves the selection inside the language grid.
pub fn move_selection(selected: usize, key: KeyCode, metrics: GridMetrics, total: usize) -> (r: usize)
    ensures
        r as nat == moved(selected as nat, key, metrics.cols as nat, total as nat),
{
    if total == 0 {
        return 0;
    }
    let cols: usize = if metrics.cols < 1 {
        1
    } else {
        metrics.cols
    };
    let row = selected / cols;
    let col = selected % cols;
    assert(col <= selected) by (nonlinear_arith)
        requires
            col == selected % cols,
            cols > 0,
    ;
    match key {
        KeyCode::Left => if col > 0 {
            selected - 1
        } else {
            selected
        },
        KeyCode::Right => if col < cols - 1 && selected < total - 1 {
            selected + 1
        } else {
            selected
        },
        KeyCode::Up => if row > 0 {
            if selected >= cols {
                selected - cols
            } else {
                0
            }
        } else {
            selected
        },
        KeyCode::Down => if cols < total && selected < total - cols {
            selected + cols
        } else {
            selected
        },
        _ => selected,
    }
}

pub open spec fn is_back_key(code: KeyCode) -> bool {
    code == KeyCode::Esc || code == KeyCode::Char('q') || code == KeyCode::Char('Q')
}

/// A key on the settings hub: move between its two entries, open the
/// language page (preselecting the active language), ask for the uninstall,
/// or go back to the menu.
pub fn handle_hub_key(state: &mut SettingsState, code: KeyCode, st: &I18nState) -> (r: SettingsAction)
    ensures
        (code == KeyCode::Up || code == KeyCode::Char('k')) ==> r == SettingsAction::Stay && *final(state) == (SettingsState {
            hub_selected: if old(state).hub_selected > 0 { (old(state).hub_selected - 1) as usize } else { 0 },
            ..*old(state)
        }),
        (code == KeyCode::Down || code == KeyCode::Char('j')) ==> r == SettingsAction::Stay && *final(state) == (SettingsState {
            hub_selected: if old(state).hub_selected < 1 { 1 } else { old(state).hub_selected },
            ..*old(state)
        }),
        code == KeyCode::Char('1') ==> r == SettingsAction::Stay && *final(state) == (SettingsState { hub_selected: 0, ..*old(state) }),
        code == KeyCode::Char('2') ==> r == SettingsAction::Stay && *final(state) == (SettingsState { hub_selected: 1, ..*old(state) }),
        code == KeyCode::Enter && old(state).hub_selected == 0 ==> r == SettingsAction::Stay
            && final(state).page == SettingsPage::Language
            && final(state).hub_selected == 0
            && final(state).lang_selected as int == (match pack_index(codes_of(st.packs@), st.current_code@) {
                Some(i) => i,
                None => 0,
            }),
        code == KeyCode::Enter && old(state).hub_selected != 0 ==> r == SettingsAction::RunUninstall && *final(state) == *old(state),
        is_back_key(code) ==> r == SettingsAction::BackToMenu && *final(state) == *old(state),
        !(code == KeyCode::Up || code == KeyCode::Char('k') || code == KeyCode::Down || code == KeyCode::Char('j')
            || code == KeyCode::Char('1') || code == KeyCode::Char('2') || code == KeyCode::Enter || is_back_key(code))
            ==> r == SettingsAction::Stay && *final(state) == *old(state),
{
    match code {
        KeyCode::Up | KeyCode::Char('k') => {
            if state.hub_selected > 0 {
                state.hub_selected = state.hub_selected - 1;
            }
        },
        KeyCode::Down | KeyCode::Char('j') => {
            if state.hub_selected < 1 {
                state.hub_selected = state.hub_selected + 1;
            }
        },
        KeyCode::Char('1') => state.hub_selected = 0,
        KeyCode::Char('2') => state.hub_selected = 1,
        KeyCode::Enter => {
            if state.hub_selected == 0 {
                state.page = SettingsPage::Language;
                state.lang_selected = default_selected_index(st);
            } else {
                return SettingsAction::RunUninstall;
            }
        },
        KeyCode::Esc | KeyCode::Char('q') | KeyCode::Char('Q') => {
            return SettingsAction::BackToMenu;
        },
        _ => {},
    }
    SettingsAction::Stay
}

/// A key on the language page, whose grid has layout `metrics`: arrows move
/// the selection (first brought inside the list), `Enter` makes the selected
/// language active, `Esc`/`q` go back to the hub.
pub fn handle_language_key(state: &mut SettingsState, code: KeyCode, st: &mut I18nState, metrics: GridMetrics)
    ensures
        final(st).packs@ == old(st).packs@,
        ({
            let n = old(st).packs@.len();
            let sel = if n > 0 && old(state).lang_selected >= n { (n - 1) as usize } else { old(state).lang_selected };
            &&& n == 0 ==> final(st).current_code@ == old(st).current_code@ && final(state).lang_selected == old(state).lang_selected
                && final(state).hub_selected == old(state).hub_selected
                && final(state).page == (if is_back_key(code) { SettingsPage::Hub } else { old(state).page })
            &&& n > 0 && (code == KeyCode::Left || code == KeyCode::Right || code == KeyCode::Up || code == KeyCode::Down)
                ==> final(state).lang_selected as nat == moved(sel as nat, code, metrics.cols as nat, n)
                && final(state).page == old(state).page && final(st).current_code@ == old(st).current_code@
            &&& n > 0 && code == KeyCode::Enter ==> final(state).lang_selected == sel && final(state).page == old(state).page
                && final(st).current_code@ == old(st).packs@[sel as int].code@
            &&& n > 0 && is_back_key(code) ==> final(state).page == SettingsPage::Hub && final(state).lang_selected == sel
                && final(st).current_code@ == old(st).current_code@
        }),
{
    let n = st.packs.len();
    if n == 0 {
        match code {
            KeyCode::Esc | KeyCode::Char('q') | KeyCode::Char('Q') => state.page = SettingsPage::Hub,
            _ => {},
        }
        return;
    }
    if state.lang_selected >= n {
        state.lang_selected = n - 1;
    }
    match code {
        KeyCode::Left | KeyCode::Right | KeyCode::Up | KeyCode::Down => {
            state.lang_selected = move_selection(state.lang_selected, code, metrics, n);
        },
        KeyCode::Enter => {
            let code_str = st.packs[state.lang_selected].code.clone();
            let _ = set_language(st, code_str.as_str());
            proof {
                lemma_pack_index_of_member(codes_of(old(st).packs@), state.lang_selected as int);
            }
        },
        KeyCode::Esc | KeyCode::Char('q') | KeyCode::Char('Q') => {
            state.page = SettingsPage::Hub;
        },
        _ => {},
    }
}

proof fn lemma_pack_index_of_member(codes: Seq<Seq<char>>, i: int)
    requires
        0 <= i < codes.len(),
    ensures
        pack_index(codes, codes[i]) is Some,
    decreases codes.len(),
{
    if codes[0] != codes[i] {
        assert(codes.drop_first()[i - 1] == codes[i]);
        lemma_pack_index_of_member(codes.drop_first(), i - 1);
    }
}

pub open spec fn sat_add(a: int, b: int) -> u16 {
    sat_u16(a + b)
}

/// The selection marker in front of an entry.
pub open spec fn marker() -> Seq<char> {
    seq!['\u{25B6}', ' ']
}

pub open spec fn max4(a: nat, b: nat, c: nat, d: nat) -> nat {
    let m1 = if a > b { a } else { b };
    let m2 = if m1 > c { m1 } else { c };
    if m2 > d { m2 } else { d }
}

/// The smallest terminal the settings hub fits in: its widest line plus a
/// margin of four, and ten rows.
pub open spec fn hub_minimum(st: &I18nState) -> (u16, u16) {
    let lang = text_in(st, st.current_code@, seq!['s', 'e', 't', 't', 'i', 'n', 'g', 's', '.', 'h', 'u', 'b', '.', 'l', 'a', 'n', 'g', 'u', 'a', 'g', 'e']);
    let un = text_in(st, st.current_code@, seq!['s', 'e', 't', 't', 'i', 'n', 'g', 's', '.', 'h', 'u', 'b', '.', 'u', 'n', 'i', 'n', 's', 't', 'a', 'l', 'l']);
    let enter = text_in(st, st.current_code@, seq!['m', 'e', 'n', 'u', '.', 'e', 'n', 't', 'e', 'r', '_', 's', 'h', 'o', 'r', 't', 'c', 'u', 't']);
    let back = text_in(st, st.current_code@, seq!['s', 'e', 't', 't', 'i', 'n', 'g', 's', '.', 'h', 'u', 'b', '.', 'b', 'a', 'c', 'k', '_', 'h', 'i', 'n', 't']);
    let w = max4(
        display_width(marker() + seq!['[', '1', ']', ' '] + lang),
        display_width(marker() + seq!['[', '2', ']', ' '] + un),
        display_width(marker() + enter + seq![' '] + un),
        display_width(back),
    );
    (sat_add(w as int, 4), 10)
}

/// The smallest terminal the language page fits in: the grid of packs (at
/// most twelve per row, three rows of text each) or the hint below it, at
/// least thirty columns, plus borders and title rows.
pub open spec fn language_minimum(st: &I18nState) -> (u16, u16) {
    let n = st.packs@.len();
    if n == 0 {
        (40, 8)
    } else {
        let inner = sat_u16(max_name_width(st.packs@) as int + 2);
        let outer = sat_u16(inner + 2);
        let cols: int = if n < 12 { n as int } else { 12 };
        let rows: int = (n as int + cols - 1) / cols;
        let grid_w = cols * outer + (cols - 1);
        let grid_h = rows * 3;
        let hint = display_width(text_in(st, st.current_code@, seq!['c', 'o', 'n', 'f', 'i', 'r', 'm', '_', 'l', 'a', 'n', 'g', 'u', 'a', 'g', 'e']));
        let w1 = if grid_w > hint { grid_w } else { hint as int };
        let w2 = if w1 > 30 { w1 } else { 30 };
        let h = grid_h + 5;
        (sat_u16(w2 + 2), sat_u16(if h > 10 { h } else { 10 }))
    }
}

fn concat3(a: &[char], b: &[char], c: &[char]) -> (r: String)
    ensures
        r@ == a@ + b@ + c@,
{
    let mut v: Vec<char> = Vec::new();
    let mut i: usize = 0;
    while i < a.len()
        invariant
            i <= a@.len(),
            v@ == a@.subrange(0, i as int),
        decreases a@.len() - i,
    {
        v.push(a[i]);
        assert(v@ =~= a@.subrange(0, i + 1));
        i = i + 1;
    }
    let mut j: usize = 0;
    while j < b.len()
        invariant
            j <= b@.len(),
            i == a@.len(),
            v@ == a@ + b@.subrange(0, j as int),
        decreases b@.len() - j,
    {
        v.push(b[j]);
        assert(v@ =~= a@ + b@.subrange(0, j + 1));
        j = j + 1;
    }
    let mut k: usize = 0;
    while k < c.len()
        invariant
            k <= c@.len(),
            v@ == a@ + b@ + c@.subrange(0, k as int),
        decreases c@.len() - k,
    {
        v.push(c[k]);
        assert(v@ =~= a@ + b@ + c@.subrange(0, k + 1));
        k = k + 1;
    }
    assert(a@ =~= a@.subrange(0, a@.len() as int));
    assert(b@ + c@ =~= b@ + c@.subrange(0, c@.len() as int));
    assert(v@ =~= a@ + b@ + c@);
    string_of(v.as_slice())
}

fn hub_minimum_exec(st: &I18nState) -> (r: (u16, u16))
    ensures
        r == hub_minimum(st),
{
    let lang = t(st, "settings.hub.language");
    let un = t(st, "settings.hub.uninstall");
    let enter = t(st, "menu.enter_shortcut");
    let back = t(st, "settings.hub.back_hint");
    proof {
        reveal_strlit("settings.hub.language");
        reveal_strlit("settings.hub.uninstall");
        reveal_strlit("menu.enter_shortcut");
        reveal_strlit("settings.hub.back_hint");
        assert("settings.hub.language"@ =~= seq!['s', 'e', 't', 't', 'i', 'n', 'g', 's', '.', 'h', 'u', 'b', '.', 'l', 'a', 'n', 'g', 'u', 'a', 'g', 'e']);
        assert("settings.hub.uninstall"@ =~= seq!['s', 'e', 't', 't', 'i', 'n', 'g', 's', '.', 'h', 'u', 'b', '.', 'u', 'n', 'i', 'n', 's', 't', 'a', 'l', 'l']);
        assert("menu.enter_shortcut"@ =~= seq!['m', 'e', 'n', 'u', '.', 'e', 'n', 't', 'e', 'r', '_', 's', 'h', 'o', 'r', 't', 'c', 'u', 't']);
        assert("settings.hub.back_hint"@ =~= seq!['s', 'e', 't', 't', 'i', 'n', 'g', 's', '.', 'h', 'u', 'b', '.', 'b', 'a', 'c', 'k', '_', 'h', 'i', 'n', 't']);
    }
    let mk: &[char] = &['\u{25B6}', ' '];
    let lc = chars_of(lang.as_str());
    let uc = chars_of(un.as_str());
    let ec = chars_of(enter.as_str());
    let l1 = concat3(mk, &['[', '1', ']', ' '], lc.as_slice());
    let l2 = concat3(mk, &['[', '2', ']', ' '], uc.as_slice());
    let mut e1: Vec<char> = Vec::new();
    e1.push('\u{25B6}');
    e1.push(' ');
    let l3a = concat3(e1.as_slice(), ec.as_slice(), &[' ']);
    let l3ac = chars_of(l3a.as_str());
    let l3 = concat3(l3ac.as_slice(), uc.as_slice(), &[]);
    assert(e1@ =~= marker());
    assert(l3@ =~= marker() + ec@ + seq![' '] + uc@);
    let w1 = columns(l1.as_str());
    let w2 = columns(l2.as_str());
    let w3 = columns(l3.as_str());
    let w4 = columns(back.as_str());
    let m1 = if w1 > w2 { w1 } else { w2 };
    let m2 = if m1 > w3 { m1 } else { w3 };
    let m = if m2 > w4 { m2 } else { w4 };
    let w: u16 = if m > 65531 { u16::MAX } else { (m + 4) as u16 };
    (w, 10)
}

fn language_minimum_exec(st: &I18nState) -> (r: (u16, u16))
    ensures
        r == language_minimum(st),
{
    let n = st.packs.len();
    if n == 0 {
        return (40, 8);
    }
    let g = grid_metrics(0, &st.packs);
    let inner = g.inner_width;
    let outer = g.outer_width;
    let cols: u128 = if n < 12 { n as u128 } else { 12 };
    let rows: u128 = ((n as u128) + cols - 1) / cols;
    assert(rows as int <= n as int) by (nonlinear_arith)
        requires
            rows as int == (n as int + cols as int - 1) / (cols as int),
            1 <= cols,
            n >= 1,
    ;
    assert(cols <= 12 && outer <= 65535);
    assert(cols * (outer as u128) <= 12 * 65535) by (nonlinear_arith)
        requires
            cols <= 12,
            outer <= 65535,
    ;
    let grid_w: u128 = cols * (outer as u128) + (cols - 1);
    let grid_h: u128 = rows * 3;
    let hint = t(st, "confirm_language");
    proof {
        reveal_strlit("confirm_language");
        assert("confirm_language"@ =~= seq!['c', 'o', 'n', 'f', 'i', 'r', 'm', '_', 'l', 'a', 'n', 'g', 'u', 'a', 'g', 'e']);
    }
    let hw = columns(hint.as_str()) as u128;
    let w1 = if grid_w > hw { grid_w } else { hw };
    let w2 = if w1 > 30 { w1 } else { 30 };
    let h = grid_h + 5;
    let hh = if h > 10 { h } else { 10 };
    let rw: u16 = if w2 > 65533 { u16::MAX } else { (w2 + 2) as u16 };
    let rh: u16 = if hh > 65535 { u16::MAX } else { hh as u16 };
    (rw, rh)
}

/// The smallest terminal the active settings page fits in.
pub fn minimum_size(state: &SettingsState, st: &I18nState) -> (r: (u16, u16))
    ensures
        r == (match state.page {
            SettingsPage::Hub => hub_minimum(st),
            SettingsPage::Language => language_minimum(st),
        }),
{
    match state.page {
        SettingsPage::Hub => hub_minimum_exec(st),
        SettingsPage::Language => language_minimum_exec(st),
    }
}

/// One entry of the main menu: its text key, shortcut and action.
#[derive(Clone, Debug)]
pub struct MenuItem {
    pub key: String,
    pub shortcut: KeyCode,
    pub action: MenuAction,
}

/// The main menu: five fixed entries, the selected one, and the game that
/// "Continue" would resume.
pub struct Menu {
    items: Vec<MenuItem>,
    selected: usize,
    continue_game_id: Option<String>,
    continue_game_name: Option<String>,
}

/// The entries' actions, in order.
pub open spec fn menu_actions() -> Seq<MenuAction> {
    seq![MenuAction::Play, MenuAction::Continue, MenuAction::Settings, MenuAction::About, MenuAction::Quit]
}

/// The entries' shortcuts, in order.
pub open spec fn menu_shortcuts() -> Seq<KeyCode> {
    seq![KeyCode::Char('1'), KeyCode::Char('2'), KeyCode::Char('3'), KeyCode::Char('4'), KeyCode::Esc]
}

/// Position of the first entry with shortcut `code`.
pub open spec fn shortcut_index(code: KeyCode) -> Option<nat> {
    if code == KeyCode::Char('1') {
        Some(0)
    } else if code == KeyCode::Char('2') {
        Some(1)
    } else if code == KeyCode::Char('3') {
        Some(2)
    } else if code == KeyCode::Char('4') {
        Some(3)
    } else if code == KeyCode::Esc {
        Some(4)
    } else {
        None
    }
}

proof fn lemma_shortcut_index(i: int)
    requires
        0 <= i < 5,
    ensures
        shortcut_index(menu_shortcuts()[i]) == Some(i as nat),
{
    if i == 0 {
    } else if i == 1 {
    } else if i == 2 {
    } else if i == 3 {
    } else {
    }
}

proof fn lemma_no_shortcut(code: KeyCode)
    requires
        forall|j: int| 0 <= j < 5 ==> #[trigger] menu_shortcuts()[j] != code,
    ensures
        shortcut_index(code) is None,
{
    assert(menu_shortcuts()[0] != code);
    assert(menu_shortcuts()[1] != code);
    assert(menu_shortcuts()[2] != code);
    assert(menu_shortcuts()[3] != code);
    assert(menu_shortcuts()[4] != code);
}

impl Menu {
    pub closed spec fn wf(&self) -> bool {
        &&& self.items@.len() == 5
        &&& forall|i: int| 0 <= i < 5 ==> #[trigger] self.items@[i].action == menu_actions()[i]
            && self.items@[i].shortcut == menu_shortcuts()[i]
        &&& self.selected < 5
    }

    pub closed spec fn selected_index(&self) -> nat {
        self.selected as nat
    }

    pub closed spec fn continue_name(&self) -> Option<Seq<char>> {
        match self.continue_game_name {
            Some(n) => Some(n@),
            None => None,
        }
    }

    pub closed spec fn continue_target(&self) -> Option<Seq<char>> {
        match self.continue_game_id {
            Some(id) => Some(id@),
            None => None,
        }
    }

    /// The main menu with its first entry selected and nothing to continue.
    pub fn new() -> (r: Menu)
        ensures
            r.wf(),
            r.selected_index() == 0,
            r.continue_target() is None,
    {
        let mut items: Vec<MenuItem> = Vec::new();
        items.push(MenuItem { key: "menu.play".to_owned(), shortcut: KeyCode::Char('1'), action: MenuAction::Play });
        items.push(MenuItem { key: "menu.continue".to_owned(), shortcut: KeyCode::Char('2'), action: MenuAction::Continue });
        items.push(MenuItem { key: "menu.settings".to_owned(), shortcut: KeyCode::Char('3'), action: MenuAction::Settings });
        items.push(MenuItem { key: "menu.about".to_owned(), shortcut: KeyCode::Char('4'), action: MenuAction::About });
        items.push(MenuItem { key: "menu.quit".to_owned(), shortcut: KeyCode::Esc, action: MenuAction::Quit });
        Menu { items, selected: 0, continue_game_id: None, continue_game_name: None }
    }

    /// The entries.
    pub fn items(&self) -> (r: &Vec<MenuItem>)
        requires
            self.wf(),
        ensures
            r@.len() == 5,
            forall|i: int| 0 <= i < 5 ==> #[trigger] r@[i].action == menu_actions()[i],
    {
        &self.items
    }

    /// The selected entry's position.
    pub fn selected(&self) -> (r: usize)
        ensures
            r as nat == self.selected_index(),
    {
        self.selected
    }

    /// Selects entry `index` when there is one.
    pub fn set_selected(&mut self, index: usize)
        requires
            old(self).wf(),
        ensures
            final(self).wf(),
            final(self).selected_index() == (if index < 5 { index as nat } else { old(self).selected_index() }),
            final(self).continue_target() == old(self).continue_target(),
    {
        if index < self.items.len() {
            self.selected = index;
        }
    }

    /// Selects the entry whose shortcut is `code`; `false` when none has it.
    pub fn select_by_shortcut(&mut self, code: KeyCode) -> (r: bool)
        requires
            old(self).wf(),
        ensures
            final(self).wf(),
            r == (shortcut_index(code) is Some),
            final(self).selected_index() == (match shortcut_index(code) {
                Some(i) => i,
                None => old(self).selected_index(),
            }),
            final(self).continue_target() == old(self).continue_target(),
    {
        let mut i: usize = 0;
        while i < self.items.len()
            invariant
                self.wf(),
                i <= 5,
                self.selected == old(self).selected,
                self.continue_game_id == old(self).continue_game_id,
                forall|j: int| 0 <= j < i ==> #[trigger] menu_shortcuts()[j] != code,
            decreases 5 - i,
        {
            assert(self.items@[i as int].action == menu_actions()[i as int]);
            if self.items[i].shortcut == code {
                proof {
                    lemma_shortcut_index(i as int);
                }
                self.selected = i;
                return true;
            }
            i = i + 1;
        }
        proof {
            lemma_no_shortcut(code);
        }
        false
    }

    /// Selects the next entry, wrapping around.
    pub fn next(&mut self)
        requires
            old(self).wf(),
        ensures
            final(self).wf(),
            final(self).selected_index() == (old(self).selected_index() + 1) % 5,
            final(self).continue_target() == old(self).continue_target(),
    {
        self.selected = (self.selected + 1) % self.items.len();
    }

    /// Selects the previous entry, wrapping around.
    pub fn previous(&mut self)
        requires
            old(self).wf(),
        ensures
            final(self).wf(),
            final(self).selected_index() == (if old(self).selected_index() == 0 { 4 } else { (old(self).selected_index() - 1) as nat }),
            final(self).continue_target() == old(self).continue_target(),
    {
        self.selected = if self.selected == 0 {
            self.items.len() - 1
        } else {
            self.selected - 1
        };
    }

    /// The selected entry's action.
    pub fn selected_action(&self) -> (r: MenuAction)
        requires
            self.wf(),
        ensures
            r == menu_actions()[self.selected_index() as int],
    {
        self.items[self.selected].action
    }

    /// Sets the game that "Continue" resumes, with its display name.
    pub fn set_continue_target(&mut self, game_id: Option<String>, game_name: Option<String>)
        requires
            old(self).wf(),
        ensures
            final(self).wf(),
            final(self).selected_index() == old(self).selected_index(),
            final(self).continue_target() == (match game_id {
                Some(id) => Some(id@),
                None => None,
            }),
    {
        self.continue_game_id = game_id;
        self.continue_game_name = game_name;
    }

    /// There is a saved game to continue.
    pub fn can_continue(&self) -> (r: bool)
        ensures
            r == (self.continue_target() is Some),
    {
        self.continue_game_id.is_some()
    }

    /// The id of the saved game to continue.
    pub fn continue_game_id(&self) -> (r: Option<String>)
        ensures
            r matches Some(id) ==> self.continue_target() == Some(id@),
            r is None ==> self.continue_target() is None,
    {
        match &self.continue_game_id {
            Some(id) => Some(id.clone()),
            None => None,
        }
    }

    /// The text of an entry: its translation, and for "Continue" the name of
    /// the game it resumes after a dash.
    pub fn item_label(&self, item: &MenuItem, st: &I18nState) -> (r: String)
        ensures
            ({
                let base = text_in(st, st.current_code@, item.key@);
                r@ == (if item.action == MenuAction::Continue && self.continue_name() is Some {
                    base + seq!['-'] + self.continue_name().unwrap()
                } else {
                    base
                })
            }),
    {
        let base = t(st, item.key.as_str());
        if item.action == MenuAction::Continue {
            match &self.continue_game_name {
                Some(name) => {
                    let b = chars_of(base.as_str());
                    let n = chars_of(name.as_str());
                    return concat3(b.as_slice(), &['-'], n.as_slice());
                },
                None => {},
            }
        }
        base
    }
}

proof fn lemma_product_fits(a: usize, b: usize, c: usize)
    ensures
        (a as int) * (b as int) + (c as int) < 0x1_0000_0000_0000_0000_0000_0000_0000_0000,
{
    assert(a as int <= u64::MAX as int && b as int <= u64::MAX as int && c as int <= u64::MAX as int);
    assert((a as int) * (b as int) + (c as int) < 0x1_0000_0000_0000_0000_0000_0000_0000_0000)
        by (nonlinear_arith)
        requires
            0 <= a as int <= 0xFFFF_FFFF_FFFF_FFFF,
            0 <= b as int <= 0xFFFF_FFFF_FFFF_FFFF,
            0 <= c as int <= 0xFFFF_FFFF_FFFF_FFFF,
    ;
}

/// Paging of the game list: `games` entries shown `page_size` per page, the
/// current page, and the selected row within it.
#[derive(Clone, Copy, Debug, PartialEq, Eq, Structural)]
pub struct GamePager {
    pub games: usize,
    pub current_page: usize,
    pub page_size: usize,
    pub total_pages: usize,
    pub selected: Option<usize>,
}

/// The position of the selected game in the whole list, if it is one.
pub open spec fn global_index(p: GamePager) -> Option<int> {
    match p.selected {
        Some(s) => if p.current_page * p.page_size + s < p.games {
            Some(p.current_page * p.page_size + s)
        } else {
            None
        },
        None => None,
    }
}

/// How many games the current page shows.
pub open spec fn page_len(p: GamePager) -> int {
    let start = p.current_page * p.page_size;
    if start >= p.games {
        0
    } else if p.games - start < p.page_size {
        p.games - start
    } else {
        p.page_size as int
    }
}

/// The pager after the list area became `visible_rows` tall: pages of that
/// many rows (at least one), and the page and row that keep the selected
/// game (the first one when none was) in view.
pub open spec fn synced(p: GamePager, visible_rows: usize) -> GamePager {
    let size: int = if visible_rows < 1 { 1 } else { visible_rows as int };
    let sel = match global_index(p) {
        Some(g) => g,
        None => 0,
    };
    let total = if (p.games + size - 1) / size < 1 { 1 } else { (p.games + size - 1) / size };
    if p.games == 0 {
        GamePager { games: 0, current_page: 0, page_size: size as usize, total_pages: total as usize, selected: None }
    } else {
        let clamped = if sel < p.games - 1 { sel } else { p.games - 1 };
        let page = if clamped / size < total - 1 { clamped / size } else { total - 1 };
        let start = page * size;
        let len = if p.games - start < size { p.games - start } else { size };
        let row = if clamped - start < len - 1 { clamped - start } else { len - 1 };
        GamePager {
            games: p.games,
            current_page: page as usize,
            page_size: size as usize,
            total_pages: total as usize,
            selected: Some(row as usize),
        }
    }
}

impl GamePager {
    /// A list of `games` entries on one page, the first one selected.
    pub fn new(games: usize) -> (r: GamePager)
        ensures
            r == (GamePager {
                games,
                current_page: 0,
                page_size: if games < 1 { 1 } else { games },
                total_pages: 1,
                selected: if games == 0 { None } else { Some(0) },
            }),
    {
        GamePager {
            games,
            current_page: 0,
            page_size: if games < 1 { 1 } else { games },
            total_pages: 1,
            selected: if games == 0 { None } else { Some(0) },
        }
    }

    /// The position of the selected game in the whole list.
    pub fn selected_global_index(&self) -> (r: Option<usize>)
        ensures
            r matches Some(g) ==> global_index(*self) == Some(g as int),
            r is None ==> global_index(*self) is None,
    {
        match self.selected {
            Some(s) => {
                proof {
                    lemma_product_fits(self.current_page, self.page_size, s);
                }
                let g: u128 = (self.current_page as u128) * (self.page_size as u128) + s as u128;
                if g < self.games as u128 {
                    Some(g as usize)
                } else {
                    None
                }
            },
            None => None,
        }
    }

    /// How many games the current page shows.
    pub fn page_len(&self) -> (r: usize)
        ensures
            r as int == page_len(*self),
    {
        proof {
            lemma_product_fits(self.current_page, self.page_size, 0);
        }
        let start: u128 = (self.current_page as u128) * (self.page_size as u128);
        if start >= self.games as u128 {
            0
        } else if (self.games as u128) - start < self.page_size as u128 {
            ((self.games as u128) - start) as usize
        } else {
            self.page_size
        }
    }

    /// Selects the row above, staying on the page.
    pub fn select_prev(&mut self)
        ensures
            page_len(*old(self)) == 0 ==> *final(self) == (GamePager { selected: None, ..*old(self) }),
            page_len(*old(self)) > 0 ==> *final(self) == (GamePager {
                selected: match old(self).selected {
                    Some(s) => if s > 0 { Some((s - 1) as usize) } else { Some(s) },
                    None => None,
                },
                ..*old(self)
            }),
    {
        if self.page_len() == 0 {
            self.selected = None;
            return;
        }
        match self.selected {
            Some(s) => if s > 0 {
                self.selected = Some(s - 1);
            },
            None => {},
        }
    }

    /// Selects the row below, staying on the page.
    pub fn select_next(&mut self)
        ensures
            page_len(*old(self)) == 0 ==> *final(self) == (GamePager { selected: None, ..*old(self) }),
            page_len(*old(self)) > 0 ==> *final(self) == ({
                let s: int = match old(self).selected {
                    Some(s) => s as int,
                    None => 0,
                };
                if s + 1 < page_len(*old(self)) {
                    GamePager { selected: Some((s + 1) as usize), ..*old(self) }
                } else {
                    *old(self)
                }
            }),
    {
        let len = self.page_len();
        if len == 0 {
            self.selected = None;
            return;
        }
        let s = match self.selected {
            Some(s) => s,
            None => 0,
        };
        if s < len - 1 {
            self.selected = Some(s + 1);
        }
    }

    /// Goes to the previous page, selecting its first row.
    pub fn prev_page(&mut self)
        ensures
            old(self).current_page > 0 ==> *final(self) == (GamePager {
                current_page: (old(self).current_page - 1) as usize,
                selected: Some(0),
                ..*old(self)
            }),
            old(self).current_page == 0 ==> *final(self) == *old(self),
    {
        if self.current_page > 0 {
            self.current_page = self.current_page - 1;
            self.selected = Some(0);
        }
    }

    /// Goes to the next page, if there is one, selecting its first row.
    pub fn next_page(&mut self)
        ensures
            old(self).current_page + 1 < old(self).total_pages ==> *final(self) == (GamePager {
                current_page: (old(self).current_page + 1) as usize,
                selected: Some(0),
                ..*old(self)
            }),
            !(old(self).current_page + 1 < old(self).total_pages) ==> *final(self) == *old(self),
    {
        if self.total_pages > 0 && self.current_page < self.total_pages - 1 {
            self.current_page = self.current_page + 1;
            self.selected = Some(0);
        }
    }

    /// Re-pages the list for a list area `visible_rows` tall.
    pub fn sync_paging(&mut self, visible_rows: usize)
        ensures
            *final(self) == synced(*old(self), visible_rows),
    {
        let size: usize = if visible_rows < 1 {
            1
        } else {
            visible_rows
        };
        let sel: usize = match self.selected_global_index() {
            Some(g) => g,
            None => 0,
        };
        let n = self.games;
        let total0: u128 = ((n as u128) + (size as u128) - 1) / (size as u128);
        assert(n >= 1 ==> total0 as int <= n as int) by (nonlinear_arith)
            requires
                total0 as int == (n as int + size as int - 1) / (size as int),
                size >= 1,
        ;
        assert(n == 0 ==> total0 == 0) by (nonlinear_arith)
            requires
                total0 as int == (n as int + size as int - 1) / (size as int),
                size >= 1,
        ;
        let total: usize = if total0 < 1 {
            1
        } else {
            total0 as usize
        };
        if n == 0 {
            *self = GamePager { games: 0, current_page: 0, page_size: size, total_pages: total, selected: None };
            return;
        }
        let clamped: usize = if sel < n - 1 {
            sel
        } else {
            n - 1
        };
        let q = clamped / size;
        let page: usize = if q < total - 1 {
            q
        } else {
            total - 1
        };
        proof {
            lemma_product_fits(page, size, 0);
        }
        let start: u128 = (page as u128) * (size as u128);
        assert(start as int <= clamped as int) by (nonlinear_arith)
            requires
                start as int == (page as int) * (size as int),
                page as int <= q as int,
                q as int == clamped as int / size as int,
                size >= 1,
        ;
        let len: u128 = if (n as u128) - start < size as u128 {
            (n as u128) - start
        } else {
            size as u128
        };
        let row: u128 = if (clamped as u128) - start < len - 1 {
            (clamped as u128) - start
        } else {
            len - 1
        };
        *self = GamePager {
            games: n,
            current_page: page,
            page_size: size,
            total_pages: total,
            selected: Some(row as usize),
        };
    }
}

} // verus!

//! Localized UI text: language packs, the active language, and lookups that
//! fall back to English and then to a visible placeholder.
//!
//! Loading packs from disk and remembering the chosen language is the
//! host's; this module decides which pack is active and what a key reads as.

use crate::text::{chars_of, lower, lower_chars, string_of, trim, trim_chars};
use crate::value::{JsonNode, JsonSpec};
use vstd::prelude::*;

verus! {

/// A language: its code (`us-en`), display name and key/text pairs.
#[derive(Clone, Debug)]
pub struct LanguagePack {
    pub code: String,
    pub name: String,
    pub dict: Vec<(String, String)>,
}

/// The loaded packs, the English fallback and the active language's code.
pub struct I18nState {
    pub packs: Vec<LanguagePack>,
    pub fallback: LanguagePack,
    pub current_code: String,
}

pub open spec fn dict_view(d: Seq<(String, String)>) -> Seq<(Seq<char>, Seq<char>)> {
    Seq::new(d.len(), |i: int| (d[i].0@, d[i].1@))
}

/// The text of `key` in a dictionary: its first entry.
pub open spec fn dict_get(d: Seq<(Seq<char>, Seq<char>)>, key: Seq<char>) -> Option<Seq<char>>
    decreases d.len(),
{
    if d.len() == 0 {
        None
    } else if d[0].0 == key {
        Some(d[0].1)
    } else {
        dict_get(d.drop_first(), key)
    }
}

/// Position of the first pack with code `code`.
pub open spec fn pack_index(codes: Seq<Seq<char>>, code: Seq<char>) -> Option<int>
    decreases codes.len(),
{
    if codes.len() == 0 {
        None
    } else if codes[0] == code {
        Some(0)
    } else {
        match pack_index(codes.drop_first(), code) {
            Some(i) => Some(i + 1),
            None => None,
        }
    }
}

pub open spec fn codes_of(packs: Seq<LanguagePack>) -> Seq<Seq<char>> {
    Seq::new(packs.len(), |i: int| packs[i].code@)
}

/// What a lookup of a key that no pack has gives: `[missing-i18n-key:<key>]`.
pub open spec fn missing_text(key: Seq<char>) -> Seq<char> {
    missing_prefix() + key + seq![']']
}

pub open spec fn missing_prefix() -> Seq<char> {
    seq!['[', 'm', 'i', 's', 's', 'i', 'n', 'g', '-', 'i', '1', '8', 'n', '-', 'k', 'e', 'y', ':']
}

/// `key` in the pack with code `code`, else in the fallback, else the
/// missing-key placeholder.
pub open spec fn text_in(st: &I18nState, code: Seq<char>, key: Seq<char>) -> Seq<char> {
    let from_pack = match pack_index(codes_of(st.packs@), code) {
        Some(i) => dict_get(dict_view(st.packs@[i].dict@), key),
        None => None,
    };
    match from_pack {
        Some(t) => t,
        None => match dict_get(dict_view(st.fallback.dict@), key) {
            Some(t) => t,
            None => missing_text(key),
        },
    }
}

fn dict_lookup(d: &Vec<(String, String)>, key: &String) -> (r: Option<String>)
    ensures
        r matches Some(s) ==> dict_get(dict_view(d@), key@) == Some(s@),
        r is None ==> dict_get(dict_view(d@), key@) is None,
{
    let ghost dv = dict_view(d@);
    let mut i: usize = 0;
    assert(dv.subrange(0, dv.len() as int) =~= dv);
    while i < d.len()
        invariant
            i <= d@.len(),
            dv == dict_view(d@),
            dict_get(dv.subrange(i as int, dv.len() as int), key@) == dict_get(dv, key@),
        decreases d@.len() - i,
    {
        let ghost t = dv.subrange(i as int, dv.len() as int);
        assert(t.drop_first() =~= dv.subrange(i + 1, dv.len() as int));
        assert(t[0] == (d@[i as int].0@, d@[i as int].1@));
        if d[i].0 == *key {
            return Some(d[i].1.clone());
        }
        i = i + 1;
    }
    None
}

pub(crate) fn find_pack(packs: &Vec<LanguagePack>, code: &String) -> (r: Option<usize>)
    ensures
        r matches Some(i) ==> pack_index(codes_of(packs@), code@) == Some(i as int) && i < packs@.len(),
        r is None ==> pack_index(codes_of(packs@), code@) is None,
{
    let ghost cs = codes_of(packs@);
    let mut i: usize = 0;
    assert(cs.subrange(0, cs.len() as int) =~= cs);
    while i < packs.len()
        invariant
            i <= packs@.len(),
            cs == codes_of(packs@),
            forall|j: int| 0 <= j < i ==> cs[j] != code@,
            pack_index(cs, code@) == shift(pack_index(cs.subrange(i as int, cs.len() as int), code@), i as int),
        decreases packs@.len() - i,
    {
        let ghost t = cs.subrange(i as int, cs.len() as int);
        assert(t.drop_first() =~= cs.subrange(i + 1, cs.len() as int));
        if packs[i].code == *code {
            return Some(i);
        }
        i = i + 1;
    }
    None
}

pub open spec fn shift(o: Option<int>, by: int) -> Option<int> {
    match o {
        Some(i) => Some(i + by),
        None => None,
    }
}

fn missing_key_text(key: &str) -> (r: String)
    ensures
        r@ == missing_text(key@),
{
    let mut v: Vec<char> = Vec::new();
    let head: &[char] = &['[', 'm', 'i', 's', 's', 'i', 'n', 'g', '-', 'i', '1', '8', 'n', '-', 'k', 'e', 'y', ':'];
    let k = chars_of(key);
    let mut i: usize = 0;
    while i < head.len()
        invariant
            i <= head@.len(),
            v@ == head@.subrange(0, i as int),
        decreases head@.len() - i,
    {
        v.push(head[i]);
        assert(v@ =~= head@.subrange(0, i + 1));
        i = i + 1;
    }
    let mut j: usize = 0;
    while j < k.len()
        invariant
            j <= k@.len(),
            i == head@.len(),
            v@ == head@ + k@.subrange(0, j as int),
        decreases k@.len() - j,
    {
        v.push(k[j]);
        assert(v@ =~= head@ + k@.subrange(0, j + 1));
        j = j + 1;
    }
    v.push(']');
    assert(v@ =~= missing_text(key@));
    string_of(v.as_slice())
}

fn text_for(st: &I18nState, code: &String, key: &str) -> (r: String)
    ensures
        r@ == text_in(st, code@, key@),
{
    let k = key.to_owned();
    match find_pack(&st.packs, code) {
        Some(i) => match dict_lookup(&st.packs[i].dict, &k) {
            Some(t) => {
                return t;
            },
            None => {},
        },
        None => {},
    }
    match dict_lookup(&st.fallback.dict, &k) {
        Some(t) => t,
        None => missing_key_text(key),
    }
}

/// `key` in the active language, else in English, else
/// `[missing-i18n-key:<key>]`.
pub fn t(st: &I18nState, key: &str) -> (r: String)
    ensures
        r@ == text_in(st, st.current_code@, key@),
{
    text_for(st, &st.current_code, key)
}

/// `key` in the language with code `code`, else in English, else the
/// missing-key placeholder.
pub fn t_for_code(st: &I18nState, code: &str, key: &str) -> (r: String)
    ensures
        r@ == text_in(st, code@, key@),
{
    let c = code.to_owned();
    text_for(st, &c, key)
}

pub open spec fn starts_with(s: Seq<char>, p: Seq<char>) -> bool {
    s.len() >= p.len() && s.subrange(0, p.len() as int) == p
}

/// `key` in the active language, or `fallback` when no pack has it.
pub fn t_or(st: &I18nState, key: &str, fallback: &str) -> (r: String)
    ensures
        ({
            let v = text_in(st, st.current_code@, key@);
            r@ == if starts_with(v, missing_prefix()) {
                fallback@
            } else {
                v
            }
        }),
{
    let v = t(st, key);
    let vc = chars_of(v.as_str());
    let prefix: &[char] = &['[', 'm', 'i', 's', 's', 'i', 'n', 'g', '-', 'i', '1', '8', 'n', '-', 'k', 'e', 'y', ':'];
    assert(prefix@ =~= missing_prefix());
    let starts = if vc.len() >= prefix.len() {
        let head = crate::text::copy_range(vc.as_slice(), 0, prefix.len());
        crate::text::chars_eq(head.as_slice(), prefix)
    } else {
        false
    };
    if starts {
        fallback.to_owned()
    } else {
        v
    }
}

/// The loaded packs.
pub fn available_languages(st: &I18nState) -> (r: &Vec<LanguagePack>)
    ensures
        r == &st.packs,
{
    &st.packs
}

/// The active language's code.
pub fn current_language_code(st: &I18nState) -> (r: String)
    ensures
        r@ == st.current_code@,
{
    st.current_code.clone()
}

/// Makes `code` the active language when a pack has it; the host then
/// remembers the choice.
pub fn set_language(st: &mut I18nState, code: &str) -> (r: bool)
    ensures
        r == (pack_index(codes_of(old(st).packs@), code@) is Some),
        r ==> final(st).current_code@ == code@,
        !r ==> final(st).current_code@ == old(st).current_code@,
        final(st).packs@ == old(st).packs@,
{
    let c = code.to_owned();
    match find_pack(&st.packs, &c) {
        Some(_) => {
            st.current_code = c;
            true
        },
        None => false,
    }
}

/// A copy of a pack.
pub fn copy_pack(p: &LanguagePack) -> (r: LanguagePack)
    ensures
        r.code@ == p.code@,
        r.name@ == p.name@,
        dict_view(r.dict@) == dict_view(p.dict@),
{
    let mut d: Vec<(String, String)> = Vec::new();
    let mut i: usize = 0;
    while i < p.dict.len()
        invariant
            i <= p.dict@.len(),
            d@.len() == i,
            forall|k: int| 0 <= k < i ==> #[trigger] d@[k].0@ == p.dict@[k].0@ && d@[k].1@ == p.dict@[k].1@,
        decreases p.dict@.len() - i,
    {
        let a = p.dict[i].0.clone();
        let b = p.dict[i].1.clone();
        d.push((a, b));
        i = i + 1;
    }
    assert(dict_view(d@) =~= dict_view(p.dict@));
    LanguagePack { code: p.code.clone(), name: p.name.clone(), dict: d }
}

pub open spec fn english_code() -> Seq<char> {
    seq!['u', 's', '-', 'e', 'n']
}

/// The language chosen at start: the remembered one, else the default, else
/// English, else the fallback pack's.
pub open spec fn chosen_code(
    codes: Seq<Seq<char>>,
    remembered: Option<Seq<char>>,
    default_code: Seq<char>,
    fallback_code: Seq<char>,
) -> Seq<char> {
    let preferred = match remembered {
        Some(c) => c,
        None => default_code,
    };
    if pack_index(codes, preferred) is Some {
        preferred
    } else if pack_index(codes, default_code) is Some {
        default_code
    } else if pack_index(codes, english_code()) is Some {
        english_code()
    } else {
        fallback_code
    }
}

/// Sets up localization from the loaded packs (in display order), the
/// remembered language and the default code. The fallback is the loaded
/// `us-en` pack, else `builtin`; with no packs loaded, the fallback is the
/// only pack.
pub fn init(
    packs: Vec<LanguagePack>,
    builtin: LanguagePack,
    remembered: Option<String>,
    default_code: &str,
) -> (r: I18nState)
    ensures
        packs@.len() > 0 ==> r.packs@ == packs@,
        packs@.len() == 0 ==> r.packs@.len() == 1,
        r.current_code@ == chosen_code(
            codes_of(r.packs@),
            match remembered {
                Some(c) => Some(c@),
                None => None,
            },
            default_code@,
            r.fallback.code@,
        ),
        match pack_index(codes_of(packs@), english_code()) {
            Some(i) => r.fallback.code@ == packs@[i].code@ && r.fallback.name@ == packs@[i].name@,
            None => r.fallback.code@ == builtin.code@ && r.fallback.name@ == builtin.name@,
        },
{
    let en = string_of(&['u', 's', '-', 'e', 'n']);
    let fallback = match find_pack(&packs, &en) {
        Some(i) => copy_pack(&packs[i]),
        None => builtin,
    };
    let mut all = packs;
    if all.len() == 0 {
        all.push(copy_pack(&fallback));
    }
    let dflt = default_code.to_owned();
    let preferred = match remembered {
        Some(c) => c,
        None => dflt.clone(),
    };
    let current = if find_pack(&all, &preferred).is_some() {
        preferred
    } else if find_pack(&all, &dflt).is_some() {
        dflt
    } else if find_pack(&all, &en).is_some() {
        en
    } else {
        fallback.code.clone()
    };
    I18nState { packs: all, fallback, current_code: current }
}

pub open spec fn required_keys() -> Seq<Seq<char>> {
    seq![
        seq!['l', 'a', 'n', 'g', 'u', 'a', 'g', 'e', '_', 'n', 'a', 'm', 'e'],
        seq!['l', 'a', 'n', 'g', 'u', 'a', 'g', 'e'],
        seq!['c', 'o', 'n', 'f', 'i', 'r', 'm', '_', 'l', 'a', 'n', 'g', 'u', 'a', 'g', 'e'],
    ]
}

/// The string members of a JSON object, in order.
pub open spec fn string_members(m: Seq<(Seq<char>, JsonSpec)>) -> Seq<(Seq<char>, Seq<char>)>
    decreases m.len(),
{
    if m.len() == 0 {
        Seq::empty()
    } else {
        let r = string_members(m.drop_last());
        match m.last().1 {
            JsonSpec::Str(t) => r.push((m.last().0, t)),
            _ => r,
        }
    }
}

/// A language file is usable when it names the language, the language
/// page and its confirmation as strings; the pack holds every string member.
pub open spec fn pack_of(stem: Seq<char>, m: Seq<(Seq<char>, JsonSpec)>) -> Option<(Seq<char>, Seq<char>, Seq<(Seq<char>, Seq<char>)>)> {
    let d = string_members(m);
    if forall|i: int| 0 <= i < 3 ==> #[trigger] dict_get(d, required_keys()[i]) is Some {
        Some((lower(stem), dict_get(d, required_keys()[0]).unwrap(), d))
    } else {
        None
    }
}

/// A language pack from a language file named `<stem>.json` whose content is
/// the JSON object `members`; `None` when a required text is missing.
pub fn language_pack_from(stem: &str, members: &Vec<(String, JsonNode)>) -> (r: Option<LanguagePack>)
    ensures
        r matches Some(p) ==> pack_of(stem@, crate::value::obj_views(members@)) == Some(
            (p.code@, p.name@, dict_view(p.dict@)),
        ),
        r is None ==> pack_of(stem@, crate::value::obj_views(members@)) is None,
{
    let ghost m = crate::value::obj_views(members@);
    let mut dict: Vec<(String, String)> = Vec::new();
    let mut i: usize = 0;
    assert(dict_view(dict@) =~= string_members(m.subrange(0, 0)));
    while i < members.len()
        invariant
            i <= members@.len(),
            m == crate::value::obj_views(members@),
            dict_view(dict@) == string_members(m.subrange(0, i as int)),
        decreases members@.len() - i,
    {
        assert(m.subrange(0, i + 1).drop_last() =~= m.subrange(0, i as int));
        assert(m[i as int] == (members@[i as int].0@, members@[i as int].1@));
        match &members[i].1 {
            JsonNode::Str(t) => {
                let ghost before = dict_view(dict@);
                dict.push((members[i].0.clone(), t.clone()));
                assert(dict_view(dict@) =~= before.push((members@[i as int].0@, t@)));
            },
            _ => {},
        }
        i = i + 1;
    }
    assert(m.subrange(0, m.len() as int) =~= m);
    let k0 = string_of(&['l', 'a', 'n', 'g', 'u', 'a', 'g', 'e', '_', 'n', 'a', 'm', 'e']);
    let k1 = string_of(&['l', 'a', 'n', 'g', 'u', 'a', 'g', 'e']);
    let k2 = string_of(
        &['c', 'o', 'n', 'f', 'i', 'r', 'm', '_', 'l', 'a', 'n', 'g', 'u', 'a', 'g', 'e'],
    );
    let name = match dict_lookup(&dict, &k0) {
        Some(n) => n,
        None => {
            return None;
        },
    };
    if dict_lookup(&dict, &k1).is_none() || dict_lookup(&dict, &k2).is_none() {
        return None;
    }
    assert(forall|i: int| 0 <= i < 3 ==> #[trigger] dict_get(dict_view(dict@), required_keys()[i]) is Some) by {
        assert(required_keys()[0] == k0@);
        assert(required_keys()[1] == k1@);
        assert(required_keys()[2] == k2@);
    }
    let s = chars_of(stem);
    let code = lower_chars(s.as_slice());
    Some(LanguagePack { code: string_of(code.as_slice()), name, dict })
}

/// A remembered language code: trimmed and lower-cased; `None` when blank.
pub fn normalize_language_code(raw: &str) -> (r: Option<String>)
    ensures
        r matches Some(c) ==> trim(raw@).len() > 0 && c@ == lower(trim(raw@)),
        r is None ==> trim(raw@).len() == 0,
{
    let v = chars_of(raw);
    let t = trim_chars(v.as_slice());
    if t.len() == 0 {
        None
    } else {
        let l = lower_chars(t.as_slice());
        Some(string_of(l.as_slice()))
    }
}

/// The English texts built into the program; it is the fallback when no
/// `us-en` file is found.
pub fn builtin_english_pack() -> (r: LanguagePack)
    ensures
        r.code@ == english_code(),
        r.name@ == seq!['E', 'n', 'g', 'l', 'i', 's', 'h'],
        forall|i: int| 0 <= i < 3 ==> #[trigger] dict_get(dict_view(r.dict@), required_keys()[i]) is Some,
{
    let mut d: Vec<(String, String)> = Vec::new();
    d.push((string_of(&['l', 'a', 'n', 'g', 'u', 'a', 'g', 'e', '_', 'n', 'a', 'm', 'e']), string_of(&['E', 'n', 'g', 'l', 'i', 's', 'h'])));
    d.push((string_of(&['l', 'a', 'n', 'g', 'u', 'a', 'g', 'e']), string_of(&['L', 'a', 'n', 'g', 'u', 'a', 'g', 'e'])));
    d.push((string_of(&['c', 'o', 'n', 'f', 'i', 'r', 'm', '_', 'l', 'a', 'n', 'g', 'u', 'a', 'g', 'e']), "[Enter] Confirm language. [ESC] or [Q] Return to main menu".to_owned()));
    let ghost head = dict_view(d@);
    d.push(("menu.play".to_owned(), "Play Game".to_owned()));
    d.push(("menu.continue".to_owned(), "Continue".to_owned()));
    d.push(("menu.settings".to_owned(), "Settings".to_owned()));
    d.push(("menu.about".to_owned(), "About".to_owned()));
    d.push(("menu.quit".to_owned(), "Quit".to_owned()));
    d.push(("settings.hub.language".to_owned(), "Language".to_owned()));
    d.push(("settings.hub.uninstall".to_owned(), "Uninstall TUI GAME".to_owned()));
    d.push(("settings.hub.back_hint".to_owned(), "[ESC]/[Q] Back to main menu".to_owned()));
    d.push(("placeholder.settings".to_owned(), "Settings page is under construction. Please check back later.".to_owned()));
    d.push(("placeholder.about".to_owned(), "TUI GAME\nVersion: 0.1.0\nAuthor: 123\nGitHub: https://github.com/your-username/tui-game".to_owned()));
    d.push(("placeholder.continue".to_owned(), "Continue feature is not implemented yet.".to_owned()));
    d.push(("updater.new_version".to_owned(), "New version available".to_owned()));
    d.push(("updater.press_u".to_owned(), "Press U to open release page".to_owned()));
    d.push(("updater.no_update".to_owned(), "You are up to date".to_owned()));
    d.push(("warning.size_title".to_owned(), "Terminal Too Small".to_owned()));
    d.push(("warning.required".to_owned(), "Required size".to_owned()));
    d.push(("warning.current".to_owned(), "Current size".to_owned()));
    d.push(("warning.enlarge_hint".to_owned(), "Please enlarge terminal window to continue.".to_owned()));
    d.push(("common.back_hint".to_owned(), "Press ESC or Q to return to main menu".to_owned()));
    d.push(("confirm.new_game_overwrite".to_owned(), "There is a save from {game}. Starting a new game will overwrite it. Continue?".to_owned()));
    d.push(("confirm.new_game_yes".to_owned(), "[Y] Start New Game".to_owned()));
    d.push(("confirm.new_game_no".to_owned(), "[N] Cancel".to_owned()));
    d.push(("games.empty".to_owned(), "No Lua games found in scripts/".to_owned()));
    d.push(("games.run_pending".to_owned(), "Press Enter to run selected game (runtime framework pending)".to_owned()));
    proof {
        let dv = dict_view(d@);
        assert(dv[0] == head[0] && dv[1] == head[1] && dv[2] == head[2]);
        assert(dv[0].0 == required_keys()[0]);
        assert(dv.drop_first()[0].0 == required_keys()[1]);
        assert(dv.drop_first().drop_first()[0].0 == required_keys()[2]);
        let k = required_keys();
        assert(k[0].len() == 13 && k[1].len() == 8 && k[2].len() == 16);
        assert(dict_get(dv, k[0]) is Some);
        assert(dv[0].0 != k[1]);
        assert(dict_get(dv.drop_first(), k[1]) is Some);
        assert(dict_get(dv, k[1]) is Some);
        assert(dv[0].0 != k[2]);
        assert(dv.drop_first()[0].0 != k[2]);
        assert(dict_get(dv.drop_first().drop_first(), k[2]) is Some);
        assert(dict_get(dv.drop_first(), k[2]) is Some);
        assert(dict_get(dv, k[2]) is Some);
        assert(forall|i: int| 0 <= i < 3 ==> #[trigger] dict_get(dv, k[i]) is Some) by {
            assert forall|i: int| 0 <= i < 3 implies #[trigger] dict_get(dv, k[i]) is Some by {
                if i == 0 {
                } else if i == 1 {
                } else {
                }
            }
        }
    }
    LanguagePack {
        code: string_of(&['u', 's', '-', 'e', 'n']),
        name: string_of(&['E', 'n', 'g', 'l', 'i', 's', 'h']),
        dict: d,
    }
}

} // verus!

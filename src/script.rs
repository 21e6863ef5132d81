//! Game scripts found on disk and what they declare about themselves.

use crate::text::{chars_of, eq_ignore_case, string_of, trim, trim_chars};
use vstd::prelude::*;

verus! {

/// A game script: its id (the file stem), display name and description.
#[derive(Clone, Debug)]
pub struct GameMeta {
    pub id: String,
    pub name: String,
    pub description: String,
    pub script_path: String,
}

/// The file is a game script: its extension is `lua`, in any case.
pub open spec fn is_script_ext(ext: Seq<char>) -> bool {
    eq_ignore_case(ext, seq!['l', 'u', 'a'])
}

pub fn is_script_extension(ext: &str) -> (r: bool)
    ensures
        r == is_script_ext(ext@),
{
    let v = chars_of(ext);
    crate::text::chars_eq_ignore_case(v.as_slice(), &['l', 'u', 'a'])
}

/// The display name a game gets when its script declares none: the id with
/// underscores as spaces.
pub open spec fn default_name(id: Seq<char>) -> Seq<char> {
    id.map_values(|c: char| if c == '_' { ' ' } else { c })
}

pub open spec fn default_description() -> Seq<char> {
    seq![
        'N', 'o', ' ', 'd', 'e', 's', 'c', 'r', 'i', 'p', 't', 'i', 'o', 'n', ' ', 'a', 'v', 'a',
        'i', 'l', 'a', 'b', 'l', 'e', '.',
    ]
}

/// A declared text counts when it is not blank.
pub open spec fn declared_or(v: Option<Seq<char>>, dflt: Seq<char>) -> Seq<char> {
    match v {
        Some(t) => if trim(t).len() > 0 {
            t
        } else {
            dflt
        },
        None => dflt,
    }
}

fn declared_or_exec(v: Option<String>, dflt: String) -> (r: String)
    ensures
        r@ == declared_or(
            match v {
                Some(t) => Some(t@),
                None => None,
            },
            dflt@,
        ),
{
    match v {
        Some(t) => {
            let c = chars_of(t.as_str());
            let tr = trim_chars(c.as_slice());
            if tr.len() > 0 {
                t
            } else {
                dflt
            }
        },
        None => dflt,
    }
}

/// The description of game `id` at `script_path`, from what its `GAME_META`
/// table declared (`None`: not declared, or the script could not be run).
pub fn game_meta(
    id: &str,
    script_path: &str,
    declared_name: Option<String>,
    declared_description: Option<String>,
) -> (r: GameMeta)
    ensures
        r.id@ == id@,
        r.script_path@ == script_path@,
        r.name@ == declared_or(
            match declared_name {
                Some(t) => Some(t@),
                None => None,
            },
            default_name(id@),
        ),
        r.description@ == declared_or(
            match declared_description {
                Some(t) => Some(t@),
                None => None,
            },
            default_description(),
        ),
{
    let v = chars_of(id);
    let mut n: Vec<char> = Vec::new();
    let mut i: usize = 0;
    while i < v.len()
        invariant
            i <= v@.len(),
            n@ == default_name(v@.subrange(0, i as int)),
        decreases v@.len() - i,
    {
        let c = v[i];
        n.push(if c == '_' { ' ' } else { c });
        assert(n@ =~= default_name(v@.subrange(0, i + 1)));
        i = i + 1;
    }
    assert(v@.subrange(0, v@.len() as int) =~= v@);
    let dflt_name = string_of(n.as_slice());
    let dflt_desc = string_of(
        &[
            'N', 'o', ' ', 'd', 'e', 's', 'c', 'r', 'i', 'p', 't', 'i', 'o', 'n', ' ', 'a', 'v', 'a',
            'i', 'l', 'a', 'b', 'l', 'e', '.',
        ],
    );
    GameMeta {
        id: id.to_owned(),
        name: declared_or_exec(declared_name, dflt_name),
        description: declared_or_exec(declared_description, dflt_desc),
        script_path: script_path.to_owned(),
    }
}

} // verus!

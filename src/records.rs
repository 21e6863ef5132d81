//! Best records that games keep in the save document, read back for the
//! game list. Each reader looks at one object of the document and gives up
//! (`None`) where a required number is missing or is not a non-negative
//! integer.

use crate::stats::{
    LightsOutBest, MazeEscapeBest, MemoryFlipBest, MinesweeperBest, SolitaireBest, SudokuBest,
};
use crate::store::{lookup, SaveStore};
use crate::text::string_of;
use crate::value::{find_key_exec, obj_views, JsonNode, JsonSpec};
use vstd::prelude::*;

verus! {

pub open spec fn k_lights_out_best() -> Seq<char> {
    seq!['l', 'i', 'g', 'h', 't', 's', '_', 'o', 'u', 't', '_', 'b', 'e', 's', 't']
}

pub open spec fn k_max_size() -> Seq<char> {
    seq!['m', 'a', 'x', '_', 's', 'i', 'z', 'e']
}

pub open spec fn k_min_steps() -> Seq<char> {
    seq!['m', 'i', 'n', '_', 's', 't', 'e', 'p', 's']
}

pub open spec fn k_min_time_sec() -> Seq<char> {
    seq!['m', 'i', 'n', '_', 't', 'i', 'm', 'e', '_', 's', 'e', 'c']
}

pub open spec fn k_memory_flip_best() -> Seq<char> {
    seq!['m', 'e', 'm', 'o', 'r', 'y', '_', 'f', 'l', 'i', 'p', '_', 'b', 'e', 's', 't']
}

pub open spec fn k_difficulty() -> Seq<char> {
    seq!['d', 'i', 'f', 'f', 'i', 'c', 'u', 'l', 't', 'y']
}

pub open spec fn k_minesweeper_best() -> Seq<char> {
    seq!['m', 'i', 'n', 'e', 's', 'w', 'e', 'e', 'p', 'e', 'r', '_', 'b', 'e', 's', 't']
}

pub open spec fn k_n1() -> Seq<char> {
    seq!['1']
}

pub open spec fn k_n2() -> Seq<char> {
    seq!['2']
}

pub open spec fn k_n3() -> Seq<char> {
    seq!['3']
}

pub open spec fn k_maze_escape_best() -> Seq<char> {
    seq!['m', 'a', 'z', 'e', '_', 'e', 's', 'c', 'a', 'p', 'e', '_', 'b', 'e', 's', 't']
}

pub open spec fn k_max_area() -> Seq<char> {
    seq!['m', 'a', 'x', '_', 'a', 'r', 'e', 'a']
}

pub open spec fn k_max_cols() -> Seq<char> {
    seq!['m', 'a', 'x', '_', 'c', 'o', 'l', 's']
}

pub open spec fn k_max_rows() -> Seq<char> {
    seq!['m', 'a', 'x', '_', 'r', 'o', 'w', 's']
}

pub open spec fn k_max_mode() -> Seq<char> {
    seq!['m', 'a', 'x', '_', 'm', 'o', 'd', 'e']
}

pub open spec fn k_solitaire_best_v2() -> Seq<char> {
    seq!['s', 'o', 'l', 'i', 't', 'a', 'i', 'r', 'e', '_', 'b', 'e', 's', 't', '_', 'v', '2']
}

pub open spec fn k_freecell() -> Seq<char> {
    seq!['f', 'r', 'e', 'e', 'c', 'e', 'l', 'l']
}

pub open spec fn k_klondike() -> Seq<char> {
    seq!['k', 'l', 'o', 'n', 'd', 'i', 'k', 'e']
}

pub open spec fn k_spider1() -> Seq<char> {
    seq!['s', 'p', 'i', 'd', 'e', 'r', '1']
}

pub open spec fn k_spider2() -> Seq<char> {
    seq!['s', 'p', 'i', 'd', 'e', 'r', '2']
}

pub open spec fn k_spider3() -> Seq<char> {
    seq!['s', 'p', 'i', 'd', 'e', 'r', '3']
}

pub open spec fn k_solitaire_best() -> Seq<char> {
    seq!['s', 'o', 'l', 'i', 't', 'a', 'i', 'r', 'e', '_', 'b', 'e', 's', 't']
}

pub open spec fn k_foundation() -> Seq<char> {
    seq!['f', 'o', 'u', 'n', 'd', 'a', 't', 'i', 'o', 'n']
}

pub open spec fn k_tableau() -> Seq<char> {
    seq!['t', 'a', 'b', 'l', 'e', 'a', 'u']
}

pub open spec fn k_spider() -> Seq<char> {
    seq!['s', 'p', 'i', 'd', 'e', 'r']
}

pub open spec fn k_sudoku_best() -> Seq<char> {
    seq!['s', 'u', 'd', 'o', 'k', 'u', '_', 'b', 'e', 's', 't']
}

pub open spec fn k_d() -> Seq<char> {
    seq!['d']
}

pub open spec fn k_t() -> Seq<char> {
    seq!['t']
}

pub open spec fn k_twenty_four_best_time() -> Seq<char> {
    seq!['t', 'w', 'e', 'n', 't', 'y', '_', 'f', 'o', 'u', 'r', '_', 'b', 'e', 's', 't', '_', 't', 'i', 'm', 'e']
}

pub open spec fn k_time_sec() -> Seq<char> {
    seq!['t', 'i', 'm', 'e', '_', 's', 'e', 'c']
}

pub open spec fn k_best_time_sec() -> Seq<char> {
    seq!['b', 'e', 's', 't', '_', 't', 'i', 'm', 'e', '_', 's', 'e', 'c']
}

/// A JSON number as `u64`: a non-negative integer.
pub open spec fn u64_of(j: JsonSpec) -> Option<u64> {
    match j {
        JsonSpec::Int(i) => if i >= 0 {
            Some(i as u64)
        } else {
            None
        },
        _ => None,
    }
}

/// The object stored under `name`.
pub open spec fn section(m: Seq<(Seq<char>, JsonSpec)>, name: Seq<char>) -> Option<Seq<(Seq<char>, JsonSpec)>> {
    match lookup(m, name) {
        Some(JsonSpec::Object(s)) => Some(s),
        _ => None,
    }
}

/// Member `k` of an object as `u64`.
pub open spec fn num(m: Seq<(Seq<char>, JsonSpec)>, k: Seq<char>) -> Option<u64> {
    match lookup(m, k) {
        Some(j) => u64_of(j),
        None => None,
    }
}

pub open spec fn or_else(a: Option<u64>, b: Option<u64>) -> Option<u64> {
    if a is Some {
        a
    } else {
        b
    }
}

pub open spec fn positive(a: Option<u64>) -> Option<u64> {
    match a {
        Some(v) => if v > 0 {
            Some(v)
        } else {
            None
        },
        None => None,
    }
}

/// The smaller of two optional values, either of which may be absent.
pub open spec fn min_opt(a: Option<u64>, b: Option<u64>) -> Option<u64> {
    match (a, b) {
        (Some(x), Some(y)) => Some(if x <= y {
            x
        } else {
            y
        }),
        (Some(x), None) => Some(x),
        (None, y) => y,
    }
}

fn one_char(c: char) -> (r: String)
    ensures
        r@ == seq![c],
{
    let a: [char; 1] = [c];
    assert(a@ =~= seq![c]);
    string_of(&a)
}

fn u64_exec(j: &JsonNode) -> (r: Option<u64>)
    ensures
        r == u64_of(j@),
{
    match j {
        JsonNode::Int(i) => if *i >= 0 {
            Some(*i as u64)
        } else {
            None
        },
        _ => None,
    }
}

fn section_exec<'a>(store: &'a SaveStore, name: &String) -> (r: Option<&'a Vec<(String, JsonNode)>>)
    ensures
        r matches Some(v) ==> section(store@, name@) == Some(obj_views(v@)),
        r is None ==> section(store@, name@) is None,
{
    match store.get(name.as_str()) {
        Some(JsonNode::Object(m)) => {
            proof {
                lemma_object_view(*m);
            }
            Some(m)
        },
        _ => None,
    }
}

proof fn lemma_object_view(m: Vec<(String, JsonNode)>)
    ensures
        JsonNode::Object(m)@ == JsonSpec::Object(obj_views(m@)),
{
    assert(JsonNode::Object(m)@->Object_0 =~= obj_views(m@));
}

fn num_exec(m: &Vec<(String, JsonNode)>, k: &String) -> (r: Option<u64>)
    ensures
        r == num(obj_views(m@), k@),
{
    match find_key_exec(m, k) {
        Some(i) => u64_exec(&m[i].1),
        None => None,
    }
}

fn min_opt_exec(a: Option<u64>, b: Option<u64>) -> (r: Option<u64>)
    ensures
        r == min_opt(a, b),
{
    match (a, b) {
        (Some(x), Some(y)) => Some(if x <= y {
            x
        } else {
            y
        }),
        (Some(x), None) => Some(x),
        (None, y) => y,
    }
}

fn positive_exec(a: Option<u64>) -> (r: Option<u64>)
    ensures
        r == positive(a),
{
    match a {
        Some(v) => if v > 0 {
            Some(v)
        } else {
            None
        },
        None => None,
    }
}

/// The best Lights Out record: `max_size`, `min_steps` and `min_time_sec`.
pub fn load_lights_out_best(store: &SaveStore) -> (r: Option<LightsOutBest>)
    ensures
        r == (match section(store@, k_lights_out_best()) {
            Some(s) => match (num(s, k_max_size()), num(s, k_min_steps()), num(s, k_min_time_sec())) {
                (Some(a), Some(b), Some(c)) => Some(LightsOutBest { max_size: a as usize, min_steps: b, min_time_sec: c }),
                _ => None,
            },
            None => None,
        }),
{
    let s = match section_exec(store, &string_of(&['l', 'i', 'g', 'h', 't', 's', '_', 'o', 'u', 't', '_', 'b', 'e', 's', 't'])) {
        Some(s) => s,
        None => {
            return None;
        },
    };
    match (num_exec(s, &string_of(&['m', 'a', 'x', '_', 's', 'i', 'z', 'e'])), num_exec(s, &string_of(&['m', 'i', 'n', '_', 's', 't', 'e', 'p', 's'])), num_exec(s, &string_of(&['m', 'i', 'n', '_', 't', 'i', 'm', 'e', '_', 's', 'e', 'c']))) {
        (Some(a), Some(b), Some(c)) => Some(LightsOutBest { max_size: a as usize, min_steps: b, min_time_sec: c }),
        _ => None,
    }
}

/// The best Memory Flip record: `difficulty`, `min_steps` and `min_time_sec`.
pub fn load_memory_flip_best(store: &SaveStore) -> (r: Option<MemoryFlipBest>)
    ensures
        r == (match section(store@, k_memory_flip_best()) {
            Some(s) => match (num(s, k_difficulty()), num(s, k_min_steps()), num(s, k_min_time_sec())) {
                (Some(a), Some(b), Some(c)) => Some(MemoryFlipBest { difficulty: a as usize, min_steps: b, min_time_sec: c }),
                _ => None,
            },
            None => None,
        }),
{
    let s = match section_exec(store, &string_of(&['m', 'e', 'm', 'o', 'r', 'y', '_', 'f', 'l', 'i', 'p', '_', 'b', 'e', 's', 't'])) {
        Some(s) => s,
        None => {
            return None;
        },
    };
    match (num_exec(s, &string_of(&['d', 'i', 'f', 'f', 'i', 'c', 'u', 'l', 't', 'y'])), num_exec(s, &string_of(&['m', 'i', 'n', '_', 's', 't', 'e', 'p', 's'])), num_exec(s, &string_of(&['m', 'i', 'n', '_', 't', 'i', 'm', 'e', '_', 's', 'e', 'c']))) {
        (Some(a), Some(b), Some(c)) => Some(MemoryFlipBest { difficulty: a as usize, min_steps: b, min_time_sec: c }),
        _ => None,
    }
}

/// The best Minesweeper times of the three official difficulties.
pub fn load_minesweeper_best(store: &SaveStore) -> (r: Option<MinesweeperBest>)
    ensures
        r == (match section(store@, k_minesweeper_best()) {
            Some(s) => Some(MinesweeperBest {
                d1_min_time_sec: num(s, k_n1()),
                d2_min_time_sec: num(s, k_n2()),
                d3_min_time_sec: num(s, k_n3()),
            }),
            None => None,
        }),
{
    let s = match section_exec(store, &string_of(&['m', 'i', 'n', 'e', 's', 'w', 'e', 'e', 'p', 'e', 'r', '_', 'b', 'e', 's', 't'])) {
        Some(s) => s,
        None => {
            return None;
        },
    };
    Some(MinesweeperBest {
        d1_min_time_sec: num_exec(s, &one_char('1')),
        d2_min_time_sec: num_exec(s, &one_char('2')),
        d3_min_time_sec: num_exec(s, &one_char('3')),
    })
}

/// The best Maze Escape record; missing column and row counts read as zero.
pub fn load_maze_escape_best(store: &SaveStore) -> (r: Option<MazeEscapeBest>)
    ensures
        r == (match section(store@, k_maze_escape_best()) {
            Some(s) => match (num(s, k_max_area()), num(s, k_max_mode())) {
                (Some(area), Some(mode)) => Some(MazeEscapeBest {
                    max_area: area as usize,
                    max_cols: (match num(s, k_max_cols()) { Some(v) => v, None => 0 }) as usize,
                    max_rows: (match num(s, k_max_rows()) { Some(v) => v, None => 0 }) as usize,
                    max_mode: mode as usize,
                    min_time_sec: num(s, k_min_time_sec()),
                }),
                _ => None,
            },
            None => None,
        }),
{
    let s = match section_exec(store, &string_of(&['m', 'a', 'z', 'e', '_', 'e', 's', 'c', 'a', 'p', 'e', '_', 'b', 'e', 's', 't'])) {
        Some(s) => s,
        None => {
            return None;
        },
    };
    let area = match num_exec(s, &string_of(&['m', 'a', 'x', '_', 'a', 'r', 'e', 'a'])) {
        Some(v) => v,
        None => {
            return None;
        },
    };
    let cols = match num_exec(s, &string_of(&['m', 'a', 'x', '_', 'c', 'o', 'l', 's'])) {
        Some(v) => v,
        None => 0,
    };
    let rows = match num_exec(s, &string_of(&['m', 'a', 'x', '_', 'r', 'o', 'w', 's'])) {
        Some(v) => v,
        None => 0,
    };
    let mode = match num_exec(s, &string_of(&['m', 'a', 'x', '_', 'm', 'o', 'd', 'e'])) {
        Some(v) => v,
        None => {
            return None;
        },
    };
    Some(MazeEscapeBest {
        max_area: area as usize,
        max_cols: cols as usize,
        max_rows: rows as usize,
        max_mode: mode as usize,
        min_time_sec: num_exec(s, &string_of(&['m', 'i', 'n', '_', 't', 'i', 'm', 'e', '_', 's', 'e', 'c'])),
    })
}

/// The best Solitaire times: from `solitaire_best_v2` (Spider: the best of
/// its three suit counts), else from the older `solitaire_best`; zero times
/// count as none.
pub fn load_solitaire_best(store: &SaveStore) -> (r: Option<SolitaireBest>)
    ensures
        r == (match section(store@, k_solitaire_best_v2()) {
            Some(s) => Some(SolitaireBest {
                freecell_min_time_sec: positive(num(s, k_freecell())),
                klondike_min_time_sec: positive(num(s, k_klondike())),
                spider_min_time_sec: min_opt(
                    min_opt(positive(num(s, k_spider1())), positive(num(s, k_spider2()))),
                    positive(num(s, k_spider3())),
                ),
            }),
            None => match section(store@, k_solitaire_best()) {
                Some(s) => Some(SolitaireBest {
                    freecell_min_time_sec: positive(or_else(num(s, k_freecell()), num(s, k_foundation()))),
                    klondike_min_time_sec: positive(or_else(num(s, k_klondike()), num(s, k_tableau()))),
                    spider_min_time_sec: positive(num(s, k_spider())),
                }),
                None => None,
            },
        }),
{
    match section_exec(store, &string_of(&['s', 'o', 'l', 'i', 't', 'a', 'i', 'r', 'e', '_', 'b', 'e', 's', 't', '_', 'v', '2'])) {
        Some(s) => {
            let spider = min_opt_exec(
                min_opt_exec(positive_exec(num_exec(s, &string_of(&['s', 'p', 'i', 'd', 'e', 'r', '1']))), positive_exec(num_exec(s, &string_of(&['s', 'p', 'i', 'd', 'e', 'r', '2'])))),
                positive_exec(num_exec(s, &string_of(&['s', 'p', 'i', 'd', 'e', 'r', '3']))),
            );
            return Some(SolitaireBest {
                freecell_min_time_sec: positive_exec(num_exec(s, &string_of(&['f', 'r', 'e', 'e', 'c', 'e', 'l', 'l']))),
                klondike_min_time_sec: positive_exec(num_exec(s, &string_of(&['k', 'l', 'o', 'n', 'd', 'i', 'k', 'e']))),
                spider_min_time_sec: spider,
            });
        },
        None => {},
    }
    match section_exec(store, &string_of(&['s', 'o', 'l', 'i', 't', 'a', 'i', 'r', 'e', '_', 'b', 'e', 's', 't'])) {
        Some(s) => {
            let freecell = match num_exec(s, &string_of(&['f', 'r', 'e', 'e', 'c', 'e', 'l', 'l'])) {
                Some(v) => Some(v),
                None => num_exec(s, &string_of(&['f', 'o', 'u', 'n', 'd', 'a', 't', 'i', 'o', 'n'])),
            };
            let klondike = match num_exec(s, &string_of(&['k', 'l', 'o', 'n', 'd', 'i', 'k', 'e'])) {
                Some(v) => Some(v),
                None => num_exec(s, &string_of(&['t', 'a', 'b', 'l', 'e', 'a', 'u'])),
            };
            Some(SolitaireBest {
                freecell_min_time_sec: positive_exec(freecell),
                klondike_min_time_sec: positive_exec(klondike),
                spider_min_time_sec: positive_exec(num_exec(s, &string_of(&['s', 'p', 'i', 'd', 'e', 'r']))),
            })
        },
        None => None,
    }
}

/// The best Sudoku record (`difficulty`/`d`, `min_time_sec`/`t`); only a
/// difficulty of 1 to 5 with a positive time counts.
pub fn load_sudoku_best(store: &SaveStore) -> (r: Option<SudokuBest>)
    ensures
        r == (match section(store@, k_sudoku_best()) {
            Some(s) => match (or_else(num(s, k_difficulty()), num(s, k_d())), or_else(num(s, k_min_time_sec()), num(s, k_t()))) {
                (Some(d), Some(t)) => if 1 <= d as usize <= 5 && t > 0 {
                    Some(SudokuBest { difficulty: d as usize, min_time_sec: t })
                } else {
                    None
                },
                _ => None,
            },
            None => None,
        }),
{
    let s = match section_exec(store, &string_of(&['s', 'u', 'd', 'o', 'k', 'u', '_', 'b', 'e', 's', 't'])) {
        Some(s) => s,
        None => {
            return None;
        },
    };
    let d = match num_exec(s, &string_of(&['d', 'i', 'f', 'f', 'i', 'c', 'u', 'l', 't', 'y'])) {
        Some(v) => v,
        None => match num_exec(s, &one_char('d')) {
            Some(v) => v,
            None => {
                return None;
            },
        },
    };
    let t = match num_exec(s, &string_of(&['m', 'i', 'n', '_', 't', 'i', 'm', 'e', '_', 's', 'e', 'c'])) {
        Some(v) => v,
        None => match num_exec(s, &one_char('t')) {
            Some(v) => v,
            None => {
                return None;
            },
        },
    };
    let difficulty = d as usize;
    if !(1 <= difficulty && difficulty <= 5) || t == 0 {
        return None;
    }
    Some(SudokuBest { difficulty, min_time_sec: t })
}

/// The best 24-points time: a positive number stored directly, or as
/// `time_sec` / `best_time_sec` of an object.
pub fn load_twenty_four_best_time(store: &SaveStore) -> (r: Option<u64>)
    ensures
        r == (match lookup(store@, k_twenty_four_best_time()) {
            Some(j) => if u64_of(j) is Some {
                positive(u64_of(j))
            } else if j is Object {
                positive(or_else(num(j->Object_0, k_time_sec()), num(j->Object_0, k_best_time_sec())))
            } else {
                None
            },
            None => None,
        }),
{
    let key = string_of(&['t', 'w', 'e', 'n', 't', 'y', '_', 'f', 'o', 'u', 'r', '_', 'b', 'e', 's', 't', '_', 't', 'i', 'm', 'e']);
    let j = match store.get(key.as_str()) {
        Some(j) => j,
        None => {
            return None;
        },
    };
    if let Some(sec) = u64_exec(j) {
        return positive_exec(Some(sec));
    }
    match j {
        JsonNode::Object(m) => {
            proof {
                lemma_object_view(*m);
            }
            let sec = match num_exec(m, &string_of(&['t', 'i', 'm', 'e', '_', 's', 'e', 'c'])) {
                Some(v) => Some(v),
                None => num_exec(m, &string_of(&['b', 'e', 's', 't', '_', 't', 'i', 'm', 'e', '_', 's', 'e', 'c'])),
            };
            positive_exec(sec)
        },
        _ => None,
    }
}

} // verus!

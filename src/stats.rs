//! Per-game statistics and best records.
//!
//! Each game keeps a high score and a longest duration; both only ever grow.

use crate::value::{digits, digits_exec};
use crate::text::string_of;
use vstd::prelude::*;

verus! {

/// One game's statistics.
#[derive(Clone, Copy, Debug, Default, PartialEq, Eq, Structural)]
pub struct GameStats {
    pub high_score: u32,
    pub max_duration_sec: u64,
}

#[derive(Clone, Copy, Debug, PartialEq, Eq, Structural)]
pub struct LightsOutBest {
    pub max_size: usize,
    pub min_steps: u64,
    pub min_time_sec: u64,
}

#[derive(Clone, Copy, Debug, PartialEq, Eq, Structural)]
pub struct MemoryFlipBest {
    pub difficulty: usize,
    pub min_steps: u64,
    pub min_time_sec: u64,
}

#[derive(Clone, Copy, Debug, Default, PartialEq, Eq, Structural)]
pub struct MinesweeperBest {
    pub d1_min_time_sec: Option<u64>,
    pub d2_min_time_sec: Option<u64>,
    pub d3_min_time_sec: Option<u64>,
}

#[derive(Clone, Copy, Debug, PartialEq, Eq, Structural)]
pub struct MazeEscapeBest {
    pub max_area: usize,
    pub max_cols: usize,
    pub max_rows: usize,
    pub max_mode: usize,
    pub min_time_sec: Option<u64>,
}

#[derive(Clone, Copy, Debug, Default, PartialEq, Eq, Structural)]
pub struct SolitaireBest {
    pub freecell_min_time_sec: Option<u64>,
    pub klondike_min_time_sec: Option<u64>,
    pub spider_min_time_sec: Option<u64>,
}

#[derive(Clone, Copy, Debug, PartialEq, Eq, Structural)]
pub struct SudokuBest {
    pub difficulty: usize,
    pub min_time_sec: u64,
}

pub open spec fn clamp_score(score: i64) -> u32 {
    if score < 0 {
        0
    } else if score > u32::MAX {
        u32::MAX
    } else {
        score as u32
    }
}

pub open spec fn clamp_duration(d: i64) -> u64 {
    if d < 0 {
        0
    } else {
        d as u64
    }
}

pub open spec fn max_u32(a: u32, b: u32) -> u32 {
    if a >= b {
        a
    } else {
        b
    }
}

pub open spec fn max_u64(a: u64, b: u64) -> u64 {
    if a >= b {
        a
    } else {
        b
    }
}

/// Folds one finished run into a game's statistics: the score the script
/// reports is clamped to `0..=u32::MAX` and the duration to at least zero,
/// then each field keeps the larger value. A game seen for the first time
/// starts from zeros.
pub fn merge_stats(prev: Option<GameStats>, score: i64, duration_sec: i64) -> (r: GameStats)
    ensures
        ({
            let p = match prev {
                Some(p) => p,
                None => GameStats { high_score: 0, max_duration_sec: 0 },
            };
            &&& r.high_score == max_u32(p.high_score, clamp_score(score))
            &&& r.max_duration_sec == max_u64(p.max_duration_sec, clamp_duration(duration_sec))
        }),
{
    let p = match prev {
        Some(p) => p,
        None => GameStats { high_score: 0, max_duration_sec: 0 },
    };
    let s: u32 = if score < 0 {
        0
    } else if score > u32::MAX as i64 {
        u32::MAX
    } else {
        score as u32
    };
    let d: u64 = if duration_sec < 0 {
        0
    } else {
        duration_sec as u64
    };
    GameStats {
        high_score: if p.high_score >= s {
            p.high_score
        } else {
            s
        },
        max_duration_sec: if p.max_duration_sec >= d {
            p.max_duration_sec
        } else {
            d
        },
    }
}

/// Two digits at least, zero-padded.
pub open spec fn pad2(d: Seq<char>) -> Seq<char> {
    if d.len() < 2 {
        seq!['0'] + d
    } else {
        d
    }
}

pub open spec fn duration_text(seconds: nat) -> Seq<char> {
    pad2(digits(seconds / 3600)) + seq![':'] + pad2(digits((seconds % 3600) / 60)) + seq![':']
        + pad2(digits(seconds % 60))
}

fn push_pad2(out: &mut Vec<char>, n: u64)
    ensures
        final(out)@ == old(out)@ + pad2(digits(n as nat)),
{
    let d = digits_exec(n);
    let ghost start = out@;
    if d.len() < 2 {
        out.push('0');
    }
    let ghost mid = out@;
    let mut k: usize = 0;
    while k < d.len()
        invariant
            k <= d@.len(),
            out@ == mid + d@.subrange(0, k as int),
        decreases d@.len() - k,
    {
        out.push(d[k]);
        assert(mid + d@.subrange(0, k + 1) =~= (mid + d@.subrange(0, k as int)).push(d@[k as int]));
        k = k + 1;
    }
    assert(d@.subrange(0, d@.len() as int) =~= d@);
    assert(out@ =~= start + pad2(digits(n as nat)));
}

/// `HH:MM:SS`, each part at least two digits.
pub fn format_duration(seconds: u64) -> (r: String)
    ensures
        r@ == duration_text(seconds as nat),
{
    let mut out: Vec<char> = Vec::new();
    push_pad2(&mut out, seconds / 3600);
    out.push(':');
    push_pad2(&mut out, (seconds % 3600) / 60);
    out.push(':');
    push_pad2(&mut out, seconds % 60);
    assert(out@ =~= duration_text(seconds as nat));
    string_of(out.as_slice())
}

} // verus!

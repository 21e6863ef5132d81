//! Key decoding: raw key presses to the tokens scripts see.
//!
//! Some terminals send an arrow key as `Esc`, then `[` or `O`, then a letter
//! `A`-`D`. After an `Esc` the host looks ahead for at most two more presses,
//! each within a short window, and hands each one (or `None` when the window
//! passed or the event was not a press) to [`escape_step`]. Every event taken
//! during the lookahead is used up there: it is never delivered again.

use crate::text::{lower_char, lower_char_exec, string_of};
use vstd::prelude::*;

verus! {

/// A key as the terminal reports it.
#[derive(Clone, Copy, Debug, PartialEq, Eq, Structural)]
pub enum KeyCode {
    Up,
    Down,
    Left,
    Right,
    Backspace,
    Delete,
    Enter,
    Tab,
    BackTab,
    Esc,
    Char(char),
    /// Any key without a token.
    Other,
}

/// The token of a key press; keys without one give the empty token.
pub open spec fn token_of(code: KeyCode) -> Seq<char> {
    match code {
        KeyCode::Up => seq!['u', 'p'],
        KeyCode::Down => seq!['d', 'o', 'w', 'n'],
        KeyCode::Left => seq!['l', 'e', 'f', 't'],
        KeyCode::Right => seq!['r', 'i', 'g', 'h', 't'],
        KeyCode::Backspace => seq!['b', 'a', 'c', 'k', 's', 'p', 'a', 'c', 'e'],
        KeyCode::Delete => seq!['d', 'e', 'l', 'e', 't', 'e'],
        KeyCode::Enter => seq!['e', 'n', 't', 'e', 'r'],
        KeyCode::Tab => seq!['t', 'a', 'b'],
        KeyCode::BackTab => seq!['t', 'a', 'b'],
        KeyCode::Esc => seq!['e', 's', 'c'],
        KeyCode::Char(c) => if c == ' ' {
            seq!['s', 'p', 'a', 'c', 'e']
        } else {
            seq![lower_char(c)]
        },
        KeyCode::Other => Seq::empty(),
    }
}

/// The token of a key press, as a string.
pub fn key_token(code: KeyCode) -> (r: String)
    ensures
        r@ == token_of(code),
{
    match code {
        KeyCode::Up => string_of(&['u', 'p']),
        KeyCode::Down => string_of(&['d', 'o', 'w', 'n']),
        KeyCode::Left => string_of(&['l', 'e', 'f', 't']),
        KeyCode::Right => string_of(&['r', 'i', 'g', 'h', 't']),
        KeyCode::Backspace => string_of(&['b', 'a', 'c', 'k', 's', 'p', 'a', 'c', 'e']),
        KeyCode::Delete => string_of(&['d', 'e', 'l', 'e', 't', 'e']),
        KeyCode::Enter => string_of(&['e', 'n', 't', 'e', 'r']),
        KeyCode::Tab => string_of(&['t', 'a', 'b']),
        KeyCode::BackTab => string_of(&['t', 'a', 'b']),
        KeyCode::Esc => string_of(&['e', 's', 'c']),
        KeyCode::Char(c) => {
            if c == ' ' {
                string_of(&['s', 'p', 'a', 'c', 'e'])
            } else {
                let l = lower_char_exec(c);
                let v: [char; 1] = [l];
                let r = string_of(&v);
                assert(v@ =~= seq![lower_char(c)]);
                r
            }
        },
        KeyCode::Other => string_of(&[]),
    }
}

/// Where the lookahead after an `Esc` stands.
#[derive(Clone, Copy, Debug, PartialEq, Eq, Structural)]
pub enum EscapeStage {
    /// Waiting for `[` or `O`.
    Prefix,
    /// Waiting for the letter.
    Letter,
}

/// What the host does next.
#[derive(Clone, Copy, Debug, PartialEq, Eq, Structural)]
pub enum EscapeStep {
    /// Look ahead once more, in this stage.
    Next(EscapeStage),
    /// The press resolves to this key.
    Resolved(KeyCode),
}

/// The arrow that a letter after `Esc [` stands for.
pub open spec fn arrow_of(c: char) -> Option<KeyCode> {
    if c == 'A' || c == 'a' {
        Some(KeyCode::Up)
    } else if c == 'B' || c == 'b' {
        Some(KeyCode::Down)
    } else if c == 'C' || c == 'c' {
        Some(KeyCode::Right)
    } else if c == 'D' || c == 'd' {
        Some(KeyCode::Left)
    } else {
        None
    }
}

/// One step of the lookahead after an `Esc`; see [`escape_step`].
pub open spec fn step(stage: EscapeStage, next: Option<KeyCode>) -> EscapeStep {
    match stage {
        EscapeStage::Prefix => match next {
            Some(KeyCode::Char(c)) => if c == '[' || c == 'O' {
                EscapeStep::Next(EscapeStage::Letter)
            } else {
                EscapeStep::Resolved(KeyCode::Esc)
            },
            _ => EscapeStep::Resolved(KeyCode::Esc),
        },
        EscapeStage::Letter => match next {
            Some(KeyCode::Char(c)) => match arrow_of(c) {
                Some(k) => EscapeStep::Resolved(k),
                None => EscapeStep::Resolved(KeyCode::Esc),
            },
            _ => EscapeStep::Resolved(KeyCode::Esc),
        },
    }
}

/// One step of the lookahead after an `Esc`. `next` is the press that came
/// within the window, or `None` when none did (or what came was no press).
/// Whatever comes here is used up; a press that does not continue an arrow
/// sequence leaves a plain `Esc`.
pub fn escape_step(stage: EscapeStage, next: Option<KeyCode>) -> (r: EscapeStep)
    ensures
        r == step(stage, next),
{
    match stage {
        EscapeStage::Prefix => match next {
            Some(KeyCode::Char(c)) => {
                if c == '[' || c == 'O' {
                    EscapeStep::Next(EscapeStage::Letter)
                } else {
                    EscapeStep::Resolved(KeyCode::Esc)
                }
            },
            _ => EscapeStep::Resolved(KeyCode::Esc),
        },
        EscapeStage::Letter => match next {
            Some(KeyCode::Char(c)) => {
                if c == 'A' || c == 'a' {
                    EscapeStep::Resolved(KeyCode::Up)
                } else if c == 'B' || c == 'b' {
                    EscapeStep::Resolved(KeyCode::Down)
                } else if c == 'C' || c == 'c' {
                    EscapeStep::Resolved(KeyCode::Right)
                } else if c == 'D' || c == 'd' {
                    EscapeStep::Resolved(KeyCode::Left)
                } else {
                    EscapeStep::Resolved(KeyCode::Esc)
                }
            },
            _ => EscapeStep::Resolved(KeyCode::Esc),
        },
    }
}

/// The key that a press starting with `first` resolves to, given the presses
/// seen in the lookahead windows that followed (`None`: nothing came in time).
/// Only an `Esc` looks ahead; the second window is opened only after `[` or `O`.
pub open spec fn resolve(first: KeyCode, w1: Option<KeyCode>, w2: Option<KeyCode>) -> KeyCode {
    if first != KeyCode::Esc {
        first
    } else {
        match step(EscapeStage::Prefix, w1) {
            EscapeStep::Resolved(k) => k,
            EscapeStep::Next(stage) => match step(stage, w2) {
                EscapeStep::Resolved(k) => k,
                EscapeStep::Next(_) => KeyCode::Esc,
            },
        }
    }
}

/// An `Esc` press followed within the windows by `[` and `A` reads as `up`;
/// followed by nothing, or by a press that starts no arrow sequence, it reads
/// as `esc`. The tokens a lookahead can produce are only the arrows and `esc`:
/// the presses it used up never come out as tokens of their own.
pub proof fn lemma_escape_sequences(w1: Option<KeyCode>, w2: Option<KeyCode>)
    ensures
        resolve(KeyCode::Esc, Some(KeyCode::Char('[')), Some(KeyCode::Char('A'))) == KeyCode::Up,
        !(w1 matches Some(KeyCode::Char(c)) && (c == '[' || c == 'O')) ==> resolve(KeyCode::Esc, w1, w2)
            == KeyCode::Esc,
        ({
            let k = resolve(KeyCode::Esc, w1, w2);
            k == KeyCode::Esc || k == KeyCode::Up || k == KeyCode::Down || k == KeyCode::Left || k
                == KeyCode::Right
        }),
{
}

} // verus!

//! The moves of a game's main line, read from the text of a PGN file.
//!
//! The text is read as movetext in which some regions hold no move of the
//! main line: tag pairs `[...]`, brace comments `{...}`, rest-of-line
//! comments from `;`, and variations `(...)`, which may nest. Outside them,
//! `.`, `!` and `?` separate like whitespace. Of the tokens that remain, move
//! numbers (digits only), annotation glyphs (`$` first) and game results
//! (`1-0`, `0-1`, `1/2-1/2`, `*`) are dropped; the rest are the moves.
use vstd::prelude::*;
use crate::text::{all_digits, chars_of, is_digit, is_word, lemma_tokens_nonempty, split_chars, token_views, tokens};

verus! {

/// Where in the text the reader stands.
#[derive(Clone, Copy, Debug, PartialEq, Eq, Structural)]
pub enum Region {
    Moves,
    Tag,
    BraceComment,
    LineComment,
    /// Inside this many nested variations, at least one.
    Variation(usize),
}

/// The region after the character `c`, read in region `r`, and whether `c`
/// is kept as part of a move.
pub open spec fn step(r: Region, c: char) -> (Region, bool) {
    match r {
        Region::Moves => if c == '[' {
            (Region::Tag, false)
        } else if c == '{' {
            (Region::BraceComment, false)
        } else if c == ';' {
            (Region::LineComment, false)
        } else if c == '(' {
            (Region::Variation(1), false)
        } else if c == '.' || c == '!' || c == '?' {
            (Region::Moves, false)
        } else {
            (Region::Moves, true)
        },
        Region::Tag => (if c == ']' { Region::Moves } else { Region::Tag }, false),
        Region::BraceComment => (if c == '}' { Region::Moves } else { Region::BraceComment }, false),
        Region::LineComment => (if c == '\n' { Region::Moves } else { Region::LineComment }, false),
        Region::Variation(d) => (
            if c == '(' {
                Region::Variation((d + 1) as usize)
            } else if c == ')' {
                if d <= 1 { Region::Moves } else { Region::Variation((d - 1) as usize) }
            } else {
                Region::Variation(d)
            },
            false,
        ),
    }
}

/// The region after reading `s`, and `s` with each character that is not
/// part of a move turned into a space.
pub open spec fn blank_out(s: Seq<char>) -> (Region, Seq<char>)
    decreases s.len(),
{
    if s.len() == 0 {
        (Region::Moves, seq![])
    } else {
        let (r, kept) = blank_out(s.drop_last());
        let (next, keep) = step(r, s.last());
        (next, kept.push(if keep { s.last() } else { ' ' }))
    }
}

/// Whether a token of the movetext is a move.
pub open spec fn is_move_token(t: Seq<char>) -> bool {
    &&& !all_digits(t)
    &&& t[0] != '$'
    &&& t != "1-0"@
    &&& t != "0-1"@
    &&& t != "1/2-1/2"@
    &&& t != "*"@
}

/// The tokens of `toks` that are moves, in order.
pub open spec fn moves_among(toks: Seq<Seq<char>>) -> Seq<Seq<char>>
    decreases toks.len(),
{
    if toks.len() == 0 {
        seq![]
    } else {
        let rest = moves_among(toks.drop_last());
        if is_move_token(toks.last()) {
            rest.push(toks.last())
        } else {
            rest
        }
    }
}

/// The moves of the main line of the game that `pgn` records.
pub open spec fn main_line(pgn: Seq<char>) -> Seq<Seq<char>> {
    moves_among(tokens(blank_out(pgn).1))
}

fn next_region(r: Region, c: char) -> (out: (Region, bool))
    requires
        r matches Region::Variation(d) ==> d < usize::MAX,
    ensures
        out == step(r, c),
{
    match r {
        Region::Moves => if c == '[' {
            (Region::Tag, false)
        } else if c == '{' {
            (Region::BraceComment, false)
        } else if c == ';' {
            (Region::LineComment, false)
        } else if c == '(' {
            (Region::Variation(1), false)
        } else if c == '.' || c == '!' || c == '?' {
            (Region::Moves, false)
        } else {
            (Region::Moves, true)
        },
        Region::Tag => (if c == ']' { Region::Moves } else { Region::Tag }, false),
        Region::BraceComment => (if c == '}' { Region::Moves } else { Region::BraceComment }, false),
        Region::LineComment => (if c == '\n' { Region::Moves } else { Region::LineComment }, false),
        Region::Variation(d) => (
            if c == '(' {
                Region::Variation(d + 1)
            } else if c == ')' {
                if d <= 1 { Region::Moves } else { Region::Variation(d - 1) }
            } else {
                Region::Variation(d)
            },
            false,
        ),
    }
}

pub open spec fn depth(r: Region) -> nat {
    match r {
        Region::Variation(d) => d as nat,
        _ => 0,
    }
}

proof fn lemma_depth_bounded(s: Seq<char>)
    ensures
        depth(blank_out(s).0) <= s.len(),
        blank_out(s).1.len() == s.len(),
    decreases s.len(),
{
    if s.len() > 0 {
        lemma_depth_bounded(s.drop_last());
    }
}

fn move_token(t: &Vec<char>) -> (r: bool)
    requires
        t@.len() > 0,
    ensures
        r == is_move_token(t@),
{
    let mut digits = true;
    let mut i: usize = 0;
    while i < t.len()
        invariant
            i <= t@.len(),
            digits == all_digits(t@.take(i as int)),
        decreases t.len() - i,
    {
        let c = t[i];
        proof {
            let p = t@.take(i + 1);
            let q = t@.take(i as int);
            assert(p[i as int] == c);
            if all_digits(q) && is_digit(c) {
                assert forall|j: int| 0 <= j < p.len() implies is_digit(#[trigger] p[j]) by {
                    if j < i {
                        assert(p[j] == q[j]);
                    }
                }
            } else if !all_digits(q) {
                let j = choose|j: int| 0 <= j < q.len() && !is_digit(#[trigger] q[j]);
                assert(p[j] == q[j]);
            }
        }
        digits = digits && '0' <= c && c <= '9';
        i = i + 1;
    }
    assert(t@.take(t@.len() as int) == t@);
    !digits && t[0] != '$' && !is_word(t, "1-0") && !is_word(t, "0-1") && !is_word(t, "1/2-1/2")
        && !is_word(t, "*")
}

/// The moves of the main line of the game that `pgn` records, in the order
/// in which they were played, each as its text in algebraic notation.
pub fn main_line_moves(pgn: &str) -> (r: Vec<Vec<char>>)
    ensures
        token_views(r@) == main_line(pgn@),
{
    let text = chars_of(pgn);
    let n = text.len();
    let mut kept: Vec<char> = Vec::new();
    let mut region = Region::Moves;
    let mut i: usize = 0;
    while i < n
        invariant
            n == pgn@.len(),
            text@ == pgn@,
            i <= n,
            (region, kept@) == blank_out(pgn@.take(i as int)),
        decreases n - i,
    {
        let c = text[i];
        assert(pgn@.take(i + 1).drop_last() == pgn@.take(i as int));
        proof {
            lemma_depth_bounded(pgn@.take(i as int));
        }
        let (next, keep) = next_region(region, c);
        kept.push(if keep { c } else { ' ' });
        region = next;
        i = i + 1;
    }
    assert(pgn@.take(n as int) == pgn@);
    let toks = split_chars(&kept);
    let ghost all = token_views(toks@);
    let mut moves: Vec<Vec<char>> = Vec::new();
    let mut k: usize = 0;
    while k < toks.len()
        invariant
            k <= toks@.len(),
            all == token_views(toks@),
            all == tokens(blank_out(pgn@).1),
            token_views(moves@) == moves_among(all.take(k as int)),
        decreases toks.len() - k,
    {
        assert(all.take(k + 1).drop_last() == all.take(k as int));
        assert(all.take(k + 1).last() == toks@[k as int]@);
        proof {
            lemma_tokens_nonempty(blank_out(pgn@).1, k as int);
        }
        if move_token(&toks[k]) {
            let ghost before = moves@;
            moves.push(toks[k].clone());
            assert(token_views(moves@) == token_views(before).push(toks@[k as int]@));
        }
        k = k + 1;
    }
    assert(all.take(toks@.len() as int) == all);
    moves
}

} // verus!

//! The engine's side of the conversation: what is sent to it, and how each
//! line that it prints is read.
use vstd::prelude::*;
use crate::text::{
    decimal_i32, is_word, lemma_signed_decimal_reads_back, parse_i32, signed_decimal, split_tokens,
    token_views, tokens,
};

verus! {

/// The evaluation that stands for a forced mate, whoever mates.
pub const MATE_SCORE: i32 = 2147483647;

/// The evaluation kinds that follow `score` in an `info` line.
#[derive(Clone, Copy, Debug, PartialEq, Eq, Structural)]
pub enum Score {
    /// `cp <n>`: a score in centipawns.
    Centipawns(i32),
    /// `mate <n>`: a forced mate.
    Mate,
}

/// Why a line with a `score` token could not be read.
#[derive(Clone, Copy, Debug, PartialEq, Eq, Structural)]
pub enum ScoreError {
    /// Nothing follows `score`.
    MissingKind,
    /// `score` is followed by neither `cp` nor `mate`.
    UnknownKind,
    /// Nothing follows `cp`.
    MissingValue,
    /// What follows `cp` is not an `i32` in base ten.
    MalformedValue,
}

/// What one line of engine output means to the reader.
#[derive(Clone, Copy, Debug, PartialEq, Eq, Structural)]
pub enum LineEvent {
    /// The line begins with `bestmove`: the response is over.
    Finished,
    /// The line carries a score.
    Scored(Score),
    /// The line carries no score.
    Ignored,
}

impl Score {
    /// The evaluation that the score stands for.
    pub open spec fn spec_value(self) -> i32 {
        match self {
            Score::Centipawns(v) => v,
            Score::Mate => MATE_SCORE,
        }
    }

    /// The evaluation that the score stands for: the centipawns as they are,
    /// and `MATE_SCORE` for a mate.
    pub fn value(self) -> (r: i32)
        ensures
            r == self.spec_value(),
    {
        match self {
            Score::Centipawns(v) => v,
            Score::Mate => MATE_SCORE,
        }
    }
}

/// The score given by the tokens that follow a `score` token.
pub open spec fn score_after(rest: Seq<Seq<char>>) -> Result<Score, ScoreError> {
    if rest.len() == 0 {
        Err(ScoreError::MissingKind)
    } else if rest[0] == "mate"@ {
        Ok(Score::Mate)
    } else if rest[0] == "cp"@ {
        if rest.len() < 2 {
            Err(ScoreError::MissingValue)
        } else {
            match decimal_i32(rest[1]) {
                Some(v) => Ok(Score::Centipawns(v)),
                None => Err(ScoreError::MalformedValue),
            }
        }
    } else {
        Err(ScoreError::UnknownKind)
    }
}

/// The score of a token sequence, read after its first `score` token; `None`
/// where there is no such token.
pub open spec fn score_in(toks: Seq<Seq<char>>) -> Option<Result<Score, ScoreError>>
    decreases toks.len(),
{
    if toks.len() == 0 {
        None
    } else if toks[0] == "score"@ {
        Some(score_after(toks.drop_first()))
    } else {
        score_in(toks.drop_first())
    }
}

/// The first `score` token decides, whatever comes before it.
proof fn lemma_first_score_decides(pre: Seq<Seq<char>>, rest: Seq<Seq<char>>)
    requires
        forall|i: int| 0 <= i < pre.len() ==> pre[i] != "score"@,
        rest.len() > 0,
        rest[0] == "score"@,
    ensures
        score_in(pre + rest) == Some(score_after(rest.drop_first())),
    decreases pre.len(),
{
    if pre.len() == 0 {
        assert(pre + rest == rest);
    } else {
        lemma_first_score_decides(pre.drop_first(), rest);
        assert((pre + rest).drop_first() == pre.drop_first() + rest);
        assert((pre + rest)[0] == pre[0]);
    }
}

/// A line whose tokens hold `score cp` and then the base-ten text of `v`,
/// with no `score` token before them, reads as `v` centipawns, whatever other
/// tokens surround them, unless the line begins with `bestmove`.
pub proof fn lemma_centipawn_line(
    line: Seq<char>,
    pre: Seq<Seq<char>>,
    post: Seq<Seq<char>>,
    v: i32,
)
    requires
        !is_finish(line),
        forall|i: int| 0 <= i < pre.len() ==> pre[i] != "score"@,
        tokens(line) == pre + seq!["score"@, "cp"@, signed_decimal(v as int)] + post,
    ensures
        line_event(line) == Ok::<LineEvent, ScoreError>(LineEvent::Scored(Score::Centipawns(v))),
{
    let rest = seq!["score"@, "cp"@, signed_decimal(v as int)] + post;
    assert(tokens(line) == pre + rest);
    lemma_first_score_decides(pre, rest);
    assert(rest.drop_first() == seq!["cp"@, signed_decimal(v as int)] + post);
    reveal_strlit("mate");
    reveal_strlit("cp");
    assert("mate"@.len() != "cp"@.len());
    lemma_signed_decimal_reads_back(v);
}

/// A line whose tokens hold `score mate`, with no `score` token before them,
/// reads as a mate, worth `MATE_SCORE` whatever its sign or distance, unless
/// the line begins with `bestmove`.
pub proof fn lemma_mate_line(line: Seq<char>, pre: Seq<Seq<char>>, post: Seq<Seq<char>>)
    requires
        !is_finish(line),
        forall|i: int| 0 <= i < pre.len() ==> pre[i] != "score"@,
        tokens(line) == pre + seq!["score"@, "mate"@] + post,
    ensures
        line_event(line) == Ok::<LineEvent, ScoreError>(LineEvent::Scored(Score::Mate)),
        Score::Mate.spec_value() == i32::MAX,
{
    let rest = seq!["score"@, "mate"@] + post;
    assert(tokens(line) == pre + rest);
    lemma_first_score_decides(pre, rest);
    assert(rest.drop_first() == seq!["mate"@] + post);
}

/// Whether a line ends the engine's response.
pub open spec fn is_finish(line: Seq<char>) -> bool {
    line.len() >= "bestmove"@.len() && line.take("bestmove"@.len() as int) == "bestmove"@
}

/// What a line of engine output means.
pub open spec fn line_event(line: Seq<char>) -> Result<LineEvent, ScoreError> {
    if is_finish(line) {
        Ok(LineEvent::Finished)
    } else {
        match score_in(tokens(line)) {
            None => Ok(LineEvent::Ignored),
            Some(Ok(s)) => Ok(LineEvent::Scored(s)),
            Some(Err(e)) => Err(e),
        }
    }
}

/// Whether `line` begins with `prefix`.
fn starts_with(line: &str, prefix: &str) -> (r: bool)
    ensures
        r == (line@.len() >= prefix@.len() && line@.take(prefix@.len() as int) == prefix@),
{
    let n = prefix.unicode_len();
    if line.unicode_len() < n {
        return false;
    }
    let mut i: usize = 0;
    while i < n
        invariant
            n == prefix@.len(),
            n <= line@.len(),
            i <= n,
            forall|j: int| 0 <= j < i ==> line@[j] == prefix@[j],
        decreases n - i,
    {
        if line.get_char(i) != prefix.get_char(i) {
            return false;
        }
        i = i + 1;
    }
    assert(line@.take(n as int) == prefix@);
    true
}

/// Reads the score from the tokens of a line, from index `k` on, where the
/// token at `k` is `score`.
fn read_score(toks: &Vec<Vec<char>>, k: usize) -> (r: Result<Score, ScoreError>)
    requires
        k < toks@.len(),
    ensures
        r == score_after(token_views(toks@).subrange(k + 1, toks@.len() as int)),
{
    let ghost rest = token_views(toks@).subrange(k + 1, toks@.len() as int);
    if toks.len() - k <= 1 {
        return Err(ScoreError::MissingKind);
    }
    assert(rest[0] == toks@[k + 1]@);
    if is_word(&toks[k + 1], "mate") {
        Ok(Score::Mate)
    } else if is_word(&toks[k + 1], "cp") {
        if toks.len() - k <= 2 {
            return Err(ScoreError::MissingValue);
        }
        assert(rest[1] == toks@[k + 2]@);
        match parse_i32(&toks[k + 2]) {
            Some(v) => Ok(Score::Centipawns(v)),
            None => Err(ScoreError::MalformedValue),
        }
    } else {
        Err(ScoreError::UnknownKind)
    }
}

/// Reads one line of engine output: whether it ends the response, carries a
/// score, or is of no interest. A line that begins with `bestmove` ends the
/// response whatever else it holds. Otherwise the first `score` token decides:
/// `mate` gives a mate, `cp` and a base-ten `i32` give centipawns, and
/// anything else there is an error.
pub fn parse_line(line: &str) -> (r: Result<LineEvent, ScoreError>)
    ensures
        r == line_event(line@),
{
    if starts_with(line, "bestmove") {
        return Ok(LineEvent::Finished);
    }
    let toks = split_tokens(line);
    let ghost all = token_views(toks@);
    let mut k: usize = 0;
    assert(all.subrange(0, all.len() as int) == all);
    while k < toks.len()
        invariant
            k <= toks@.len(),
            all == token_views(toks@),
            all == tokens(line@),
            !is_finish(line@),
            score_in(all) == score_in(all.subrange(k as int, all.len() as int)),
        decreases toks.len() - k,
    {
        let ghost here = all.subrange(k as int, all.len() as int);
        assert(here.drop_first() == all.subrange(k + 1, all.len() as int));
        assert(here[0] == toks@[k as int]@);
        if is_word(&toks[k], "score") {
            assert(score_in(here) == Some(score_after(here.drop_first())));
            let res = read_score(&toks, k);
            return match res {
                Ok(s) => Ok(LineEvent::Scored(s)),
                Err(e) => Err(e),
            };
        }
        k = k + 1;
    }
    assert(all.subrange(k as int, all.len() as int).len() == 0);
    Ok(LineEvent::Ignored)
}

} // verus!

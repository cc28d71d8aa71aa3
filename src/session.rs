//! One request to the engine: the commands that ask for an evaluation, and
//! the reader that follows the engine's answer line by line.
use vstd::prelude::*;
use crate::text::{decimal_text, digit_char};
use crate::protocol::{is_finish, line_event, parse_line, LineEvent, ScoreError};

verus! {

/// The engine program that is run when no other is configured.
pub const DEFAULT_ENGINE: &'static str = "stockfish";

/// The thinking time, in milliseconds, that is asked for by default.
pub const DEFAULT_MOVETIME_MS: u32 = 1000;

/// How an evaluation is requested: which program, and how long it may think.
pub struct EngineConfig {
    pub command: String,
    pub movetime_ms: u32,
}

impl Default for EngineConfig {
    fn default() -> (r: EngineConfig)
        ensures
            r.command@ == DEFAULT_ENGINE@,
            r.movetime_ms == DEFAULT_MOVETIME_MS,
    {
        EngineConfig { command: String::from_str(DEFAULT_ENGINE), movetime_ms: DEFAULT_MOVETIME_MS }
    }
}

/// The text sent to the engine to have the position `fen` evaluated for
/// `movetime_ms` milliseconds: three newline-terminated commands.
pub open spec fn request_text(fen: Seq<char>, movetime_ms: nat) -> Seq<char> {
    "uci\n"@ + "position fen "@ + fen + "\n"@ + "go movetime "@ + decimal_text(movetime_ms)
        + "\n"@
}

fn digit_str(d: u32) -> (r: &'static str)
    requires
        d < 10,
    ensures
        r@ == seq![digit_char(d as nat)],
{
    proof {
        reveal_strlit("0");
        reveal_strlit("1");
        reveal_strlit("2");
        reveal_strlit("3");
        reveal_strlit("4");
        reveal_strlit("5");
        reveal_strlit("6");
        reveal_strlit("7");
        reveal_strlit("8");
        reveal_strlit("9");
    }
    match d {
        0 => "0",
        1 => "1",
        2 => "2",
        3 => "3",
        4 => "4",
        5 => "5",
        6 => "6",
        7 => "7",
        8 => "8",
        _ => "9",
    }
}

fn append_decimal(s: &mut String, n: u32)
    ensures
        final(s)@ == old(s)@ + decimal_text(n as nat),
    decreases n,
{
    if n >= 10 {
        append_decimal(s, n / 10);
    }
    s.append(digit_str(n % 10));
    assert(final(s)@ == old(s)@ + decimal_text(n as nat));
}

impl EngineConfig {
    /// The commands that ask the engine for an evaluation of `fen`.
    pub fn request(&self, fen: &str) -> (r: String)
        ensures
            r@ == request_text(fen@, self.movetime_ms as nat),
    {
        let mut s = String::from_str("uci\n");
        s.append("position fen ");
        s.append(fen);
        s.append("\n");
        s.append("go movetime ");
        append_decimal(&mut s, self.movetime_ms);
        s.append("\n");
        assert(s@ == request_text(fen@, self.movetime_ms as nat));
        s
    }
}

/// Follows the engine's answer to one request: the evaluation of the last
/// score line seen so far, zero before the first.
pub struct ResponseReader {
    pub evaluation: i32,
}

/// The evaluation after a line whose meaning is `event`, from `current`.
pub open spec fn after_event(current: i32, event: LineEvent) -> i32 {
    match event {
        LineEvent::Scored(s) => s.spec_value(),
        _ => current,
    }
}

/// A line that begins with `bestmove` ends the response, whatever follows
/// in it, and leaves the evaluation read so far as it was.
pub proof fn lemma_finish_keeps_evaluation(line: Seq<char>, current: i32)
    requires
        line.len() >= 8,
        line.take(8) == seq!['b', 'e', 's', 't', 'm', 'o', 'v', 'e'],
    ensures
        line_event(line) == Ok::<LineEvent, ScoreError>(LineEvent::Finished),
        after_event(current, LineEvent::Finished) == current,
{
    reveal_strlit("bestmove");
    assert("bestmove"@ == seq!['b', 'e', 's', 't', 'm', 'o', 'v', 'e']);
    assert(is_finish(line));
}

impl ResponseReader {
    /// A reader that has seen no line yet.
    pub fn new() -> (r: ResponseReader)
        ensures
            r.evaluation == 0,
    {
        ResponseReader { evaluation: 0 }
    }

    /// Takes one line of the engine's answer. Returns `Ok(true)` where the line
    /// ends the answer (it begins with `bestmove`), and `Ok(false)` where more
    /// is to come. A line with a score replaces the evaluation, a mate with
    /// `MATE_SCORE`; any other line leaves it. A malformed score is an error,
    /// and leaves the evaluation as it was.
    pub fn feed(&mut self, line: &str) -> (r: Result<bool, ScoreError>)
        ensures
            match line_event(line@) {
                Ok(event) => {
                    &&& r == Ok::<bool, ScoreError>(event == LineEvent::Finished)
                    &&& final(self).evaluation == after_event(old(self).evaluation, event)
                },
                Err(e) => {
                    &&& r == Err::<bool, ScoreError>(e)
                    &&& final(self).evaluation == old(self).evaluation
                },
            },
    {
        match parse_line(line) {
            Ok(LineEvent::Finished) => Ok(true),
            Ok(LineEvent::Scored(s)) => {
                self.evaluation = s.value();
                Ok(false)
            },
            Ok(LineEvent::Ignored) => Ok(false),
            Err(e) => Err(e),
        }
    }
}

} // verus!

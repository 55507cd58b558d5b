use vstd::prelude::*;

verus! {

/// The speed an attempt must reach, in words per minute.
pub const WPM_LIMIT: u32 = 50;

/// The share of keystrokes, in percent, that must be correct.
pub const CORRECT_LIMIT: u32 = 90;

/// Chunks with fewer correct characters than this pass on speed whatever it was.
pub const SHORT_CHUNK: u64 = 15;

/// Words per minute for `correct` characters typed in `elapsed_ms`
/// milliseconds: `correct / 5` words over `elapsed_ms / 60000` minutes,
/// truncated once at the end, that is `12000 * correct / elapsed_ms`, held to
/// the range of `u32`. No time at all counts as infinitely fast, unless
/// nothing was typed.
pub open spec fn wpm_of(correct: nat, elapsed_ms: nat) -> nat {
    if elapsed_ms == 0 {
        if correct == 0 {
            0
        } else {
            u32::MAX as nat
        }
    } else if 12000 * correct / elapsed_ms > u32::MAX {
        u32::MAX as nat
    } else {
        12000 * correct / elapsed_ms
    }
}

/// The percentage of keystrokes that were correct, truncated; zero where there
/// was no keystroke.
pub open spec fn accuracy_of(correct: nat, errors: nat) -> nat {
    if correct + errors == 0 {
        0
    } else {
        correct * 100 / (correct + errors)
    }
}

/// The measurement of one attempt and the verdict on each threshold.
#[derive(Clone, Copy, Debug, PartialEq, Eq, Structural)]
pub struct Score {
    /// Percentage of keystrokes that were correct.
    pub accuracy: u32,
    /// Words per minute.
    pub wpm: u32,
    /// Whether the accuracy threshold was met.
    pub accuracy_ok: bool,
    /// Whether the speed threshold was met, or the chunk was short enough to
    /// be exempt from it.
    pub speed_ok: bool,
}

/// The score of an attempt with `correct` correct characters, `errors`
/// mismatched keystrokes and `elapsed_ms` milliseconds taken.
pub open spec fn score_of(correct: nat, errors: nat, elapsed_ms: nat) -> Score {
    Score {
        accuracy: accuracy_of(correct, errors) as u32,
        wpm: wpm_of(correct, elapsed_ms) as u32,
        accuracy_ok: accuracy_of(correct, errors) >= CORRECT_LIMIT,
        speed_ok: wpm_of(correct, elapsed_ms) >= WPM_LIMIT || correct < SHORT_CHUNK,
    }
}

impl Score {
    /// Whether the attempt passed: both thresholds met.
    pub fn passed(&self) -> (r: bool)
        ensures
            r == (self.accuracy_ok && self.speed_ok),
    {
        self.accuracy_ok && self.speed_ok
    }
}

/// How an attempt ended.
#[derive(Clone, Copy, Debug, PartialEq, Eq, Structural)]
pub enum Outcome {
    /// The chunk had nothing to type: it passes, and nothing is measured.
    Empty,
    /// The chunk was typed and measured.
    Scored(Score),
}

/// The outcome of an attempt with `correct` correct characters, `errors`
/// mismatched keystrokes and `elapsed_ms` milliseconds taken.
pub open spec fn outcome_of(correct: nat, errors: nat, elapsed_ms: nat) -> Outcome {
    if correct == 0 {
        Outcome::Empty
    } else {
        Outcome::Scored(score_of(correct, errors, elapsed_ms))
    }
}

/// Whether an attempt with this outcome lets the tutor move on.
pub open spec fn outcome_passed(o: Outcome) -> bool {
    match o {
        Outcome::Empty => true,
        Outcome::Scored(s) => s.accuracy_ok && s.speed_ok,
    }
}

impl Outcome {
    /// Whether the tutor moves on to the next chunk.
    pub fn passed(&self) -> (r: bool)
        ensures
            r == outcome_passed(*self),
    {
        match self {
            Outcome::Empty => true,
            Outcome::Scored(s) => s.passed(),
        }
    }
}

/// Words per minute for `correct` characters typed in `elapsed_ms`
/// milliseconds.
pub fn wpm(correct: u64, elapsed_ms: u64) -> (r: u32)
    ensures
        r == wpm_of(correct as nat, elapsed_ms as nat),
{
    if elapsed_ms == 0 {
        if correct == 0 {
            0
        } else {
            u32::MAX
        }
    } else {
        assert(12000 * (correct as u128) <= 12000 * 0xffff_ffff_ffff_ffff_u128) by (nonlinear_arith)
            requires
                correct <= 0xffff_ffff_ffff_ffff_u64,
        ;
        let per_minute: u128 = 12000 * (correct as u128) / (elapsed_ms as u128);
        if per_minute > u32::MAX as u128 {
            u32::MAX
        } else {
            per_minute as u32
        }
    }
}

/// The percentage of keystrokes that were correct, truncated.
pub fn accuracy(correct: u64, errors: u64) -> (r: u32)
    ensures
        r == accuracy_of(correct as nat, errors as nat),
{
    let total: u128 = correct as u128 + errors as u128;
    if total == 0 {
        0
    } else {
        let c: u128 = correct as u128;
        assert((c * 100) as int / (total as int) <= 100) by (nonlinear_arith)
            requires
                c <= total,
                total > 0,
        ;
        (c * 100 / total) as u32
    }
}

/// Scores an attempt on speed and accuracy.
pub fn score(correct: u64, errors: u64, elapsed_ms: u64) -> (r: Score)
    ensures
        r == score_of(correct as nat, errors as nat, elapsed_ms as nat),
{
    let acc = accuracy(correct, errors);
    let w = wpm(correct, elapsed_ms);
    Score {
        accuracy: acc,
        wpm: w,
        accuracy_ok: acc >= CORRECT_LIMIT,
        speed_ok: w >= WPM_LIMIT || correct < SHORT_CHUNK,
    }
}

/// Judges a finished attempt: one that typed nothing passes unmeasured, any
/// other is scored.
pub fn evaluate(correct: u64, errors: u64, elapsed_ms: u64) -> (r: Outcome)
    ensures
        r == outcome_of(correct as nat, errors as nat, elapsed_ms as nat),
{
    if correct == 0 {
        Outcome::Empty
    } else {
        Outcome::Scored(score(correct, errors, elapsed_ms))
    }
}

} // verus!

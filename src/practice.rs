use vstd::prelude::*;

use crate::normalize::{ascii, is_normalized, letter, lemma_normalized_fixed, normalized};
use crate::score::{wpm_of, SHORT_CHUNK, WPM_LIMIT, evaluate, outcome_of, outcome_passed, Outcome};
use crate::wrap::{lemma_two_chunks, wrap_all};
use crate::text::to_chars;

verus! {

/// A key press, as the typing loop sees it.
#[derive(Clone, Copy, Debug, PartialEq, Eq, Structural)]
pub enum KeyEvent {
    /// A character key.
    Char(char),
    /// The interrupt chord, which ends the program.
    Interrupt,
    /// Any other key, which is ignored.
    Other,
}

/// What the typing loop does after a key press.
#[derive(Clone, Copy, Debug, PartialEq, Eq, Structural)]
pub enum KeyAction {
    /// Stop the program at once.
    Abort,
    /// Nothing: wait for the next key.
    Ignore,
    /// Sound the alert and wait for the next key at the same place.
    Mismatch,
    /// Move the cursor one character on.
    Advance,
}

/// One pass of typing through a chunk: where the cursor is, and how many
/// characters were typed correctly and how many keystrokes missed.
pub struct Attempt {
    target: Vec<char>,
    pos: usize,
    correct: u64,
    errors: u64,
}

/// The number of ASCII characters in `s`.
pub open spec fn ascii_count(s: Seq<char>) -> nat
    decreases s.len(),
{
    if s.len() == 0 {
        0
    } else {
        ascii_count(s.drop_last()) + if ascii(s.last()) {
            1nat
        } else {
            0nat
        }
    }
}

impl Attempt {
    /// The chunk being typed.
    pub closed spec fn target(&self) -> Seq<char> {
        self.target@
    }

    /// How many characters of the chunk are behind the cursor.
    pub closed spec fn position(&self) -> nat {
        self.pos as nat
    }

    /// Characters typed correctly so far.
    pub closed spec fn correct_count(&self) -> nat {
        self.correct as nat
    }

    /// Mismatched keystrokes so far.
    pub closed spec fn error_count(&self) -> nat {
        self.errors as nat
    }

    /// The cursor stays within the chunk, and every ASCII character behind it
    /// was typed correctly once.
    pub closed spec fn wf(&self) -> bool {
        &&& self.pos <= self.target.len()
        &&& self.correct == ascii_count(self.target@.take(self.pos as int))
    }

    /// Whether the character under the cursor waits for a key.
    pub open spec fn awaits_key(&self) -> bool {
        self.position() < self.target().len() && ascii(self.target()[self.position() as int])
    }

    /// Whether the cursor has passed the whole chunk.
    pub open spec fn done(&self) -> bool {
        self.position() == self.target().len()
    }

    /// A fresh attempt at `chunk`: cursor at the start, nothing counted.
    pub fn new(chunk: &str) -> (r: Attempt)
        ensures
            r.wf(),
            r.target() == chunk@,
            r.position() == 0,
            r.correct_count() == 0,
            r.error_count() == 0,
    {
        let target = to_chars(chunk);
        assert(target@.take(0) =~= Seq::<char>::empty());
        Attempt { target, pos: 0, correct: 0, errors: 0 }
    }

    /// Characters typed correctly so far.
    pub fn correct(&self) -> (r: u64)
        ensures
            r == self.correct_count(),
    {
        self.correct
    }

    /// Mismatched keystrokes so far.
    pub fn errors(&self) -> (r: u64)
        ensures
            r == self.error_count(),
    {
        self.errors
    }

    /// Whether the character under the cursor waits for a key.
    pub fn needs_key(&self) -> (r: bool)
        requires
            self.wf(),
        ensures
            r == self.awaits_key(),
    {
        self.pos < self.target.len() && (self.target[self.pos] as u32) < 128
    }

    /// Whether the cursor has passed the whole chunk.
    pub fn is_done(&self) -> (r: bool)
        requires
            self.wf(),
        ensures
            r == self.done(),
    {
        self.pos == self.target.len()
    }

    /// Steps the cursor over a character under it that cannot be typed (one
    /// that is not ASCII), and says whether it did.
    pub fn skip_untypeable(&mut self) -> (r: bool)
        requires
            old(self).wf(),
        ensures
            final(self).wf(),
            r == (old(self).position() < old(self).target().len() && !ascii(
                old(self).target()[old(self).position() as int],
            )),
            final(self).target() == old(self).target(),
            final(self).position() == old(self).position() + if r {
                1nat
            } else {
                0nat
            },
            final(self).correct_count() == old(self).correct_count(),
            final(self).error_count() == old(self).error_count(),
    {
        if self.pos < self.target.len() && !((self.target[self.pos] as u32) < 128) {
            assert(self.target@.take(self.pos + 1).drop_last() =~= self.target@.take(
                self.pos as int,
            ));
            self.pos = self.pos + 1;
            true
        } else {
            false
        }
    }

    /// Takes a key press while a character waits under the cursor.
    ///
    /// The interrupt chord aborts; a key that is not a character is ignored; a
    /// character that matches the one under the cursor counts as correct and
    /// moves the cursor on; any other character counts as an error and leaves
    /// the cursor where it is. Where no character waits, only the interrupt
    /// chord does anything.
    pub fn press(&mut self, key: KeyEvent) -> (r: KeyAction)
        requires
            old(self).wf(),
        ensures
            final(self).wf(),
            final(self).target() == old(self).target(),
            r == (match key {
                KeyEvent::Interrupt => KeyAction::Abort,
                KeyEvent::Other => KeyAction::Ignore,
                KeyEvent::Char(c) => if !old(self).awaits_key() {
                    KeyAction::Ignore
                } else if c == old(self).target()[old(self).position() as int] {
                    KeyAction::Advance
                } else {
                    KeyAction::Mismatch
                },
            }),
            r == KeyAction::Advance ==> {
                &&& final(self).position() == old(self).position() + 1
                &&& final(self).correct_count() == old(self).correct_count() + 1
                &&& final(self).error_count() == old(self).error_count()
            },
            r == KeyAction::Mismatch ==> {
                &&& final(self).position() == old(self).position()
                &&& final(self).correct_count() == old(self).correct_count()
                &&& final(self).error_count() == if old(self).error_count() < u64::MAX {
                    old(self).error_count() + 1
                } else {
                    old(self).error_count()
                }
            },
            r != KeyAction::Advance && r != KeyAction::Mismatch ==> *final(self) == *old(self),
    {
        match key {
            KeyEvent::Interrupt => KeyAction::Abort,
            KeyEvent::Other => KeyAction::Ignore,
            KeyEvent::Char(c) => {
                if !self.needs_key() {
                    KeyAction::Ignore
                } else if c == self.target[self.pos] {
                    proof {
                        lemma_ascii_count_bound(self.target@.take(self.pos as int));
                    }
                    assert(self.target@.take(self.pos + 1).drop_last() =~= self.target@.take(
                        self.pos as int,
                    ));
                    self.pos = self.pos + 1;
                    self.correct = self.correct + 1;
                    KeyAction::Advance
                } else {
                    if self.errors < u64::MAX {
                        self.errors = self.errors + 1;
                    }
                    KeyAction::Mismatch
                }
            },
        }
    }

    /// Judges the attempt, `elapsed_ms` milliseconds after it began.
    pub fn finish(&self, elapsed_ms: u64) -> (r: Outcome)
        requires
            self.wf(),
        ensures
            r == outcome_of(self.correct_count(), self.error_count(), elapsed_ms as nat),
    {
        evaluate(self.correct, self.errors, elapsed_ms)
    }
}

/// An attempt at a chunk that normalizes to nothing is over before any key
/// is pressed, and passes unmeasured however long it took.
pub proof fn lemma_empty_chunk_passes(line: Seq<char>, a: Attempt, elapsed_ms: nat)
    requires
        a.wf(),
        a.target() == normalized(line),
        normalized(line).len() == 0,
    ensures
        !a.awaits_key(),
        a.done(),
        outcome_of(a.correct_count(), a.error_count(), elapsed_ms) == Outcome::Empty,
        outcome_passed(outcome_of(a.correct_count(), a.error_count(), elapsed_ms)),
{
    assert(a.target@.take(0) =~= Seq::<char>::empty());
}

/// Once the cursor has passed the whole chunk, every ASCII character of it
/// has been typed correctly exactly once.
pub proof fn lemma_done_counts(a: Attempt)
    requires
        a.wf(),
        a.done(),
    ensures
        a.correct_count() == ascii_count(a.target()),
{
    assert(a.target@.take(a.pos as int) =~= a.target@);
}

/// An attempt with no mistyped key passes when its chunk is short or it was
/// typed at the speed limit or faster.
pub proof fn lemma_flawless_attempt_passes(correct: nat, elapsed_ms: nat)
    requires
        correct > 0,
        correct < SHORT_CHUNK || wpm_of(correct, elapsed_ms) >= WPM_LIMIT,
    ensures
        outcome_passed(outcome_of(correct, 0, elapsed_ms)),
{
    assert(correct * 100 / correct == 100) by (nonlinear_arith)
        requires
            correct > 0,
    ;
}

proof fn lemma_ascii_count_letters(s: Seq<char>)
    requires
        forall|i: int| 0 <= i < s.len() ==> letter(#[trigger] s[i]),
    ensures
        ascii_count(s) == s.len(),
    decreases s.len(),
{
    if s.len() > 0 {
        assert(letter(s[s.len() - 1]));
        assert forall|i: int| 0 <= i < s.drop_last().len() implies letter(
            #[trigger] s.drop_last()[i],
        ) by {
            assert(s.drop_last()[i] == s[i]);
        }
        lemma_ascii_count_letters(s.drop_last());
    }
}

proof fn lemma_letters_chunk(c: Seq<char>)
    requires
        forall|i: int| 0 <= i < c.len() ==> letter(#[trigger] c[i]),
    ensures
        normalized(c) == c,
        ascii_count(c) == c.len(),
{
    assert(is_normalized(c)) by {
        if c.len() > 0 {
            assert(letter(c[0]) && letter(c[c.len() - 1]));
        }
        assert forall|i: int| 0 <= i && i + 1 < c.len() implies !(#[trigger] c[i] == ' '
            && c[i + 1] == ' ') by {
            assert(letter(c[i]));
        }
    }
    lemma_normalized_fixed(c);
    lemma_ascii_count_letters(c);
}

/// A line of 85 characters to type, at width 80, gives two chunks of 80 and 5
/// characters that normalizing leaves as they are. Typed without a mistake,
/// each needs exactly its length in correct keys and passes on the first
/// attempt: the first when typed within 19.2 seconds (50 words per minute),
/// the second whatever the time, being short.
pub proof fn lemma_long_line_scenario(l: Seq<char>, first_ms: nat, second_ms: nat)
    requires
        l.len() == 85,
        forall|i: int| 0 <= i < l.len() ==> letter(#[trigger] l[i]),
        first_ms <= 19200,
    ensures
        wrap_all(seq![l], 80) == seq![l.take(80), l.skip(80)],
        l.take(80).len() == 80,
        l.skip(80).len() == 5,
        normalized(l.take(80)) == l.take(80),
        normalized(l.skip(80)) == l.skip(80),
        ascii_count(l.take(80)) == 80,
        ascii_count(l.skip(80)) == 5,
        outcome_passed(outcome_of(80, 0, first_ms)),
        outcome_passed(outcome_of(5, 0, second_ms)),
{
    lemma_two_chunks(l, 80);
    let a = l.take(80);
    let b = l.skip(80);
    assert forall|i: int| 0 <= i < a.len() implies letter(#[trigger] a[i]) by {
        assert(a[i] == l[i]);
    }
    assert forall|i: int| 0 <= i < b.len() implies letter(#[trigger] b[i]) by {
        assert(b[i] == l[i + 80]);
    }
    lemma_letters_chunk(a);
    lemma_letters_chunk(b);
    if first_ms > 0 {
        assert(12000 * 80 / first_ms >= 50) by (nonlinear_arith)
            requires
                0 < first_ms <= 19200,
        ;
    }
    lemma_flawless_attempt_passes(80, first_ms);
    lemma_flawless_attempt_passes(5, second_ms);
}

proof fn lemma_ascii_count_bound(s: Seq<char>)
    ensures
        ascii_count(s) <= s.len(),
    decreases s.len(),
{
    if s.len() > 0 {
        lemma_ascii_count_bound(s.drop_last());
    }
}

} // verus!

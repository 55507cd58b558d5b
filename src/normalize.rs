use vstd::prelude::*;

use crate::text::{from_chars, to_chars};

verus! {

/// Whether `c` has the Unicode White_Space property (the set that
/// `char::is_whitespace` goes by).
pub open spec fn white_space(c: char) -> bool {
    let u = c as u32;
    ||| 9 <= u <= 13
    ||| u == 32
    ||| u == 0x85
    ||| u == 0xA0
    ||| u == 0x1680
    ||| 0x2000 <= u <= 0x200A
    ||| u == 0x2028
    ||| u == 0x2029
    ||| u == 0x202F
    ||| u == 0x205F
    ||| u == 0x3000
}

/// Whether `c` is an ASCII character.
pub open spec fn ascii(c: char) -> bool {
    (c as u32) < 128
}

/// Whether `c` is a character to type: ASCII and not white space.
pub open spec fn letter(c: char) -> bool {
    ascii(c) && !white_space(c)
}

/// The characters of `s` to type, in order: its ASCII characters that are
/// not white space.
pub open spec fn letters(s: Seq<char>) -> Seq<char>
    decreases s.len(),
{
    if s.len() == 0 {
        Seq::empty()
    } else if letter(s.last()) {
        letters(s.drop_last()).push(s.last())
    } else {
        letters(s.drop_last())
    }
}

/// Whether ASCII white space follows the last character to type in `s`
/// (non-ASCII characters do not count either way).
pub open spec fn gap(s: Seq<char>) -> bool
    decreases s.len(),
{
    if s.len() == 0 {
        false
    } else if !ascii(s.last()) {
        gap(s.drop_last())
    } else {
        white_space(s.last())
    }
}

/// The text to type for a chunk `s`: non-ASCII characters dropped, each run
/// of white space between two characters to type collapsed to one space, and
/// white space at either end trimmed.
pub open spec fn normalized(s: Seq<char>) -> Seq<char>
    decreases s.len(),
{
    if s.len() == 0 {
        Seq::empty()
    } else if !letter(s.last()) {
        normalized(s.drop_last())
    } else if normalized(s.drop_last()).len() > 0 && gap(s.drop_last()) {
        normalized(s.drop_last()).push(' ').push(s.last())
    } else {
        normalized(s.drop_last()).push(s.last())
    }
}

/// Whether `s` is in the form that normalizing gives: ASCII only, spaces its
/// only white space, no space at either end and no two spaces side by side.
pub open spec fn is_normalized(s: Seq<char>) -> bool {
    &&& forall|i: int| 0 <= i < s.len() ==> ascii(#[trigger] s[i])
    &&& forall|i: int| 0 <= i < s.len() && white_space(#[trigger] s[i]) ==> s[i] == ' '
    &&& s.len() > 0 ==> s[0] != ' ' && s.last() != ' '
    &&& forall|i: int| 0 <= i && i + 1 < s.len() ==> !(#[trigger] s[i] == ' ' && s[i + 1] == ' ')
}

/// Like [`is_normalized`], except that one space may end `s`.
spec fn is_normalized_prefix(s: Seq<char>) -> bool {
    &&& forall|i: int| 0 <= i < s.len() ==> ascii(#[trigger] s[i])
    &&& forall|i: int| 0 <= i < s.len() && white_space(#[trigger] s[i]) ==> s[i] == ' '
    &&& s.len() > 0 ==> s[0] != ' '
    &&& forall|i: int| 0 <= i && i + 1 < s.len() ==> !(#[trigger] s[i] == ' ' && s[i + 1] == ' ')
}

proof fn lemma_prefix_normalized(t: Seq<char>)
    requires
        is_normalized_prefix(t),
    ensures
        normalized(t) == (if t.len() > 0 && t.last() == ' ' {
            t.drop_last()
        } else {
            t
        }),
        gap(t) == (t.len() > 0 && t.last() == ' '),
    decreases t.len(),
{
    if t.len() > 0 {
        let p = t.drop_last();
        assert(is_normalized_prefix(p)) by {
            assert forall|i: int| 0 <= i && i + 1 < p.len() implies !(#[trigger] p[i] == ' '
                && p[i + 1] == ' ') by {
                assert(p[i] == t[i] && p[i + 1] == t[i + 1]);
            }
            assert forall|i: int| 0 <= i < p.len() implies ascii(#[trigger] p[i]) by {
                assert(p[i] == t[i]);
            }
            assert forall|i: int| 0 <= i < p.len() && white_space(#[trigger] p[i]) implies p[i]
                == ' ' by {
                assert(p[i] == t[i]);
            }
        }
        lemma_prefix_normalized(p);
        let c = t.last();
        assert(c == t[t.len() - 1]);
        assert(ascii(c));
        if c == ' ' {
            assert(t.len() >= 2);
            assert(!(t[t.len() - 2] == ' ' && t[t.len() - 1] == ' '));
            assert(p.last() == t[t.len() - 2]);
        } else {
            assert(!white_space(c));
            if p.len() > 0 && p.last() == ' ' {
                assert(p.len() >= 2) by {
                    assert(p[0] == t[0]);
                }
                assert(p.drop_last().push(' ').push(c) =~= t);
            } else {
                assert(p.push(c) =~= t);
            }
        }
    }
}

proof fn lemma_normalized_form(s: Seq<char>)
    ensures
        is_normalized(normalized(s)),
        letters(normalized(s)) == letters(s),
    decreases s.len(),
{
    if s.len() > 0 {
        let p = s.drop_last();
        let r = normalized(p);
        let c = s.last();
        lemma_normalized_form(p);
        if letter(c) {
            let t = normalized(s);
            if r.len() > 0 && gap(p) {
                let q = r.push(' ');
                assert(t == q.push(c));
                assert(q.drop_last() =~= r);
                assert(q.last() == ' ');
                assert(!letter(' '));
                assert(letters(q) == letters(r));
                assert(t.drop_last() =~= q);
            } else {
                assert(t.drop_last() =~= r);
            }
            assert forall|i: int| 0 <= i < t.len() implies ascii(#[trigger] t[i]) && (white_space(
                t[i],
            ) ==> t[i] == ' ') by {
                if i < r.len() {
                    assert(t[i] == r[i]);
                }
            }
            assert forall|i: int| 0 <= i && i + 1 < t.len() implies !(#[trigger] t[i] == ' '
                && t[i + 1] == ' ') by {
                if i + 1 < r.len() {
                    assert(t[i] == r[i] && t[i + 1] == r[i + 1]);
                }
                if r.len() > 0 {
                    assert(r[r.len() - 1] == r.last());
                }
            }
            if t.len() > 0 {
                if r.len() > 0 {
                    assert(t[0] == r[0]);
                }
            }
        }
    }
}

/// Normalizing gives text in normalized form: ASCII only, spaces its only
/// white space, no space at either end and no run of more than one space.
/// The characters to type are those of the input, in order.
pub proof fn lemma_normalized_is_normalized(s: Seq<char>)
    ensures
        is_normalized(normalized(s)),
        letters(normalized(s)) == letters(s),
{
    lemma_normalized_form(s);
}

/// Text in normalized form is left as it is by normalizing.
pub proof fn lemma_normalized_fixed(t: Seq<char>)
    requires
        is_normalized(t),
    ensures
        normalized(t) == t,
{
    lemma_prefix_normalized(t);
    if t.len() > 0 {
        assert(t[t.len() - 1] == t.last());
    }
}

/// Normalizing twice gives what normalizing once gives.
pub proof fn lemma_normalize_idempotent(s: Seq<char>)
    ensures
        normalized(normalized(s)) == normalized(s),
{
    lemma_normalized_form(s);
    lemma_normalized_fixed(normalized(s));
}

/// Whether `c` has the Unicode White_Space property.
pub fn is_white_space(c: char) -> (r: bool)
    ensures
        r == white_space(c),
{
    let u = c as u32;
    (9 <= u && u <= 13) || u == 32 || u == 0x85 || u == 0xA0 || u == 0x1680 || (0x2000 <= u && u
        <= 0x200A) || u == 0x2028 || u == 0x2029 || u == 0x202F || u == 0x205F || u == 0x3000
}

/// The text to type for `line`: non-ASCII characters dropped, each run of
/// white space between two characters to type collapsed to one space, and
/// white space at either end trimmed.
pub fn normalize(line: &str) -> (r: String)
    ensures
        r@ == normalized(line@),
        is_normalized(r@),
{
    let t = to_chars(line);
    let mut out: Vec<char> = Vec::new();
    let mut pending_space = false;
    let mut k: usize = 0;
    while k < t.len()
        invariant
            k <= t.len(),
            out@ == normalized(t@.take(k as int)),
            pending_space == gap(t@.take(k as int)),
        decreases t.len() - k,
    {
        let c = t[k];
        assert(t@.take(k as int + 1).drop_last() =~= t@.take(k as int));
        if (c as u32) < 128 {
            if is_white_space(c) {
                pending_space = true;
            } else {
                if out.len() > 0 && pending_space {
                    out.push(' ');
                }
                out.push(c);
                pending_space = false;
            }
        }
        k = k + 1;
    }
    assert(t@.take(t.len() as int) =~= t@);
    proof {
        lemma_normalized_form(line@);
    }
    from_chars(&out)
}

} // verus!

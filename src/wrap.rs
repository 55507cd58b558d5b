use vstd::prelude::*;
use vstd::seq_lib::lemma_flatten_concat;

use crate::text::{from_chars, to_chars};

verus! {

/// The chunks that one line is cut into at width `w`: the whole line when it
/// fits, else its first `w` characters followed by the chunks of the rest.
pub open spec fn wrap_line(l: Seq<char>, w: nat) -> Seq<Seq<char>>
    decreases l.len(),
{
    if w == 0 || l.len() <= w {
        seq![l]
    } else {
        seq![l.take(w as int)] + wrap_line(l.skip(w as int), w)
    }
}

/// The chunks of all `lines` at width `w`, line after line.
pub open spec fn wrap_all(lines: Seq<Seq<char>>, w: nat) -> Seq<Seq<char>>
    decreases lines.len(),
{
    if lines.len() == 0 {
        Seq::empty()
    } else {
        wrap_all(lines.drop_last(), w) + wrap_line(lines.last(), w)
    }
}

/// The next chunk cut from a pending buffer `b` at width `w`.
pub open spec fn first_chunk(b: Seq<char>, w: nat) -> Seq<char> {
    if b.len() <= w {
        b
    } else {
        b.take(w as int)
    }
}

/// What stays pending after the next chunk is cut from `b` at width `w`.
pub open spec fn after_chunk(b: Seq<char>, w: nat) -> Seq<char> {
    if b.len() <= w {
        Seq::empty()
    } else {
        b.skip(w as int)
    }
}

/// The characters of each string of `v`.
pub open spec fn views(v: Seq<String>) -> Seq<Seq<char>> {
    v.map_values(|s: String| s@)
}

/// Cuts source lines, one at a time, into chunks of at most a fixed width.
///
/// A line is fed only once the previous one is used up; each chunk taken is
/// the next `width` characters of the pending line, or all of it when fewer
/// remain.
pub struct WrappedLines {
    buffer: Vec<char>,
    width: usize,
}

impl WrappedLines {
    /// The characters of the current line that no chunk has taken yet.
    pub closed spec fn pending(&self) -> Seq<char> {
        self.buffer@
    }

    /// The widest chunk that is cut.
    pub closed spec fn chunk_width(&self) -> nat {
        self.width as nat
    }

    /// A wrapper of the given width with nothing pending.
    pub fn new(width: usize) -> (r: WrappedLines)
        requires
            width >= 1,
        ensures
            r.pending() == Seq::<char>::empty(),
            r.chunk_width() == width,
    {
        WrappedLines { buffer: Vec::new(), width }
    }

    /// The chunk width.
    pub fn width(&self) -> (r: usize)
        ensures
            r == self.chunk_width(),
    {
        self.width
    }

    /// Whether the current line is used up, so that the next one is due.
    pub fn wants_line(&self) -> (r: bool)
        ensures
            r == (self.pending().len() == 0),
    {
        self.buffer.len() == 0
    }

    /// Makes `line` the pending line.
    pub fn feed(&mut self, line: &str)
        requires
            old(self).pending().len() == 0,
        ensures
            final(self).pending() == line@,
            final(self).chunk_width() == old(self).chunk_width(),
    {
        self.buffer = to_chars(line);
    }

    /// Cuts the next chunk from the pending line: all of it when it fits in
    /// the width, else its first `width` characters.
    pub fn take_chunk(&mut self) -> (r: String)
        ensures
            r@ == first_chunk(old(self).pending(), old(self).chunk_width()),
            final(self).pending() == after_chunk(old(self).pending(), old(self).chunk_width()),
            final(self).chunk_width() == old(self).chunk_width(),
    {
        if self.buffer.len() <= self.width {
            let chunk = from_chars(&self.buffer);
            self.buffer = Vec::new();
            chunk
        } else {
            let rest = self.buffer.split_off(self.width);
            let chunk = from_chars(&self.buffer);
            self.buffer = rest;
            chunk
        }
    }
}

proof fn lemma_wrap_line_step(b: Seq<char>, w: nat)
    requires
        w >= 1,
    ensures
        wrap_line(b, w) == seq![first_chunk(b, w)] + (if after_chunk(b, w).len() == 0 {
            Seq::<Seq<char>>::empty()
        } else {
            wrap_line(after_chunk(b, w), w)
        }),
{
    if b.len() <= w {
        assert(seq![b] + Seq::<Seq<char>>::empty() =~= seq![b]);
    }
}

proof fn lemma_line_round_trip(l: Seq<char>, w: nat)
    requires
        w >= 1,
    ensures
        wrap_line(l, w).flatten() == l,
    decreases l.len(),
{
    if l.len() <= w {
        seq![l].lemma_flatten_one_element();
    } else {
        lemma_line_round_trip(l.skip(w as int), w);
        lemma_flatten_concat(seq![l.take(w as int)], wrap_line(l.skip(w as int), w));
        seq![l.take(w as int)].lemma_flatten_one_element();
        assert(l.take(w as int) + l.skip(w as int) =~= l);
    }
}

/// Joining the chunks of a sequence of lines gives back the lines joined:
/// wrapping adds, drops and reorders no character.
pub proof fn lemma_wrap_round_trip(lines: Seq<Seq<char>>, w: nat)
    requires
        w >= 1,
    ensures
        wrap_all(lines, w).flatten() == lines.flatten(),
    decreases lines.len(),
{
    if lines.len() > 0 {
        lemma_wrap_round_trip(lines.drop_last(), w);
        lemma_line_round_trip(lines.last(), w);
        lemma_flatten_concat(wrap_all(lines.drop_last(), w), wrap_line(lines.last(), w));
        lines.drop_last().lemma_flatten_push(lines.last());
        assert(lines.drop_last().push(lines.last()) =~= lines);
    }
}

proof fn lemma_line_chunk_sizes(l: Seq<char>, w: nat)
    requires
        w >= 1,
    ensures
        forall|i: int|
            0 <= i < wrap_line(l, w).len() ==> {
                &&& (#[trigger] wrap_line(l, w)[i]).len() <= w
                &&& l.len() > 0 ==> wrap_line(l, w)[i].len() > 0
            },
    decreases l.len(),
{
    if l.len() > w {
        lemma_line_chunk_sizes(l.skip(w as int), w);
        let tail = wrap_line(l.skip(w as int), w);
        assert forall|i: int| 0 <= i < wrap_line(l, w).len() implies {
            &&& (#[trigger] wrap_line(l, w)[i]).len() <= w
            &&& l.len() > 0 ==> wrap_line(l, w)[i].len() > 0
        } by {
            if i > 0 {
                assert(wrap_line(l, w)[i] == tail[i - 1]);
            }
        }
    }
}

/// No chunk is longer than the width, and a chunk is empty only where some
/// source line was empty.
pub proof fn lemma_wrap_chunk_sizes(lines: Seq<Seq<char>>, w: nat)
    requires
        w >= 1,
    ensures
        forall|i: int|
            0 <= i < wrap_all(lines, w).len() ==> (#[trigger] wrap_all(lines, w)[i]).len() <= w,
        forall|i: int|
            0 <= i < wrap_all(lines, w).len() && (#[trigger] wrap_all(lines, w)[i]).len() == 0
                ==> exists|j: int| 0 <= j < lines.len() && (#[trigger] lines[j]).len() == 0,
    decreases lines.len(),
{
    if lines.len() > 0 {
        let init = lines.drop_last();
        lemma_wrap_chunk_sizes(init, w);
        lemma_line_chunk_sizes(lines.last(), w);
        let a = wrap_all(init, w);
        let b = wrap_line(lines.last(), w);
        assert forall|i: int| 0 <= i < wrap_all(lines, w).len() implies {
            &&& (#[trigger] wrap_all(lines, w)[i]).len() <= w
            &&& wrap_all(lines, w)[i].len() == 0 ==> exists|j: int|
                0 <= j < lines.len() && (#[trigger] lines[j]).len() == 0
        } by {
            if i < a.len() {
                assert(wrap_all(lines, w)[i] == a[i]);
                if a[i].len() == 0 {
                    let j = choose|j: int| 0 <= j < init.len() && (#[trigger] init[j]).len() == 0;
                    assert(lines[j] == init[j]);
                }
            } else {
                assert(wrap_all(lines, w)[i] == b[i - a.len()]);
                if b[i - a.len()].len() == 0 {
                    assert(lines[lines.len() - 1] == lines.last());
                }
            }
        }
    }
}

/// A line longer than the width but at most twice as long is cut into two
/// chunks: its first `w` characters and the rest.
pub proof fn lemma_two_chunks(l: Seq<char>, w: nat)
    requires
        w >= 1,
        w < l.len() <= 2 * w,
    ensures
        wrap_all(seq![l], w) == seq![l.take(w as int), l.skip(w as int)],
        wrap_all(seq![l], w)[0].len() == w,
        wrap_all(seq![l], w)[1].len() == l.len() - w,
{
    assert(seq![l].drop_last() =~= Seq::<Seq<char>>::empty());
    assert(seq![l].last() == l);
    assert(wrap_all(seq![l].drop_last(), w) == Seq::<Seq<char>>::empty());
    assert(Seq::<Seq<char>>::empty() + wrap_line(l, w) =~= wrap_line(l, w));
    assert(wrap_all(seq![l], w) == wrap_line(l, w));
    assert(l.skip(w as int).len() <= w);
    assert(wrap_line(l.skip(w as int), w) == seq![l.skip(w as int)]);
    assert(seq![l.take(w as int)] + seq![l.skip(w as int)] =~= seq![l.take(w as int), l.skip(w as int)]);
}

/// Cuts all of `lines` into chunks of at most `width` characters, feeding a
/// [`WrappedLines`] each line as the previous one is used up.
pub fn wrap_lines(lines: &Vec<String>, width: usize) -> (r: Vec<String>)
    requires
        width >= 1,
    ensures
        views(r@) == wrap_all(views(lines@), width as nat),
{
    let ghost w = width as nat;
    let ghost src = views(lines@);
    let mut out: Vec<String> = Vec::new();
    let mut wl = WrappedLines::new(width);
    let mut i: usize = 0;
    loop
        invariant
            i <= lines.len(),
            src == views(lines@),
            w >= 1,
            wl.chunk_width() == w,
            views(out@) + (if wl.pending().len() == 0 {
                Seq::<Seq<char>>::empty()
            } else {
                wrap_line(wl.pending(), w)
            }) == wrap_all(src.take(i as int), w),
        ensures
            views(out@) == wrap_all(src, w),
        decreases lines.len() - i, wl.pending().len(),
    {
        if wl.wants_line() {
            if i == lines.len() {
                assert(src.take(i as int) =~= src);
                assert(views(out@) + Seq::<Seq<char>>::empty() =~= views(out@));
                break;
            }
            wl.feed(lines[i].as_str());
            assert(src.take(i as int + 1).drop_last() =~= src.take(i as int));
            assert(views(out@) + Seq::<Seq<char>>::empty() =~= views(out@));
            i = i + 1;
        }
        let ghost before = wl.pending();
        proof {
            lemma_wrap_line_step(before, w);
        }
        let chunk = wl.take_chunk();
        let ghost old_out = views(out@);
        out.push(chunk);
        assert(views(out@) =~= old_out.push(chunk@));
        assert(old_out.push(chunk@) + (if wl.pending().len() == 0 {
            Seq::<Seq<char>>::empty()
        } else {
            wrap_line(wl.pending(), w)
        }) =~= old_out + wrap_line(before, w));
    }
    out
}

} // verus!

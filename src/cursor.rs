//! A line cursor over a gcode program that hands the program out in chunks
//! of a fixed number of lines.
use vstd::prelude::*;

use crate::text::{
    chars_of, join_lines, join_range, lemma_split_join, lines_have_no, lines_of, split_lines,
    string_of, text_lines,
};

verus! {

/// The abstract state of a cursor: the program's lines, the index of the
/// next line to hand out, and the number of lines per chunk.
pub struct CursorView {
    pub lines: Seq<Seq<char>>,
    pub pos: nat,
    pub chunk_size: nat,
}

impl CursorView {
    pub open spec fn wf(self) -> bool {
        self.pos <= self.lines.len() && self.chunk_size > 0
    }

    /// Every line has been handed out.
    pub open spec fn is_terminal(self) -> bool {
        self.pos >= self.lines.len()
    }

    /// Where the next chunk ends: `chunk_size` lines on, or the end.
    pub open spec fn next_end(self) -> nat {
        if self.pos + self.chunk_size <= self.lines.len() {
            self.pos + self.chunk_size
        } else if self.pos <= self.lines.len() {
            self.lines.len()
        } else {
            self.pos
        }
    }

    /// The text of the next chunk: its lines joined with newlines.
    pub open spec fn next_chunk(self) -> Seq<char> {
        join_lines(self.lines.subrange(self.pos as int, self.next_end() as int))
    }

    pub open spec fn advanced(self) -> CursorView {
        CursorView { pos: self.next_end(), ..self }
    }

    /// The chunks that successive reads hand out until the cursor is
    /// terminal.
    pub open spec fn drain(self) -> Seq<Seq<char>>
        decreases self.lines.len() - self.pos,
    {
        if self.is_terminal() || self.chunk_size == 0 {
            Seq::empty()
        } else {
            seq![self.next_chunk()] + self.advanced().drain()
        }
    }
}

pub struct ChunkCursor {
    lines: Vec<Vec<char>>,
    pos: usize,
    chunk_size: usize,
}

impl View for ChunkCursor {
    type V = CursorView;

    closed spec fn view(&self) -> CursorView {
        CursorView {
            lines: self.lines.deep_view(),
            pos: self.pos as nat,
            chunk_size: self.chunk_size as nat,
        }
    }
}

impl ChunkCursor {
    /// A cursor at the first line of `program`, handing out `chunk_size`
    /// lines at a time.
    pub fn new(program: &str, chunk_size: usize) -> (r: ChunkCursor)
        requires
            chunk_size > 0,
        ensures
            r@.wf(),
            r@.lines == lines_of(program@),
            r@.pos == 0,
            r@.chunk_size == chunk_size,
    {
        let cs = chars_of(program);
        let lines = text_lines(&cs);
        ChunkCursor { lines, pos: 0, chunk_size }
    }

    /// Every line has been handed out; every further read is empty.
    pub fn is_terminal(&self) -> (r: bool)
        requires
            self@.wf(),
        ensures
            r == self@.is_terminal(),
    {
        self.pos >= self.lines.len()
    }

    /// Hands out the next chunk: up to `chunk_size` lines from the current
    /// position, joined with newlines, and moves past them. A terminal cursor
    /// returns the empty text and stays as it is.
    pub fn next(&mut self) -> (r: String)
        requires
            old(self)@.wf(),
        ensures
            final(self)@.wf(),
            final(self)@ == old(self)@.advanced(),
            r@ == old(self)@.next_chunk(),
            old(self)@.is_terminal() ==> r@.len() == 0 && final(self)@ == old(self)@,
    {
        let end = if self.lines.len() - self.pos >= self.chunk_size {
            self.pos + self.chunk_size
        } else {
            self.lines.len()
        };
        let text = join_range(&self.lines, self.pos, end);
        self.pos = end;
        string_of(&text)
    }
}

/// `join_lines` of two non-empty line sequences puts a newline between them.
pub proof fn lemma_join_append(a: Seq<Seq<char>>, b: Seq<Seq<char>>)
    requires
        a.len() >= 1,
        b.len() >= 1,
    ensures
        join_lines(a + b) == join_lines(a) + seq!['\n'] + join_lines(b),
    decreases b.len(),
{
    if b.len() == 1 {
        assert((a + b).drop_last() =~= a);
        assert((a + b).last() == b[0]);
    } else {
        lemma_join_append(a, b.drop_last());
        assert((a + b).drop_last() =~= a + b.drop_last());
        assert((a + b).last() == b.last());
    }
}

proof fn lemma_drain_from(v: CursorView)
    requires
        v.wf(),
        !v.is_terminal(),
    ensures
        v.drain().len() == (v.lines.len() - v.pos + v.chunk_size - 1) as int / (
        v.chunk_size as int),
        join_lines(v.drain()) == join_lines(v.lines.subrange(v.pos as int, v.lines.len() as int)),
    decreases v.lines.len() - v.pos,
{
    let n = v.lines.len() as int;
    let c = v.chunk_size as int;
    let p = v.pos as int;
    let w = v.advanced();
    let e = v.next_end() as int;
    if w.is_terminal() {
        assert(e == n);
        assert(w.drain() =~= Seq::<Seq<char>>::empty());
        assert(v.drain() =~= seq![v.next_chunk()]);
        assert(n - p <= c);
        assert((n - p + c - 1) / c == 1) by (nonlinear_arith)
            requires
                1 <= n - p <= c,
        ;
    } else {
        lemma_drain_from(w);
        assert(e == p + c);
        assert((n - e + c - 1) / c + 1 == (n - p + c - 1) / c) by (nonlinear_arith)
            requires
                e == p + c,
                c > 0,
                n - e >= 1,
        {
            assert(n - p + c - 1 == (n - e + c - 1) + c);
        }
        let d = w.drain();
        assert(v.drain() =~= seq![v.next_chunk()] + d);
        lemma_join_append(seq![v.next_chunk()], d);
        let left = v.lines.subrange(p, e);
        let right = v.lines.subrange(e, n);
        lemma_join_append(left, right);
        assert(left + right =~= v.lines.subrange(p, n));
    }
}

/// Reading a program of `n` lines in chunks of `c` lines hands out
/// `ceil(n / c)` chunks before it is terminal, and the chunks joined
/// with newlines give back the program's text, so splitting them at
/// newlines gives back its lines.
pub proof fn lemma_chunks_cover_program(lines: Seq<Seq<char>>, c: nat)
    requires
        c > 0,
    ensures
        ({
            let v = CursorView { lines, pos: 0, chunk_size: c };
            &&& v.drain().len() == (lines.len() + c - 1) as int / (c as int)
            &&& lines.len() > 0 ==> join_lines(v.drain()) == join_lines(lines)
            &&& lines.len() > 0 && lines_have_no(lines, '\n') ==> split_lines(
                join_lines(v.drain()),
            ) == lines
        }),
{
    let v = CursorView { lines, pos: 0, chunk_size: c };
    if lines.len() == 0 {
        assert(v.drain() =~= Seq::<Seq<char>>::empty());
        assert((c - 1) as int / (c as int) == 0) by (nonlinear_arith)
            requires
                c > 0,
        ;
    } else {
        lemma_drain_from(v);
        assert(lines.subrange(0, lines.len() as int) =~= lines);
        if lines_have_no(lines, '\n') {
            lemma_split_join(lines);
        }
    }
}

} // verus!

//! Conversions between strings and character sequences, and the line
//! structure of a text.
use vstd::prelude::*;

verus! {

/// The pieces of `s` between newline characters, in order. A text with `n`
/// newlines has `n + 1` pieces; none of them holds a newline.
pub open spec fn split_lines(s: Seq<char>) -> Seq<Seq<char>>
    decreases s.len(),
{
    if s.len() == 0 {
        seq![Seq::empty()]
    } else {
        let prev = split_lines(s.drop_last());
        if s.last() == '\n' {
            prev.push(Seq::empty())
        } else {
            prev.update(prev.len() - 1, prev.last().push(s.last()))
        }
    }
}

/// The lines `ls` written one after the other, with a newline between two
/// neighbours.
pub open spec fn join_lines(ls: Seq<Seq<char>>) -> Seq<char>
    decreases ls.len(),
{
    if ls.len() == 0 {
        Seq::empty()
    } else if ls.len() == 1 {
        ls[0]
    } else {
        join_lines(ls.drop_last()) + seq!['\n'] + ls.last()
    }
}

/// The lines of a text as a line reader yields them: the pieces between
/// newlines, where a final newline ends the last line rather than opening an
/// empty one. The empty text has no lines.
pub open spec fn lines_of(s: Seq<char>) -> Seq<Seq<char>> {
    if s.len() == 0 {
        Seq::empty()
    } else if s.last() == '\n' {
        split_lines(s.drop_last())
    } else {
        split_lines(s)
    }
}

pub open spec fn has_no(s: Seq<char>, c: char) -> bool {
    forall|i: int| 0 <= i < s.len() ==> s[i] != c
}

pub open spec fn lines_have_no(ls: Seq<Seq<char>>, c: char) -> bool {
    forall|i: int| 0 <= i < ls.len() ==> has_no(#[trigger] ls[i], c)
}

pub proof fn lemma_split_lines_shape(s: Seq<char>)
    ensures
        split_lines(s).len() >= 1,
        lines_have_no(split_lines(s), '\n'),
    decreases s.len(),
{
    if s.len() > 0 {
        lemma_split_lines_shape(s.drop_last());
        let prev = split_lines(s.drop_last());
        if s.last() != '\n' {
            assert forall|i: int| 0 <= i < split_lines(s).len() implies has_no(
                #[trigger] split_lines(s)[i],
                '\n',
            ) by {
                if i == prev.len() - 1 {
                    assert(has_no(prev[i], '\n'));
                }
            }
        }
    }
}

/// Appending text without a newline extends the last line.
proof fn lemma_split_append(a: Seq<char>, b: Seq<char>)
    requires
        has_no(b, '\n'),
    ensures
        split_lines(a + b) == split_lines(a).update(
            split_lines(a).len() - 1,
            split_lines(a).last() + b,
        ),
    decreases b.len(),
{
    lemma_split_lines_shape(a);
    if b.len() == 0 {
        assert(a + b =~= a);
        assert(split_lines(a).last() + b =~= split_lines(a).last());
        assert(split_lines(a).update(split_lines(a).len() - 1, split_lines(a).last())
            =~= split_lines(a));
    } else {
        let b1 = b.drop_last();
        lemma_split_append(a, b1);
        assert((a + b).drop_last() =~= a + b1);
        assert((a + b).last() == b.last());
        assert((split_lines(a).last() + b1).push(b.last()) =~= split_lines(a).last() + b);
        assert(split_lines(a + b) =~= split_lines(a).update(
            split_lines(a).len() - 1,
            split_lines(a).last() + b,
        ));
    }
}

/// Splitting undoes joining, for lines without newlines.
pub proof fn lemma_split_join(ls: Seq<Seq<char>>)
    requires
        ls.len() >= 1,
        lines_have_no(ls, '\n'),
    ensures
        split_lines(join_lines(ls)) == ls,
    decreases ls.len(),
{
    if ls.len() == 1 {
        assert(has_no(ls[0], '\n'));
        assert(Seq::<char>::empty() + ls[0] =~= ls[0]);
        lemma_split_append(Seq::empty(), ls[0]);
        assert(split_lines(join_lines(ls)) =~= ls);
    } else {
        let init = ls.drop_last();
        assert(lines_have_no(init, '\n')) by {
            assert forall|i: int| 0 <= i < init.len() implies has_no(#[trigger] init[i], '\n') by {
                assert(init[i] == ls[i]);
                assert(has_no(ls[i], '\n'));
            }
        }
        lemma_split_join(init);
        let j = join_lines(init);
        assert(has_no(ls[ls.len() - 1], '\n'));
        assert((j + seq!['\n']).drop_last() =~= j);
        assert((j + seq!['\n']).last() == '\n');
        lemma_split_append(j + seq!['\n'], ls.last());
        assert(Seq::<char>::empty() + ls.last() =~= ls.last());
        assert(split_lines(join_lines(ls)) =~= ls);
    }
}

/// Relies on `String::push`: appends one character to the string.
#[verifier::external_body]
fn push_char(s: &mut String, c: char)
    ensures
        final(s)@ == old(s)@.push(c),
{
    s.push(c);
}

/// The characters of `s`, in order.
pub fn chars_of(s: &str) -> (r: Vec<char>)
    ensures
        r@ == s@,
{
    let mut r: Vec<char> = Vec::new();
    for c in it: s.chars()
        invariant
            r@ == it.history(),
    {
        r.push(c);
    }
    r
}

/// The string made of the characters of `v`, in order.
pub fn string_of(v: &Vec<char>) -> (r: String)
    ensures
        r@ == v@,
{
    let mut r = String::new();
    let mut i: usize = 0;
    while i < v.len()
        invariant
            i <= v.len(),
            r@ == v@.take(i as int),
        decreases v.len() - i,
    {
        push_char(&mut r, v[i]);
        i = i + 1;
        assert(v@.take(i as int) =~= v@.take(i - 1).push(v@[i - 1]));
    }
    assert(v@.take(v.len() as int) =~= v@);
    r
}

/// Splits `s` at its newlines.
pub fn split_text(s: &Vec<char>) -> (r: Vec<Vec<char>>)
    ensures
        r.deep_view() == split_lines(s@),
{
    let mut done: Vec<Vec<char>> = Vec::new();
    let mut cur: Vec<char> = Vec::new();
    let mut i: usize = 0;
    while i < s.len()
        invariant
            i <= s.len(),
            done.deep_view().push(cur@) == split_lines(s@.take(i as int)),
        decreases s.len() - i,
    {
        let c = s[i];
        let ghost before = done.deep_view().push(cur@);
        assert(s@.take(i + 1).drop_last() =~= s@.take(i as int));
        if c == '\n' {
            let ghost old_done = done.deep_view();
            assert(cur.deep_view() =~= cur@);
            let line = cur;
            done.push(line);
            cur = Vec::new();
            assert(done.deep_view() =~= old_done.push(line@));
            assert(done.deep_view().push(cur@) =~= before.push(Seq::empty()));
        } else {
            cur.push(c);
            assert(done.deep_view().push(cur@) =~= before.update(
                before.len() - 1,
                before.last().push(c),
            ));
        }
        i = i + 1;
    }
    let ghost old_done = done.deep_view();
    assert(cur.deep_view() =~= cur@);
    let ghost last = cur@;
    done.push(cur);
    assert(done.deep_view() =~= old_done.push(last));
    assert(s@.take(s.len() as int) =~= s@);
    assert(done.deep_view() =~= split_lines(s@));
    done
}

/// The lines `ls[from..to]` joined with newlines.
pub fn join_range(ls: &Vec<Vec<char>>, from: usize, to: usize) -> (r: Vec<char>)
    requires
        from <= to <= ls.len(),
    ensures
        r@ == join_lines(ls.deep_view().subrange(from as int, to as int)),
{
    let ghost all = ls.deep_view();
    let mut r: Vec<char> = Vec::new();
    let mut i: usize = from;
    while i < to
        invariant
            from <= i <= to <= ls.len(),
            all == ls.deep_view(),
            r@ == join_lines(all.subrange(from as int, i as int)),
        decreases to - i,
    {
        let ghost prev = r@;
        if i > from {
            r.push('\n');
        }
        let line = &ls[i];
        let mut k: usize = 0;
        let ghost mid = r@;
        while k < line.len()
            invariant
                k <= line.len(),
                r@ == mid + line@.take(k as int),
            decreases line.len() - k,
        {
            r.push(line[k]);
            k = k + 1;
            assert(line@.take(k as int) =~= line@.take(k - 1).push(line@[k - 1]));
        }
        assert(line@.take(line.len() as int) =~= line@);
        assert(line.deep_view() =~= line@);
        assert(all[i as int] == line@);
        let ghost next = all.subrange(from as int, i + 1);
        assert(next.drop_last() =~= all.subrange(from as int, i as int));
        assert(next.last() == line@);
        if i == from {
            assert(prev =~= Seq::<char>::empty());
            assert(next.len() == 1);
            assert(r@ =~= line@);
        } else {
            assert(r@ =~= prev + seq!['\n'] + line@);
        }
        i = i + 1;
    }
    r
}

/// The lines of `s` as a line reader yields them.
pub fn text_lines(s: &Vec<char>) -> (r: Vec<Vec<char>>)
    ensures
        r.deep_view() == lines_of(s@),
{
    if s.len() == 0 {
        let r: Vec<Vec<char>> = Vec::new();
        assert(r.deep_view() =~= Seq::<Seq<char>>::empty());
        r
    } else if s[s.len() - 1] == '\n' {
        let mut body: Vec<char> = Vec::new();
        let mut i: usize = 0;
        while i + 1 < s.len()
            invariant
                s.len() >= 1,
                i + 1 <= s.len(),
                body@ == s@.take(i as int),
            decreases s.len() - i,
        {
            body.push(s[i]);
            i = i + 1;
            assert(s@.take(i as int) =~= s@.take(i - 1).push(s@[i - 1]));
        }
        assert(body@ =~= s@.drop_last());
        split_text(&body)
    } else {
        split_text(s)
    }
}

} // verus!

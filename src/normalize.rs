//! The gcode normalizer: rapid moves become feed moves at a given feed rate,
//! decimals are cut to two fractional digits, and comments are removed.
use vstd::prelude::*;

use crate::text::{
    chars_of, has_no, join_lines, join_range, lemma_split_join, lemma_split_lines_shape,
    lines_have_no, split_lines, split_text, string_of,
};

verus! {

pub open spec fn is_digit(c: char) -> bool {
    '0' <= c && c <= '9'
}

pub open spec fn digit_char(d: nat) -> char {
    if d == 0 {
        '0'
    } else if d == 1 {
        '1'
    } else if d == 2 {
        '2'
    } else if d == 3 {
        '3'
    } else if d == 4 {
        '4'
    } else if d == 5 {
        '5'
    } else if d == 6 {
        '6'
    } else if d == 7 {
        '7'
    } else if d == 8 {
        '8'
    } else {
        '9'
    }
}

/// The decimal digits of `n`, most significant first, without leading zeros.
pub open spec fn decimal(n: nat) -> Seq<char>
    decreases n,
{
    if n < 10 {
        seq![digit_char(n)]
    } else {
        decimal(n / 10).push(digit_char(n % 10))
    }
}

/// A line that starts with the rapid-positioning command `G0`.
pub open spec fn is_rapid(l: Seq<char>) -> bool {
    l.len() >= 3 && l[0] == 'G' && l[1] == '0' && l[2] == ' '
}

/// `G0 <rest>` becomes `G1 <rest> F<feed>`; other lines stay as they are.
pub open spec fn rewrite_rapid(l: Seq<char>, feed: nat) -> Seq<char> {
    if is_rapid(l) {
        seq!['G', '1', ' '] + l.skip(3) + seq![' ', 'F'] + decimal(feed)
    } else {
        l
    }
}

/// Where a left-to-right scan of a text stands with respect to numbers:
/// 0 outside a number, 1 in the digits before the point, and `2 + n` after
/// the point with `n` fractional digits kept (at most two).
pub open spec fn scan_next(st: u8, c: char) -> u8 {
    if is_digit(c) {
        if st == 0 || st == 1 {
            1
        } else if st < 4 {
            (st + 1) as u8
        } else {
            4
        }
    } else if c == '.' && st == 1 {
        2
    } else {
        0
    }
}

pub open spec fn scan_state(s: Seq<char>) -> u8
    decreases s.len(),
{
    if s.len() == 0 {
        0
    } else {
        scan_next(scan_state(s.drop_last()), s.last())
    }
}

/// A fractional digit after the second one is dropped; every other character
/// is kept.
pub open spec fn kept(st: u8, c: char) -> bool {
    !(st == 4 && is_digit(c))
}

/// Every decimal number cut to at most two fractional digits, by truncation.
pub open spec fn clamp_decimals(s: Seq<char>) -> Seq<char>
    decreases s.len(),
{
    if s.len() == 0 {
        s
    } else {
        let p = s.drop_last();
        if kept(scan_state(p), s.last()) {
            clamp_decimals(p).push(s.last())
        } else {
            clamp_decimals(p)
        }
    }
}

/// The line up to its first `;`, or the whole line where it holds none.
pub open spec fn strip_comment(l: Seq<char>) -> Seq<char>
    decreases l.len(),
{
    if l.len() == 0 {
        l
    } else if l[0] == ';' {
        Seq::empty()
    } else {
        seq![l[0]] + strip_comment(l.skip(1))
    }
}

/// The three rewrites, in order, on one line.
pub open spec fn normalize_line(l: Seq<char>, feed: nat) -> Seq<char> {
    strip_comment(clamp_decimals(rewrite_rapid(l, feed)))
}

/// The normalized text: each line rewritten, the line structure kept.
pub open spec fn normalized(s: Seq<char>, feed: nat) -> Seq<char> {
    join_lines(split_lines(s).map_values(|l: Seq<char>| normalize_line(l, feed)))
}

fn digit_of(d: u64) -> (c: char)
    requires
        d < 10,
    ensures
        c == digit_char(d as nat),
{
    if d == 0 {
        '0'
    } else if d == 1 {
        '1'
    } else if d == 2 {
        '2'
    } else if d == 3 {
        '3'
    } else if d == 4 {
        '4'
    } else if d == 5 {
        '5'
    } else if d == 6 {
        '6'
    } else if d == 7 {
        '7'
    } else if d == 8 {
        '8'
    } else {
        '9'
    }
}

fn push_decimal(out: &mut Vec<char>, n: u64)
    ensures
        final(out)@ == old(out)@ + decimal(n as nat),
    decreases n,
{
    if n >= 10 {
        push_decimal(out, n / 10);
    }
    let ghost mid = out@;
    out.push(digit_of(n % 10));
    if n >= 10 {
        assert(out@ =~= old(out)@ + decimal(n as nat));
    } else {
        assert(out@ =~= old(out)@ + decimal(n as nat));
    }
}

fn next_state(st: u8, c: char) -> (r: u8)
    ensures
        r == scan_next(st, c),
{
    if '0' <= c && c <= '9' {
        if st == 0 || st == 1 {
            1
        } else if st < 4 {
            st + 1
        } else {
            4
        }
    } else if c == '.' && st == 1 {
        2
    } else {
        0
    }
}

/// Rewrites a rapid move into a feed move at `feed`.
pub fn rewrite_rapid_line(l: &Vec<char>, feed: u64) -> (r: Vec<char>)
    ensures
        r@ == rewrite_rapid(l@, feed as nat),
{
    let mut r: Vec<char> = Vec::new();
    if l.len() >= 3 && l[0] == 'G' && l[1] == '0' && l[2] == ' ' {
        r.push('G');
        r.push('1');
        r.push(' ');
        let mut i: usize = 3;
        while i < l.len()
            invariant
                3 <= i <= l.len(),
                r@ == seq!['G', '1', ' '] + l@.subrange(3, i as int),
            decreases l.len() - i,
        {
            r.push(l[i]);
            i = i + 1;
            assert(l@.subrange(3, i as int) =~= l@.subrange(3, i - 1).push(l@[i - 1]));
        }
        assert(l@.subrange(3, l.len() as int) =~= l@.skip(3));
        r.push(' ');
        r.push('F');
        let ghost before = r@;
        push_decimal(&mut r, feed);
        assert(r@ =~= seq!['G', '1', ' '] + l@.skip(3) + seq![' ', 'F'] + decimal(feed as nat));
    } else {
        let mut i: usize = 0;
        while i < l.len()
            invariant
                i <= l.len(),
                r@ == l@.take(i as int),
            decreases l.len() - i,
        {
            r.push(l[i]);
            i = i + 1;
            assert(l@.take(i as int) =~= l@.take(i - 1).push(l@[i - 1]));
        }
        assert(l@.take(l.len() as int) =~= l@);
    }
    r
}

/// Cuts every decimal number of `l` to at most two fractional digits.
pub fn clamp_line(l: &Vec<char>) -> (r: Vec<char>)
    ensures
        r@ == clamp_decimals(l@),
{
    let mut r: Vec<char> = Vec::new();
    let mut st: u8 = 0;
    let mut i: usize = 0;
    while i < l.len()
        invariant
            i <= l.len(),
            r@ == clamp_decimals(l@.take(i as int)),
            st == scan_state(l@.take(i as int)),
        decreases l.len() - i,
    {
        let c = l[i];
        assert(l@.take(i + 1).drop_last() =~= l@.take(i as int));
        assert(l@.take(i + 1).last() == c);
        if !(st == 4 && '0' <= c && c <= '9') {
            r.push(c);
        }
        st = next_state(st, c);
        i = i + 1;
    }
    assert(l@.take(l.len() as int) =~= l@);
    r
}

/// Removes everything from the first `;` on.
pub fn strip_comment_line(l: &Vec<char>) -> (r: Vec<char>)
    ensures
        r@ == strip_comment(l@),
{
    let mut r: Vec<char> = Vec::new();
    let mut i: usize = 0;
    assert(l@.skip(0) =~= l@);
    assert(r@ + strip_comment(l@) =~= strip_comment(l@));
    while i < l.len() && l[i] != ';'
        invariant
            i <= l.len(),
            strip_comment(l@) == r@ + strip_comment(l@.skip(i as int)),
        decreases l.len() - i,
    {
        let ghost rest = l@.skip(i as int);
        assert(rest.skip(1) =~= l@.skip(i + 1));
        assert(rest[0] == l@[i as int]);
        assert(r@.push(l@[i as int]) + strip_comment(l@.skip(i + 1)) =~= r@ + (seq![
            l@[i as int],
        ] + strip_comment(rest.skip(1))));
        r.push(l[i]);
        i = i + 1;
    }
    if i < l.len() {
        assert(l@.skip(i as int)[0] == ';');
    } else {
        assert(l@.skip(i as int) =~= Seq::<char>::empty());
    }
    assert(r@ + Seq::<char>::empty() =~= r@);
    r
}

/// Normalizes a gcode text. Rapid moves (`G0 ...`) become feed moves at
/// `feed_rate` (`G1 ... F<feed_rate>`), every decimal number is truncated to
/// two fractional digits, and comments (from `;` to the end of the line) are
/// removed. Lines are neither added nor removed.
pub fn normalize(raw: &str, feed_rate: u64) -> (r: String)
    ensures
        r@ == normalized(raw@, feed_rate as nat),
{
    let cs = chars_of(raw);
    let lines = split_text(&cs);
    let ghost src = lines.deep_view();
    let mut out: Vec<Vec<char>> = Vec::new();
    let mut i: usize = 0;
    while i < lines.len()
        invariant
            i <= lines.len(),
            src == lines.deep_view(),
            out.deep_view() =~= src.take(i as int).map_values(
                |l: Seq<char>| normalize_line(l, feed_rate as nat),
            ),
        decreases lines.len() - i,
    {
        let a = rewrite_rapid_line(&lines[i], feed_rate);
        let b = clamp_line(&a);
        let c = strip_comment_line(&b);
        assert(lines[i as int].deep_view() =~= lines[i as int]@);
        assert(c.deep_view() =~= c@);
        let ghost c_view = c@;
        let ghost prev = out.deep_view();
        out.push(c);
        assert(out.deep_view() =~= prev.push(c_view));
        i = i + 1;
    }
    assert(src.take(lines.len() as int) =~= src);
    let joined = join_range(&out, 0, out.len());
    assert(out.deep_view().subrange(0, out.len() as int) =~= out.deep_view());
    string_of(&joined)
}

pub proof fn lemma_scan_state_bound(s: Seq<char>)
    ensures
        scan_state(s) <= s.len(),
        scan_state(s) <= 4,
    decreases s.len(),
{
    if s.len() > 0 {
        lemma_scan_state_bound(s.drop_last());
    }
}

/// A text of at most four characters holds no fractional digit to drop.
proof fn lemma_clamp_short(s: Seq<char>)
    requires
        s.len() <= 4,
    ensures
        clamp_decimals(s) == s,
    decreases s.len(),
{
    if s.len() > 0 {
        lemma_clamp_short(s.drop_last());
        lemma_scan_state_bound(s.drop_last());
        assert(s.drop_last().push(s.last()) =~= s);
    }
}

/// Clamping a prefix gives a prefix of the clamped text.
proof fn lemma_clamp_prefix(s: Seq<char>, k: int)
    requires
        0 <= k <= s.len(),
    ensures
        clamp_decimals(s.take(k)).len() <= clamp_decimals(s).len(),
        forall|i: int|
            0 <= i < clamp_decimals(s.take(k)).len() ==> clamp_decimals(s)[i]
                == #[trigger] clamp_decimals(s.take(k))[i],
    decreases s.len(),
{
    if k == s.len() {
        assert(s.take(k) =~= s);
    } else {
        let p = s.drop_last();
        assert(p.take(k) =~= s.take(k));
        lemma_clamp_prefix(p, k);
    }
}

/// Clamping never turns a line into a rapid move.
pub proof fn lemma_clamp_not_rapid(l: Seq<char>)
    requires
        !is_rapid(l),
    ensures
        !is_rapid(clamp_decimals(l)),
{
    if l.len() < 3 {
        lemma_clamp_short(l);
    } else {
        lemma_clamp_short(l.take(3));
        lemma_clamp_prefix(l, 3);
        let p = clamp_decimals(l.take(3));
        assert(p[0] == l[0] && p[1] == l[1] && p[2] == l[2]);
        assert(clamp_decimals(l)[0] == p[0]);
        assert(clamp_decimals(l)[1] == p[1]);
        assert(clamp_decimals(l)[2] == p[2]);
    }
}

/// Clamping only drops characters: one absent from the input stays absent.
pub proof fn lemma_clamp_keeps_absent(s: Seq<char>, c: char)
    requires
        has_no(s, c),
    ensures
        has_no(clamp_decimals(s), c),
    decreases s.len(),
{
    if s.len() > 0 {
        let p = s.drop_last();
        assert(has_no(p, c)) by {
            assert forall|i: int| 0 <= i < p.len() implies p[i] != c by {
                assert(p[i] == s[i]);
            }
        }
        lemma_clamp_keeps_absent(p, c);
        assert(s.last() == s[s.len() - 1]);
    }
}

/// Clamping twice is clamping once, and the scan ends where it ended.
pub proof fn lemma_clamp_idempotent(s: Seq<char>)
    ensures
        clamp_decimals(clamp_decimals(s)) == clamp_decimals(s),
        scan_state(clamp_decimals(s)) == scan_state(s),
    decreases s.len(),
{
    if s.len() > 0 {
        let p = s.drop_last();
        let c = s.last();
        lemma_clamp_idempotent(p);
        let q = clamp_decimals(p);
        if kept(scan_state(p), c) {
            let t = q.push(c);
            assert(t.drop_last() =~= q);
            assert(t.last() == c);
        }
    }
}

/// A line without `;` has no comment to strip.
pub proof fn lemma_strip_without_marker(l: Seq<char>)
    requires
        has_no(l, ';'),
    ensures
        strip_comment(l) == l,
    decreases l.len(),
{
    if l.len() > 0 {
        let rest = l.skip(1);
        assert(has_no(rest, ';')) by {
            assert forall|i: int| 0 <= i < rest.len() implies rest[i] != ';' by {
                assert(rest[i] == l[i + 1]);
            }
        }
        lemma_strip_without_marker(rest);
        assert(seq![l[0]] + rest =~= l);
    }
}

/// A character absent from a text is absent from each of its lines.
pub proof fn lemma_split_lines_keep_absent(s: Seq<char>, c: char)
    requires
        has_no(s, c),
    ensures
        lines_have_no(split_lines(s), c),
    decreases s.len(),
{
    if s.len() > 0 {
        let p = s.drop_last();
        assert(has_no(p, c)) by {
            assert forall|i: int| 0 <= i < p.len() implies p[i] != c by {
                assert(p[i] == s[i]);
            }
        }
        lemma_split_lines_keep_absent(p, c);
        lemma_split_lines_shape(p);
        let prev = split_lines(p);
        assert(s.last() == s[s.len() - 1]);
        if s.last() != '\n' {
            assert forall|i: int| 0 <= i < split_lines(s).len() implies has_no(
                #[trigger] split_lines(s)[i],
                c,
            ) by {
                assert(has_no(prev[i], c));
            }
        }
    }
}

/// Normalizing a text twice gives the text normalized once, where the text
/// holds no rapid move and no comment.
pub proof fn lemma_normalize_idempotent(x: Seq<char>, feed: nat)
    requires
        has_no(x, ';'),
        forall|i: int| 0 <= i < split_lines(x).len() ==> !is_rapid(#[trigger] split_lines(x)[i]),
    ensures
        normalized(normalized(x, feed), feed) == normalized(x, feed),
{
    let ls = split_lines(x);
    lemma_split_lines_shape(x);
    lemma_split_lines_keep_absent(x, ';');
    let m = ls.map_values(|l: Seq<char>| normalize_line(l, feed));
    assert forall|i: int| 0 <= i < ls.len() implies #[trigger] m[i] == clamp_decimals(ls[i]) by {
        assert(has_no(ls[i], ';'));
        assert(has_no(ls[i], '\n'));
        lemma_clamp_keeps_absent(ls[i], ';');
        lemma_strip_without_marker(clamp_decimals(ls[i]));
    }
    assert(lines_have_no(m, '\n')) by {
        assert forall|i: int| 0 <= i < m.len() implies has_no(#[trigger] m[i], '\n') by {
            assert(has_no(ls[i], '\n'));
            lemma_clamp_keeps_absent(ls[i], '\n');
        }
    }
    lemma_split_join(m);
    let m2 = m.map_values(|l: Seq<char>| normalize_line(l, feed));
    assert forall|i: int| 0 <= i < m.len() implies #[trigger] m2[i] == m[i] by {
        let l = ls[i];
        assert(has_no(l, ';'));
        lemma_clamp_keeps_absent(l, ';');
        lemma_clamp_not_rapid(l);
        lemma_clamp_keeps_absent(clamp_decimals(l), ';');
        lemma_clamp_idempotent(l);
        lemma_strip_without_marker(clamp_decimals(clamp_decimals(l)));
    }
    assert(m2 =~= m);
}

} // verus!

//! Text as sequences of characters: cutting a line at its spaces, and the
//! plain dictionary order of strings.

use vstd::prelude::*;
use vstd::string::*;

verus! {

/// The contents of a list of strings.
pub open spec fn texts(v: Seq<String>) -> Seq<Seq<char>> {
    Seq::new(v.len(), |i: int| v[i]@)
}

/// The pieces of `line` that its spaces separate, in order. Every space
/// separates: a line with `n` spaces has `n + 1` pieces, some of which may be
/// empty.
pub open spec fn pieces(line: Seq<char>) -> Seq<Seq<char>>
    decreases line.len(),
{
    if line.len() == 0 {
        seq![Seq::<char>::empty()]
    } else {
        let before = pieces(line.drop_last());
        if line.last() == ' ' {
            before.push(Seq::<char>::empty())
        } else {
            before.drop_last().push(before.last().push(line.last()))
        }
    }
}

/// `parts` laid end to end with one space between neighbours.
pub open spec fn joined(parts: Seq<Seq<char>>) -> Seq<char>
    decreases parts.len(),
{
    if parts.len() == 0 {
        Seq::<char>::empty()
    } else if parts.len() == 1 {
        parts[0]
    } else {
        joined(parts.drop_last()) + seq![' '] + parts.last()
    }
}

/// Cutting a line loses nothing and leaves no space inside a piece: there is
/// at least one piece, no piece holds a space, and the pieces joined by
/// single spaces are the line again.
pub proof fn lemma_pieces_rebuild_line(line: Seq<char>)
    ensures
        pieces(line).len() >= 1,
        forall|k: int, j: int|
            0 <= k < pieces(line).len() && 0 <= j < pieces(line)[k].len() ==> pieces(line)[k][j]
                != ' ',
        joined(pieces(line)) == line,
    decreases line.len(),
{
    if line.len() == 0 {
        assert(joined(pieces(line)) =~= line);
    } else {
        let shorter = line.drop_last();
        lemma_pieces_rebuild_line(shorter);
        let before = pieces(shorter);
        if line.last() == ' ' {
            let after = before.push(Seq::<char>::empty());
            assert(after.drop_last() =~= before);
            assert(joined(after) =~= shorter + seq![' ']);
            assert(shorter + seq![' '] =~= line);
        } else {
            let grown = before.last().push(line.last());
            let after = before.drop_last().push(grown);
            assert(after.drop_last() =~= before.drop_last());
            if before.len() == 1 {
                assert(joined(before) == before[0]);
                assert(joined(after) =~= shorter.push(line.last()));
            } else {
                assert(joined(before) == joined(before.drop_last()) + seq![' '] + before.last());
                assert(joined(after) =~= joined(before).push(line.last()));
            }
            assert(shorter.push(line.last()) =~= line);
        }
    }
}

/// Cuts `line` at every space.
pub fn split_on_spaces(line: &str) -> (parts: Vec<String>)
    ensures
        texts(parts@) == pieces(line@),
{
    let n = line.unicode_len();
    let mut parts: Vec<String> = Vec::new();
    let mut start: usize = 0;
    let mut i: usize = 0;
    proof {
        assert(line@.take(0) =~= Seq::<char>::empty());
        assert(line@.subrange(0, 0) =~= Seq::<char>::empty());
        assert(texts(parts@).push(line@.subrange(0, 0)) =~= pieces(line@.take(0)));
    }
    while i < n
        invariant
            n == line@.len(),
            start <= i <= n,
            pieces(line@.take(i as int)) == texts(parts@).push(
                line@.subrange(start as int, i as int),
            ),
        decreases n - i,
    {
        let c = line.get_char(i);
        proof {
            let grown = line@.take(i + 1);
            assert(grown.drop_last() =~= line@.take(i as int));
            assert(grown.last() == c);
        }
        if c == ' ' {
            let ghost done = texts(parts@);
            parts.push(String::from_str(line.substring_char(start, i)));
            proof {
                assert(texts(parts@) =~= done.push(line@.subrange(start as int, i as int)));
                assert(line@.subrange(i + 1, i + 1) =~= Seq::<char>::empty());
            }
            start = i + 1;
        } else {
            proof {
                let current = line@.subrange(start as int, i as int);
                let before = texts(parts@).push(current);
                assert(before.drop_last() =~= texts(parts@));
                assert(current.push(c) =~= line@.subrange(start as int, i + 1));
            }
        }
        i = i + 1;
    }
    let ghost done = texts(parts@);
    parts.push(String::from_str(line.substring_char(start, n)));
    proof {
        assert(line@.take(n as int) =~= line@);
        assert(texts(parts@) =~= done.push(line@.subrange(start as int, n as int)));
    }
    parts
}

/// Dictionary order from position `i` on: the first position at which the two
/// texts differ decides, by the characters' code points; where neither
/// differs before one ends, the shorter text comes first.
pub open spec fn lex_le_from(a: Seq<char>, b: Seq<char>, i: int) -> bool
    decreases a.len() - i,
{
    if i >= a.len() {
        true
    } else if i >= b.len() {
        false
    } else if a[i] == b[i] {
        lex_le_from(a, b, i + 1)
    } else {
        (a[i] as int) < (b[i] as int)
    }
}

/// `a` comes before `b` in dictionary order, or equals it.
pub open spec fn lex_le(a: Seq<char>, b: Seq<char>) -> bool {
    lex_le_from(a, b, 0)
}

proof fn lemma_distinct_chars_are_ordered(c: char, d: char)
    requires
        c != d,
    ensures
        (c as int) < (d as int) || (d as int) < (c as int),
{
}

proof fn lemma_lex_total_from(a: Seq<char>, b: Seq<char>, i: int)
    requires
        0 <= i,
    ensures
        lex_le_from(a, b, i) || lex_le_from(b, a, i),
    decreases a.len() - i,
{
    if i < a.len() && i < b.len() {
        if a[i] == b[i] {
            lemma_lex_total_from(a, b, i + 1);
        } else {
            lemma_distinct_chars_are_ordered(a[i], b[i]);
        }
    }
}

proof fn lemma_lex_trans_from(a: Seq<char>, b: Seq<char>, c: Seq<char>, i: int)
    requires
        0 <= i,
        lex_le_from(a, b, i),
        lex_le_from(b, c, i),
    ensures
        lex_le_from(a, c, i),
    decreases a.len() - i,
{
    if i < a.len() && i < b.len() && i < c.len() && a[i] == b[i] && b[i] == c[i] {
        lemma_lex_trans_from(a, b, c, i + 1);
    }
}

proof fn lemma_lex_antisym_from(a: Seq<char>, b: Seq<char>, i: int)
    requires
        0 <= i <= a.len(),
        i <= b.len(),
        lex_le_from(a, b, i),
        lex_le_from(b, a, i),
    ensures
        a.len() == b.len(),
        forall|k: int| i <= k < a.len() ==> a[k] == b[k],
    decreases a.len() - i,
{
    if i < a.len() && i < b.len() {
        lemma_lex_antisym_from(a, b, i + 1);
    }
}

/// Every text comes before itself, or equals it.
pub proof fn lemma_lex_refl(a: Seq<char>)
    ensures
        lex_le(a, a),
{
    lemma_lex_total_from(a, a, 0);
}

/// Of two texts one comes first: the dictionary order is total.
pub proof fn lemma_lex_total(a: Seq<char>, b: Seq<char>)
    ensures
        lex_le(a, b) || lex_le(b, a),
{
    lemma_lex_total_from(a, b, 0);
}

/// The dictionary order is transitive.
pub proof fn lemma_lex_trans(a: Seq<char>, b: Seq<char>, c: Seq<char>)
    requires
        lex_le(a, b),
        lex_le(b, c),
    ensures
        lex_le(a, c),
{
    lemma_lex_trans_from(a, b, c, 0);
}

/// Two texts that each come before the other are the same text.
pub proof fn lemma_lex_antisym(a: Seq<char>, b: Seq<char>)
    requires
        lex_le(a, b),
        lex_le(b, a),
    ensures
        a == b,
{
    lemma_lex_antisym_from(a, b, 0);
    assert(a =~= b);
}

/// Whether `a` comes before `b` in dictionary order, or equals it.
pub fn text_le(a: &str, b: &str) -> (r: bool)
    ensures
        r == lex_le(a@, b@),
{
    let n = a.unicode_len();
    let m = b.unicode_len();
    let mut i: usize = 0;
    while i < n && i < m
        invariant
            n == a@.len(),
            m == b@.len(),
            i <= n,
            i <= m,
            lex_le(a@, b@) == lex_le_from(a@, b@, i as int),
        decreases n - i,
    {
        let x = a.get_char(i);
        let y = b.get_char(i);
        if x != y {
            return (x as u32) < (y as u32);
        }
        i = i + 1;
    }
    i >= n
}

} // verus!

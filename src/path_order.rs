//! Equality and the total order of image paths, character by character.
use vstd::prelude::*;

verus! {

/// `a` sorts before or equal to `b`: character-wise lexicographic order, a
/// proper prefix sorting first.
pub open spec fn path_le(a: Seq<char>, b: Seq<char>) -> bool
    decreases a.len(),
{
    if a.len() == 0 {
        true
    } else if b.len() == 0 {
        false
    } else if a[0] != b[0] {
        (a[0] as int) < (b[0] as int)
    } else {
        path_le(a.drop_first(), b.drop_first())
    }
}

pub proof fn lemma_path_le_reflexive(a: Seq<char>)
    ensures
        path_le(a, a),
    decreases a.len(),
{
    if a.len() > 0 {
        lemma_path_le_reflexive(a.drop_first());
    }
}

pub proof fn lemma_path_le_total(a: Seq<char>, b: Seq<char>)
    ensures
        path_le(a, b) || path_le(b, a),
    decreases a.len(),
{
    if a.len() > 0 && b.len() > 0 && a[0] == b[0] {
        lemma_path_le_total(a.drop_first(), b.drop_first());
    } else if a.len() > 0 && b.len() > 0 {
        assert((a[0] as int) != (b[0] as int));
    }
}

pub proof fn lemma_path_le_transitive(a: Seq<char>, b: Seq<char>, c: Seq<char>)
    requires
        path_le(a, b),
        path_le(b, c),
    ensures
        path_le(a, c),
    decreases a.len(),
{
    if a.len() > 0 && b.len() > 0 && c.len() > 0 && a[0] == b[0] && b[0] == c[0] {
        lemma_path_le_transitive(a.drop_first(), b.drop_first(), c.drop_first());
    }
}

pub proof fn lemma_path_le_antisymmetric(a: Seq<char>, b: Seq<char>)
    requires
        path_le(a, b),
        path_le(b, a),
    ensures
        a == b,
    decreases a.len(),
{
    if a.len() > 0 && b.len() > 0 {
        lemma_path_le_antisymmetric(a.drop_first(), b.drop_first());
        assert(a =~= seq![a[0]] + a.drop_first());
        assert(b =~= seq![b[0]] + b.drop_first());
    } else {
        assert(a =~= b);
    }
}

proof fn lemma_path_le_skip(a: Seq<char>, b: Seq<char>, i: int)
    requires
        0 <= i < a.len(),
        i < b.len(),
        a[i] == b[i],
    ensures
        path_le(a.skip(i), b.skip(i)) == path_le(a.skip(i + 1), b.skip(i + 1)),
{
    assert(a.skip(i).drop_first() =~= a.skip(i + 1));
    assert(b.skip(i).drop_first() =~= b.skip(i + 1));
}

/// Whether two texts hold the same characters.
pub fn same_text(a: &str, b: &str) -> (r: bool)
    ensures
        r == (a@ == b@),
{
    let n = a.unicode_len();
    let m = b.unicode_len();
    if n != m {
        return false;
    }
    let mut i: usize = 0;
    while i < n
        invariant
            n == a@.len(),
            m == b@.len(),
            n == m,
            i <= n,
            a@.subrange(0, i as int) == b@.subrange(0, i as int),
        decreases n - i,
    {
        if a.get_char(i) != b.get_char(i) {
            return false;
        }
        assert(a@.subrange(0, i + 1) =~= a@.subrange(0, i as int).push(a@[i as int]));
        assert(b@.subrange(0, i + 1) =~= b@.subrange(0, i as int).push(b@[i as int]));
        i = i + 1;
    }
    assert(a@ =~= a@.subrange(0, n as int));
    assert(b@ =~= b@.subrange(0, n as int));
    true
}

/// Whether `a` sorts before or equal to `b` in the order of [`path_le`].
pub fn path_le_exec(a: &str, b: &str) -> (r: bool)
    ensures
        r == path_le(a@, b@),
{
    let n = a.unicode_len();
    let m = b.unicode_len();
    let mut i: usize = 0;
    assert(a@.skip(0) =~= a@);
    assert(b@.skip(0) =~= b@);
    while i < n && i < m
        invariant
            n == a@.len(),
            m == b@.len(),
            i <= n,
            i <= m,
            path_le(a@, b@) == path_le(a@.skip(i as int), b@.skip(i as int)),
        decreases n - i,
    {
        let x = a.get_char(i);
        let y = b.get_char(i);
        if x != y {
            return (x as u32) < (y as u32);
        }
        proof {
            lemma_path_le_skip(a@, b@, i as int);
        }
        i = i + 1;
    }
    i == n
}

} // verus!

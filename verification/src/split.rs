//! Splitting a sequence at a separator: the model shared by field splitting
//! (characters at a comma) and line splitting (bytes at a line feed).

use vstd::prelude::*;

verus! {

/// Index of the first occurrence of `sep` in `s`, or `s.len()` when `sep`
/// does not occur.
pub open spec fn first_index<T>(s: Seq<T>, sep: T) -> int
    decreases s.len(),
{
    if s.len() == 0 || s[0] == sep {
        0
    } else {
        1 + first_index(s.drop_first(), sep)
    }
}

/// The pieces of `s` that lie between occurrences of `sep`. There is always
/// at least one piece; `n` separators give `n + 1` pieces, empty ones included.
pub open spec fn split<T>(s: Seq<T>, sep: T) -> Seq<Seq<T>>
    decreases s.len(),
{
    let i = first_index(s, sep);
    if 0 <= i < s.len() {
        seq![s.take(i)] + split(s.skip(i + 1), sep)
    } else {
        seq![s]
    }
}

/// The views of a sequence of vectors.
pub open spec fn views<T>(v: Seq<Vec<T>>) -> Seq<Seq<T>> {
    v.map_values(|x: Vec<T>| x@)
}

/// `first_index` is in range, nothing before it is the separator, and
/// the separator stands at it when it is inside the sequence.
pub proof fn lemma_first_index<T>(s: Seq<T>, sep: T)
    ensures
        0 <= first_index(s, sep) <= s.len(),
        forall|j: int| 0 <= j < first_index(s, sep) ==> s[j] != sep,
        first_index(s, sep) < s.len() ==> s[first_index(s, sep)] == sep,
    decreases s.len(),
{
    if s.len() == 0 || s[0] == sep {
    } else {
        let t = s.drop_first();
        lemma_first_index(t, sep);
        let f = first_index(t, sep);
        assert(first_index(s, sep) == 1 + f);
        assert forall|j: int| 0 <= j < 1 + f implies s[j] != sep by {
            if j > 0 {
                assert(s[j] == t[j - 1]);
            }
        }
        if f < t.len() {
            assert(s[1 + f] == t[f]);
        }
    }
}

/// A position with no separator before it, which holds the separator or is
/// the end, is the first index.
pub proof fn lemma_first_index_is<T>(s: Seq<T>, sep: T, k: int)
    requires
        0 <= k <= s.len(),
        forall|j: int| 0 <= j < k ==> s[j] != sep,
        k < s.len() ==> s[k] == sep,
    ensures
        first_index(s, sep) == k,
{
    lemma_first_index(s, sep);
    let f = first_index(s, sep);
    if f < k {
        assert(s[f] != sep);
    }
}

/// Splitting at the first separator: the piece before it, then the pieces
/// of what follows it.
pub proof fn lemma_split_at_first<T>(s: Seq<T>, sep: T, k: int)
    requires
        0 <= k < s.len(),
        s[k] == sep,
        forall|j: int| 0 <= j < k ==> s[j] != sep,
    ensures
        split(s, sep) == seq![s.take(k)] + split(s.skip(k + 1), sep),
{
    lemma_first_index_is(s, sep, k);
}

/// A sequence without the separator is its own single piece.
pub proof fn lemma_split_none<T>(s: Seq<T>, sep: T)
    requires
        forall|j: int| 0 <= j < s.len() ==> s[j] != sep,
    ensures
        split(s, sep) == seq![s],
{
    lemma_first_index_is(s, sep, s.len() as int);
}

/// The pieces of `s` between occurrences of `sep`, each as a vector.
pub fn split_chars(s: &Vec<char>, sep: char) -> (out: Vec<Vec<char>>)
    ensures
        views(out@) == split(s@, sep),
{
    let mut out: Vec<Vec<char>> = Vec::new();
    let mut cur: Vec<char> = Vec::new();
    let ghost mut start: int = 0;
    let mut i: usize = 0;
    proof {
        assert(s@.skip(0) =~= s@);
        assert(views(out@) =~= Seq::<Seq<char>>::empty());
    }
    while i < s.len()
        invariant
            0 <= start <= i <= s.len(),
            cur@ == s@.subrange(start, i as int),
            forall|j: int| start <= j < i ==> s@[j] != sep,
            views(out@) + split(s@.skip(start), sep) == split(s@, sep),
        decreases s.len() - i,
    {
        let c = s[i];
        if c == sep {
            proof {
                let rest = s@.skip(start);
                let k = i as int - start;
                assert forall|j: int| 0 <= j < k implies rest[j] != sep by {
                    assert(rest[j] == s@[start + j]);
                }
                lemma_split_at_first(rest, sep, k);
                assert(rest.take(k) =~= cur@);
                assert(rest.skip(k + 1) =~= s@.skip(i as int + 1));
                assert(views(out@.push(cur)) =~= views(out@) + seq![cur@]);
                assert(views(out@.push(cur)) + split(s@.skip(i as int + 1), sep) =~= views(out@)
                    + split(rest, sep));
                start = i as int + 1;
            }
            out.push(cur);
            cur = Vec::new();
        } else {
            cur.push(c);
        }
        i += 1;
        proof {
            assert(cur@ =~= s@.subrange(start, i as int));
        }
    }
    proof {
        let rest = s@.skip(start);
        assert forall|j: int| 0 <= j < rest.len() implies rest[j] != sep by {
            assert(rest[j] == s@[start + j]);
        }
        lemma_split_none(rest, sep);
        assert(cur@ =~= rest);
        assert(views(out@.push(cur)) =~= views(out@) + seq![cur@]);
    }
    out.push(cur);
    out
}

} // verus!

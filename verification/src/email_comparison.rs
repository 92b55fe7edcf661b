//! Comparison of two address lists: which addresses stand in exactly one
//! of them. An address is a line of a list file, trimmed and in lower
//! case; empty ones do not count, and each address counts once.

use vstd::hash_set::StringHashSet;
use vstd::prelude::*;
use crate::row::texts;
use crate::targets::{load_targets, targets_of};
use crate::text::{chars_of, lowercase, lowercased, string_of, trim, trimmed};

verus! {

/// The files chosen for a comparison: the two lists and where the
/// difference is written.
pub struct EmailComparisonTab {
    pub file1_path: Option<String>,
    pub file2_path: Option<String>,
    pub output_path: Option<String>,
}

/// The address that a line of a list file holds.
pub open spec fn normalized(line: Seq<char>) -> Seq<char> {
    lowercased(trimmed(line))
}

/// The addresses that the lines `lines` hold, each once, in the order in
/// which they first occur.
pub open spec fn address_list(lines: Seq<Seq<char>>) -> Seq<Seq<char>>
    decreases lines.len(),
{
    if lines.len() == 0 {
        Seq::empty()
    } else {
        let before = address_list(lines.drop_last());
        let address = normalized(lines.last());
        if address.len() > 0 && !before.contains(address) {
            before.push(address)
        } else {
            before
        }
    }
}

/// The addresses of a list file with the content `content`.
pub open spec fn addresses_of(content: Seq<u8>) -> Seq<Seq<char>> {
    address_list(targets_of(content))
}

/// The items of `a` that are not among those of `b`, in the order of `a`.
pub open spec fn without(a: Seq<Seq<char>>, b: Seq<Seq<char>>) -> Seq<Seq<char>>
    decreases a.len(),
{
    if a.len() == 0 {
        Seq::empty()
    } else if b.contains(a.last()) {
        without(a.drop_last(), b)
    } else {
        without(a.drop_last(), b).push(a.last())
    }
}

/// The items that stand in exactly one of `a` and `b`: those of `a` only,
/// then those of `b` only.
pub open spec fn in_one_only(a: Seq<Seq<char>>, b: Seq<Seq<char>>) -> Seq<Seq<char>> {
    without(a, b) + without(b, a)
}

/// An address list holds no address twice and no empty address, and it
/// holds exactly the addresses of its lines.
pub proof fn lemma_address_list(lines: Seq<Seq<char>>)
    ensures
        address_list(lines).no_duplicates(),
        forall|a: Seq<char>| #[trigger]
            address_list(lines).contains(a) <==> a.len() > 0 && exists|i: int|
                0 <= i < lines.len() && #[trigger] normalized(lines[i]) == a,
    decreases lines.len(),
{
    if lines.len() > 0 {
        let init = lines.drop_last();
        let before = address_list(init);
        let address = normalized(lines.last());
        let all = address_list(lines);
        lemma_address_list(init);
        assert(lines[lines.len() - 1] == lines.last());
        assert forall|a: Seq<char>| #[trigger]
            all.contains(a) <==> a.len() > 0 && exists|i: int|
                0 <= i < lines.len() && #[trigger] normalized(lines[i]) == a by {
            if all.contains(a) {
                let j = choose|j: int| 0 <= j < all.len() && all[j] == a;
                if j < before.len() {
                    assert(before[j] == a);
                    assert(before.contains(a));
                    let i = choose|i: int| 0 <= i < init.len() && #[trigger] normalized(init[i]) == a;
                    assert(normalized(lines[i]) == a);
                } else {
                    assert(a == address);
                }
            }
            if a.len() > 0 && exists|i: int|
                0 <= i < lines.len() && #[trigger] normalized(lines[i]) == a {
                let i = choose|i: int| 0 <= i < lines.len() && #[trigger] normalized(lines[i]) == a;
                if i < init.len() {
                    assert(normalized(init[i]) == a);
                    assert(before.contains(a));
                    let j = choose|j: int| 0 <= j < before.len() && before[j] == a;
                    assert(all[j] == a);
                } else if before.contains(a) {
                    let j = choose|j: int| 0 <= j < before.len() && before[j] == a;
                    assert(all[j] == a);
                } else {
                    assert(all[before.len() as int] == a);
                }
            }
        }
        assert forall|p: int, q: int| 0 <= p < all.len() && 0 <= q < all.len() && p != q implies all[p]
            != all[q] by {
            if p < before.len() && q < before.len() {
                assert(before[p] != before[q]);
            } else if p < before.len() {
                assert(before.contains(before[p]));
            } else {
                assert(before.contains(before[q]));
            }
        }
    }
}

/// What is left of `a` without `b` holds exactly the items of `a` that
/// `b` lacks, and none twice if `a` holds none twice.
pub proof fn lemma_without(a: Seq<Seq<char>>, b: Seq<Seq<char>>)
    ensures
        forall|x: Seq<char>| #[trigger] without(a, b).contains(x) <==> a.contains(x) && !b.contains(x),
        a.no_duplicates() ==> without(a, b).no_duplicates(),
    decreases a.len(),
{
    if a.len() > 0 {
        let init = a.drop_last();
        let before = without(init, b);
        let all = without(a, b);
        lemma_without(init, b);
        assert(a[a.len() - 1] == a.last());
        assert forall|x: Seq<char>| #[trigger] all.contains(x) <==> a.contains(x) && !b.contains(x) by {
            if all.contains(x) {
                let j = choose|j: int| 0 <= j < all.len() && all[j] == x;
                if j < before.len() {
                    assert(before[j] == x);
                    assert(before.contains(x));
                    let i = choose|i: int| 0 <= i < init.len() && init[i] == x;
                    assert(a[i] == x);
                }
            }
            if a.contains(x) && !b.contains(x) {
                let i = choose|i: int| 0 <= i < a.len() && a[i] == x;
                if i < init.len() {
                    assert(init[i] == x);
                    assert(before.contains(x));
                    let j = choose|j: int| 0 <= j < before.len() && before[j] == x;
                    assert(all[j] == x);
                } else {
                    assert(all[before.len() as int] == x);
                }
            }
        }
        if a.no_duplicates() {
            assert(init.no_duplicates()) by {
                assert forall|p: int, q: int| 0 <= p < init.len() && 0 <= q < init.len() && p != q implies init[p]
                    != init[q] by {
                    assert(a[p] != a[q]);
                }
            }
            if !b.contains(a.last()) {
                assert(!before.contains(a.last())) by {
                    if init.contains(a.last()) {
                        let i = choose|i: int| 0 <= i < init.len() && init[i] == a.last();
                        assert(a[i] == a[a.len() - 1]);
                    }
                }
                assert forall|p: int, q: int| 0 <= p < all.len() && 0 <= q < all.len() && p != q implies all[p]
                    != all[q] by {
                    if p < before.len() && q < before.len() {
                        assert(before[p] != before[q]);
                    } else if p < before.len() {
                        assert(before.contains(before[p]));
                    } else {
                        assert(before.contains(before[q]));
                    }
                }
            }
        }
    }
}

/// The comparison gives exactly the items that stand in one of the two
/// lists and not in the other, and none twice if neither list holds an
/// item twice.
pub proof fn lemma_in_one_only(a: Seq<Seq<char>>, b: Seq<Seq<char>>)
    ensures
        forall|x: Seq<char>| #[trigger] in_one_only(a, b).contains(x) <==> (a.contains(x) != b.contains(x)),
        a.no_duplicates() && b.no_duplicates() ==> in_one_only(a, b).no_duplicates(),
{
    let left = without(a, b);
    let right = without(b, a);
    let all = in_one_only(a, b);
    lemma_without(a, b);
    lemma_without(b, a);
    assert forall|x: Seq<char>| #[trigger] all.contains(x) <==> (a.contains(x) != b.contains(x)) by {
        if all.contains(x) {
            let j = choose|j: int| 0 <= j < all.len() && all[j] == x;
            if j < left.len() {
                assert(left[j] == x);
                assert(left.contains(x));
            } else {
                assert(right[j - left.len()] == x);
                assert(right.contains(x));
            }
        }
        if left.contains(x) {
            let j = choose|j: int| 0 <= j < left.len() && left[j] == x;
            assert(all[j] == x);
        }
        if right.contains(x) {
            let j = choose|j: int| 0 <= j < right.len() && right[j] == x;
            assert(all[left.len() + j] == x);
        }
    }
    if a.no_duplicates() && b.no_duplicates() {
        assert forall|p: int, q: int| 0 <= p < all.len() && 0 <= q < all.len() && p != q implies all[p]
            != all[q] by {
            if p < left.len() && q < left.len() {
                assert(left[p] != left[q]);
            } else if p >= left.len() && q >= left.len() {
                assert(right[p - left.len()] != right[q - left.len()]);
            } else if p < left.len() {
                assert(left.contains(left[p]));
                assert(right.contains(right[q - left.len()]));
            } else {
                assert(left.contains(left[q]));
                assert(right.contains(right[p - left.len()]));
            }
        }
    }
}

/// The set of the texts of `v`.
fn set_of(v: &Vec<String>) -> (s: StringHashSet)
    ensures
        forall|a: Seq<char>| s@.contains(a) <==> texts(v@).contains(a),
{
    let mut s = StringHashSet::new();
    let mut i: usize = 0;
    while i < v.len()
        invariant
            i <= v.len(),
            forall|a: Seq<char>| s@.contains(a) <==> texts(v@).take(i as int).contains(a),
        decreases v.len() - i,
    {
        s.insert(v[i].clone());
        proof {
            let t = texts(v@);
            let less = t.take(i as int);
            let more = t.take(i as int + 1);
            assert(t[i as int] == v@[i as int]@);
            assert(more =~= less.push(t[i as int]));
            assert forall|a: Seq<char>| s@.contains(a) <==> more.contains(a) by {
                if less.contains(a) {
                    let j = choose|j: int| 0 <= j < less.len() && less[j] == a;
                    assert(more[j] == a);
                }
                if a == t[i as int] {
                    assert(more[i as int] == a);
                }
                if more.contains(a) {
                    let j = choose|j: int| 0 <= j < more.len() && more[j] == a;
                    if j < i {
                        assert(less[j] == a);
                    }
                }
            }
        }
        i += 1;
    }
    proof {
        assert(texts(v@).take(i as int) =~= texts(v@));
    }
    s
}

/// The texts of `v` that are not among the texts of `other`.
fn difference(v: &Vec<String>, other: &Vec<String>) -> (out: Vec<String>)
    ensures
        texts(out@) == without(texts(v@), texts(other@)),
{
    let s = set_of(other);
    let mut out: Vec<String> = Vec::new();
    let mut i: usize = 0;
    let ghost t = texts(v@);
    proof {
        assert(t.take(0) =~= Seq::<Seq<char>>::empty());
        assert(texts(out@) =~= Seq::<Seq<char>>::empty());
    }
    while i < v.len()
        invariant
            i <= v.len(),
            t == texts(v@),
            forall|a: Seq<char>| s@.contains(a) <==> texts(other@).contains(a),
            texts(out@) == without(t.take(i as int), texts(other@)),
        decreases v.len() - i,
    {
        proof {
            assert(t[i as int] == v@[i as int]@);
            assert(t.take(i as int + 1).drop_last() =~= t.take(i as int));
            assert(t.take(i as int + 1).last() == t[i as int]);
        }
        if !s.contains(v[i].as_str()) {
            let c = v[i].clone();
            proof {
                assert(texts(out@.push(c)) =~= texts(out@).push(c@));
            }
            out.push(c);
        }
        i += 1;
    }
    proof {
        assert(t.take(i as int) =~= t);
    }
    out
}

impl EmailComparisonTab {
    /// A comparison with no file chosen yet.
    pub fn new() -> (tab: Self)
        ensures
            tab.file1_path is None,
            tab.file2_path is None,
            tab.output_path is None,
    {
        EmailComparisonTab { file1_path: None, file2_path: None, output_path: None }
    }

    /// Whether the two lists and the output file are all chosen.
    pub fn is_ready(&self) -> (b: bool)
        ensures
            b == (self.file1_path is Some && self.file2_path is Some && self.output_path is Some),
    {
        self.file1_path.is_some() && self.file2_path.is_some() && self.output_path.is_some()
    }

    /// The addresses of a list file with the content `content`, each once,
    /// in the order in which they first occur.
    pub fn read_emails(&self, content: &[u8]) -> (out: Vec<String>)
        ensures
            texts(out@) == addresses_of(content@),
    {
        let lines = load_targets(content);
        let ghost t = texts(lines@);
        let mut seen = StringHashSet::new();
        let mut out: Vec<String> = Vec::new();
        let mut i: usize = 0;
        proof {
            assert(t.take(0) =~= Seq::<Seq<char>>::empty());
            assert(texts(out@) =~= Seq::<Seq<char>>::empty());
        }
        while i < lines.len()
            invariant
                i <= lines.len(),
                t == texts(lines@),
                t == targets_of(content@),
                forall|a: Seq<char>| seen@.contains(a) <==> texts(out@).contains(a),
                texts(out@) == address_list(t.take(i as int)),
            decreases lines.len() - i,
        {
            let ghost before = texts(out@);
            let trimmed_line = string_of(&trim(&chars_of(lines[i].as_str())));
            let address = lowercase(trimmed_line.as_str());
            proof {
                assert(t[i as int] == lines@[i as int]@);
                assert(address@ == normalized(t[i as int]));
                assert(t.take(i as int + 1).drop_last() =~= t.take(i as int));
                assert(t.take(i as int + 1).last() == t[i as int]);
            }
            if address.as_str().unicode_len() > 0 && !seen.contains(address.as_str()) {
                seen.insert(address.clone());
                out.push(address);
                proof {
                    let after = texts(out@);
                    let a0 = normalized(t[i as int]);
                    assert(after =~= before.push(a0));
                    assert forall|a: Seq<char>| after.contains(a) <==> (before.contains(a) || a == a0) by {
                        if after.contains(a) {
                            let j = choose|j: int| 0 <= j < after.len() && after[j] == a;
                            if j < before.len() {
                                assert(before[j] == a);
                            }
                        }
                        if before.contains(a) {
                            let j = choose|j: int| 0 <= j < before.len() && before[j] == a;
                            assert(after[j] == a);
                        }
                        if a == a0 {
                            assert(after[before.len() as int] == a);
                        }
                    }
                }
            }
            i += 1;
        }
        proof {
            assert(t.take(i as int) =~= t);
        }
        out
    }

    /// The addresses that stand in exactly one of two list files, each
    /// once: first those of the first file only, then those of the second
    /// file only.
    pub fn compare_email_lists(&self, first: &[u8], second: &[u8]) -> (out: Vec<String>)
        ensures
            texts(out@) == in_one_only(addresses_of(first@), addresses_of(second@)),
    {
        let emails1 = self.read_emails(first);
        let emails2 = self.read_emails(second);
        let mut out = difference(&emails1, &emails2);
        let mut only2 = difference(&emails2, &emails1);
        let ghost a = texts(out@);
        let ghost b = texts(only2@);
        out.append(&mut only2);
        proof {
            assert(texts(out@) =~= a + b);
        }
        out
    }
}

} // verus!

//! The target registry: the list of targets of a run, one per line of the
//! list file, in the order of the file. Blank lines are targets like any
//! other; lines that are not well-formed text are left out.

use vstd::prelude::*;
use crate::decode::utf8_text;
use crate::lines::{line_text, lines, split_lines};
use crate::row::texts;
use crate::split::views;

verus! {

/// The texts of those lines that are well-formed text, in order.
pub open spec fn decodable(ls: Seq<Seq<u8>>) -> Seq<Seq<char>>
    decreases ls.len(),
{
    if ls.len() == 0 {
        Seq::empty()
    } else {
        match line_text(ls.last()) {
            Some(text) => decodable(ls.drop_last()).push(text),
            None => decodable(ls.drop_last()),
        }
    }
}

/// The targets that the content of a list file names.
pub open spec fn targets_of(content: Seq<u8>) -> Seq<Seq<char>> {
    decodable(lines(content))
}

/// The targets that the content of a list file names.
pub fn load_targets(content: &[u8]) -> (out: Vec<String>)
    ensures
        texts(out@) == targets_of(content@),
{
    let ls = split_lines(content);
    let ghost all = lines(content@);
    let mut out: Vec<String> = Vec::new();
    let mut i: usize = 0;
    proof {
        assert(all.take(0) =~= Seq::<Seq<u8>>::empty());
        assert(texts(out@) =~= Seq::<Seq<char>>::empty());
    }
    while i < ls.len()
        invariant
            i <= ls.len(),
            all == lines(content@),
            views(ls@) == all,
            texts(out@) == decodable(all.take(i as int)),
        decreases ls.len() - i,
    {
        proof {
            assert(views(ls@)[i as int] == ls@[i as int]@);
            assert(all.take(i as int + 1).drop_last() =~= all.take(i as int));
            assert(all.take(i as int + 1).last() == all[i as int]);
        }
        match utf8_text(ls[i].as_slice()) {
            Some(text) => {
                let t = text.to_owned();
                proof {
                    assert(texts(out@.push(t)) =~= texts(out@).push(t@));
                }
                out.push(t);
            },
            None => {},
        }
        i += 1;
    }
    proof {
        assert(all.take(all.len() as int) =~= all);
    }
    out
}

} // verus!

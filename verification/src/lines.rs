//! Lines of a file's content. A line ends at a line feed; a carriage return
//! just before that line feed belongs to the line ending. What follows the
//! last line feed is a line too, unless nothing follows it.

use vstd::prelude::*;
use vstd::utf8::{decode_utf8, valid_utf8};
use crate::split::{first_index, lemma_first_index_is, views};

verus! {

/// The byte that ends a line.
pub const LINE_FEED: u8 = 0x0A;

/// The byte that may precede the line feed in a line ending.
pub const CARRIAGE_RETURN: u8 = 0x0D;

/// A line without the carriage return that stood before its line feed.
pub open spec fn strip_cr(line: Seq<u8>) -> Seq<u8> {
    if line.len() > 0 && line.last() == CARRIAGE_RETURN {
        line.drop_last()
    } else {
        line
    }
}

/// The lines of `bytes`, each without its line ending.
pub open spec fn lines(bytes: Seq<u8>) -> Seq<Seq<u8>>
    decreases bytes.len(),
{
    if bytes.len() == 0 {
        Seq::empty()
    } else {
        let i = first_index(bytes, LINE_FEED);
        if 0 <= i < bytes.len() {
            seq![strip_cr(bytes.take(i))] + lines(bytes.skip(i + 1))
        } else {
            seq![bytes]
        }
    }
}

/// The text of a line: its characters where the line is well-formed UTF-8,
/// nothing where it is not.
pub open spec fn line_text(line: Seq<u8>) -> Option<Seq<char>> {
    if valid_utf8(line) {
        Some(decode_utf8(line))
    } else {
        None
    }
}

/// The lines of `bytes`, each without its line ending.
pub fn split_lines(bytes: &[u8]) -> (out: Vec<Vec<u8>>)
    ensures
        views(out@) == lines(bytes@),
{
    let mut out: Vec<Vec<u8>> = Vec::new();
    let mut cur: Vec<u8> = Vec::new();
    let ghost mut start: int = 0;
    let mut i: usize = 0;
    proof {
        assert(bytes@.skip(0) =~= bytes@);
        assert(views(out@) =~= Seq::<Seq<u8>>::empty());
    }
    while i < bytes.len()
        invariant
            0 <= start <= i <= bytes.len(),
            cur@ == bytes@.subrange(start, i as int),
            forall|j: int| start <= j < i ==> bytes@[j] != LINE_FEED,
            views(out@) + lines(bytes@.skip(start)) == lines(bytes@),
        decreases bytes.len() - i,
    {
        let b = bytes[i];
        if b == LINE_FEED {
            let ghost whole = cur@;
            if cur.len() > 0 && cur[cur.len() - 1] == CARRIAGE_RETURN {
                cur.pop();
            }
            proof {
                let rest = bytes@.skip(start);
                let k = i as int - start;
                assert forall|j: int| 0 <= j < k implies rest[j] != LINE_FEED by {
                    assert(rest[j] == bytes@[start + j]);
                }
                lemma_first_index_is(rest, LINE_FEED, k);
                assert(rest.take(k) =~= whole);
                assert(cur@ =~= strip_cr(whole));
                assert(rest.skip(k + 1) =~= bytes@.skip(i as int + 1));
                assert(views(out@.push(cur)) =~= views(out@) + seq![cur@]);
                assert(views(out@.push(cur)) + lines(bytes@.skip(i as int + 1)) =~= views(out@)
                    + lines(rest));
                start = i as int + 1;
            }
            out.push(cur);
            cur = Vec::new();
        } else {
            cur.push(b);
        }
        i += 1;
        proof {
            assert(cur@ =~= bytes@.subrange(start, i as int));
        }
    }
    proof {
        let rest = bytes@.skip(start);
        assert(cur@ =~= rest);
        if rest.len() > 0 {
            assert forall|j: int| 0 <= j < rest.len() implies rest[j] != LINE_FEED by {
                assert(rest[j] == bytes@[start + j]);
            }
            lemma_first_index_is(rest, LINE_FEED, rest.len() as int);
            assert(views(out@.push(cur)) =~= views(out@) + seq![cur@]);
        } else {
            assert(views(out@) + lines(rest) =~= views(out@));
        }
    }
    if cur.len() > 0 {
        out.push(cur);
    }
    out
}

} // verus!

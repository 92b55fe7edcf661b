//! Scanning the content of one file for the first row that names a target.

use vstd::prelude::*;
use crate::decode::{transcode, transcoded, utf8_text};
use crate::lines::{line_text, lines, split_lines};
use crate::row::{row_matches, row_names};
use crate::split::{first_index, lemma_first_index, lemma_first_index_is, views};
use crate::text::chars_of;

verus! {

/// The first row that names the target: its number, counted from one, and
/// its text.
pub struct Hit {
    pub row: usize,
    pub text: String,
}

/// What the scan of one file found: the first hit, if any, and the numbers
/// of the rows before it (or of all rows, without a hit) that are not
/// well-formed text and were passed over.
pub struct Scan {
    pub hit: Option<Hit>,
    pub undecodable: Vec<usize>,
}

/// Whether the line is text and, as a row, names `target`.
pub open spec fn line_names(line: Seq<u8>, target: Seq<char>) -> bool {
    line_text(line) matches Some(text) && row_names(text, target)
}

/// For each line, whether it names `target`.
pub open spec fn naming(ls: Seq<Seq<u8>>, target: Seq<char>) -> Seq<bool> {
    ls.map_values(|line: Seq<u8>| line_names(line, target))
}

/// Index of the first line that names `target`, or the number of lines when
/// none does.
pub open spec fn hit_index(ls: Seq<Seq<u8>>, target: Seq<char>) -> int {
    first_index(naming(ls, target), true)
}

/// The numbers, counted from one and ascending, of the lines that are not
/// well-formed text.
pub open spec fn undecodable_rows(ls: Seq<Seq<u8>>) -> Seq<usize>
    decreases ls.len(),
{
    if ls.len() == 0 {
        Seq::empty()
    } else if line_text(ls.last()) is None {
        undecodable_rows(ls.drop_last()).push(ls.len() as usize)
    } else {
        undecodable_rows(ls.drop_last())
    }
}

/// Whether `scan` is the result of scanning the lines `ls` for `target`.
pub open spec fn scan_of(scan: Scan, ls: Seq<Seq<u8>>, target: Seq<char>) -> bool {
    let k = hit_index(ls, target);
    &&& 0 <= k <= ls.len()
    &&& scan.hit is Some <==> k < ls.len()
    &&& scan.hit matches Some(h) ==> h.row == k + 1 && line_text(ls[k]) == Some(h.text@)
    &&& scan.undecodable@ == undecodable_rows(ls.take(k))
}

/// A hit is a row of the file that names the target, and no row before it
/// does; without a hit no row names it.
pub proof fn lemma_scan_meaning(scan: Scan, ls: Seq<Seq<u8>>, target: Seq<char>)
    requires
        scan_of(scan, ls, target),
    ensures
        scan.hit matches Some(h) ==> {
            &&& 1 <= h.row <= ls.len()
            &&& line_text(ls[h.row - 1]) == Some(h.text@)
            &&& row_names(h.text@, target)
            &&& forall|j: int| 0 <= j < h.row - 1 ==> !line_names(ls[j], target)
        },
        scan.hit is None ==> forall|j: int| 0 <= j < ls.len() ==> !line_names(ls[j], target),
{
    let flags = naming(ls, target);
    lemma_first_index(flags, true);
    let k = hit_index(ls, target);
    assert forall|j: int| 0 <= j < k implies !line_names(ls[j], target) by {
        assert(flags[j] == line_names(ls[j], target));
    }
    if k < ls.len() {
        assert(flags[k] == line_names(ls[k], target));
    }
}

/// Scans content that is already UTF-8, line by line, for the first row
/// that names `target`.
pub fn scan_lines(content: &[u8], target: &Vec<char>) -> (scan: Scan)
    ensures
        scan_of(scan, lines(content@), target@),
{
    let ls = split_lines(content);
    let ghost all = lines(content@);
    let ghost flags = naming(all, target@);
    let mut undecodable: Vec<usize> = Vec::new();
    let mut i: usize = 0;
    proof {
        assert(all.take(0) =~= Seq::<Seq<u8>>::empty());
    }
    while i < ls.len()
        invariant
            i <= ls.len(),
            all == lines(content@),
            views(ls@) == all,
            flags == naming(all, target@),
            forall|j: int| 0 <= j < i ==> flags[j] != true,
            undecodable@ == undecodable_rows(all.take(i as int)),
        decreases ls.len() - i,
    {
        let ghost line = all[i as int];
        proof {
            assert(views(ls@)[i as int] == ls@[i as int]@);
            assert(all.take(i as int + 1).drop_last() =~= all.take(i as int));
            assert(all.take(i as int + 1).last() == line);
            assert(flags[i as int] == line_names(line, target@));
        }
        match utf8_text(ls[i].as_slice()) {
            Some(text) => {
                if row_matches(&chars_of(text), target) {
                    proof {
                        lemma_first_index_is(flags, true, i as int);
                    }
                    return Scan {
                        hit: Some(Hit { row: i + 1, text: text.to_owned() }),
                        undecodable,
                    };
                }
            },
            None => {
                undecodable.push(i + 1);
            },
        }
        i += 1;
    }
    proof {
        lemma_first_index_is(flags, true, all.len() as int);
        assert(all.take(all.len() as int) =~= all);
    }
    Scan { hit: None, undecodable }
}

/// Scans the raw content of a file for the first row that names `target`:
/// the content is transcoded, cut into lines, and each line that is text is
/// held against the target. `None` means that the content could not be
/// transcoded.
pub fn scan_content(raw: &[u8], target: &str) -> (out: Option<Scan>)
    ensures
        out is Some <==> transcoded(raw@) is Some,
        out matches Some(scan) ==> scan_of(scan, lines(transcoded(raw@)->0), target@),
{
    match transcode(raw) {
        Some(content) => Some(scan_lines(content.as_slice(), &chars_of(target))),
        None => None,
    }
}

} // verus!

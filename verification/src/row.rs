//! Rows of a delimited text file: how a line is cut into trimmed fields and
//! which of its fields are held against a target.

use vstd::prelude::*;
use crate::split::{split, split_chars, views};
use crate::text::{chars_of, eq_ignore_ascii_case, eq_ignoring_ascii_case, string_of, trim, trimmed};

verus! {

/// The character that separates the fields of a line.
pub const DELIMITER: char = ',';

/// Position of the field that holds the primary address.
pub const PRIMARY_COLUMN: usize = 0;

/// Position of the field that holds the secondary address.
pub const SECONDARY_COLUMN: usize = 2;

/// The fields of a line: its pieces between delimiters, each trimmed.
pub open spec fn fields(line: Seq<char>) -> Seq<Seq<char>> {
    split(line, DELIMITER).map_values(|piece: Seq<char>| trimmed(piece))
}

/// Whether a line names `target`: it has a field at both designated
/// positions, and one of the two equals `target` up to ASCII case. A line
/// with fewer fields names nothing.
pub open spec fn row_names(line: Seq<char>, target: Seq<char>) -> bool {
    let f = fields(line);
    &&& f.len() > SECONDARY_COLUMN
    &&& (eq_ignoring_ascii_case(f[PRIMARY_COLUMN as int], target) || eq_ignoring_ascii_case(
        f[SECONDARY_COLUMN as int],
        target,
    ))
}

/// The views of a sequence of strings.
pub open spec fn texts(v: Seq<String>) -> Seq<Seq<char>> {
    v.map_values(|s: String| s@)
}

/// The trimmed fields of `line`.
pub fn split_fields(line: &Vec<char>) -> (out: Vec<Vec<char>>)
    ensures
        views(out@) == fields(line@),
{
    let pieces = split_chars(line, DELIMITER);
    let mut out: Vec<Vec<char>> = Vec::new();
    let mut i: usize = 0;
    while i < pieces.len()
        invariant
            i <= pieces.len(),
            views(pieces@) == split(line@, DELIMITER),
            views(out@) == fields(line@).take(i as int),
        decreases pieces.len() - i,
    {
        let t = trim(&pieces[i]);
        proof {
            assert(views(pieces@)[i as int] == pieces@[i as int]@);
            assert(fields(line@)[i as int] == t@);
            assert(views(out@).len() == i);
            assert(views(out@.push(t)) =~= views(out@).push(t@));
            assert(fields(line@).take(i as int + 1) =~= fields(line@).take(i as int).push(t@));
        }
        out.push(t);
        i += 1;
    }
    proof {
        assert(fields(line@).take(i as int) =~= fields(line@));
    }
    out
}

/// Whether the row `line` names `target`.
pub fn row_matches(line: &Vec<char>, target: &Vec<char>) -> (b: bool)
    ensures
        b == row_names(line@, target@),
{
    let f = split_fields(line);
    proof {
        assert(views(f@).len() == f@.len());
        if f@.len() > SECONDARY_COLUMN {
            assert(views(f@)[PRIMARY_COLUMN as int] == f@[PRIMARY_COLUMN as int]@);
            assert(views(f@)[SECONDARY_COLUMN as int] == f@[SECONDARY_COLUMN as int]@);
        }
    }
    f.len() > SECONDARY_COLUMN && (eq_ignore_ascii_case(&f[PRIMARY_COLUMN], target)
        || eq_ignore_ascii_case(&f[SECONDARY_COLUMN], target))
}

/// The trimmed fields of the line `line`, as strings.
pub fn fields_of(line: &str) -> (out: Vec<String>)
    ensures
        texts(out@) == fields(line@),
{
    let f = split_fields(&chars_of(line));
    let mut out: Vec<String> = Vec::new();
    let mut i: usize = 0;
    while i < f.len()
        invariant
            i <= f.len(),
            texts(out@) == views(f@).take(i as int),
        decreases f.len() - i,
    {
        let s = string_of(&f[i]);
        proof {
            assert(views(f@)[i as int] == s@);
            assert(texts(out@).len() == i);
            assert(texts(out@.push(s)) =~= texts(out@).push(s@));
            assert(views(f@).take(i as int + 1) =~= views(f@).take(i as int).push(s@));
        }
        out.push(s);
        i += 1;
    }
    proof {
        assert(views(f@).take(i as int) =~= views(f@));
    }
    out
}

/// Whether the line `line` names the target `target`.
pub fn line_matches(line: &str, target: &str) -> (b: bool)
    ensures
        b == row_names(line@, target@),
{
    row_matches(&chars_of(line), &chars_of(target))
}

} // verus!

//! Extraction of telephone numbers from the fields of a file. A number is
//! what the pattern for `(ddd) ddd-dddd` finds first in a field; it is
//! kept without brackets, spaces and hyphens, behind the prefix `+1`.

use vstd::prelude::*;
use crate::pattern::{compile, find, regex_accepts, regex_find, regex_source};
use crate::records::{csv_read, read_records, row_views};
use crate::row::texts;
use crate::text::{chars_of, string_of};

verus! {

/// The telephone number extractor. It has no settings.
pub struct PhoneExtractionTab;

/// The pattern of a telephone number in a field.
pub open spec fn phone_pattern() -> Seq<char> {
    "\\(\\d{3}\\)\\s*\\d{3}-\\d{4}"@
}

/// Whether a character of a match is kept in the number.
pub open spec fn is_kept(c: char) -> bool {
    c != '(' && c != ')' && c != ' ' && c != '-'
}

/// The characters of `matched` that are kept, in order.
pub open spec fn kept(matched: Seq<char>) -> Seq<char>
    decreases matched.len(),
{
    if matched.len() == 0 {
        Seq::empty()
    } else if is_kept(matched.last()) {
        kept(matched.drop_last()).push(matched.last())
    } else {
        kept(matched.drop_last())
    }
}

/// The number that is written for a match.
pub open spec fn formatted(matched: Seq<char>) -> Seq<char> {
    seq!['+', '1'] + kept(matched)
}

/// The numbers of the fields `fields`, in order: one for each field in
/// which `pattern` finds a match.
pub open spec fn numbers_in(pattern: Seq<char>, fields: Seq<Seq<char>>) -> Seq<Seq<char>>
    decreases fields.len(),
{
    if fields.len() == 0 {
        Seq::empty()
    } else {
        match regex_find(pattern, fields.last()) {
            Some(m) => numbers_in(pattern, fields.drop_last()).push(formatted(m)),
            None => numbers_in(pattern, fields.drop_last()),
        }
    }
}

/// The numbers of the records `rows`, in order.
pub open spec fn numbers_of(pattern: Seq<char>, rows: Seq<Seq<Seq<char>>>) -> Seq<Seq<char>>
    decreases rows.len(),
{
    if rows.len() == 0 {
        Seq::empty()
    } else {
        numbers_of(pattern, rows.drop_last()) + numbers_in(pattern, rows.last())
    }
}

/// The name of the file that takes the numbers.
pub open spec fn numbers_file_name() -> Seq<char> {
    "phone_numbers.txt"@
}

/// The number that is written for a match.
pub fn format_number(matched: &str) -> (out: String)
    ensures
        out@ == formatted(matched@),
{
    let m = chars_of(matched);
    let mut out: Vec<char> = Vec::new();
    out.push('+');
    out.push('1');
    let mut i: usize = 0;
    proof {
        assert(m@.take(0) =~= Seq::<char>::empty());
        assert(out@ =~= seq!['+', '1'] + kept(m@.take(0)));
    }
    while i < m.len()
        invariant
            i <= m.len(),
            out@ == seq!['+', '1'] + kept(m@.take(i as int)),
        decreases m.len() - i,
    {
        let c = m[i];
        proof {
            assert(m@.take(i as int + 1).drop_last() =~= m@.take(i as int));
            assert(m@.take(i as int + 1).last() == c);
        }
        if c != '(' && c != ')' && c != ' ' && c != '-' {
            out.push(c);
            proof {
                assert(out@ =~= seq!['+', '1'] + kept(m@.take(i as int + 1)));
            }
        }
        i += 1;
    }
    proof {
        assert(m@.take(i as int) =~= m@);
    }
    string_of(&out)
}

/// Appends the numbers of the fields of one record to `out`.
fn collect_numbers(re: &regex::Regex, fields: &Vec<String>, out: &mut Vec<String>)
    ensures
        texts(final(out)@) == texts(old(out)@) + numbers_in(regex_source(*re), texts(fields@)),
{
    let ghost before = texts(out@);
    let ghost pattern = regex_source(*re);
    let ghost f = texts(fields@);
    let mut j: usize = 0;
    proof {
        assert(f.take(0) =~= Seq::<Seq<char>>::empty());
        assert(texts(out@) =~= before + numbers_in(pattern, f.take(0)));
    }
    while j < fields.len()
        invariant
            j <= fields.len(),
            f == texts(fields@),
            pattern == regex_source(*re),
            texts(out@) == before + numbers_in(pattern, f.take(j as int)),
        decreases fields.len() - j,
    {
        let ghost o = texts(out@);
        proof {
            assert(f[j as int] == fields@[j as int]@);
            assert(f.take(j as int + 1).drop_last() =~= f.take(j as int));
            assert(f.take(j as int + 1).last() == f[j as int]);
        }
        match find(re, fields[j].as_str()) {
            Some(m) => {
                let number = format_number(m.as_str());
                out.push(number);
                proof {
                    assert(texts(out@) =~= o.push(number@));
                    assert(texts(out@) =~= before + numbers_in(pattern, f.take(j as int + 1)));
                }
            },
            None => {},
        }
        j += 1;
    }
    proof {
        assert(f.take(j as int) =~= f);
    }
}

/// What the extraction from the content of a file gives.
pub enum Extraction {
    /// The numbers of the file, in the order of its records and fields.
    Numbers(Vec<String>),
    /// A record of the file could not be read, for the reason given.
    Unreadable(String),
    /// The pattern for telephone numbers was refused.
    NoPattern,
}

/// The numbers of a file with the content `content`. A file with a record
/// that cannot be read gives no numbers at all.
pub fn extract_phone_numbers(content: &[u8]) -> (out: Extraction)
    ensures
        match out {
            Extraction::Numbers(numbers) => {
                &&& regex_accepts(phone_pattern())
                &&& csv_read(content@).1 is None
                &&& texts(numbers@) == numbers_of(phone_pattern(), csv_read(content@).0)
            },
            Extraction::Unreadable(reason) => {
                &&& regex_accepts(phone_pattern())
                &&& csv_read(content@).1 == Some(reason@)
            },
            Extraction::NoPattern => !regex_accepts(phone_pattern()),
        },
{
    let re = match compile("\\(\\d{3}\\)\\s*\\d{3}-\\d{4}") {
        Some(re) => re,
        None => {
            return Extraction::NoPattern;
        },
    };
    let records = read_records(content);
    match records.failure {
        Some(reason) => {
            return Extraction::Unreadable(reason);
        },
        None => {},
    }
    let ghost rows = row_views(records.rows@);
    let mut numbers: Vec<String> = Vec::new();
    let mut i: usize = 0;
    proof {
        assert(rows.take(0) =~= Seq::<Seq<Seq<char>>>::empty());
        assert(texts(numbers@) =~= numbers_of(phone_pattern(), rows.take(0)));
    }
    while i < records.rows.len()
        invariant
            i <= records.rows.len(),
            rows == row_views(records.rows@),
            regex_source(re) == phone_pattern(),
            texts(numbers@) == numbers_of(phone_pattern(), rows.take(i as int)),
        decreases records.rows.len() - i,
    {
        proof {
            assert(rows[i as int] == texts(records.rows@[i as int]@));
            assert(rows.take(i as int + 1).drop_last() =~= rows.take(i as int));
            assert(rows.take(i as int + 1).last() == rows[i as int]);
        }
        collect_numbers(&re, &records.rows[i], &mut numbers);
        i += 1;
    }
    proof {
        assert(rows.take(i as int) =~= rows);
    }
    Extraction::Numbers(numbers)
}

impl PhoneExtractionTab {
    /// The extractor.
    pub fn new() -> (tab: Self)
        ensures
            tab == PhoneExtractionTab,
    {
        PhoneExtractionTab
    }

    /// The name of the file that takes the numbers.
    pub fn numbers_file_name() -> (name: String)
        ensures
            name@ == numbers_file_name(),
    {
        String::from_str("phone_numbers.txt")
    }
}

} // verus!

//! Match records and the line that stands for one in the results file:
//! the row number, a comma, the text of the row, and a line feed.

use vstd::prelude::*;
use crate::split::{first_index, lemma_first_index, lemma_first_index_is};
use crate::text::{
    chars_of, decimal, decimal_of, digits_value, is_digit, lemma_decimal_digits,
    lemma_decimal_value, string_of,
};

verus! {

/// A confirmed match: the target, the file that names it, the number of the
/// row (counted from one) and the text of that row.
pub struct MatchRecord {
    pub target: String,
    pub path: String,
    pub row: usize,
    pub text: String,
}

/// What a match record stands for.
pub struct RecordView {
    pub target: Seq<char>,
    pub path: Seq<char>,
    pub row: nat,
    pub text: Seq<char>,
}

impl View for MatchRecord {
    type V = RecordView;

    open spec fn view(&self) -> RecordView {
        RecordView { target: self.target@, path: self.path@, row: self.row as nat, text: self.text@ }
    }
}

/// The line of the results file for a row number and a row text.
pub open spec fn result_line(row: nat, text: Seq<char>) -> Seq<char> {
    decimal(row) + seq![','] + text + seq!['\n']
}

/// What a line of the results file says: the row number and the row text,
/// provided the line is a run of digits that fits the machine word, a comma,
/// any text, and a final line feed.
pub open spec fn parsed_line(line: Seq<char>) -> Option<(usize, Seq<char>)> {
    let k = first_index(line, ',');
    if line.len() > 0 && line.last() == '\n' && 0 < k < line.len() && (forall|i: int|
        0 <= i < k ==> is_digit(line[i])) && digits_value(line.take(k)) <= usize::MAX {
        Some((digits_value(line.take(k)) as usize, line.subrange(k + 1, line.len() - 1)))
    } else {
        None
    }
}

/// The value of a run of digits is at least the value of each of its
/// prefixes.
pub proof fn lemma_digits_value_prefix(s: Seq<char>, j: int)
    requires
        0 <= j <= s.len(),
        forall|i: int| 0 <= i < s.len() ==> is_digit(s[i]),
    ensures
        digits_value(s.take(j)) <= digits_value(s),
    decreases s.len(),
{
    if j == s.len() {
        assert(s.take(j) =~= s);
    } else {
        let init = s.drop_last();
        lemma_digits_value_prefix(init, j);
        assert(init.take(j) =~= s.take(j));
    }
}

/// A line written for a row number and a text reads back as that number
/// and that text.
pub proof fn lemma_line_round_trip(row: usize, text: Seq<char>)
    ensures
        parsed_line(result_line(row as nat, text)) == Some((row, text)),
{
    let d = decimal(row as nat);
    let line = result_line(row as nat, text);
    lemma_decimal_digits(row as nat);
    lemma_decimal_value(row as nat);
    let k = d.len() as int;
    assert forall|j: int| 0 <= j < k implies line[j] != ',' by {
        assert(line[j] == d[j]);
        assert(is_digit(d[j]));
    }
    assert(line[k] == ',');
    lemma_first_index_is(line, ',', k);
    assert(line.take(k) =~= d);
    assert(line.subrange(k + 1, line.len() - 1) =~= text);
    assert forall|i: int| 0 <= i < k implies is_digit(line[i]) by {
        assert(line[i] == d[i]);
    }
}

impl MatchRecord {
    /// A copy of this record.
    pub fn duplicate(&self) -> (copy: Self)
        ensures
            copy == *self,
    {
        MatchRecord {
            target: self.target.clone(),
            path: self.path.clone(),
            row: self.row,
            text: self.text.clone(),
        }
    }

    /// The line of the results file for this record.
    pub fn to_line(&self) -> (line: String)
        ensures
            line@ == result_line(self.row as nat, self.text@),
    {
        let mut out = decimal_of(self.row);
        out.push(',');
        let text = chars_of(self.text.as_str());
        let mut i: usize = 0;
        let ghost head = out@;
        while i < text.len()
            invariant
                i <= text.len(),
                out@ == head + text@.take(i as int),
            decreases text.len() - i,
        {
            out.push(text[i]);
            i += 1;
            proof {
                assert(text@.take(i as int) =~= text@.take(i as int - 1).push(text@[i as int - 1]));
                assert(out@ =~= head + text@.take(i as int));
            }
        }
        out.push('\n');
        proof {
            assert(text@.take(i as int) =~= text@);
            assert(out@ =~= result_line(self.row as nat, self.text@));
        }
        string_of(&out)
    }
}

/// Reads a line of the results file back into the row number and the row
/// text, or nothing if the line does not have that form.
pub fn parse_line(line: &str) -> (out: Option<(usize, String)>)
    ensures
        out is Some <==> parsed_line(line@) is Some,
        out matches Some(p) ==> parsed_line(line@) == Some((p.0, p.1@)),
{
    let s = chars_of(line);
    let n = s.len();
    if n == 0 || s[n - 1] != '\n' {
        return None;
    }
    let mut value: usize = 0;
    let mut k: usize = 0;
    proof {
        lemma_first_index(s@, ',');
        assert(s@.take(0) =~= Seq::<char>::empty());
    }
    while k < n && s[k] != ','
        invariant
            k <= n == s.len(),
            s@ == line@,
            s@[n - 1] == '\n',
            forall|j: int| 0 <= j < k ==> s@[j] != ',' && is_digit(s@[j]),
            value == digits_value(s@.take(k as int)),
        decreases n - k,
    {
        let c: u32 = s[k] as u32;
        if c < 0x30 || c > 0x39 {
            proof {
                let f = first_index(s@, ',');
                lemma_first_index(s@, ',');
                if f <= k {
                    assert(s@[f] != ',');
                }
                assert(!is_digit(s@[k as int]));
            }
            return None;
        }
        let d: usize = (c - 0x30) as usize;
        proof {
            assert(s@.take(k as int + 1).drop_last() =~= s@.take(k as int));
            assert(s@.take(k as int + 1).last() == s@[k as int]);
        }
        if value > (usize::MAX - d) / 10 {
            proof {
                let f = first_index(s@, ',');
                lemma_first_index(s@, ',');
                if f <= k {
                    assert(s@[f] != ',');
                }
                if 0 < f < n && (forall|i: int| 0 <= i < f ==> is_digit(s@[i])) {
                    let digits = s@.take(f);
                    lemma_digits_value_prefix(digits, k as int + 1);
                    assert(digits.take(k as int + 1) =~= s@.take(k as int + 1));
                }
            }
            return None;
        }
        value = value * 10 + d;
        k += 1;
    }
    proof {
        lemma_first_index_is(s@, ',', k as int);
    }
    if k == 0 || k == n {
        return None;
    }
    let mut text: Vec<char> = Vec::new();
    let mut i: usize = k + 1;
    while i < n - 1
        invariant
            k + 1 <= i <= n - 1,
            n == s.len(),
            s@ == line@,
            text@ == s@.subrange(k as int + 1, i as int),
        decreases n - i,
    {
        text.push(s[i]);
        i += 1;
        proof {
            assert(text@ =~= s@.subrange(k as int + 1, i as int));
        }
    }
    Some((value, string_of(&text)))
}

} // verus!

//! The state and address-domain filter: its settings, and to which state a
//! record of a file goes. A record goes to the first state of the list
//! that one of its fields, trimmed, equals, provided that no domains are
//! asked for or one of its fields, in lower case, holds one of them.

use vstd::prelude::*;
use crate::records::{csv_read, read_records, row_views};
use crate::row::{fields, fields_of, texts};
use crate::split::{first_index, lemma_first_index_is};
use crate::text::{
    chars_of, contains_text, lowercase, lowercased, occurs_in, string_of, trim, trimmed,
};

verus! {

/// Settings of the filter: the states to keep and the address domains to
/// keep, each as a comma-separated list.
pub struct CsvProcessingTab {
    pub states: String,
    pub email_domains: String,
}

/// What became of the content of a file: its records up to the first one
/// that could not be read, for each of them the position of the state it
/// goes to, if any, and the reason why reading stopped, if it did.
pub struct Processed {
    pub rows: Vec<Vec<String>>,
    pub states: Vec<Option<usize>>,
    pub failure: Option<String>,
}

/// Whether a field of `record`, trimmed, equals `state`.
pub open spec fn holds_state(record: Seq<Seq<char>>, state: Seq<char>) -> bool {
    exists|j: int| 0 <= j < record.len() && #[trigger] trimmed(record[j]) == state
}

/// For each state, whether `record` holds it.
pub open spec fn state_flags(record: Seq<Seq<char>>, states: Seq<Seq<char>>) -> Seq<bool> {
    states.map_values(|state: Seq<char>| holds_state(record, state))
}

/// Whether `domain` occurs in a field of `record`, taken in lower case.
pub open spec fn holds_domain(record: Seq<Seq<char>>, domain: Seq<char>) -> bool {
    exists|j: int| 0 <= j < record.len() && occurs_in(domain, #[trigger] lowercased(record[j]))
}

/// Whether `record` passes the domain filter: no domain is asked for, or
/// the record holds one of those that are.
pub open spec fn passes_domains(record: Seq<Seq<char>>, domains: Seq<Seq<char>>) -> bool {
    domains.len() == 0 || exists|d: int|
        0 <= d < domains.len() && holds_domain(record, #[trigger] domains[d])
}

/// The position of the state that `record` goes to, if it goes to one.
pub open spec fn route(
    record: Seq<Seq<char>>,
    states: Seq<Seq<char>>,
    domains: Seq<Seq<char>>,
) -> Option<usize> {
    let i = first_index(state_flags(record, states), true);
    if 0 <= i < states.len() && passes_domains(record, domains) {
        Some(i as usize)
    } else {
        None
    }
}

/// The name of the file that takes the records of `state`.
pub open spec fn output_file_name(state: Seq<char>) -> Seq<char> {
    "output_"@ + state + ".csv"@
}

/// Whether a field of `record`, trimmed, equals `state`.
fn record_holds_state(record: &Vec<String>, state: &String) -> (b: bool)
    ensures
        b == holds_state(texts(record@), state@),
{
    let mut j: usize = 0;
    while j < record.len()
        invariant
            j <= record.len(),
            forall|k: int| 0 <= k < j ==> trimmed(#[trigger] texts(record@)[k]) != state@,
        decreases record.len() - j,
    {
        let field = string_of(&trim(&chars_of(record[j].as_str())));
        proof {
            assert(texts(record@)[j as int] == record@[j as int]@);
        }
        if field == *state {
            return true;
        }
        j += 1;
    }
    false
}

/// Whether `domain` occurs in a field of `record`, taken in lower case.
fn record_holds_domain(record: &Vec<String>, domain: &String) -> (b: bool)
    ensures
        b == holds_domain(texts(record@), domain@),
{
    let needle = chars_of(domain.as_str());
    let mut j: usize = 0;
    while j < record.len()
        invariant
            j <= record.len(),
            needle@ == domain@,
            forall|k: int|
                0 <= k < j ==> !occurs_in(domain@, lowercased(#[trigger] texts(record@)[k])),
        decreases record.len() - j,
    {
        let lower = lowercase(record[j].as_str());
        proof {
            assert(texts(record@)[j as int] == record@[j as int]@);
        }
        if contains_text(&chars_of(lower.as_str()), &needle) {
            return true;
        }
        j += 1;
    }
    false
}

/// Whether `record` passes the domain filter.
fn record_passes_domains(record: &Vec<String>, domains: &Vec<String>) -> (b: bool)
    ensures
        b == passes_domains(texts(record@), texts(domains@)),
{
    if domains.len() == 0 {
        return true;
    }
    let mut d: usize = 0;
    while d < domains.len()
        invariant
            d <= domains.len(),
            domains.len() > 0,
            forall|k: int|
                0 <= k < d ==> !holds_domain(texts(record@), #[trigger] texts(domains@)[k]),
        decreases domains.len() - d,
    {
        proof {
            assert(texts(domains@)[d as int] == domains@[d as int]@);
        }
        if record_holds_domain(record, &domains[d]) {
            return true;
        }
        d += 1;
    }
    false
}

/// The position of the state that `record` goes to, if it goes to one.
pub fn route_record(record: &Vec<String>, states: &Vec<String>, email_domains: &Vec<String>) -> (out:
    Option<usize>)
    ensures
        out == route(texts(record@), texts(states@), texts(email_domains@)),
{
    let ghost flags = state_flags(texts(record@), texts(states@));
    let mut i: usize = 0;
    while i < states.len()
        invariant
            i <= states.len(),
            flags == state_flags(texts(record@), texts(states@)),
            forall|k: int| 0 <= k < i ==> flags[k] != true,
        decreases states.len() - i,
    {
        proof {
            assert(texts(states@)[i as int] == states@[i as int]@);
            assert(flags[i as int] == holds_state(texts(record@), states@[i as int]@));
        }
        if record_holds_state(record, &states[i]) {
            proof {
                lemma_first_index_is(flags, true, i as int);
            }
            if record_passes_domains(record, email_domains) {
                return Some(i);
            } else {
                return None;
            }
        }
        i += 1;
    }
    proof {
        lemma_first_index_is(flags, true, flags.len() as int);
    }
    None
}

/// Reads the records of a file from its content and routes each of them
/// by the states and domains given.
pub fn process_csv_file(content: &[u8], states: &Vec<String>, email_domains: &Vec<String>) -> (out:
    Processed)
    ensures
        row_views(out.rows@) == csv_read(content@).0,
        out.failure is Some <==> csv_read(content@).1 is Some,
        out.failure matches Some(e) ==> csv_read(content@).1 == Some(e@),
        out.states@.len() == out.rows@.len(),
        forall|i: int|
            0 <= i < out.rows@.len() ==> #[trigger] out.states@[i] == route(
                texts(out.rows@[i]@),
                texts(states@),
                texts(email_domains@),
            ),
{
    let records = read_records(content);
    let mut assigned: Vec<Option<usize>> = Vec::new();
    let mut i: usize = 0;
    while i < records.rows.len()
        invariant
            i <= records.rows.len(),
            assigned@.len() == i,
            forall|k: int|
                0 <= k < i ==> #[trigger] assigned@[k] == route(
                    texts(records.rows@[k]@),
                    texts(states@),
                    texts(email_domains@),
                ),
        decreases records.rows.len() - i,
    {
        let to = route_record(&records.rows[i], states, email_domains);
        assigned.push(to);
        i += 1;
    }
    Processed { rows: records.rows, states: assigned, failure: records.failure }
}

impl CsvProcessingTab {
    /// The settings a fresh filter starts with.
    pub fn new() -> (tab: Self)
        ensures
            tab.states@ == "NY,OH,PA,WA,AK"@,
            tab.email_domains@ == "@gmail.com"@,
    {
        CsvProcessingTab {
            states: String::from_str("NY,OH,PA,WA,AK"),
            email_domains: String::from_str("@gmail.com"),
        }
    }

    /// The states to keep: the entries of the list, each trimmed.
    pub fn state_list(&self) -> (out: Vec<String>)
        ensures
            texts(out@) == fields(self.states@),
    {
        fields_of(self.states.as_str())
    }

    /// The domains to keep: the entries of the list, each trimmed.
    pub fn domain_list(&self) -> (out: Vec<String>)
        ensures
            texts(out@) == fields(self.email_domains@),
    {
        fields_of(self.email_domains.as_str())
    }

    /// The name of the file that takes the records of `state`.
    pub fn output_file_name(state: &str) -> (name: String)
        ensures
            name@ == output_file_name(state@),
    {
        String::from_str("output_").concat(state).concat(".csv")
    }
}

} // verus!

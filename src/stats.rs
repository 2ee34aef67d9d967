//! Reading the engine's traffic counters out of its statistics output.
//!
//! The engine prints either a JSON object whose `stat` array holds
//! `{name, value}` entries, read here through serde_json, or the older line
//! form: `name: ...` on one line, `value: N` on the next. In the line form a
//! counter's value is the first number after the word `value` that follows
//! its name, provided no other `name` comes between. A counter that is
//! absent reads as zero.

use vstd::prelude::*;
use crate::models::opt_view;
use crate::network::str_eq;
use crate::text::{
    digits_value, find_from, is_digit, is_number_text, is_unsigned_text, occurs_at, parse_digits,
    parse_unsigned, unsigned_digits,
};

verus! {

pub const UPLINK_KEY: &'static str = "outbound>>>proxy>>>traffic>>>uplink";

pub const DOWNLINK_KEY: &'static str = "outbound>>>proxy>>>traffic>>>downlink";

/// The first position at or after `from` where `p` occurs in `s`, or -1.
pub open spec fn first_occurrence(s: Seq<char>, p: Seq<char>, from: int) -> int
    decreases s.len() + 1 - from,
{
    if from < 0 || from > s.len() {
        -1
    } else if occurs_at(s, p, from) {
        from
    } else {
        first_occurrence(s, p, from + 1)
    }
}

pub proof fn lemma_first_occurrence(s: Seq<char>, p: Seq<char>, from: int)
    requires
        0 <= from,
    ensures
        first_occurrence(s, p, from) == -1 ==> forall|j: int| from <= j ==> !occurs_at(s, p, j),
        first_occurrence(s, p, from) != -1 ==> from <= first_occurrence(s, p, from) && occurs_at(
            s,
            p,
            first_occurrence(s, p, from),
        ) && forall|j: int| from <= j < first_occurrence(s, p, from) ==> !occurs_at(s, p, j),
    decreases s.len() + 1 - from,
{
    if from <= s.len() && !occurs_at(s, p, from) {
        lemma_first_occurrence(s, p, from + 1);
    }
}

pub fn find_occurrence(s: &str, p: &str, from: usize) -> (r: Option<usize>)
    requires
        from <= s@.len(),
    ensures
        match r {
            Some(i) => i as int == first_occurrence(s@, p@, from as int) && i <= s@.len(),
            None => first_occurrence(s@, p@, from as int) == -1,
        },
{
    proof {
        lemma_first_occurrence(s@, p@, from as int);
    }
    let r = find_from(s, p, from);
    proof {
        let f = first_occurrence(s@, p@, from as int);
        if let Some(i) = r {
            if f != i {
                assert(f != -1);
            }
        } else if f != -1 {
            assert(occurs_at(s@, p@, f));
        }
    }
    r
}

pub open spec fn is_filler(c: char) -> bool {
    c == ' ' || c == ':' || c == '"' || c == '\t' || c == '\r' || c == '\n'
}

/// The first position at or after `i` that is not a filler character.
pub open spec fn skip_fillers(s: Seq<char>, i: int) -> int
    decreases s.len() - i,
{
    if i < 0 || i >= s.len() {
        i
    } else if is_filler(s[i]) {
        skip_fillers(s, i + 1)
    } else {
        i
    }
}

/// The end of the run of digits that starts at `i`.
pub open spec fn digits_end(s: Seq<char>, i: int) -> int
    decreases s.len() - i,
{
    if i < 0 || i >= s.len() {
        i
    } else if is_digit(s[i]) {
        digits_end(s, i + 1)
    } else {
        i
    }
}

/// The value the statistics output gives the counter named `key`.
pub open spec fn stat_value(s: Seq<char>, key: Seq<char>) -> u64 {
    let p = first_occurrence(s, key, 0);
    if p < 0 {
        0
    } else {
        let q = first_occurrence(s, "value"@, p + key.len());
        let next_name = first_occurrence(s, "name"@, p + key.len());
        if q < 0 || (next_name >= 0 && next_name < q) {
            0
        } else {
            let d = skip_fillers(s, q + "value"@.len());
            let run = s.subrange(d, digits_end(s, d));
            if is_number_text(run, u64::MAX as nat) {
                digits_value(run) as u64
            } else {
                0
            }
        }
    }
}

fn skip_filler_chars(s: &str, i: usize) -> (r: usize)
    requires
        i <= s@.len(),
    ensures
        r == skip_fillers(s@, i as int),
        i <= r <= s@.len(),
    decreases s@.len() - i,
{
    if i >= s.unicode_len() {
        return i;
    }
    let c = s.get_char(i);
    if c == ' ' || c == ':' || c == '"' || c == '\t' || c == '\r' || c == '\n' {
        skip_filler_chars(s, i + 1)
    } else {
        i
    }
}

fn end_of_digits(s: &str, i: usize) -> (r: usize)
    requires
        i <= s@.len(),
    ensures
        r == digits_end(s@, i as int),
        i <= r <= s@.len(),
    decreases s@.len() - i,
{
    if i >= s.unicode_len() {
        return i;
    }
    let c = s.get_char(i);
    if '0' <= c && c <= '9' {
        end_of_digits(s, i + 1)
    } else {
        i
    }
}

/// The value of the counter named `key` in the statistics output.
pub fn read_stat(s: &str, key: &str) -> (r: u64)
    ensures
        r == stat_value(s@, key@),
{
    proof {
        reveal_strlit("value");
    }
    let n = s.unicode_len();
    let p = match find_occurrence(s, key, 0) {
        Some(p) => p,
        None => return 0,
    };
    proof {
        lemma_first_occurrence(s@, key@, 0);
    }
    let after = p + key.unicode_len();
    let q = match find_occurrence(s, "value", after) {
        Some(q) => q,
        None => return 0,
    };
    match find_occurrence(s, "name", after) {
        Some(m) => {
            if m < q {
                return 0;
            }
        },
        None => {},
    }
    proof {
        lemma_first_occurrence(s@, "value"@, after as int);
    }
    let d = skip_filler_chars(s, q + 5);
    let e = end_of_digits(s, d);
    match parse_digits(s, d, e, u64::MAX) {
        Some(v) => v,
        None => 0,
    }
}

/// One entry of the JSON form: its `name` if that is a string, its `value`
/// if that is an unsigned integer, and its `value` if that is a string.
pub type StatEntry = (Option<String>, Option<u64>, Option<String>);

/// What serde_json reads from statistics output: the entries of the `stat`
/// array, or nothing when the text is not a JSON object with such an array.
pub uninterp spec fn json_stat_entries(text: Seq<char>) -> Option<Seq<(Option<Seq<char>>, Option<u64>, Option<Seq<char>>)>>;

pub open spec fn entry_view(e: StatEntry) -> (Option<Seq<char>>, Option<u64>, Option<Seq<char>>) {
    (opt_view(e.0), e.1, opt_view(e.2))
}

pub open spec fn entries_view(r: Option<Vec<StatEntry>>) -> Option<Seq<(Option<Seq<char>>, Option<u64>, Option<Seq<char>>)>> {
    match r {
        Some(v) => Some(v@.map_values(|e: StatEntry| entry_view(e))),
        None => None,
    }
}

/// Relies on `serde_json::from_str` into a `serde_json::Value` and on the
/// `Value` accessors `get`, `as_array`, `as_str` and `as_u64`; the result
/// depends on the text alone.
#[verifier::external_body]
fn read_json_stats(text: &str) -> (r: Option<Vec<StatEntry>>)
    ensures
        entries_view(r) == json_stat_entries(text@),
{
    let doc: serde_json::Value = serde_json::from_str(text).ok()?;
    let entries = doc.get("stat")?.as_array()?;
    Some(entries.iter().map(|e| (
        e.get("name").and_then(|n| n.as_str()).map(|n| n.to_string()),
        e.get("value").and_then(|v| v.as_u64()),
        e.get("value").and_then(|v| v.as_str()).map(|v| v.to_string()),
    )).collect())
}

/// The value an entry gives: the integer, or the string read as an
/// unsigned number, else zero.
pub open spec fn entry_value(e: (Option<Seq<char>>, Option<u64>, Option<Seq<char>>)) -> u64 {
    match e.1 {
        Some(n) => n,
        None => match e.2 {
            Some(t) => if is_unsigned_text(t, u64::MAX as nat) {
                digits_value(unsigned_digits(t)) as u64
            } else {
                0
            },
            None => 0,
        },
    }
}

/// The value of the last entry named `key`, or zero.
pub open spec fn json_stat_value(entries: Seq<(Option<Seq<char>>, Option<u64>, Option<Seq<char>>)>, key: Seq<char>) -> u64
    decreases entries.len(),
{
    if entries.len() == 0 {
        0
    } else if entries.last().0 == Some(key) {
        entry_value(entries.last())
    } else {
        json_stat_value(entries.drop_last(), key)
    }
}

/// The uplink and downlink counters that statistics output gives.
pub open spec fn stats_of(text: Seq<char>) -> (u64, u64) {
    match json_stat_entries(text) {
        Some(es) => (json_stat_value(es, UPLINK_KEY@), json_stat_value(es, DOWNLINK_KEY@)),
        None => (stat_value(text, UPLINK_KEY@), stat_value(text, DOWNLINK_KEY@)),
    }
}

fn value_of_entry(e: &StatEntry) -> (r: u64)
    ensures
        r == entry_value(entry_view(*e)),
{
    match e.1 {
        Some(n) => n,
        None => match &e.2 {
            Some(t) => {
                let v = parse_unsigned(t.as_str(), 0, t.unicode_len(), u64::MAX);
                assert(t@.subrange(0, t@.len() as int) =~= t@);
                match v {
                    Some(v) => v,
                    None => 0,
                }
            },
            None => 0,
        },
    }
}

/// The value of the last JSON entry named `key`, or zero.
pub fn json_value(entries: &Vec<StatEntry>, key: &str) -> (r: u64)
    ensures
        r == json_stat_value(entries@.map_values(|e: StatEntry| entry_view(e)), key@),
{
    let ghost all = entries@.map_values(|e: StatEntry| entry_view(e));
    let mut v: u64 = 0;
    let mut i: usize = 0;
    while i < entries.len()
        invariant
            i <= entries.len(),
            all == entries@.map_values(|e: StatEntry| entry_view(e)),
            v == json_stat_value(all.subrange(0, i as int), key@),
        decreases entries.len() - i,
    {
        let ghost next = all.subrange(0, i + 1);
        assert(next.drop_last() =~= all.subrange(0, i as int));
        assert(next.last() == entry_view(entries@[i as int]));
        let matches = match &entries[i].0 {
            Some(n) => str_eq(n.as_str(), key),
            None => false,
        };
        if matches {
            v = value_of_entry(&entries[i]);
        }
        i += 1;
    }
    assert(all.subrange(0, entries@.len() as int) =~= all);
    v
}

/// The cumulative uplink and downlink byte counts of the proxy outbound.
pub fn parse_stats_output(output: &str) -> (r: (u64, u64))
    ensures
        r == stats_of(output@),
{
    match read_json_stats(output) {
        Some(entries) => (json_value(&entries, UPLINK_KEY), json_value(&entries, DOWNLINK_KEY)),
        None => (read_stat(output, UPLINK_KEY), read_stat(output, DOWNLINK_KEY)),
    }
}

} // verus!

//! Framing of JSON text: objects, arrays and members are laid out here;
//! string literals are escaped by serde_json.

use vstd::prelude::*;
use crate::models::strings_view;

verus! {

/// The JSON string literal serde_json writes for a string.
pub uninterp spec fn json_string_literal(s: Seq<char>) -> Seq<char>;

/// Relies on `serde_json::to_string` applied to a `str`: the escaped,
/// quoted JSON string literal; the result depends on the characters alone.
#[verifier::external_body]
pub(crate) fn quote(s: &str) -> (r: String)
    ensures
        r@ == json_string_literal(s@),
{
    serde_json::to_string(s).unwrap_or_default()
}

/// `items` separated by commas.
pub open spec fn join_commas(items: Seq<Seq<char>>) -> Seq<char>
    decreases items.len(),
{
    if items.len() == 0 {
        seq![]
    } else if items.len() == 1 {
        items[0]
    } else {
        join_commas(items.drop_last()) + seq![','] + items.last()
    }
}

pub open spec fn json_array(items: Seq<Seq<char>>) -> Seq<char> {
    seq!['['] + join_commas(items) + seq![']']
}

pub open spec fn json_object(members: Seq<Seq<char>>) -> Seq<char> {
    seq!['{'] + join_commas(members) + seq!['}']
}

/// A member `"key":value`; keys are plain identifiers and need no escaping.
pub open spec fn json_member(key: Seq<char>, value: Seq<char>) -> Seq<char> {
    seq!['"'] + key + seq!['"', ':'] + value
}

pub open spec fn quoted_all(v: Seq<Seq<char>>) -> Seq<Seq<char>> {
    v.map_values(|x: Seq<char>| json_string_literal(x))
}

/// The items joined by commas.
pub fn join(items: &Vec<String>) -> (r: String)
    ensures
        r@ == join_commas(strings_view(items@)),
{
    proof {
        reveal_strlit(",");
    }
    let mut acc = String::new();
    let mut i: usize = 0;
    while i < items.len()
        invariant
            i <= items.len(),
            acc@ == join_commas(strings_view(items@.subrange(0, i as int))),
            ","@ == seq![','],
        decreases items.len() - i,
    {
        let ghost prefix = strings_view(items@.subrange(0, i + 1));
        assert(prefix.drop_last() =~= strings_view(items@.subrange(0, i as int)));
        assert(prefix.last() == items@[i as int]@);
        if i > 0 {
            acc.append(",");
        }
        acc.append(items[i].as_str());
        proof {
            if i == 0 {
                assert(acc@ =~= prefix[0]);
            } else {
                assert(acc@ =~= join_commas(prefix.drop_last()) + seq![','] + prefix.last());
            }
        }
        i += 1;
    }
    assert(items@.subrange(0, items@.len() as int) =~= items@);
    acc
}

/// A JSON array of already rendered items.
pub fn array(items: &Vec<String>) -> (r: String)
    ensures
        r@ == json_array(strings_view(items@)),
{
    proof {
        reveal_strlit("[");
        reveal_strlit("]");
    }
    let mut r = String::from_str("[");
    r.append(join(items).as_str());
    r.append("]");
    assert(r@ =~= json_array(strings_view(items@)));
    r
}

/// A JSON object of already rendered members.
pub fn object(members: &Vec<String>) -> (r: String)
    ensures
        r@ == json_object(strings_view(members@)),
{
    proof {
        reveal_strlit("{");
        reveal_strlit("}");
    }
    let mut r = String::from_str("{");
    r.append(join(members).as_str());
    r.append("}");
    assert(r@ =~= json_object(strings_view(members@)));
    r
}

/// A member with a rendered value.
pub fn member(key: &str, value: &str) -> (r: String)
    ensures
        r@ == json_member(key@, value@),
{
    proof {
        reveal_strlit("\"");
        reveal_strlit("\":");
    }
    let mut r = String::from_str("\"");
    r.append(key);
    r.append("\":");
    r.append(value);
    assert(r@ =~= json_member(key@, value@));
    r
}

/// A member whose value is a string.
pub fn string_member(key: &str, value: &str) -> (r: String)
    ensures
        r@ == json_member(key@, json_string_literal(value@)),
{
    member(key, quote(value).as_str())
}

/// A JSON array of strings.
pub fn string_array(v: &Vec<String>) -> (r: String)
    ensures
        r@ == json_array(quoted_all(strings_view(v@))),
{
    let mut items: Vec<String> = Vec::new();
    let mut i: usize = 0;
    while i < v.len()
        invariant
            i <= v.len(),
            items.len() == i,
            strings_view(items@) == quoted_all(strings_view(v@.subrange(0, i as int))),
        decreases v.len() - i,
    {
        let ghost old_items = items@;
        let x = quote(v[i].as_str());
        items.push(x);
        proof {
            let a = strings_view(items@);
            let b = quoted_all(strings_view(v@.subrange(0, i + 1)));
            assert(items@.len() == i + 1);
            assert(a.len() == b.len());
            assert forall|j: int| 0 <= j < a.len() implies a[j] == b[j] by {
                if j < i {
                    assert(items@[j] == old_items[j]);
                    assert(strings_view(old_items)[j] == old_items[j]@);
                    assert(v@.subrange(0, i + 1)[j] == v@.subrange(0, i as int)[j]);
                    assert(quoted_all(strings_view(v@.subrange(0, i as int)))[j] == json_string_literal(v@[j]@));
                } else {
                    assert(items@[j] == x);
                }
            }
            assert(a =~= b);
        }
        i += 1;
    }
    assert(v@.subrange(0, v@.len() as int) =~= v@);
    array(&items)
}

} // verus!

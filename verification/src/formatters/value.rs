//! Formatting property values as plain text.
use vstd::prelude::*;
use vstd::string::*;

use crate::text::{decimal, i64_to_decimal, push_char, signed_decimal, u64_to_decimal};

verus! {

/// `items` separated by `sep`.
pub open spec fn join(items: Seq<Seq<char>>, sep: Seq<char>) -> Seq<char>
    decreases items.len(),
{
    if items.len() == 0 {
        Seq::empty()
    } else if items.len() == 1 {
        items[0]
    } else {
        join(items.drop_last(), sep) + sep + items.last()
    }
}

/// The separator between the items of a formatted collection: `, ` with whitespace, `,` without.
pub open spec fn list_separator(whitespace: bool) -> Seq<char> {
    if whitespace {
        seq![',', ' ']
    } else {
        seq![',']
    }
}

/// A formatted collection: its formatted items between `[` and `]`.
pub open spec fn list_text(items: Seq<Seq<char>>, whitespace: bool) -> Seq<char> {
    seq!['['] + join(items, list_separator(whitespace)) + seq![']']
}

/// The text of the strings.
pub open spec fn strings_view(items: Seq<String>) -> Seq<Seq<char>> {
    items.map_values(|s: String| s@)
}

/// Format a collection from its already formatted items: `[a, b, c]` with whitespace,
/// `[a,b,c]` without; an empty collection is `[]`.
pub fn format_vec(items: &[String], whitespace: bool) -> (r: String)
    ensures
        r@ == list_text(strings_view(items@), whitespace),
{
    let ghost iv = strings_view(items@);
    let mut json = String::new();
    push_char(&mut json, '[');
    let mut i: usize = 0;
    while i < items.len()
        invariant
            i <= items@.len(),
            iv == strings_view(items@),
            json@ == seq!['['] + join(iv.take(i as int), list_separator(whitespace)),
        decreases items@.len() - i,
    {
        let ghost before = json@;
        if i > 0 {
            push_char(&mut json, ',');
            if whitespace {
                push_char(&mut json, ' ');
            }
        }
        json.append(items[i].as_str());
        proof {
            let t = iv.take(i + 1);
            assert(t.drop_last() =~= iv.take(i as int));
            assert(t.last() == items@[i as int]@);
            if i == 0 {
                assert(iv.take(0) =~= Seq::<Seq<char>>::empty());
                assert(json@ =~= seq!['['] + join(t, list_separator(whitespace)));
            } else {
                assert(json@ =~= seq!['['] + join(t, list_separator(whitespace)));
            }
        }
        i = i + 1;
    }
    push_char(&mut json, ']');
    assert(iv.take(i as int) =~= iv);
    json
}

/// Formats property values as plain text: strings as themselves, collections as
/// `[a, b, c]`.
pub struct TextValueFormatter {}

impl TextValueFormatter {
    /// The formatter.
    pub fn new() -> (r: Self) {
        TextValueFormatter {}
    }

    /// The text of a null value: `null`.
    pub fn visit_null(&self) -> (r: String)
        ensures
            r@ == "null"@,
    {
        String::from_str("null")
    }

    /// The text of a boolean: `true` or `false`.
    pub fn visit_bool(&self, v: bool) -> (r: String)
        ensures
            r@ == (if v { "true"@ } else { "false"@ }),
    {
        if v {
            String::from_str("true")
        } else {
            String::from_str("false")
        }
    }

    /// The decimal text of a signed integer.
    pub fn visit_i64(&self, v: i64) -> (r: String)
        ensures
            r@ == signed_decimal(v as int),
    {
        i64_to_decimal(v)
    }

    /// The decimal text of an unsigned integer.
    pub fn visit_u64(&self, v: u64) -> (r: String)
        ensures
            r@ == decimal(v as nat),
    {
        u64_to_decimal(v)
    }

    /// The text of a string: the string itself.
    pub fn visit_str(&self, v: &str) -> (r: String)
        ensures
            r@ == v@,
    {
        String::from_str(v)
    }

    /// The text of a collection of already formatted values: `[a, b, c]`.
    pub fn visit_vec(&self, v: &[String]) -> (r: String)
        ensures
            r@ == list_text(strings_view(v@), true),
    {
        format_vec(v, true)
    }
}

} // verus!

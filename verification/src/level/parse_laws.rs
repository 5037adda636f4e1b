//! What the level parser ignores: ASCII case, and white space around the text.
use vstd::prelude::*;
use vstd::utf8::{encode_scalar, encode_utf8};

use crate::level::{
    ascii_upper, is_white_space, matches_level_prefix,
    parse_level, parse_level_bytes, trim_end_ws, trim_start_ws, trim_ws,
};

verus! {

/// The ASCII uppercase of a character: `a` to `z` become `A` to `Z`, all else is unchanged.
pub open spec fn ascii_upper_char(c: char) -> char {
    if 97 <= c as u32 <= 122 {
        ((c as u32) - 32) as char
    } else {
        c
    }
}

/// The ASCII uppercase of text, as `str::to_ascii_uppercase` gives it.
pub open spec fn to_ascii_uppercase(s: Seq<char>) -> Seq<char> {
    s.map_values(|c: char| ascii_upper_char(c))
}

/// The ASCII uppercase of bytes.
pub open spec fn upper_bytes(b: Seq<u8>) -> Seq<u8> {
    b.map_values(|x: u8| ascii_upper(x))
}

/// Every character of `w` is white space.
pub open spec fn all_white_space(w: Seq<char>) -> bool {
    forall|i: int| 0 <= i < w.len() ==> is_white_space(#[trigger] w[i])
}

proof fn lemma_upper_char_white_space(c: char)
    ensures
        is_white_space(ascii_upper_char(c)) == is_white_space(c),
{
}

proof fn lemma_trim_start_upper(s: Seq<char>)
    ensures
        trim_start_ws(to_ascii_uppercase(s)) == to_ascii_uppercase(trim_start_ws(s)),
    decreases s.len(),
{
    let u = to_ascii_uppercase(s);
    if s.len() > 0 {
        lemma_upper_char_white_space(s[0]);
        assert(u[0] == ascii_upper_char(s[0]));
        assert(u.drop_first() =~= to_ascii_uppercase(s.drop_first()));
        lemma_trim_start_upper(s.drop_first());
    }
}

proof fn lemma_trim_end_upper(s: Seq<char>)
    ensures
        trim_end_ws(to_ascii_uppercase(s)) == to_ascii_uppercase(trim_end_ws(s)),
    decreases s.len(),
{
    let u = to_ascii_uppercase(s);
    if s.len() > 0 {
        lemma_upper_char_white_space(s.last());
        assert(u.last() == ascii_upper_char(s.last()));
        assert(u.drop_last() =~= to_ascii_uppercase(s.drop_last()));
        lemma_trim_end_upper(s.drop_last());
    }
}

/// The UTF-8 bytes of a character's uppercase are the uppercase of its bytes.
proof fn lemma_encode_scalar_upper(c: char)
    ensures
        encode_scalar(ascii_upper_char(c) as u32) == upper_bytes(encode_scalar(c as u32)),
{
    let v = c as u32;
    if v <= 0x7f {
        let u = ascii_upper_char(c) as u32;
        assert(v & 0x7f == v) by (bit_vector)
            requires
                v <= 0x7f,
        ;
        assert(u <= 0x7f);
        assert(u & 0x7f == u) by (bit_vector)
            requires
                u <= 0x7f,
        ;
        assert(encode_scalar(u) =~= upper_bytes(encode_scalar(v)));
    } else {
        assert(ascii_upper_char(c) == c);
        let e = encode_scalar(v);
        assert forall|i: int| 0 <= i < e.len() implies #[trigger] e[i] >= 0x80u8 by {
            assert(forall|x: u32| #![auto] (0xC0u8 | ((x >> 6) & 0x1F) as u8) >= 0x80u8) by (bit_vector);
            assert(forall|x: u32| #![auto] (0xE0u8 | ((x >> 12) & 0x0F) as u8) >= 0x80u8) by (bit_vector);
            assert(forall|x: u32| #![auto] (0xF0u8 | ((x >> 18) & 0x7) as u8) >= 0x80u8) by (bit_vector);
            assert(forall|x: u32| #![auto] (0x80u8 | (x & 0x3F) as u8) >= 0x80u8) by (bit_vector);
            assert(forall|x: u32| #![auto] (0x80u8 | ((x >> 6) & 0x3F) as u8) >= 0x80u8) by (bit_vector);
            assert(forall|x: u32| #![auto] (0x80u8 | ((x >> 12) & 0x3F) as u8) >= 0x80u8) by (bit_vector);
        }
        assert(upper_bytes(e) =~= e);
    }
}

proof fn lemma_encode_upper(t: Seq<char>)
    ensures
        encode_utf8(to_ascii_uppercase(t)) == upper_bytes(encode_utf8(t)),
    decreases t.len(),
{
    if t.len() > 0 {
        let u = to_ascii_uppercase(t);
        assert(u[0] == ascii_upper_char(t[0]));
        assert(u.drop_first() =~= to_ascii_uppercase(t.drop_first()));
        lemma_encode_upper(t.drop_first());
        lemma_encode_scalar_upper(t[0]);
        let a = encode_scalar(t[0] as u32);
        let b = encode_utf8(t.drop_first());
        assert(upper_bytes(a + b) =~= upper_bytes(a) + upper_bytes(b));
    } else {
        assert(upper_bytes(encode_utf8(t)) =~= encode_utf8(to_ascii_uppercase(t)));
    }
}

proof fn lemma_matches_prefix_upper(input: Seq<u8>, expected: Seq<u8>)
    ensures
        matches_level_prefix(upper_bytes(input), expected) == matches_level_prefix(input, expected),
    decreases input.len(),
{
    if input.len() > 0 {
        let u = upper_bytes(input);
        assert(u[0] == ascii_upper(input[0]));
        assert(u.drop_first() =~= upper_bytes(input.drop_first()));
        lemma_matches_prefix_upper(input.drop_first(), expected.drop_first());
    }
}

proof fn lemma_parse_bytes_upper(b: Seq<u8>)
    ensures
        parse_level_bytes(upper_bytes(b)) == parse_level_bytes(b),
{
    if b.len() > 0 {
        let u = upper_bytes(b);
        assert(u[0] == ascii_upper(b[0]));
        assert(u.drop_first() =~= upper_bytes(b.drop_first()));
        let rest = b.drop_first();
        lemma_matches_prefix_upper(rest, seq![78u8, 70, 79, 82, 77, 65, 84, 73, 79, 78]);
        lemma_matches_prefix_upper(rest, seq![69u8, 66, 85, 71]);
        lemma_matches_prefix_upper(rest, seq![66u8, 71]);
        lemma_matches_prefix_upper(rest, seq![82u8, 82, 79, 82]);
        lemma_matches_prefix_upper(rest, seq![65u8, 82, 78, 73, 78, 71]);
        lemma_matches_prefix_upper(rest, seq![82u8, 78]);
        assert(seq![73u8, 78, 70, 79, 82, 77, 65, 84, 73, 79, 78].drop_first() =~= seq![78u8, 70, 79, 82, 77, 65, 84, 73, 79, 78]);
        assert(seq![68u8, 69, 66, 85, 71].drop_first() =~= seq![69u8, 66, 85, 71]);
        assert(seq![68u8, 66, 71].drop_first() =~= seq![66u8, 71]);
        assert(seq![69u8, 82, 82, 79, 82].drop_first() =~= seq![82u8, 82, 79, 82]);
        assert(seq![87u8, 65, 82, 78, 73, 78, 71].drop_first() =~= seq![65u8, 82, 78, 73, 78, 71]);
        assert(seq![87u8, 82, 78].drop_first() =~= seq![82u8, 78]);
    }
}

/// ASCII case never changes what a level parses to: two texts with the same ASCII
/// uppercase denote the same level, or both none.
pub proof fn law_level_parse_ignores_ascii_case(s: Seq<char>, t: Seq<char>)
    requires
        to_ascii_uppercase(s) == to_ascii_uppercase(t),
    ensures
        parse_level(s) == parse_level(t),
{
    lemma_parse_upper(s);
    lemma_parse_upper(t);
}

proof fn lemma_parse_upper(s: Seq<char>)
    ensures
        parse_level(to_ascii_uppercase(s)) == parse_level(s),
{
    lemma_trim_start_upper(s);
    lemma_trim_end_upper(trim_start_ws(s));
    assert(trim_ws(to_ascii_uppercase(s)) == to_ascii_uppercase(trim_ws(s)));
    lemma_encode_upper(trim_ws(s));
    lemma_parse_bytes_upper(encode_utf8(trim_ws(s)));
}

proof fn lemma_trim_start_white_prefix(w: Seq<char>, x: Seq<char>)
    requires
        all_white_space(w),
    ensures
        trim_start_ws(w + x) == trim_start_ws(x),
    decreases w.len(),
{
    if w.len() > 0 {
        assert((w + x)[0] == w[0]);
        assert((w + x).drop_first() =~= w.drop_first() + x);
        assert(all_white_space(w.drop_first())) by {
            assert forall|i: int| 0 <= i < w.drop_first().len() implies is_white_space(
                #[trigger] w.drop_first()[i],
            ) by {
                assert(w.drop_first()[i] == w[i + 1]);
            }
        }
        lemma_trim_start_white_prefix(w.drop_first(), x);
    } else {
        assert(w + x =~= x);
    }
}

proof fn lemma_trim_end_white_suffix(x: Seq<char>, w: Seq<char>)
    requires
        all_white_space(w),
    ensures
        trim_end_ws(x + w) == trim_end_ws(x),
    decreases w.len(),
{
    if w.len() > 0 {
        assert((x + w).last() == w.last());
        assert((x + w).drop_last() =~= x + w.drop_last());
        assert(all_white_space(w.drop_last())) by {
            assert forall|i: int| 0 <= i < w.drop_last().len() implies is_white_space(
                #[trigger] w.drop_last()[i],
            ) by {
                assert(w.drop_last()[i] == w[i]);
            }
        }
        lemma_trim_end_white_suffix(x, w.drop_last());
    } else {
        assert(x + w =~= x);
    }
}

proof fn lemma_trim_start_append(s: Seq<char>, t: Seq<char>)
    ensures
        trim_start_ws(s + t) == (if trim_start_ws(s).len() > 0 {
            trim_start_ws(s) + t
        } else {
            trim_start_ws(t)
        }),
    decreases s.len(),
{
    if s.len() > 0 {
        assert((s + t)[0] == s[0]);
        assert((s + t).drop_first() =~= s.drop_first() + t);
        lemma_trim_start_append(s.drop_first(), t);
    } else {
        assert(s + t =~= t);
    }
}

proof fn lemma_trim_start_all_white(w: Seq<char>)
    requires
        all_white_space(w),
    ensures
        trim_start_ws(w).len() == 0,
{
    lemma_trim_start_white_prefix(w, Seq::empty());
    assert(w + Seq::<char>::empty() =~= w);
}

/// White space around the text never changes what a level parses to.
pub proof fn law_level_parse_ignores_surrounding_space(s: Seq<char>, w1: Seq<char>, w2: Seq<char>)
    requires
        all_white_space(w1),
        all_white_space(w2),
    ensures
        parse_level(w1 + s + w2) == parse_level(s),
{
    assert(w1 + s + w2 =~= w1 + (s + w2));
    lemma_trim_start_white_prefix(w1, s + w2);
    lemma_trim_start_append(s, w2);
    if trim_start_ws(s).len() > 0 {
        lemma_trim_end_white_suffix(trim_start_ws(s), w2);
    } else {
        lemma_trim_start_all_white(w2);
        assert(trim_start_ws(w2) =~= trim_start_ws(s));
    }
    assert(trim_ws(w1 + s + w2) == trim_ws(s));
}

} // verus!

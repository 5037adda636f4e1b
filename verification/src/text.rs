//! Building strings from digits.
use vstd::prelude::*;
use vstd::string::*;
use vstd::utf8::{encode_utf8, is_ascii_chars_encode_utf8};

use crate::hex::{hex_digit, hex_digit_value, hex_of_bytes};

verus! {

/// The decimal digits of a number, most significant first, with no leading zeros
/// (`0` is written as a single digit).
pub open spec fn decimal(n: nat) -> Seq<char>
    decreases n,
{
    if n < 10 {
        seq![digit_char(n)]
    } else {
        decimal(n / 10).push(digit_char(n % 10))
    }
}

/// The character of a hex digit below 16 (lowercase letters above 9).
pub open spec fn digit_char(d: nat) -> char {
    hex_digit(d) as char
}

/// The one-character string of a digit below 16 (lowercase hex letters above 9).
pub fn digit_str(d: u8) -> (r: &'static str)
    requires
        d < 16,
    ensures
        r@ == seq![digit_char(d as nat)],
{
    match d {
        0 => { proof { reveal_strlit("0"); } "0" },
        1 => { proof { reveal_strlit("1"); } "1" },
        2 => { proof { reveal_strlit("2"); } "2" },
        3 => { proof { reveal_strlit("3"); } "3" },
        4 => { proof { reveal_strlit("4"); } "4" },
        5 => { proof { reveal_strlit("5"); } "5" },
        6 => { proof { reveal_strlit("6"); } "6" },
        7 => { proof { reveal_strlit("7"); } "7" },
        8 => { proof { reveal_strlit("8"); } "8" },
        9 => { proof { reveal_strlit("9"); } "9" },
        10 => { proof { reveal_strlit("a"); } "a" },
        11 => { proof { reveal_strlit("b"); } "b" },
        12 => { proof { reveal_strlit("c"); } "c" },
        13 => { proof { reveal_strlit("d"); } "d" },
        14 => { proof { reveal_strlit("e"); } "e" },
        _ => { proof { reveal_strlit("f"); } "f" },
    }
}

/// Every byte of `s` is a lowercase hex digit.
pub open spec fn is_lower_hex(s: Seq<u8>) -> bool {
    forall|i: int| 0 <= i < s.len() ==> exists|d: nat| d < 16 && #[trigger] s[i] == hex_digit(d)
}

/// The characters of an ASCII byte sequence.
pub open spec fn ascii_chars(bytes: Seq<u8>) -> Seq<char> {
    bytes.map_values(|b: u8| b as char)
}

/// A string holding the lowercase hex digits of `bytes`.
pub fn lower_hex_to_string(bytes: &[u8]) -> (r: String)
    requires
        is_lower_hex(bytes@),
    ensures
        r@ == ascii_chars(bytes@),
{
    let mut s = String::new();
    let mut i: usize = 0;
    while i < bytes.len()
        invariant
            i <= bytes@.len(),
            is_lower_hex(bytes@),
            s@ =~= ascii_chars(bytes@.take(i as int)),
        decreases bytes@.len() - i,
    {
        let c = bytes[i];
        let ghost d = choose|d: nat| d < 16 && c == hex_digit(d);
        assert(hex_digit_value(hex_digit(d)) == Some(d));
        let v = crate::hex::decode_hex_digit(c);
        s.append(digit_str(v));
        assert(ascii_chars(bytes@.take(i as int + 1)) =~= ascii_chars(bytes@.take(i as int)).push(c as char));
        i = i + 1;
    }
    assert(bytes@.take(i as int) =~= bytes@);
    s
}

/// The decimal digits of `n`.
pub fn usize_to_decimal(n: usize) -> (r: String)
    ensures
        r@ == decimal(n as nat),
    decreases n,
{
    if n < 10 {
        let mut s = String::new();
        s.append(digit_str(n as u8));
        assert(s@ =~= decimal(n as nat));
        s
    } else {
        let mut s = usize_to_decimal(n / 10);
        s.append(digit_str((n % 10) as u8));
        assert(s@ =~= decimal(n as nat));
        s
    }
}

/// The hex encoding of bytes is made of lowercase hex digits.
pub proof fn lemma_hex_of_bytes_lower(bytes: Seq<u8>)
    ensures
        is_lower_hex(hex_of_bytes(bytes)),
    decreases bytes.len(),
{
    if bytes.len() > 0 {
        let p = bytes.drop_last();
        lemma_hex_of_bytes_lower(p);
        let h = hex_of_bytes(bytes);
        let hp = hex_of_bytes(p);
        let b = bytes.last() as nat;
        assert forall|i: int| 0 <= i < h.len() implies exists|d: nat| d < 16 && #[trigger] h[i] == hex_digit(d) by {
            if i < hp.len() {
                assert(h[i] == hp[i]);
            } else if i == hp.len() {
                assert(h[i] == hex_digit(b / 16));
            } else {
                assert(h[i] == hex_digit(b % 16));
            }
        }
    }
}

/// An ASCII byte sequence read as characters is encoded in UTF-8 as the same bytes.
pub proof fn lemma_ascii_chars_encode(bytes: Seq<u8>)
    requires
        forall|i: int| 0 <= i < bytes.len() ==> #[trigger] bytes[i] < 128,
    ensures
        encode_utf8(ascii_chars(bytes)) =~= bytes,
{
    let cs = ascii_chars(bytes);
    assert forall|i: int| 0 <= i < cs.len() implies '\0' <= #[trigger] cs[i] <= '\u{7f}' by {
        assert(cs[i] == bytes[i] as char);
    }
    is_ascii_chars_encode_utf8(cs);
    assert forall|i: int| 0 <= i < bytes.len() implies #[trigger] encode_utf8(cs)[i] == bytes[i] by {
        assert(cs[i] as u8 == encode_utf8(cs)[i]);
        assert(cs[i] == bytes[i] as char);
    }
}

/// Lowercase hex digits are ASCII.
pub proof fn lemma_lower_hex_ascii(s: Seq<u8>)
    requires
        is_lower_hex(s),
    ensures
        forall|i: int| 0 <= i < s.len() ==> #[trigger] s[i] < 128,
{
    assert forall|i: int| 0 <= i < s.len() implies #[trigger] s[i] < 128 by {
        let d = choose|d: nat| d < 16 && s[i] == hex_digit(d);
    }
}

/// `String::push`: appends `c` to the end of the string, as std documents.
#[verifier::external_body]
pub(crate) fn push_char(s: &mut String, c: char)
    ensures
        final(s)@ == old(s)@.push(c),
{
    s.push(c);
}

/// The decimal digits of `n`.
pub fn u64_to_decimal(n: u64) -> (r: String)
    ensures
        r@ == decimal(n as nat),
    decreases n,
{
    if n < 10 {
        let mut s = String::new();
        s.append(digit_str(n as u8));
        assert(s@ =~= decimal(n as nat));
        s
    } else {
        let mut s = u64_to_decimal(n / 10);
        s.append(digit_str((n % 10) as u8));
        assert(s@ =~= decimal(n as nat));
        s
    }
}

/// The decimal text of an integer: its digits, after a `-` if it is negative.
pub open spec fn signed_decimal(n: int) -> Seq<char> {
    if n < 0 {
        seq!['-'] + decimal((-n) as nat)
    } else {
        decimal(n as nat)
    }
}

/// The decimal text of `n`.
pub fn i64_to_decimal(n: i64) -> (r: String)
    ensures
        r@ == signed_decimal(n as int),
{
    if n < 0 {
        let magnitude: u64 = if n == i64::MIN {
            0x8000_0000_0000_0000
        } else {
            (-n) as u64
        };
        let mut s = String::new();
        push_char(&mut s, '-');
        let digits = u64_to_decimal(magnitude);
        s.append(digits.as_str());
        assert(s@ =~= signed_decimal(n as int));
        s
    } else {
        u64_to_decimal(n as u64)
    }
}

/// `s` followed by as many spaces as it takes to make it `width` characters long.
pub open spec fn pad_end(s: Seq<char>, width: nat) -> Seq<char> {
    if s.len() >= width {
        s
    } else {
        s + Seq::new((width - s.len()) as nat, |i: int| ' ')
    }
}

/// Append `s` to `out`, then spaces until what was appended is `width` characters long.
pub fn append_padded(out: &mut String, s: &str, width: usize)
    ensures
        final(out)@ == old(out)@ + pad_end(s@, width as nat),
{
    out.append(s);
    let n = s.unicode_len();
    let mut k = n;
    while k < width
        invariant
            n == s@.len(),
            n <= k <= width || (n > width && k == n),
            out@ == old(out)@ + s@ + Seq::new((k - n) as nat, |i: int| ' '),
        decreases width - k,
    {
        push_char(out, ' ');
        assert(Seq::new((k + 1 - n) as nat, |i: int| ' ') =~= Seq::new((k - n) as nat, |i: int| ' ').push(' '));
        k = k + 1;
    }
    if n >= width {
        assert(Seq::new(0, |i: int| ' ') =~= Seq::<char>::empty());
    }
}

/// The `n` low hex digits of `v`, most significant first.
pub open spec fn hex_fixed(v: nat, n: nat) -> Seq<char>
    decreases n,
{
    if n == 0 {
        Seq::empty()
    } else {
        hex_fixed(v / 16, (n - 1) as nat).push(digit_char(v % 16))
    }
}

/// The 8 lowercase hex digits of `v`, padded with leading zeros.
pub fn u32_to_hex8(v: u32) -> (r: String)
    ensures
        r@ == hex_fixed(v as nat, 8),
{
    let mut digits = [0u8; 8];
    let mut cur = v;
    let mut i: usize = 8;
    while i > 0
        invariant
            i <= 8,
            digits@.len() == 8,
            forall|j: int| i <= j < 8 ==> #[trigger] digits@[j] < 16,
            hex_fixed(v as nat, 8) =~= hex_fixed(cur as nat, i as nat) + digits@.subrange(i as int, 8).map_values(
                |d: u8| digit_char(d as nat),
            ),
        decreases i,
    {
        let ghost before = digits@;
        let ghost c = cur as nat;
        digits[i - 1] = (cur % 16) as u8;
        cur = cur / 16;
        i = i - 1;
        proof {
            assert(hex_fixed(c, (i + 1) as nat) == hex_fixed(c / 16, i as nat).push(digit_char(c % 16)));
            assert(digits@.subrange(i as int, 8).map_values(|d: u8| digit_char(d as nat)) =~= seq![digit_char(c % 16)]
                + before.subrange(i + 1, 8).map_values(|d: u8| digit_char(d as nat)));
        }
    }
    let mut s = String::new();
    let mut k: usize = 0;
    while k < 8
        invariant
            k <= 8,
            digits@.len() == 8,
            forall|j: int| 0 <= j < 8 ==> #[trigger] digits@[j] < 16,
            s@ =~= digits@.take(k as int).map_values(|d: u8| digit_char(d as nat)),
        decreases 8 - k,
    {
        s.append(digit_str(digits[k]));
        assert(digits@.take(k + 1).map_values(|d: u8| digit_char(d as nat)) =~= digits@.take(k as int).map_values(
            |d: u8| digit_char(d as nat),
        ).push(digit_char(digits@[k as int] as nat)));
        k = k + 1;
    }
    assert(hex_fixed(cur as nat, 0) =~= Seq::<char>::empty());
    assert(digits@.take(8) =~= digits@.subrange(0, 8));
    s
}


/// Names in backticks, separated by `, `: the way lists of accepted arguments are written
/// in messages.
pub open spec fn quoted_list(items: Seq<Seq<char>>) -> Seq<char>
    decreases items.len(),
{
    if items.len() == 0 {
        Seq::empty()
    } else if items.len() == 1 {
        seq!['`'] + items[0] + seq!['`']
    } else {
        quoted_list(items.drop_last()) + seq![',', ' ', '`'] + items.last() + seq!['`']
    }
}

/// Write names in backticks, separated by `, `.
pub fn print_list(items: &[&str]) -> (r: String)
    ensures
        r@ == quoted_list(items@.map_values(|s: &str| s@)),
{
    let ghost iv = items@.map_values(|s: &str| s@);
    let mut out = String::new();
    let mut i: usize = 0;
    assert(iv.take(0) =~= Seq::<Seq<char>>::empty());
    while i < items.len()
        invariant
            i <= items@.len(),
            iv == items@.map_values(|s: &str| s@),
            out@ == quoted_list(iv.take(i as int)),
        decreases items@.len() - i,
    {
        if i > 0 {
            push_char(&mut out, ',');
            push_char(&mut out, ' ');
        }
        push_char(&mut out, '`');
        out.append(items[i]);
        push_char(&mut out, '`');
        proof {
            let t = iv.take(i + 1);
            assert(t.drop_last() =~= iv.take(i as int));
            assert(t.last() == items@[i as int]@);
            if i == 0 {
                assert(t[0] == items@[0]@);
            }
        }
        assert(out@ =~= quoted_list(iv.take(i + 1)));
        i = i + 1;
    }
    assert(iv.take(i as int) =~= iv);
    out
}

} // verus!

//! Big-endian byte and ASCII hex encodings of unsigned integers.
//!
//! These are the encodings used by trace and span ids: an id is a big-endian
//! byte array, and its textual form is two lowercase hex digits per byte.
use vstd::prelude::*;
use vstd::arithmetic::div_mod::{lemma_mod_breakdown, lemma_fundamental_div_mod, lemma_div_pos_is_pos};

verus! {

/// `256^n`.
pub open spec fn pow256(n: nat) -> nat
    decreases n,
{
    if n == 0 {
        1
    } else {
        256 * pow256((n - 1) as nat)
    }
}

/// The number denoted by a big-endian sequence of bytes.
pub open spec fn be_value(bytes: Seq<u8>) -> nat
    decreases bytes.len(),
{
    if bytes.len() == 0 {
        0
    } else {
        be_value(bytes.drop_last()) * 256 + bytes.last() as nat
    }
}

/// The `n` low bytes of `v` in big-endian order.
pub open spec fn be_bytes(v: nat, n: nat) -> Seq<u8>
    decreases n,
{
    if n == 0 {
        Seq::empty()
    } else {
        be_bytes(v / 256, (n - 1) as nat).push((v % 256) as u8)
    }
}

/// The lowercase ASCII hex digit for a value below 16.
pub open spec fn hex_digit(d: nat) -> u8 {
    if d < 10 {
        (48 + d) as u8
    } else {
        (87 + d) as u8
    }
}

/// Two lowercase hex digits per byte, most significant nibble first.
pub open spec fn hex_of_bytes(bytes: Seq<u8>) -> Seq<u8>
    decreases bytes.len(),
{
    if bytes.len() == 0 {
        Seq::empty()
    } else {
        hex_of_bytes(bytes.drop_last()) + seq![hex_digit(bytes.last() as nat / 16), hex_digit(bytes.last() as nat % 16)]
    }
}

/// The value of an ASCII hex digit in `[0-9a-fA-F]`, or `None` for any other byte.
pub open spec fn hex_digit_value(c: u8) -> Option<nat> {
    if 48 <= c <= 57 {
        Some((c - 48) as nat)
    } else if 97 <= c <= 102 {
        Some((c - 87) as nat)
    } else if 65 <= c <= 70 {
        Some((c - 55) as nat)
    } else {
        None
    }
}

/// Every byte of `s` is an ASCII hex digit.
pub open spec fn is_hex(s: Seq<u8>) -> bool {
    forall|i: int| 0 <= i < s.len() ==> (#[trigger] hex_digit_value(s[i])) is Some
}

/// The number denoted by a sequence of hex digits, most significant first.
pub open spec fn hex_num(s: Seq<u8>) -> nat
    decreases s.len(),
{
    if s.len() == 0 {
        0
    } else {
        hex_num(s.drop_last()) * 16 + match hex_digit_value(s.last()) {
            Some(d) => d,
            None => 0,
        }
    }
}

pub proof fn lemma_pow256_pos(n: nat)
    ensures
        pow256(n) > 0,
    decreases n,
{
    if n > 0 {
        lemma_pow256_pos((n - 1) as nat);
    }
}

pub proof fn lemma_pow256_16()
    ensures
        pow256(16) == 0x1_0000_0000_0000_0000_0000_0000_0000_0000,
        pow256(8) == 0x1_0000_0000_0000_0000,
{
    reveal_with_fuel(pow256, 17);
}

/// A big-endian number of `n` bytes is below `256^n`.
pub proof fn lemma_be_value_bound(bytes: Seq<u8>)
    ensures
        be_value(bytes) < pow256(bytes.len()),
    decreases bytes.len(),
{
    if bytes.len() > 0 {
        let p = bytes.drop_last();
        lemma_be_value_bound(p);
        let v = be_value(p);
        let q = pow256(p.len());
        assert(v * 256 + bytes.last() < q * 256) by (nonlinear_arith)
            requires
                v < q,
                bytes.last() < 256,
        ;
    }
}

/// Encoding the `n` low bytes of `v` and reading them back gives `v mod 256^n`.
pub proof fn lemma_be_value_of_bytes(v: nat, n: nat)
    ensures
        be_bytes(v, n).len() == n,
        be_value(be_bytes(v, n)) == v % pow256(n),
    decreases n,
{
    if n > 0 {
        lemma_be_value_of_bytes(v / 256, (n - 1) as nat);
        let s = be_bytes(v, n);
        assert(s.drop_last() =~= be_bytes(v / 256, (n - 1) as nat));
        lemma_pow256_pos((n - 1) as nat);
        lemma_mod_breakdown(v as int, 256, pow256((n - 1) as nat) as int);
    }
}

/// Reading bytes as a number and encoding that number again gives the same bytes.
pub proof fn lemma_be_bytes_of_value(bytes: Seq<u8>)
    ensures
        be_bytes(be_value(bytes), bytes.len()) =~= bytes,
    decreases bytes.len(),
{
    if bytes.len() > 0 {
        let p = bytes.drop_last();
        lemma_be_bytes_of_value(p);
        let v = be_value(bytes);
        let b = bytes.last();
        assert(v / 256 == be_value(p) && v % 256 == b) by {
            lemma_fundamental_div_mod(v as int, 256);
            vstd::arithmetic::div_mod::lemma_fundamental_div_mod_converse(
                v as int,
                256,
                be_value(p) as int,
                b as int,
            );
        }
        assert(bytes =~= p.push(b));
    }
}

/// Hex digits denote their value.
pub proof fn lemma_hex_digit_roundtrip(d: nat)
    requires
        d < 16,
    ensures
        hex_digit_value(hex_digit(d)) == Some(d),
{
}

/// The hex encoding of a byte sequence consists of hex digits and denotes the same number.
pub proof fn lemma_hex_of_bytes(bytes: Seq<u8>)
    ensures
        hex_of_bytes(bytes).len() == 2 * bytes.len(),
        is_hex(hex_of_bytes(bytes)),
        hex_num(hex_of_bytes(bytes)) == be_value(bytes),
    decreases bytes.len(),
{
    if bytes.len() > 0 {
        let p = bytes.drop_last();
        lemma_hex_of_bytes(p);
        let b = bytes.last() as nat;
        let h = hex_of_bytes(bytes);
        let hp = hex_of_bytes(p);
        lemma_hex_digit_roundtrip(b / 16);
        lemma_hex_digit_roundtrip(b % 16);
        assert(h.drop_last() =~= hp.push(hex_digit(b / 16)));
        assert(h.drop_last().drop_last() =~= hp);
        assert forall|i: int| 0 <= i < h.len() implies (#[trigger] hex_digit_value(h[i])) is Some by {
            if i < hp.len() {
                assert(h[i] == hp[i]);
            }
        }
        assert(h.last() == hex_digit(b % 16));
        assert(h.drop_last().last() == hex_digit(b / 16));
        assert(hex_num(h.drop_last()) == hex_num(hp) * 16 + b / 16);
        assert(hex_num(h) == (hex_num(hp) * 16 + b / 16) * 16 + b % 16);
        assert(b == (b / 16) * 16 + b % 16) by {
            lemma_fundamental_div_mod(b as int, 16);
        }
    }
}

/// Decode one ASCII hex digit, with `0xff` standing for any byte that is not one.
pub fn decode_hex_digit(c: u8) -> (r: u8)
    ensures
        match hex_digit_value(c) {
            Some(d) => r == d,
            None => r == 0xff,
        },
{
    if 48u8 <= c && c <= 57u8 {
        c - 48u8
    } else if 97u8 <= c && c <= 102u8 {
        c - 97u8 + 10
    } else if 65u8 <= c && c <= 70u8 {
        c - 65u8 + 10
    } else {
        0xff
    }
}

/// Encode a value below 16 as a lowercase ASCII hex digit.
pub fn encode_hex_digit(d: u8) -> (r: u8)
    requires
        d < 16,
    ensures
        r == hex_digit(d as nat),
{
    if d < 10 {
        48u8 + d
    } else {
        97u8 + (d - 10)
    }
}

/// Read a big-endian byte slice of at most 16 bytes as a number.
pub fn be_slice_to_u128(bytes: &[u8]) -> (r: u128)
    requires
        bytes@.len() <= 16,
    ensures
        r == be_value(bytes@),
{
    let mut v: u128 = 0;
    let mut i: usize = 0;
    proof {
        lemma_pow256_16();
    }
    while i < bytes.len()
        invariant
            i <= bytes@.len() <= 16,
            v == be_value(bytes@.take(i as int)),
            pow256(16) == 0x1_0000_0000_0000_0000_0000_0000_0000_0000,
        decreases bytes@.len() - i,
    {
        proof {
            let t = bytes@.take(i as int + 1);
            assert(t.drop_last() =~= bytes@.take(i as int));
            lemma_be_value_bound(t);
            lemma_pow256_mono(t.len(), 16);
        }
        v = v * 256 + bytes[i] as u128;
        i = i + 1;
    }
    assert(bytes@.take(i as int) =~= bytes@);
    v
}

pub proof fn lemma_pow256_mono(a: nat, b: nat)
    requires
        a <= b,
    ensures
        pow256(a) <= pow256(b),
    decreases b,
{
    if a < b {
        lemma_pow256_mono(a, (b - 1) as nat);
        lemma_pow256_pos((b - 1) as nat);
    }
}

/// Write the 16 low bytes of `v` in big-endian order.
pub fn u128_to_be_bytes(v: u128) -> (r: [u8; 16])
    ensures
        r@ == be_bytes(v as nat, 16),
{
    let mut dst = [0u8; 16];
    let mut cur = v;
    let mut i: usize = 16;
    assert(dst@.subrange(16, 16) =~= Seq::<u8>::empty());
    while i > 0
        invariant
            i <= 16,
            dst@.len() == 16,
            be_bytes(v as nat, 16) =~= be_bytes(cur as nat, i as nat) + dst@.subrange(i as int, 16),
        decreases i,
    {
        let ghost old_dst = dst@;
        let ghost old_cur = cur as nat;
        dst[i - 1] = (cur % 256) as u8;
        cur = cur / 256;
        i = i - 1;
        proof {
            assert(be_bytes(old_cur, (i + 1) as nat) == be_bytes(old_cur / 256, i as nat).push((old_cur % 256) as u8));
            assert(dst@.subrange(i as int, 16) =~= seq![(old_cur % 256) as u8] + old_dst.subrange(i + 1, 16));
        }
    }
    assert(be_bytes(cur as nat, 0) =~= Seq::<u8>::empty());
    assert(dst@.subrange(0, 16) =~= dst@);
    dst
}

/// Write the 8 low bytes of `v` in big-endian order.
pub fn u64_to_be_bytes(v: u64) -> (r: [u8; 8])
    ensures
        r@ == be_bytes(v as nat, 8),
{
    let mut dst = [0u8; 8];
    let mut cur = v;
    let mut i: usize = 8;
    assert(dst@.subrange(8, 8) =~= Seq::<u8>::empty());
    while i > 0
        invariant
            i <= 8,
            dst@.len() == 8,
            be_bytes(v as nat, 8) =~= be_bytes(cur as nat, i as nat) + dst@.subrange(i as int, 8),
        decreases i,
    {
        let ghost old_dst = dst@;
        let ghost old_cur = cur as nat;
        dst[i - 1] = (cur % 256) as u8;
        cur = cur / 256;
        i = i - 1;
        proof {
            assert(be_bytes(old_cur, (i + 1) as nat) == be_bytes(old_cur / 256, i as nat).push((old_cur % 256) as u8));
            assert(dst@.subrange(i as int, 8) =~= seq![(old_cur % 256) as u8] + old_dst.subrange(i + 1, 8));
        }
    }
    assert(be_bytes(cur as nat, 0) =~= Seq::<u8>::empty());
    assert(dst@.subrange(0, 8) =~= dst@);
    dst
}

} // verus!

verus! {

/// Decode a pair of ASCII hex digits, most significant first, into a byte.
pub fn decode_hex_byte(c1: u8, c2: u8) -> (r: Option<u8>)
    ensures
        r is Some <==> (hex_digit_value(c1) is Some && hex_digit_value(c2) is Some),
        r matches Some(b) ==> (hex_digit_value(c1), hex_digit_value(c2)) matches (Some(d1), Some(d2))
            && b == d1 * 16 + d2,
{
    let h1 = decode_hex_digit(c1);
    let h2 = decode_hex_digit(c2);
    // `0xff` marks a byte that is not a hex digit; valid digits are below 16,
    // so the union of the two is `0xff` exactly when either is invalid
    assert((h1 < 16 || h1 == 0xff) && (h2 < 16 || h2 == 0xff) ==> ((h1 | h2 == 0xff) <==> (h1 == 0xff
        || h2 == 0xff))) by (bit_vector);
    if h1 | h2 == 0xff {
        return None;
    }
    assert(h1 < 16 && h2 < 16 ==> (h1 << 4) | h2 == h1 * 16 + h2) by (bit_vector);
    Some((h1 << 4) | h2)
}

/// Encode a byte as two lowercase ASCII hex digits, most significant first.
pub fn encode_hex_byte(b: u8) -> (r: (u8, u8))
    ensures
        r.0 == hex_digit(b as nat / 16),
        r.1 == hex_digit(b as nat % 16),
{
    let hi = b >> 4;
    let lo = b & 0x0f;
    assert(hi == b / 16 && lo == b % 16 && hi < 16 && lo < 16) by (bit_vector)
        requires
            hi == b >> 4,
            lo == b & 0x0f,
    ;
    (encode_hex_digit(hi), encode_hex_digit(lo))
}

/// Appending two hex digits to a prefix of hex digits.
pub proof fn lemma_hex_num_pair(s: Seq<u8>, i: int, d1: nat, d2: nat)
    requires
        0 <= i,
        2 * i + 2 <= s.len(),
        hex_digit_value(s[2 * i]) == Some(d1),
        hex_digit_value(s[2 * i + 1]) == Some(d2),
        is_hex(s.take(2 * i)),
    ensures
        hex_num(s.take(2 * i + 2)) == hex_num(s.take(2 * i)) * 256 + d1 * 16 + d2,
        is_hex(s.take(2 * i + 2)),
{
    let t = s.take(2 * i + 2);
    assert(t.drop_last() =~= s.take(2 * i + 1));
    assert(t.drop_last().drop_last() =~= s.take(2 * i));
    assert(hex_num(t.drop_last()) == hex_num(s.take(2 * i)) * 16 + d1);
    assert forall|j: int| 0 <= j < t.len() implies (#[trigger] hex_digit_value(t[j])) is Some by {
        if j < 2 * i {
            assert(t[j] == s.take(2 * i)[j]);
        }
    }
}

/// Appending a byte to a big-endian prefix.
pub proof fn lemma_be_value_push(s: Seq<u8>, i: int)
    requires
        0 <= i < s.len(),
    ensures
        be_value(s.take(i + 1)) == be_value(s.take(i)) * 256 + s[i],
{
    assert(s.take(i + 1).drop_last() =~= s.take(i));
}

/// Appending a byte to the hex encoding of a big-endian prefix.
pub proof fn lemma_hex_of_bytes_push(s: Seq<u8>, i: int)
    requires
        0 <= i < s.len(),
    ensures
        hex_of_bytes(s.take(i + 1)) == hex_of_bytes(s.take(i)) + seq![hex_digit(s[i] as nat / 16), hex_digit(s[i] as nat % 16)],
{
    assert(s.take(i + 1).drop_last() =~= s.take(i));
}

} // verus!

verus! {

/// Read a big-endian byte slice of at most 8 bytes as a number.
pub fn be_slice_to_u64(bytes: &[u8]) -> (r: u64)
    requires
        bytes@.len() <= 8,
    ensures
        r == be_value(bytes@),
{
    let v = be_slice_to_u128(bytes);
    proof {
        lemma_be_value_bound(bytes@);
        lemma_pow256_mono(bytes@.len(), 8);
        lemma_pow256_16();
    }
    v as u64
}

} // verus!

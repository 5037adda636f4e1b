//! The textual grammar of bucket sets: the buckets of an exponential histogram, written
//! as a bracketed list of bucket midpoints and counts.
//!
//! The whole set is enclosed by `[]`, `()` or `{}`, and its buckets are separated by
//! commas. A bucket is written `[k, v]`, `(k, v)` or `{k, v}`, where the key and count may
//! also be separated by `:` or `=`, or bare as `k: v` or `k = v`. Whitespace around the
//! parts is ignored. Counts are decimal numbers, and their total must fit in 64 bits. The
//! text of each key is handed back as it was written, for the caller to read as a number.
use vstd::prelude::*;
use vstd::string::*;

use crate::buf::{find, find_spec, is_ascii_ws, needle_skip, trim, trim_end_spec, trim_start, trim_start_spec};

verus! {

/// An error attempting to parse a bucket set from text.
#[derive(Debug, PartialEq, Eq, Structural)]
pub struct ParseBucketSetError {}

impl ParseBucketSetError {
    /// The error's message.
    pub fn to_string(&self) -> (r: String)
        ensures
            r@ == "the input was not a valid bucket set"@,
    {
        String::from_str("the input was not a valid bucket set")
    }
}

/// The bracket that closes the one `b` opens, if `b` opens one.
pub open spec fn closer_of(b: u8) -> Option<u8> {
    if b == 91 {
        Some(93u8)
    } else if b == 40 {
        Some(41u8)
    } else if b == 123 {
        Some(125u8)
    } else {
        None
    }
}

/// A decimal digit.
pub open spec fn is_digit(b: u8) -> bool {
    48 <= b <= 57
}

/// The number written by the decimal digits `s`.
pub open spec fn digits_value(s: Seq<u8>) -> nat
    decreases s.len(),
{
    if s.len() == 0 {
        0
    } else {
        digits_value(s.drop_last()) * 10 + (s.last() - 48) as nat
    }
}

/// The digits of a count: its text without a leading `+`.
pub open spec fn count_digits(s: Seq<u8>) -> Seq<u8> {
    if s.len() > 0 && s[0] == 43 {
        s.drop_first()
    } else {
        s
    }
}

/// Every byte of `d` is a decimal digit.
pub open spec fn all_digits(d: Seq<u8>) -> bool {
    forall|i: int| 0 <= i < d.len() ==> is_digit(#[trigger] d[i])
}

/// A count as the standard library reads a `u64` from text: an optional `+`, then one or
/// more decimal digits, whose number fits in 64 bits.
pub open spec fn count_of(s: Seq<u8>) -> Option<u64> {
    let d = count_digits(s);
    if d.len() > 0 && all_digits(d) && digits_value(d) <= u64::MAX {
        Some(digits_value(d) as u64)
    } else {
        None
    }
}

/// `s` without ASCII whitespace at either end.
pub open spec fn trimmed(s: Seq<u8>) -> Seq<u8> {
    trim_end_spec(trim_start_spec(s))
}

/// The delimiters of the bucket that starts `s`, in a set closed by `closer`: how many
/// bytes open it, the needles that end its key, and those that end its count.
pub open spec fn bucket_delims(s: Seq<u8>, closer: u8) -> (int, Seq<(u8, u8)>, Seq<(u8, u8)>) {
    match closer_of(s[0]) {
        Some(c) => (1, seq![(44u8, 1u8), (58u8, 1u8), (61u8, 1u8)], seq![(c, 1u8)]),
        None => (0, seq![(58u8, 1u8), (61u8, 1u8)], seq![(44u8, 0u8), (closer, 0u8)]),
    }
}

/// A skip count looked up among needles whose counts lie in `lo..=hi` lies there too.
pub proof fn lemma_needle_skip_in_range(needles: Seq<(u8, u8)>, b: u8, lo: int, hi: int)
    requires
        forall|i: int| 0 <= i < needles.len() ==> lo <= (#[trigger] needles[i]).1 <= hi,
    ensures
        needle_skip(needles, b) matches Some(k) ==> lo <= k <= hi,
    decreases needles.len(),
{
    if needles.len() > 0 && needles[0].0 != b {
        assert forall|i: int| 0 <= i < needles.drop_first().len() implies lo <= (
        #[trigger] needles.drop_first()[i]).1 <= hi by {
            assert(needles.drop_first()[i] == needles[i + 1]);
        }
        lemma_needle_skip_in_range(needles.drop_first(), b, lo, hi);
    }
}

/// A needle found in `s`, among needles whose skip counts lie in `lo..=hi`, is found at a
/// position of `s` with such a count.
pub proof fn lemma_find_in_range(s: Seq<u8>, needles: Seq<(u8, u8)>, lo: int, hi: int)
    requires
        forall|i: int| 0 <= i < needles.len() ==> lo <= (#[trigger] needles[i]).1 <= hi,
    ensures
        find_spec(s, needles) matches Some((p, skip)) ==> 0 <= p < s.len() && lo <= skip <= hi,
    decreases s.len(),
{
    if s.len() > 0 {
        lemma_needle_skip_in_range(needles, s[0], lo, hi);
        lemma_find_in_range(s.drop_first(), needles, lo, hi);
    }
}

/// The bytes after the separator before a bucket: none for the first bucket, else a comma
/// and the whitespace after it.
pub open spec fn after_separator(s: Seq<u8>, first: bool) -> Option<Seq<u8>> {
    if first {
        Some(s)
    } else if s.len() > 0 && s[0] == 44 {
        Some(trim_start_spec(s.drop_first()))
    } else {
        None
    }
}

/// The first bucket written in `s`, in a set closed by `closer`, with the text after it
/// and the whitespace after that: `first` says whether it is the first bucket of the
/// set, else a comma must come before it.
pub open spec fn bucket_at(s: Seq<u8>, closer: u8, first: bool) -> Option<((Seq<u8>, u64), Seq<u8>)> {
    match after_separator(s, first) {
        None => None,
        Some(s1) => if s1.len() == 0 {
            None
        } else {
            let (open, key_end, count_end) = bucket_delims(s1, closer);
            let s2 = s1.skip(open);
            match find_spec(s2, key_end) {
                None => None,
                Some((ke, ks)) => {
                    let s3 = s2.skip(ke + ks);
                    match find_spec(s3, count_end) {
                        None => None,
                        Some((ce, cs)) => match count_of(trimmed(s3.take(ce))) {
                            Some(c) => Some(((trimmed(s2.take(ke)), c), trim_start_spec(s3.skip(ce + cs)))),
                            None => None,
                        },
                    }
                },
            }
        },
    }
}

/// What follows a bucket is shorter than the text it was read from.
pub proof fn lemma_bucket_at_shorter(s: Seq<u8>, closer: u8, first: bool)
    ensures
        bucket_at(s, closer, first) matches Some((e, rest)) ==> rest.len() < s.len(),
{
    match after_separator(s, first) {
        None => {},
        Some(s1) => if s1.len() > 0 {
            if !first {
                lemma_trim_start_shorter(s.drop_first());
            }
            let (open, key_end, count_end) = bucket_delims(s1, closer);
            let s2 = s1.skip(open);
            lemma_find_in_range(s2, key_end, 1, 1);
            match find_spec(s2, key_end) {
                None => {},
                Some((ke, ks)) => {
                    let s3 = s2.skip(ke + ks);
                    lemma_find_in_range(s3, count_end, 0, 1);
                    match find_spec(s3, count_end) {
                        None => {},
                        Some((ce, cs)) => {
                            lemma_trim_start_shorter(s3.skip(ce + cs));
                        },
                    }
                },
            }
        },
    }
}

/// The buckets written in `s`, the text of a set after its opening bracket and the
/// whitespace after it, up to and including the closing bracket `closer`: the text of each
/// key with its count. `first` says whether no bucket has been read yet.
pub open spec fn parse_buckets(s: Seq<u8>, closer: u8, first: bool) -> Option<Seq<(Seq<u8>, u64)>>
    decreases s.len(),
{
    if s.len() <= 1 {
        if s.len() == 1 {
            Some(Seq::empty())
        } else {
            None
        }
    } else {
        match bucket_at(s, closer, first) {
            None => None,
            Some((e, rest)) => {
                proof {
                    lemma_bucket_at_shorter(s, closer, first);
                }
                match parse_buckets(rest, closer, false) {
                    Some(b) => Some(seq![e] + b),
                    None => None,
                }
            },
        }
    }
}

/// The sum of the counts of `buckets`.
pub open spec fn total_count(buckets: Seq<(Seq<u8>, u64)>) -> nat
    decreases buckets.len(),
{
    if buckets.len() == 0 {
        0
    } else {
        total_count(buckets.drop_last()) + buckets.last().1 as nat
    }
}

/// The buckets written in `s`, if it is a valid bucket set whose counts total at most
/// `u64::MAX`.
pub open spec fn buckets_of(s: Seq<u8>) -> Option<Seq<(Seq<u8>, u64)>> {
    if s.len() < 2 {
        None
    } else {
        match closer_of(s[0]) {
            Some(c) => if s.last() == c {
                match parse_buckets(trim_start_spec(s.drop_first()), c, true) {
                    Some(b) => if total_count(b) <= u64::MAX {
                        Some(b)
                    } else {
                        None
                    },
                    None => None,
                }
            } else {
                None
            },
            None => None,
        }
    }
}

pub proof fn lemma_trim_start_shorter(s: Seq<u8>)
    ensures
        trim_start_spec(s).len() <= s.len(),
    decreases s.len(),
{
    if s.len() > 0 && s[0] == 32 || s.len() > 0 && (s[0] == 9 || s[0] == 10 || s[0] == 12 || s[0] == 13) {
        lemma_trim_start_shorter(s.drop_first());
    }
}


/// A longer run of digits is worth at least its prefix.
proof fn lemma_digits_prefix(d: Seq<u8>, k: int)
    requires
        0 <= k <= d.len(),
    ensures
        digits_value(d.take(k)) <= digits_value(d),
    decreases d.len(),
{
    if k < d.len() {
        assert(d.drop_last().take(k) =~= d.take(k));
        lemma_digits_prefix(d.drop_last(), k);
    } else {
        assert(d.take(k) =~= d);
    }
}

/// Read a count from text as the standard library reads a `u64`: an optional `+`, then
/// decimal digits, whose number fits in 64 bits.
pub fn parse_count(s: &[u8]) -> (r: Option<u64>)
    ensures
        r == count_of(s@),
{
    let start: usize = if s.len() > 0 && s[0] == 43 {
        1
    } else {
        0
    };
    let ghost d = count_digits(s@);
    assert(d =~= s@.skip(start as int));
    if start == s.len() {
        return None;
    }
    let mut v: u64 = 0;
    let mut i: usize = start;
    assert(d.take(0) =~= Seq::<u8>::empty());
    while i < s.len()
        invariant
            start <= i <= s@.len(),
            d == s@.skip(start as int),
            d == count_digits(s@),
            forall|j: int| 0 <= j < i - start ==> is_digit(#[trigger] d[j]),
            v == digits_value(d.take(i - start)),
        decreases s@.len() - i,
    {
        let b = s[i];
        assert(d[i - start] == b);
        if b < 48 || b > 57 {
            assert(!is_digit(d[i - start]));
            return None;
        }
        let digit = (b - 48) as u64;
        assert(d.take(i - start + 1).drop_last() =~= d.take(i - start));
        assert(digits_value(d.take(i - start + 1)) == v * 10 + digit);
        if v > (u64::MAX - digit) / 10 {
            proof {
                assert(v * 10 + digit > u64::MAX) by (nonlinear_arith)
                    requires
                        v > (u64::MAX - digit) / 10,
                        digit <= 9,
                ;
                if all_digits(d) {
                    lemma_digits_prefix(d, i - start + 1);
                }
            }
            return None;
        }
        assert(v * 10 + digit <= u64::MAX) by (nonlinear_arith)
            requires
                v <= (u64::MAX - digit) / 10,
                digit <= 9,
        ;
        v = v * 10 + digit;
        i = i + 1;
    }
    assert(d.take(i - start) =~= d);
    Some(v)
}

/// The counts of `buckets` total the counts of its parts.
proof fn lemma_total_append(a: Seq<(Seq<u8>, u64)>, b: Seq<(Seq<u8>, u64)>)
    ensures
        total_count(a + b) == total_count(a) + total_count(b),
    decreases b.len(),
{
    if b.len() == 0 {
        assert(a + b =~= a);
    } else {
        assert((a + b).drop_last() =~= a + b.drop_last());
        lemma_total_append(a, b.drop_last());
    }
}

/// What is left to parse, with `out` parsed so far.
pub open spec fn finish(out: Seq<(Seq<u8>, u64)>, rest: Seq<u8>, closer: u8, first: bool) -> Option<Seq<(Seq<u8>, u64)>> {
    match parse_buckets(rest, closer, first) {
        Some(b) => if total_count(out + b) <= u64::MAX {
            Some(out + b)
        } else {
            None
        },
        None => None,
    }
}

/// The text of each bucket's key with its count.
pub open spec fn buckets_view(v: Seq<(Vec<u8>, u64)>) -> Seq<(Seq<u8>, u64)> {
    v.map_values(|e: (Vec<u8>, u64)| (e.0@, e.1))
}

/// Read the first bucket of `s`, in a set closed by `closer`, after the comma before it
/// unless it is the first: the text of its key, its count, and the text after it with the
/// whitespace after that.
fn parse_one_bucket(s: &[u8], closer: u8, first: bool) -> (r: Option<(Vec<u8>, u64, &[u8])>)
    ensures
        match r {
            Some((k, c, rest)) => bucket_at(s@, closer, first) == Some(((k@, c), rest@)),
            None => bucket_at(s@, closer, first) is None,
        },
{
    let mut rest = s;
    if !first {
        if rest.len() == 0 || rest[0] != 44 {
            return None;
        }
        let (_, r) = rest.split_at(1);
        assert(r@ =~= s@.drop_first());
        rest = trim_start(r);
    }
    let ghost s1 = rest@;
    assert(after_separator(s@, first) == Some(s1));
    if rest.len() == 0 {
        return None;
    }
    let b0 = rest[0];
    let bracketed = b0 == 91 || b0 == 40 || b0 == 123;
    let open: usize = if bracketed {
        1
    } else {
        0
    };
    let key_end: &[(u8, u8)] = if bracketed {
        &[(44u8, 1u8), (58u8, 1u8), (61u8, 1u8)]
    } else {
        &[(58u8, 1u8), (61u8, 1u8)]
    };
    let count_close: u8 = if b0 == 91 {
        93
    } else if b0 == 40 {
        41
    } else {
        125
    };
    let bracket_end = [(count_close, 1u8)];
    let bare_end = [(44u8, 0u8), (closer, 0u8)];
    let count_end: &[(u8, u8)] = if bracketed {
        &bracket_end
    } else {
        &bare_end
    };
    proof {
        let (o, ke, ce) = bucket_delims(s1, closer);
        assert(o == open);
        assert(key_end@ =~= ke);
        assert(count_end@ =~= ce);
    }
    let (_, s2) = rest.split_at(open);
    assert(s2@ =~= s1.skip(open as int));
    let (ke, ks) = match find(s2, key_end) {
        Some(x) => x,
        None => {
            return None;
        },
    };
    proof {
        lemma_find_in_range(s2@, key_end@, 1, 1);
    }
    let (key_text, _) = s2.split_at(ke);
    assert(key_text@ =~= s2@.take(ke as int));
    let key = trim(key_text);
    let (_, s3) = s2.split_at(ke + ks);
    assert(s3@ =~= s2@.skip(ke + ks));
    let (ce, cs) = match find(s3, count_end) {
        Some(x) => x,
        None => {
            return None;
        },
    };
    proof {
        lemma_find_in_range(s3@, count_end@, 0, 1);
    }
    let (count_text, _) = s3.split_at(ce);
    assert(count_text@ =~= s3@.take(ce as int));
    let count = match parse_count(trim(count_text)) {
        Some(c) => c,
        None => {
            return None;
        },
    };
    let (_, s4) = s3.split_at(ce + cs);
    assert(s4@ =~= s3@.skip(ce + cs));
    let after = trim_start(s4);
    Some((vstd::slice::slice_to_vec(key), count, after))
}

/// Parse the buckets of a bucket set from its text: the text of each key, as written, with
/// its count, in the order written. A set whose counts total more than `u64::MAX` is
/// rejected, so the counts of the buckets returned can be summed without overflow.
pub fn parse_bucket_set(s: &[u8]) -> (r: Result<Vec<(Vec<u8>, u64)>, ParseBucketSetError>)
    ensures
        match r {
            Ok(v) => buckets_of(s@) == Some(buckets_view(v@)),
            Err(_) => buckets_of(s@) is None,
        },
        r matches Ok(v) ==> total_count(buckets_view(v@)) <= u64::MAX,
{
    if s.len() < 2 {
        return Err(ParseBucketSetError {});
    }
    let closer: u8 = if s[0] == 91 {
        93
    } else if s[0] == 40 {
        41
    } else if s[0] == 123 {
        125
    } else {
        return Err(ParseBucketSetError {});
    };
    if s[s.len() - 1] != closer {
        return Err(ParseBucketSetError {});
    }
    let (_, after_open) = s.split_at(1);
    assert(after_open@ =~= s@.drop_first());
    let mut rest = trim_start(after_open);
    let mut first = true;
    let mut out: Vec<(Vec<u8>, u64)> = Vec::new();
    let mut total: u64 = 0;
    assert(buckets_view(out@) + Seq::<(Seq<u8>, u64)>::empty() =~= Seq::<(Seq<u8>, u64)>::empty());
    assert forall|b: Seq<(Seq<u8>, u64)>| buckets_view(out@) + b =~= b by {}
    while rest.len() > 1
        invariant
            buckets_of(s@) == finish(buckets_view(out@), rest@, closer, first),
            total == total_count(buckets_view(out@)),
            closer == 93 || closer == 41 || closer == 125,
        decreases rest@.len(),
    {
        let ghost r0 = rest@;
        let ghost out0 = buckets_view(out@);
        let (key, count, after) = match parse_one_bucket(rest, closer, first) {
            Some(x) => x,
            None => {
                return Err(ParseBucketSetError {});
            },
        };
        rest = after;
        let ghost entry = (key@, count);
        proof {
            lemma_bucket_at_shorter(r0, closer, first);
            match parse_buckets(rest@, closer, false) {
                Some(b) => {
                    assert(parse_buckets(r0, closer, first) == Some(seq![entry] + b));
                    assert(out0.push(entry) + b =~= out0 + (seq![entry] + b));
                    lemma_total_append(out0.push(entry), b);
                },
                None => {
                    assert(parse_buckets(r0, closer, first) is None);
                },
            }
            assert(out0.push(entry).drop_last() =~= out0);
        }
        let t = total.checked_add(count);
        let new_total = match t {
            Some(t) => t,
            None => {
                return Err(ParseBucketSetError {});
            },
        };
        total = new_total;
        out.push((key, count));
        assert(buckets_view(out@) =~= out0.push(entry));
        first = false;
    }
    if rest.len() != 1 {
        return Err(ParseBucketSetError {});
    }
    assert(buckets_view(out@) + Seq::<(Seq<u8>, u64)>::empty() =~= buckets_view(out@));
    Ok(out)
}


/// The decimal digits of `n`, most significant first, with no leading zeros.
pub open spec fn decimal_bytes(n: nat) -> Seq<u8>
    decreases n,
{
    if n < 10 {
        seq![(48 + n) as u8]
    } else {
        decimal_bytes(n / 10).push((48 + n % 10) as u8)
    }
}

/// A bucket as written: `[key,count]`.
pub open spec fn rendered_bucket(e: (Seq<u8>, u64)) -> Seq<u8> {
    seq![91u8] + e.0 + seq![44u8] + decimal_bytes(e.1 as nat) + seq![93u8]
}

/// The buckets `b` as written after the opening bracket of a set, up to and including its
/// closing bracket; `first` says whether they start the set, else a comma comes first.
pub open spec fn rendered_tail(b: Seq<(Seq<u8>, u64)>, first: bool) -> Seq<u8>
    decreases b.len(),
{
    if b.len() == 0 {
        seq![93u8]
    } else {
        (if first {
            Seq::empty()
        } else {
            seq![44u8]
        }) + rendered_bucket(b[0]) + rendered_tail(b.drop_first(), false)
    }
}

/// A bucket set as written: `[` and its buckets separated by commas, then `]`.
pub open spec fn rendered_set(b: Seq<(Seq<u8>, u64)>) -> Seq<u8> {
    seq![91u8] + rendered_tail(b, true)
}

/// Append the decimal digits of `n` to `out`.
fn push_decimal(out: &mut Vec<u8>, n: u64)
    ensures
        final(out)@ == old(out)@ + decimal_bytes(n as nat),
    decreases n,
{
    if n >= 10 {
        push_decimal(out, n / 10);
    }
    out.push(48 + (n % 10) as u8);
    proof {
        if n < 10 {
            assert(decimal_bytes(n as nat) == seq![(48 + n) as u8]);
        }
    }
    assert(final(out)@ =~= old(out)@ + decimal_bytes(n as nat));
}

/// Write a bucket set as text: each bucket's key text and count as `[key,count]`,
/// separated by commas, within `[]`.
pub fn format_bucket_set(buckets: &[(Vec<u8>, u64)]) -> (r: Vec<u8>)
    ensures
        r@ == rendered_set(buckets_view(buckets@)),
{
    let ghost b = buckets_view(buckets@);
    let mut out: Vec<u8> = Vec::new();
    out.push(91);
    let mut i: usize = 0;
    assert(b.skip(0) =~= b);
    while i < buckets.len()
        invariant
            i <= buckets@.len(),
            b == buckets_view(buckets@),
            out@ + rendered_tail(b.skip(i as int), i == 0) == rendered_set(b),
        decreases buckets@.len() - i,
    {
        let ghost before = out@;
        let ghost rest = b.skip(i as int);
        assert(rest.drop_first() =~= b.skip(i + 1));
        assert(rest[0] == b[i as int]);
        if i > 0 {
            out.push(44);
        }
        out.push(91);
        let (k, c) = &buckets[i];
        let mut j: usize = 0;
        let ghost mid = out@;
        while j < k.len()
            invariant
                j <= k@.len(),
                out@ == mid + k@.take(j as int),
            decreases k@.len() - j,
        {
            out.push(k[j]);
            assert(k@.take(j + 1) =~= k@.take(j as int).push(k@[j as int]));
            j = j + 1;
        }
        assert(k@.take(j as int) =~= k@);
        out.push(44);
        push_decimal(&mut out, *c);
        out.push(93);
        proof {
            let sep = if i == 0 {
                Seq::<u8>::empty()
            } else {
                seq![44u8]
            };
            assert(before + sep + rendered_bucket(b[i as int]) =~= out@);
            assert(rendered_tail(rest, i == 0) == sep + rendered_bucket(b[i as int]) + rendered_tail(
                b.skip(i + 1),
                false,
            ));
            assert(out@ + rendered_tail(b.skip(i + 1), false) =~= before + rendered_tail(rest, i == 0));
        }
        i = i + 1;
    }
    assert(b.skip(i as int) =~= Seq::<(Seq<u8>, u64)>::empty());
    out.push(93);
    assert(out@ =~= rendered_set(b));
    out
}

/// In `a + [x] + c`, where no byte of `a` is a needle and `x` is one, the needle found is
/// `x`, right after `a`.
proof fn lemma_find_after(a: Seq<u8>, x: u8, c: Seq<u8>, needles: Seq<(u8, u8)>)
    requires
        forall|i: int| 0 <= i < a.len() ==> needle_skip(needles, #[trigger] a[i]) is None,
        needle_skip(needles, x) is Some,
    ensures
        find_spec(a + seq![x] + c, needles) == Some((a.len() as int, needle_skip(needles, x)->0)),
    decreases a.len(),
{
    let s = a + seq![x] + c;
    if a.len() > 0 {
        assert(s.drop_first() =~= a.drop_first() + seq![x] + c);
        assert(s[0] == a[0]);
        assert forall|i: int| 0 <= i < a.drop_first().len() implies needle_skip(
            needles,
            #[trigger] a.drop_first()[i],
        ) is None by {
            assert(a.drop_first()[i] == a[i + 1]);
        }
        lemma_find_after(a.drop_first(), x, c, needles);
    } else {
        assert(s[0] == x);
    }
}

/// Text that starts with other than whitespace is its own start-trim.
proof fn lemma_trim_start_none(s: Seq<u8>)
    requires
        s.len() > 0 ==> !is_ascii_ws(s[0]),
    ensures
        trim_start_spec(s) == s,
{
}

/// Digits are their own trim, and read back as their number.
proof fn lemma_decimal_bytes(n: nat)
    ensures
        decimal_bytes(n).len() > 0,
        all_digits(decimal_bytes(n)),
        digits_value(decimal_bytes(n)) == n,
        trimmed(decimal_bytes(n)) == decimal_bytes(n),
    decreases n,
{
    let d = decimal_bytes(n);
    if n >= 10 {
        lemma_decimal_bytes(n / 10);
        assert(d.drop_last() =~= decimal_bytes(n / 10));
        assert(n == (n / 10) * 10 + n % 10) by (nonlinear_arith);
        assert(d.last() == 48 + n % 10);
        assert(digits_value(d) == digits_value(d.drop_last()) * 10 + (d.last() - 48) as nat);
        assert forall|i: int| 0 <= i < d.len() implies is_digit(#[trigger] d[i]) by {
            if i < d.len() - 1 {
                assert(d[i] == decimal_bytes(n / 10)[i]);
            }
        }
    }
    else {
        assert(d.drop_last() =~= Seq::<u8>::empty());
        assert(d.last() == 48 + n);
        assert(digits_value(d) == digits_value(d.drop_last()) * 10 + (d.last() - 48) as nat);
    }
    assert(!is_ascii_ws(d[0]));
    assert(!is_ascii_ws(d.last()));
    lemma_trim_start_none(d);
}

/// The first bucket of rendered text is read back, with the text after it.
proof fn lemma_bucket_at_rendered(e: (Seq<u8>, u64), tail: Seq<u8>, first: bool)
    requires
        plain_key(e.0),
        tail.len() > 0,
        tail[0] == 44u8 || tail[0] == 93u8,
    ensures
        bucket_at(
            (if first {
                Seq::empty()
            } else {
                seq![44u8]
            }) + rendered_bucket(e) + tail,
            93,
            first,
        ) == Some((e, tail)),
{
    let k = e.0;
    let v = decimal_bytes(e.1 as nat);
    lemma_decimal_bytes(e.1 as nat);
    let s = (if first {
        Seq::empty()
    } else {
        seq![44u8]
    }) + rendered_bucket(e) + tail;
    let s1 = seq![91u8] + k + seq![44u8] + v + seq![93u8] + tail;
    if first {
        assert(s =~= s1);
    } else {
        assert(s =~= seq![44u8] + s1);
        assert(s.drop_first() =~= s1);
        lemma_trim_start_none(s1);
    }
    assert(after_separator(s, first) == Some(s1));
    let s2 = k + seq![44u8] + (v + seq![93u8] + tail);
    assert(s1.skip(1) =~= s2);
    let key_end = seq![(44u8, 1u8), (58u8, 1u8), (61u8, 1u8)];
    reveal_with_fuel(needle_skip, 4);
    assert forall|i: int| 0 <= i < k.len() implies needle_skip(key_end, #[trigger] k[i]) is None by {
        assert(k[i] != 44u8 && k[i] != 58u8 && k[i] != 61u8);
    }
    assert(needle_skip(key_end, 44u8) == Some(1int));
    lemma_find_after(k, 44u8, v + seq![93u8] + tail, key_end);
    assert(find_spec(s2, key_end) == Some((k.len() as int, 1int)));
    assert(s2.take(k.len() as int) =~= k);
    let s3 = v + seq![93u8] + tail;
    assert(s2.skip(k.len() as int + 1) =~= s3);
    let count_end = seq![(93u8, 1u8)];
    assert forall|i: int| 0 <= i < v.len() implies needle_skip(count_end, #[trigger] v[i]) is None by {
        assert(is_digit(v[i]));
    }
    assert(needle_skip(count_end, 93u8) == Some(1int));
    lemma_find_after(v, 93u8, tail, count_end);
    assert(find_spec(s3, seq![(93u8, 1u8)]) == Some((v.len() as int, 1int)));
    assert(s3.take(v.len() as int) =~= v);
    assert(s3.skip(v.len() as int + 1) =~= tail);
    assert(count_digits(v) == v);
    assert(count_of(v) == Some(e.1));
    lemma_trim_start_none(tail);
}

/// Reading the buckets of rendered text gives them back.
proof fn lemma_parse_rendered_tail(b: Seq<(Seq<u8>, u64)>, first: bool)
    requires
        forall|i: int| 0 <= i < b.len() ==> plain_key(#[trigger] b[i].0),
    ensures
        parse_buckets(rendered_tail(b, first), 93, first) == Some(b),
    decreases b.len(),
{
    let s = rendered_tail(b, first);
    if b.len() > 0 {
        let e = b[0];
        let tail = rendered_tail(b.drop_first(), false);
        assert forall|i: int| 0 <= i < b.drop_first().len() implies plain_key(#[trigger] b.drop_first()[i].0) by {
            assert(b.drop_first()[i] == b[i + 1]);
        }
        lemma_parse_rendered_tail(b.drop_first(), false);
        if b.drop_first().len() > 0 {
            assert(tail[0] == 44u8);
        } else {
            assert(tail[0] == 93u8);
        }
        lemma_bucket_at_rendered(e, tail, first);
        lemma_bucket_at_shorter(s, 93, first);
        assert(s.len() > 1);
        assert(seq![e] + b.drop_first() =~= b);
    }
}

/// The last byte of rendered buckets is the closing bracket.
proof fn lemma_rendered_tail_last(b: Seq<(Seq<u8>, u64)>, first: bool)
    ensures
        rendered_tail(b, first).len() > 0,
        rendered_tail(b, first).last() == 93u8,
    decreases b.len(),
{
    if b.len() > 0 {
        lemma_rendered_tail_last(b.drop_first(), false);
    }
}

/// Key text that reads back as itself: no comma, colon or equals sign, and no whitespace
/// at either end.
pub open spec fn plain_key(k: Seq<u8>) -> bool {
    &&& forall|i: int| 0 <= i < k.len() ==> k[i] != 44u8 && k[i] != 58u8 && k[i] != 61u8
    &&& trimmed(k) == k
}

/// Writing buckets as text and reading it back gives the same buckets, where no key text
/// holds a comma, colon or equals sign or starts or ends with whitespace, and the counts total at most
/// `u64::MAX`.
pub proof fn law_bucket_set_text_roundtrip(b: Seq<(Seq<u8>, u64)>)
    requires
        forall|i: int| 0 <= i < b.len() ==> plain_key(#[trigger] b[i].0),
        total_count(b) <= u64::MAX,
    ensures
        buckets_of(rendered_set(b)) == Some(b),
{
    let s = rendered_set(b);
    lemma_rendered_tail_last(b, true);
    assert(s.drop_first() =~= rendered_tail(b, true));
    if b.len() > 0 {
        assert(rendered_tail(b, true)[0] == 91u8);
    }
    lemma_trim_start_none(rendered_tail(b, true));
    lemma_parse_rendered_tail(b, true);
    assert(s.last() == 93u8);
}

} // verus!

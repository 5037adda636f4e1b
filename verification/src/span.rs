//! Trace and span identifiers, and the span context that carries them.
use vstd::prelude::*;
use vstd::string::*;

pub mod guard;

use crate::buf::Buffer;
use crate::platform::thread_local_ctxt::ThreadLocalCtxtFrame;
use crate::text::{
    ascii_chars, lemma_ascii_chars_encode, lemma_hex_of_bytes_lower, lemma_lower_hex_ascii,
    lower_hex_to_string,
};
use vstd::utf8::encode_utf8;
use crate::hex::{
    be_bytes, be_slice_to_u128, be_slice_to_u64, be_value, decode_hex_byte, encode_hex_byte, hex_digit_value, hex_num,
    hex_of_bytes, is_hex, lemma_be_bytes_of_value, lemma_be_value_bound, lemma_hex_of_bytes, lemma_be_value_of_bytes, lemma_be_value_push,
    lemma_hex_num_pair, lemma_hex_of_bytes_push, lemma_pow256_16, u128_to_be_bytes, u64_to_be_bytes,
};

verus! {

/// The value of a trace id parsed from hex, if `hex` is one: exactly 32 hex digits
/// denoting a non-zero number.
pub open spec fn parse_trace_hex(hex: Seq<u8>) -> Option<u128> {
    if hex.len() == 32 && is_hex(hex) && hex_num(hex) != 0 {
        Some(hex_num(hex) as u128)
    } else {
        None
    }
}

/// The value of a span id parsed from hex, if `hex` is one: exactly 16 hex digits
/// denoting a non-zero number.
pub open spec fn parse_span_hex(hex: Seq<u8>) -> Option<u64> {
    if hex.len() == 16 && is_hex(hex) && hex_num(hex) != 0 {
        Some(hex_num(hex) as u64)
    } else {
        None
    }
}

/// The 32 lowercase hex digits of a trace id value.
pub open spec fn trace_hex(v: u128) -> Seq<u8> {
    hex_of_bytes(be_bytes(v as nat, 16))
}

/// The 16 lowercase hex digits of a span id value.
pub open spec fn span_hex(v: u64) -> Seq<u8> {
    hex_of_bytes(be_bytes(v as nat, 8))
}

/// An error encountered attempting to parse a [`TraceId`] or [`SpanId`].
#[derive(Debug, PartialEq, Eq, Structural)]
pub struct ParseIdError {}

impl ParseIdError {
    /// The error's message.
    pub fn to_string(&self) -> (r: String)
        ensures
            r@ == "the input was not a valid id"@,
    {
        String::from_str("the input was not a valid id")
    }
}

/// A [W3C Trace Id](https://www.w3.org/TR/trace-context/#trace-id): a non-zero 128-bit number.
#[derive(Clone, Copy, Debug, PartialEq, Eq, Structural, Hash)]
pub struct TraceId(u128);

impl View for TraceId {
    type V = u128;

    closed spec fn view(&self) -> u128 {
        self.0
    }
}

impl TraceId {
    #[verifier::type_invariant]
    spec fn non_zero(self) -> bool {
        self.0 != 0
    }

    /// Create a trace id from a random number, as generated by an rng.
    ///
    /// This is `None` if the rng produced nothing (`None`), or if it produced `0`.
    pub fn random(rand: Option<u128>) -> (r: Option<Self>)
        ensures
            r matches Some(id) ==> rand == Some(id@),
            r is Some <==> (rand matches Some(v) && v != 0),
    {
        match rand {
            Some(v) => Self::from_u128(v),
            None => None,
        }
    }

    /// Create a trace id from a non-zero integer.
    pub fn new(v: u128) -> (r: Self)
        requires
            v != 0,
        ensures
            r@ == v,
    {
        TraceId(v)
    }

    /// Try create a trace id from an integer; `None` if `v` is `0`.
    pub fn from_u128(v: u128) -> (r: Option<Self>)
        ensures
            r is Some <==> v != 0,
            r matches Some(id) ==> id@ == v,
    {
        if v == 0 {
            None
        } else {
            Some(TraceId(v))
        }
    }

    /// The value of the trace id as an integer.
    pub fn to_u128(&self) -> (r: u128)
        ensures
            r == self@,
            r != 0,
    {
        proof {
            use_type_invariant(self);
        }
        self.0
    }

    /// Get a trace id from a 16 byte big-endian array; `None` if all bytes are `0`.
    pub fn from_bytes(v: [u8; 16]) -> (r: Option<Self>)
        ensures
            r is Some <==> be_value(v@) != 0,
            r matches Some(id) ==> id@ == be_value(v@),
    {
        let n = be_slice_to_u128(v.as_slice());
        Self::from_u128(n)
    }

    /// Convert the trace id into a 16 byte big-endian array.
    pub fn to_bytes(&self) -> (r: [u8; 16])
        ensures
            r@ == be_bytes(self@ as nat, 16),
    {
        u128_to_be_bytes(self.0)
    }

    /// Convert the trace id into 32 lowercase ASCII hex digits, like `4bf92f3577b34da6a3ce929d0e0e4736`.
    pub fn to_hex(&self) -> (r: [u8; 32])
        ensures
            r@ == trace_hex(self@),
    {
        let src = self.to_bytes();
        let mut dst = [0u8; 32];
        let mut i: usize = 0;
        proof {
            lemma_be_value_of_bytes(self@ as nat, 16);
        }
        while i < 16
            invariant
                i <= 16,
                src@.len() == 16,
                dst@.len() == 32,
                dst@.take(2 * i as int) =~= hex_of_bytes(src@.take(i as int)),
            decreases 16 - i,
        {
            let (hi, lo) = encode_hex_byte(src[i]);
            let ghost before = dst@;
            dst[i * 2] = hi;
            dst[i * 2 + 1] = lo;
            proof {
                lemma_hex_of_bytes_push(src@, i as int);
                assert(dst@.take(2 * i as int) =~= before.take(2 * i as int));
            }
            i = i + 1;
        }
        assert(src@.take(16) =~= src@);
        assert(dst@.take(32) =~= dst@);
        dst
    }

    /// Try parse a slice of ASCII hex bytes into a trace id.
    ///
    /// This fails unless `hex` is exactly 32 hex digits (`[a-fA-F0-9]`) denoting a non-zero number.
    pub fn try_from_hex_slice(hex: &[u8]) -> (r: Result<Self, ParseIdError>)
        ensures
            r is Ok <==> parse_trace_hex(hex@) is Some,
            r matches Ok(id) ==> parse_trace_hex(hex@) == Some(id@),
    {
        if hex.len() != 32 {
            return Err(ParseIdError {});
        }
        let mut dst = [0u8; 16];
        let mut i: usize = 0;
        while i < 16
            invariant
                i <= 16,
                hex@.len() == 32,
                dst@.len() == 16,
                is_hex(hex@.take(2 * i as int)),
                be_value(dst@.take(i as int)) == hex_num(hex@.take(2 * i as int)),
            decreases 16 - i,
        {
            let b = match decode_hex_byte(hex[i * 2], hex[i * 2 + 1]) {
                Some(b) => b,
                None => {
                    assert(!is_hex(hex@));
                    return Err(ParseIdError {});
                },
            };
            let ghost before = dst@;
            dst[i] = b;
            proof {
                let d1 = hex_digit_value(hex@[2 * i as int]).unwrap();
                let d2 = hex_digit_value(hex@[2 * i + 1]).unwrap();
                lemma_hex_num_pair(hex@, i as int, d1, d2);
                lemma_be_value_push(dst@, i as int);
                assert(dst@.take(i as int) =~= before.take(i as int));
            }
            i = i + 1;
        }
        assert(dst@.take(16) =~= dst@);
        assert(hex@.take(32) =~= hex@);
        let v = be_slice_to_u128(dst.as_slice());
        if v == 0 {
            return Err(ParseIdError {});
        }
        Ok(TraceId(v))
    }

    /// The text of the trace id: its 32 lowercase hex digits.
    pub fn to_string(&self) -> (r: String)
        ensures
            r@ == ascii_chars(trace_hex(self@)),
    {
        let hex = self.to_hex();
        proof {
            lemma_hex_of_bytes_lower(be_bytes(self@ as nat, 16));
        }
        lower_hex_to_string(hex.as_slice())
    }

    /// Try parse the text of a trace id, as written by its `Display`.
    ///
    /// This fails unless `hex` is exactly 32 hex digits (`[a-fA-F0-9]`) denoting a non-zero number.
    pub fn try_from_hex(hex: &str) -> (r: Result<Self, ParseIdError>)
        ensures
            r is Ok <==> parse_trace_hex(hex.spec_bytes()) is Some,
            r matches Ok(id) ==> parse_trace_hex(hex.spec_bytes()) == Some(id@),
    {
        let mut buf = Buffer::<32>::new();
        match buf.buffer(hex) {
            Ok(bytes) => Self::try_from_hex_slice(bytes),
            Err(_) => Err(ParseIdError {}),
        }
    }
}

/// A [W3C Span Id](https://www.w3.org/TR/trace-context/#parent-id): a non-zero 64-bit number.
#[derive(Clone, Copy, Debug, PartialEq, Eq, Structural, Hash)]
pub struct SpanId(u64);

impl View for SpanId {
    type V = u64;

    closed spec fn view(&self) -> u64 {
        self.0
    }
}

impl SpanId {
    #[verifier::type_invariant]
    spec fn non_zero(self) -> bool {
        self.0 != 0
    }

    /// Create a span id from a random number, as generated by an rng.
    ///
    /// This is `None` if the rng produced nothing (`None`), or if it produced `0`.
    pub fn random(rand: Option<u64>) -> (r: Option<Self>)
        ensures
            r matches Some(id) ==> rand == Some(id@),
            r is Some <==> (rand matches Some(v) && v != 0),
    {
        match rand {
            Some(v) => Self::from_u64(v),
            None => None,
        }
    }

    /// Create a span id from a non-zero integer.
    pub fn new(v: u64) -> (r: Self)
        requires
            v != 0,
        ensures
            r@ == v,
    {
        SpanId(v)
    }

    /// Try create a span id from an integer; `None` if `v` is `0`.
    pub fn from_u64(v: u64) -> (r: Option<Self>)
        ensures
            r is Some <==> v != 0,
            r matches Some(id) ==> id@ == v,
    {
        if v == 0 {
            None
        } else {
            Some(SpanId(v))
        }
    }

    /// The value of the span id as an integer.
    pub fn to_u64(&self) -> (r: u64)
        ensures
            r == self@,
            r != 0,
    {
        proof {
            use_type_invariant(self);
        }
        self.0
    }

    /// Get a span id from a 8 byte big-endian array; `None` if all bytes are `0`.
    pub fn from_bytes(v: [u8; 8]) -> (r: Option<Self>)
        ensures
            r is Some <==> be_value(v@) != 0,
            r matches Some(id) ==> id@ == be_value(v@),
    {
        let n = be_slice_to_u64(v.as_slice());
        Self::from_u64(n)
    }

    /// Convert the span id into a 8 byte big-endian array.
    pub fn to_bytes(&self) -> (r: [u8; 8])
        ensures
            r@ == be_bytes(self@ as nat, 8),
    {
        u64_to_be_bytes(self.0)
    }

    /// Convert the span id into 16 lowercase ASCII hex digits, like `00f067aa0ba902b7`.
    pub fn to_hex(&self) -> (r: [u8; 16])
        ensures
            r@ == span_hex(self@),
    {
        let src = self.to_bytes();
        let mut dst = [0u8; 16];
        let mut i: usize = 0;
        proof {
            lemma_be_value_of_bytes(self@ as nat, 8);
        }
        while i < 8
            invariant
                i <= 8,
                src@.len() == 8,
                dst@.len() == 16,
                dst@.take(2 * i as int) =~= hex_of_bytes(src@.take(i as int)),
            decreases 8 - i,
        {
            let (hi, lo) = encode_hex_byte(src[i]);
            let ghost before = dst@;
            dst[i * 2] = hi;
            dst[i * 2 + 1] = lo;
            proof {
                lemma_hex_of_bytes_push(src@, i as int);
                assert(dst@.take(2 * i as int) =~= before.take(2 * i as int));
            }
            i = i + 1;
        }
        assert(src@.take(8) =~= src@);
        assert(dst@.take(16) =~= dst@);
        dst
    }

    /// Try parse a slice of ASCII hex bytes into a span id.
    ///
    /// This fails unless `hex` is exactly 16 hex digits (`[a-fA-F0-9]`) denoting a non-zero number.
    pub fn try_from_hex_slice(hex: &[u8]) -> (r: Result<Self, ParseIdError>)
        ensures
            r is Ok <==> parse_span_hex(hex@) is Some,
            r matches Ok(id) ==> parse_span_hex(hex@) == Some(id@),
    {
        if hex.len() != 16 {
            return Err(ParseIdError {});
        }
        let mut dst = [0u8; 8];
        let mut i: usize = 0;
        while i < 8
            invariant
                i <= 8,
                hex@.len() == 16,
                dst@.len() == 8,
                is_hex(hex@.take(2 * i as int)),
                be_value(dst@.take(i as int)) == hex_num(hex@.take(2 * i as int)),
            decreases 8 - i,
        {
            let b = match decode_hex_byte(hex[i * 2], hex[i * 2 + 1]) {
                Some(b) => b,
                None => {
                    assert(!is_hex(hex@));
                    return Err(ParseIdError {});
                },
            };
            let ghost before = dst@;
            dst[i] = b;
            proof {
                let d1 = hex_digit_value(hex@[2 * i as int]).unwrap();
                let d2 = hex_digit_value(hex@[2 * i + 1]).unwrap();
                lemma_hex_num_pair(hex@, i as int, d1, d2);
                lemma_be_value_push(dst@, i as int);
                assert(dst@.take(i as int) =~= before.take(i as int));
            }
            i = i + 1;
        }
        assert(dst@.take(8) =~= dst@);
        assert(hex@.take(16) =~= hex@);
        let v = be_slice_to_u64(dst.as_slice());
        if v == 0 {
            return Err(ParseIdError {});
        }
        Ok(SpanId(v))
    }

    /// The text of the span id: its 16 lowercase hex digits.
    pub fn to_string(&self) -> (r: String)
        ensures
            r@ == ascii_chars(span_hex(self@)),
    {
        let hex = self.to_hex();
        proof {
            lemma_hex_of_bytes_lower(be_bytes(self@ as nat, 8));
        }
        lower_hex_to_string(hex.as_slice())
    }

    /// Try parse the text of a span id, as written by its `Display`.
    ///
    /// This fails unless `hex` is exactly 16 hex digits (`[a-fA-F0-9]`) denoting a non-zero number.
    pub fn try_from_hex(hex: &str) -> (r: Result<Self, ParseIdError>)
        ensures
            r is Ok <==> parse_span_hex(hex.spec_bytes()) is Some,
            r matches Ok(id) ==> parse_span_hex(hex.spec_bytes()) == Some(id@),
    {
        let mut buf = Buffer::<16>::new();
        match buf.buffer(hex) {
            Ok(bytes) => Self::try_from_hex_slice(bytes),
            Err(_) => Err(ParseIdError {}),
        }
    }
}

impl core::str::FromStr for TraceId {
    type Err = ParseIdError;

    fn from_str(s: &str) -> (r: Result<Self, Self::Err>)
        ensures
            r is Ok <==> parse_trace_hex(s.spec_bytes()) is Some,
            r matches Ok(id) ==> parse_trace_hex(s.spec_bytes()) == Some(id@),
    {
        Self::try_from_hex_slice(s.as_bytes())
    }
}

impl core::str::FromStr for SpanId {
    type Err = ParseIdError;

    fn from_str(s: &str) -> (r: Result<Self, Self::Err>)
        ensures
            r is Ok <==> parse_span_hex(s.spec_bytes()) is Some,
            r matches Ok(id) ==> parse_span_hex(s.spec_bytes()) == Some(id@),
    {
        Self::try_from_hex_slice(s.as_bytes())
    }
}

/// A trace id drawn from a random number `rand`: present exactly when the number is
/// present and non-zero, and then equal to it.
pub open spec fn trace_from_rand(rand: Option<u128>, id: Option<TraceId>) -> bool {
    match id {
        Some(t) => rand == Some(t@) && t@ != 0,
        None => !(rand matches Some(v) && v != 0),
    }
}

/// A span id drawn from a random number `rand`: present exactly when the number is
/// present and non-zero, and then equal to it.
pub open spec fn span_from_rand(rand: Option<u64>, id: Option<SpanId>) -> bool {
    match id {
        Some(s) => rand == Some(s@) && s@ != 0,
        None => !(rand matches Some(v) && v != 0),
    }
}

/// Every non-zero trace id value is read back from its hex text.
pub proof fn law_trace_hex_roundtrip(v: u128)
    requires
        v != 0,
    ensures
        parse_trace_hex(trace_hex(v)) == Some(v),
        parse_trace_hex(encode_utf8(ascii_chars(trace_hex(v)))) == Some(v),
{
    lemma_hex_of_bytes(be_bytes(v as nat, 16));
    lemma_be_value_of_bytes(v as nat, 16);
    lemma_pow256_16();
    lemma_hex_of_bytes_lower(be_bytes(v as nat, 16));
    lemma_lower_hex_ascii(trace_hex(v));
    lemma_ascii_chars_encode(trace_hex(v));
}

/// Every non-zero span id value is read back from its hex text.
pub proof fn law_span_hex_roundtrip(v: u64)
    requires
        v != 0,
    ensures
        parse_span_hex(span_hex(v)) == Some(v),
        parse_span_hex(encode_utf8(ascii_chars(span_hex(v)))) == Some(v),
{
    lemma_hex_of_bytes(be_bytes(v as nat, 8));
    lemma_be_value_of_bytes(v as nat, 8);
    lemma_pow256_16();
    lemma_hex_of_bytes_lower(be_bytes(v as nat, 8));
    lemma_lower_hex_ascii(span_hex(v));
    lemma_ascii_chars_encode(span_hex(v));
}

/// The big-endian bytes of an id value read back as the same value, and bytes read
/// as a value are written back as the same bytes.
pub proof fn law_id_bytes_roundtrip(v: u128, w: u64, bytes: Seq<u8>)
    ensures
        be_value(be_bytes(v as nat, 16)) == v,
        be_value(be_bytes(w as nat, 8)) == w,
        be_bytes(be_value(bytes), bytes.len()) == bytes,
{
    lemma_be_value_of_bytes(v as nat, 16);
    lemma_be_value_of_bytes(w as nat, 8);
    lemma_pow256_16();
    lemma_be_bytes_of_value(bytes);
}

/// The trace id, span id, and parent span id of a span.
///
/// A span whose trace id or span id is missing is invalid, but can still be used.
#[derive(Clone, Copy, Debug, PartialEq, Eq, Structural, Hash)]
pub struct SpanCtxt {
    trace_id: Option<TraceId>,
    span_parent: Option<SpanId>,
    span_id: Option<SpanId>,
}

impl View for SpanCtxt {
    /// The trace id, the parent span id and the span id.
    type V = (Option<TraceId>, Option<SpanId>, Option<SpanId>);

    closed spec fn view(&self) -> Self::V {
        (self.trace_id, self.span_parent, self.span_id)
    }
}

impl SpanCtxt {
    /// Create the context from a set of identifiers.
    pub fn new(trace_id: Option<TraceId>, span_parent: Option<SpanId>, span_id: Option<SpanId>) -> (r: Self)
        ensures
            r@ == (trace_id, span_parent, span_id),
    {
        SpanCtxt { trace_id, span_parent, span_id }
    }

    /// Create a context where all identifiers are `None`.
    pub fn empty() -> (r: Self)
        ensures
            r@ == (None::<TraceId>, None::<SpanId>, None::<SpanId>),
    {
        SpanCtxt { trace_id: None, span_parent: None, span_id: None }
    }

    /// Read the context of the current frame of an ambient context: its inline trace id,
    /// parent span id and span id. A value held under one of their keys with the frame's
    /// other properties is one that could not be read as an id, so it is not read here.
    pub fn current<T>(frame: &ThreadLocalCtxtFrame<T>) -> (r: Self)
        ensures
            r@ == (frame@.trace_id, frame@.span_parent, frame@.span_id),
    {
        SpanCtxt::new(frame.trace_id(), frame.span_parent(), frame.span_id())
    }

    /// Generate a new root context from two random numbers drawn from an rng: one for
    /// the trace id and one for the span id. The root has no parent.
    pub fn new_root(trace_rand: Option<u128>, span_rand: Option<u64>) -> (r: Self)
        ensures
            trace_from_rand(trace_rand, r@.0),
            r@.1 is None,
            span_from_rand(span_rand, r@.2),
    {
        let trace_id = TraceId::random(trace_rand);
        let span_id = SpanId::random(span_rand);
        SpanCtxt::new(trace_id, None, span_id)
    }

    /// Generate a new context that is a child of `self`.
    ///
    /// The child shares the trace id of `self`, has the span id of `self` as its parent,
    /// and a new span id drawn from `span_rand`. If `self` has no trace id, a new one is
    /// drawn from `trace_rand`, which is otherwise unused.
    pub fn new_child(&self, trace_rand: Option<u128>, span_rand: Option<u64>) -> (r: Self)
        ensures
            self@.0 is Some ==> r@.0 == self@.0,
            self@.0 is None ==> trace_from_rand(trace_rand, r@.0),
            r@.1 == self@.2,
            span_from_rand(span_rand, r@.2),
    {
        let trace_id = match self.trace_id {
            Some(t) => Some(t),
            None => TraceId::random(trace_rand),
        };
        let span_parent = self.span_id;
        let span_id = SpanId::random(span_rand);
        SpanCtxt::new(trace_id, span_parent, span_id)
    }

    /// The trace id of the span.
    pub fn trace_id(&self) -> (r: Option<&TraceId>)
        ensures
            r is None <==> self@.0 is None,
            r matches Some(v) ==> self@.0 == Some(*v),
    {
        self.trace_id.as_ref()
    }

    /// The parent of the span.
    pub fn span_parent(&self) -> (r: Option<&SpanId>)
        ensures
            r is None <==> self@.1 is None,
            r matches Some(v) ==> self@.1 == Some(*v),
    {
        self.span_parent.as_ref()
    }

    /// The id of the span.
    pub fn span_id(&self) -> (r: Option<&SpanId>)
        ensures
            r is None <==> self@.2 is None,
            r matches Some(v) ==> self@.2 == Some(*v),
    {
        self.span_id.as_ref()
    }
}

} // verus!

//! Byte-slice helpers for small parsers, and a fixed-capacity text buffer.
use vstd::prelude::*;
use vstd::string::*;

verus! {

/// An ASCII whitespace byte: space, tab, line feed, form feed or carriage return.
pub open spec fn is_ascii_ws(b: u8) -> bool {
    b == 32 || b == 9 || b == 10 || b == 12 || b == 13
}

/// `s` without its leading ASCII whitespace.
pub open spec fn trim_start_spec(s: Seq<u8>) -> Seq<u8>
    decreases s.len(),
{
    if s.len() > 0 && is_ascii_ws(s[0]) {
        trim_start_spec(s.drop_first())
    } else {
        s
    }
}

/// `s` without its trailing ASCII whitespace.
pub open spec fn trim_end_spec(s: Seq<u8>) -> Seq<u8>
    decreases s.len(),
{
    if s.len() > 0 && is_ascii_ws(s.last()) {
        trim_end_spec(s.drop_last())
    } else {
        s
    }
}

/// The skip count of the first needle entry, in the order given, whose byte is `b`.
pub open spec fn needle_skip(needle: Seq<(u8, u8)>, b: u8) -> Option<int>
    decreases needle.len(),
{
    if needle.len() == 0 {
        None
    } else if needle[0].0 == b {
        Some(needle[0].1 as int)
    } else {
        needle_skip(needle.drop_first(), b)
    }
}

/// The first position in `haystack` that holds any needle byte, with that needle's skip
/// count.
pub open spec fn find_spec(haystack: Seq<u8>, needle: Seq<(u8, u8)>) -> Option<(int, int)>
    decreases haystack.len(),
{
    if haystack.len() == 0 {
        None
    } else {
        match needle_skip(needle, haystack[0]) {
            Some(k) => Some((0, k)),
            None => match find_spec(haystack.drop_first(), needle) {
                Some((p, k)) => Some((p + 1, k)),
                None => None,
            },
        }
    }
}

/// What [`find_spec`] gives, said directly: the position holds a needle byte, with that
/// needle's skip count, and no earlier position holds one; or no position holds one.
pub proof fn lemma_find_spec(haystack: Seq<u8>, needle: Seq<(u8, u8)>)
    ensures
        match find_spec(haystack, needle) {
            Some((p, k)) => {
                &&& 0 <= p < haystack.len()
                &&& needle_skip(needle, haystack[p]) == Some(k)
                &&& forall|j: int| 0 <= j < p ==> needle_skip(needle, #[trigger] haystack[j]) is None
            },
            None => forall|j: int|
                0 <= j < haystack.len() ==> needle_skip(needle, #[trigger] haystack[j]) is None,
        },
    decreases haystack.len(),
{
    if haystack.len() > 0 {
        let t = haystack.drop_first();
        lemma_find_spec(t, needle);
        if needle_skip(needle, haystack[0]) is None {
            match find_spec(t, needle) {
                Some((p, k)) => {
                    assert(haystack[p + 1] == t[p]);
                    assert forall|j: int| 0 <= j < p + 1 implies needle_skip(
                        needle,
                        #[trigger] haystack[j],
                    ) is None by {
                        if j > 0 {
                            assert(haystack[j] == t[j - 1]);
                        }
                    }
                },
                None => {
                    assert forall|j: int| 0 <= j < haystack.len() implies needle_skip(
                        needle,
                        #[trigger] haystack[j],
                    ) is None by {
                        if j > 0 {
                            assert(haystack[j] == t[j - 1]);
                        }
                    }
                },
            }
        }
    }
}

proof fn lemma_trim_start_skip(s: Seq<u8>, i: int)
    requires
        0 <= i <= s.len(),
        forall|j: int| 0 <= j < i ==> is_ascii_ws(#[trigger] s[j]),
    ensures
        trim_start_spec(s) == trim_start_spec(s.skip(i)),
    decreases i,
{
    if i > 0 {
        assert(s.drop_first().skip(i - 1) =~= s.skip(i));
        lemma_trim_start_skip(s.drop_first(), i - 1);
    } else {
        assert(s.skip(0) =~= s);
    }
}

proof fn lemma_trim_end_take(s: Seq<u8>, i: int)
    requires
        0 <= i <= s.len(),
        forall|j: int| i <= j < s.len() ==> is_ascii_ws(#[trigger] s[j]),
    ensures
        trim_end_spec(s) == trim_end_spec(s.take(i)),
    decreases s.len() - i,
{
    if i < s.len() {
        assert(s.drop_last().take(i) =~= s.take(i));
        lemma_trim_end_take(s.drop_last(), i);
    } else {
        assert(s.take(i) =~= s);
    }
}

/// Strip leading ASCII whitespace from a byte slice.
pub fn trim_start(s: &[u8]) -> (r: &[u8])
    ensures
        r@ == trim_start_spec(s@),
{
    let mut start: usize = 0;
    while start < s.len() && (s[start] == 32 || s[start] == 9 || s[start] == 10 || s[start] == 12
        || s[start] == 13)
        invariant
            start <= s@.len(),
            forall|j: int| 0 <= j < start ==> is_ascii_ws(#[trigger] s@[j]),
        decreases s@.len() - start,
    {
        start = start + 1;
    }
    proof {
        lemma_trim_start_skip(s@, start as int);
    }
    let (_, rest) = s.split_at(start);
    assert(rest@ =~= s@.skip(start as int));
    rest
}

/// Strip trailing ASCII whitespace from a byte slice.
pub fn trim_end(s: &[u8]) -> (r: &[u8])
    ensures
        r@ == trim_end_spec(s@),
{
    let mut end: usize = s.len();
    while end > 0 && (s[end - 1] == 32 || s[end - 1] == 9 || s[end - 1] == 10 || s[end - 1] == 12
        || s[end - 1] == 13)
        invariant
            end <= s@.len(),
            forall|j: int| end <= j < s@.len() ==> is_ascii_ws(#[trigger] s@[j]),
        decreases end,
    {
        end = end - 1;
    }
    proof {
        lemma_trim_end_take(s@, end as int);
    }
    let (kept, _) = s.split_at(end);
    assert(kept@ =~= s@.take(end as int));
    kept
}

/// Strip leading and trailing ASCII whitespace from a byte slice.
pub fn trim(s: &[u8]) -> (r: &[u8])
    ensures
        r@ == trim_end_spec(trim_start_spec(s@)),
{
    trim_end(trim_start(s))
}

/// The skip count of the first needle entry, in the order given, whose byte is `b`.
fn needle_skip_of(needle: &[(u8, u8)], b: u8) -> (r: Option<u8>)
    ensures
        r matches Some(k) ==> needle_skip(needle@, b) == Some(k as int),
        r is None ==> needle_skip(needle@, b) is None,
{
    let mut i: usize = 0;
    assert(needle@.skip(0) =~= needle@);
    while i < needle.len()
        invariant
            i <= needle@.len(),
            needle_skip(needle@, b) == needle_skip(needle@.skip(i as int), b),
        decreases needle@.len() - i,
    {
        assert(needle@.skip(i as int).drop_first() =~= needle@.skip(i + 1));
        let (n, cs) = needle[i];
        if n == b {
            return Some(cs);
        }
        i = i + 1;
    }
    None
}

/// Find the first position in the haystack that holds any needle byte, returning that
/// position and the matched needle's skip count.
///
/// Each needle entry is a `(byte, skip)` pair; where a byte is listed twice, the first
/// entry's skip count applies.
pub fn find(haystack: &[u8], needle: &[(u8, u8)]) -> (r: Option<(usize, usize)>)
    ensures
        r matches Some((p, skip)) ==> find_spec(haystack@, needle@) == Some((p as int, skip as int)),
        r is None ==> find_spec(haystack@, needle@) is None,
{
    let mut i: usize = 0;
    assert(haystack@.skip(0) =~= haystack@);
    while i < haystack.len()
        invariant
            i <= haystack@.len(),
            find_spec(haystack@, needle@) == (match find_spec(haystack@.skip(i as int), needle@) {
                Some((p, k)) => Some((p + i, k)),
                None => None::<(int, int)>,
            }),
        decreases haystack@.len() - i,
    {
        assert(haystack@.skip(i as int).drop_first() =~= haystack@.skip(i + 1));
        assert(haystack@.skip(i as int)[0] == haystack@[i as int]);
        match needle_skip_of(needle, haystack[i]) {
            Some(cs) => {
                return Some((i, cs as usize));
            },
            None => {},
        }
        i = i + 1;
    }
    None
}

/// `a` sorts strictly before `b` in lexicographic byte order.
pub open spec fn lex_lt(a: Seq<u8>, b: Seq<u8>) -> bool
    decreases a.len(),
{
    if a.len() == 0 {
        b.len() > 0
    } else if b.len() == 0 {
        false
    } else if a[0] != b[0] {
        a[0] < b[0]
    } else {
        lex_lt(a.drop_first(), b.drop_first())
    }
}

/// Exactly one of `a < b`, `a == b`, `b < a` holds.
pub proof fn lemma_lex_trichotomy(a: Seq<u8>, b: Seq<u8>)
    ensures
        lex_lt(a, b) || a == b || lex_lt(b, a),
        !(lex_lt(a, b) && lex_lt(b, a)),
        !lex_lt(a, a),
    decreases a.len(),
{
    if a.len() > 0 && b.len() > 0 {
        lemma_lex_trichotomy(a.drop_first(), b.drop_first());
        if a[0] == b[0] && a.drop_first() == b.drop_first() {
            assert(a =~= seq![a[0]] + a.drop_first());
            assert(b =~= seq![b[0]] + b.drop_first());
        }
    } else if a.len() == 0 && b.len() == 0 {
        assert(a =~= b);
    }
    if a.len() > 0 {
        lemma_lex_trichotomy(a.drop_first(), a.drop_first());
    }
}

/// Lexicographic order is transitive.
pub proof fn lemma_lex_transitive(a: Seq<u8>, b: Seq<u8>, c: Seq<u8>)
    requires
        lex_lt(a, b),
        lex_lt(b, c),
    ensures
        lex_lt(a, c),
    decreases a.len(),
{
    if a.len() > 0 && b.len() > 0 && c.len() > 0 && a[0] == b[0] && b[0] == c[0] {
        lemma_lex_transitive(a.drop_first(), b.drop_first(), c.drop_first());
    }
}

/// Compare two byte strings lexicographically: `-1`, `0` or `1` as `a` sorts before,
/// equal to, or after `b`.
pub fn compare_bytes(a: &[u8], b: &[u8]) -> (r: i8)
    ensures
        r == -1 <==> lex_lt(a@, b@),
        r == 0 <==> a@ == b@,
        r == 1 <==> lex_lt(b@, a@),
        -1 <= r <= 1,
{
    proof {
        lemma_lex_trichotomy(a@, b@);
    }
    assert(a@.skip(0) =~= a@);
    assert(b@.skip(0) =~= b@);
    let mut i: usize = 0;
    while i < a.len() && i < b.len()
        invariant
            i <= a@.len(),
            i <= b@.len(),
            a@.take(i as int) == b@.take(i as int),
            lex_lt(a@, b@) == lex_lt(a@.skip(i as int), b@.skip(i as int)),
            lex_lt(b@, a@) == lex_lt(b@.skip(i as int), a@.skip(i as int)),
        decreases a@.len() - i,
    {
        assert(a@.skip(i as int)[0] == a@[i as int]);
        assert(b@.skip(i as int)[0] == b@[i as int]);
        if a[i] != b[i] {
            return if a[i] < b[i] {
                -1
            } else {
                1
            };
        }
        assert(a@.skip(i as int).drop_first() =~= a@.skip(i + 1));
        assert(b@.skip(i as int).drop_first() =~= b@.skip(i + 1));
        assert(a@.take(i + 1) =~= a@.take(i as int).push(a@[i as int]));
        assert(b@.take(i + 1) =~= b@.take(i as int).push(b@[i as int]));
        i = i + 1;
    }
    if a.len() == b.len() {
        assert(a@ =~= a@.take(i as int));
        assert(b@ =~= b@.take(i as int));
        0
    } else if a.len() < b.len() {
        -1
    } else {
        1
    }
}

#[verifier::external_type_specification]
#[verifier::external_body]
pub struct ExFmtError(core::fmt::Error);

/// `fmt::Error::default`: the formatting error value. It carries no data, so nothing is
/// stated of it.
pub assume_specification[ <core::fmt::Error as core::default::Default>::default ]() -> core::fmt::Error;

/// A fixed-capacity buffer of `N` bytes for formatting small values into.
pub struct Buffer<const N: usize> {
    value: [u8; N],
    idx: usize,
}

impl<const N: usize> View for Buffer<N> {
    /// The bytes written to the buffer so far.
    type V = Seq<u8>;

    closed spec fn view(&self) -> Seq<u8> {
        self.value@.take(self.idx as int)
    }
}

impl<const N: usize> Buffer<N> {
    /// The buffer's invariant: what was written fits in it.
    #[verifier::type_invariant]
    spec fn wf(&self) -> bool {
        self.idx <= N
    }

    /// An empty buffer.
    pub fn new() -> (r: Self)
        ensures
            r@ == Seq::<u8>::empty(),
    {
        let value = [0u8; N];
        Buffer { value, idx: 0 }
    }

    /// Empty the buffer.
    pub fn reset(&mut self)
        ensures
            final(self)@ == Seq::<u8>::empty(),
    {
        self.idx = 0;
    }

    /// The bytes written to the buffer so far.
    pub fn as_bytes(&self) -> (r: &[u8])
        ensures
            r@ == self@,
    {
        proof {
            use_type_invariant(self);
        }
        let (written, _) = self.value.as_slice().split_at(self.idx);
        written
    }

    /// Append the UTF-8 bytes of `s` if they fit; the buffer is unchanged if they don't.
    pub fn push_str(&mut self, s: &str) -> (r: bool)
        ensures
            r == (old(self)@.len() + s.spec_bytes().len() <= N),
            r ==> final(self)@ == old(self)@ + s.spec_bytes(),
            !r ==> final(self)@ == old(self)@,
    {
        proof {
            use_type_invariant(&*self);
        }
        let s = s.as_bytes();
        if s.len() > N - self.idx {
            return false;
        }
        let start = self.idx;
        let mut i: usize = 0;
        while i < s.len()
            invariant
                self.idx == start,
                start + s@.len() <= N,
                i <= s@.len(),
                self.value@.take(start as int) == old(self)@,
                self.value@.subrange(start as int, start + i) == s@.take(i as int),
            decreases s@.len() - i,
        {
            let ghost before = self.value@;
            self.value[start + i] = s[i];
            assert(self.value@.take(start as int) =~= before.take(start as int));
            assert(self.value@.subrange(start as int, start + i + 1) =~= s@.take(i + 1));
            i = i + 1;
        }
        self.idx = start + s.len();
        assert(self.value@.take(self.idx as int) =~= self.value@.take(start as int) + self.value@.subrange(
            start as int,
            start + s@.len(),
        ));
        assert(s@.take(s@.len() as int) =~= s@);
        true
    }

    /// Write `value` into the emptied buffer, returning its bytes, or an error if it does not fit.
    pub fn buffer(&mut self, value: &str) -> (r: Result<&[u8], core::fmt::Error>)
        ensures
            r is Ok <==> value.spec_bytes().len() <= N,
            r matches Ok(b) ==> b@ == value.spec_bytes() && final(self)@ == value.spec_bytes(),
            r is Err ==> final(self)@ == Seq::<u8>::empty(),
    {
        self.idx = 0;
        assert(self@ =~= Seq::<u8>::empty());
        if self.push_str(value) {
            assert(Seq::<u8>::empty() + value.spec_bytes() =~= value.spec_bytes());
            Ok(self.as_bytes())
        } else {
            Err(core::fmt::Error::default())
        }
    }
}

} // verus!

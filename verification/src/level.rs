//! The [`Level`] type, its permissive parser, and filters on it.
use vstd::prelude::*;
use vstd::string::*;
use vstd::utf8::{encode_utf8, is_ascii_chars_encode_utf8};

pub mod parse_laws;
pub mod path_map;

pub use path_map::{min_by_path_filter, MinLevelPathMap};

verus! {

/// A severity level for a diagnostic event.
///
/// The default level is [`Level::Info`].
///
/// Levels have a permissive parser that matches partial and incomplete contents, ignoring
/// case. So long as the start of the text is a submatch of the full level, and any
/// trailing unmatched characters are not ASCII control characters, the level will parse.
/// For example `info`, `INFO`, `i`, `inf`, `information`, `INFO1` and `inf(13)` all parse
/// as `Level::Info`. Any trailing data is lost.
#[derive(Clone, Copy, Debug, PartialEq, Eq, Structural, PartialOrd, Ord, Hash)]
pub enum Level {
    /// The event is weakly informative.
    Debug,
    /// The event is informative.
    Info,
    /// The event is weakly erroneous.
    Warn,
    /// The event is erroneous.
    Error,
}

/// The position of a level in the order `Debug < Info < Warn < Error`.
pub open spec fn level_rank(l: Level) -> int {
    match l {
        Level::Debug => 0,
        Level::Info => 1,
        Level::Warn => 2,
        Level::Error => 3,
    }
}

/// The formatted name of a level: `debug`, `info`, `warn` or `error`.
pub open spec fn level_name(l: Level) -> Seq<char> {
    match l {
        Level::Debug => seq!['d', 'e', 'b', 'u', 'g'],
        Level::Info => seq!['i', 'n', 'f', 'o'],
        Level::Warn => seq!['w', 'a', 'r', 'n'],
        Level::Error => seq!['e', 'r', 'r', 'o', 'r'],
    }
}

impl Default for Level {
    fn default() -> (r: Self)
        ensures
            r == Level::Info,
    {
        Level::Info
    }
}

/// An error attempting to parse a [`Level`] from text.
#[derive(Debug, PartialEq, Eq, Structural)]
pub struct ParseLevelError {}

impl ParseLevelError {
    /// The error's message.
    pub fn to_string(&self) -> (r: String)
        ensures
            r@ == "the input was not a valid level"@,
    {
        String::from_str("the input was not a valid level")
    }
}

/// An ASCII letter.
pub open spec fn is_ascii_alpha(b: u8) -> bool {
    (65 <= b <= 90) || (97 <= b <= 122)
}

/// The ASCII uppercase of a byte (bytes other than lowercase letters are unchanged).
pub open spec fn ascii_upper(b: u8) -> u8 {
    if 97 <= b <= 122 {
        (b - 32) as u8
    } else {
        b
    }
}

/// An ASCII byte that is not a control character: one that ends the letters of a level.
pub open spec fn is_level_terminator(b: u8) -> bool {
    32 <= b < 127
}

/// The letters at the start of `input`, up to the end or to a terminating ASCII
/// character, match the start of `expected` ignoring case.
pub open spec fn matches_level_prefix(input: Seq<u8>, expected: Seq<u8>) -> bool
    decreases input.len(),
{
    if input.len() == 0 {
        true
    } else if is_ascii_alpha(input[0]) {
        expected.len() > 0 && ascii_upper(input[0]) == expected[0] && matches_level_prefix(
            input.drop_first(),
            expected.drop_first(),
        )
    } else {
        is_level_terminator(input[0])
    }
}

pub open spec fn upper_information() -> Seq<u8> {
    seq![73u8, 78, 70, 79, 82, 77, 65, 84, 73, 79, 78]
}

pub open spec fn upper_debug() -> Seq<u8> {
    seq![68u8, 69, 66, 85, 71]
}

pub open spec fn upper_dbg() -> Seq<u8> {
    seq![68u8, 66, 71]
}

pub open spec fn upper_error() -> Seq<u8> {
    seq![69u8, 82, 82, 79, 82]
}

pub open spec fn upper_warning() -> Seq<u8> {
    seq![87u8, 65, 82, 78, 73, 78, 71]
}

pub open spec fn upper_wrn() -> Seq<u8> {
    seq![87u8, 82, 78]
}

/// The level denoted by already trimmed bytes, if any.
pub open spec fn parse_level_bytes(lvl: Seq<u8>) -> Option<Level> {
    if lvl.len() == 0 {
        None
    } else {
        let rest = lvl.drop_first();
        let c = ascii_upper(lvl[0]);
        if c == 73 {
            if matches_level_prefix(rest, upper_information().drop_first()) {
                Some(Level::Info)
            } else {
                None
            }
        } else if c == 68 {
            if matches_level_prefix(rest, upper_debug().drop_first()) || matches_level_prefix(
                rest,
                upper_dbg().drop_first(),
            ) {
                Some(Level::Debug)
            } else {
                None
            }
        } else if c == 69 {
            if matches_level_prefix(rest, upper_error().drop_first()) {
                Some(Level::Error)
            } else {
                None
            }
        } else if c == 87 {
            if matches_level_prefix(rest, upper_warning().drop_first()) || matches_level_prefix(
                rest,
                upper_wrn().drop_first(),
            ) {
                Some(Level::Warn)
            } else {
                None
            }
        } else {
            None
        }
    }
}

/// A Unicode `White_Space` character.
pub open spec fn is_white_space(c: char) -> bool {
    let n = c as u32;
    (9 <= n <= 13) || n == 32 || n == 0x85 || n == 0xa0 || n == 0x1680 || (0x2000 <= n <= 0x200a)
        || n == 0x2028 || n == 0x2029 || n == 0x202f || n == 0x205f || n == 0x3000
}

/// `s` without its leading `White_Space` characters.
pub open spec fn trim_start_ws(s: Seq<char>) -> Seq<char>
    decreases s.len(),
{
    if s.len() > 0 && is_white_space(s[0]) {
        trim_start_ws(s.drop_first())
    } else {
        s
    }
}

/// `s` without its trailing `White_Space` characters.
pub open spec fn trim_end_ws(s: Seq<char>) -> Seq<char>
    decreases s.len(),
{
    if s.len() > 0 && is_white_space(s.last()) {
        trim_end_ws(s.drop_last())
    } else {
        s
    }
}

/// `s` without its leading and trailing `White_Space` characters.
pub open spec fn trim_ws(s: Seq<char>) -> Seq<char> {
    trim_end_ws(trim_start_ws(s))
}

/// The level denoted by text, if any: the text is trimmed of white space and its
/// UTF-8 bytes are parsed.
pub open spec fn parse_level(s: Seq<char>) -> Option<Level> {
    parse_level_bytes(encode_utf8(trim_ws(s)))
}

/// `str::trim`: the string without leading and trailing whitespace, where std documents
/// whitespace as the characters with the Unicode `White_Space` property.
#[verifier::external_body]
fn str_trim(s: &str) -> (r: &str)
    ensures
        r@ == trim_ws(s@),
{
    s.trim()
}

/// Match the rest of `input` against the rest of `expected_uppercase`, the first byte of
/// each having already been matched.
pub fn parse(input: &[u8], expected_uppercase: &[u8], ok: Level) -> (r: Result<Level, ParseLevelError>)
    requires
        input@.len() >= 1,
        expected_uppercase@.len() >= 1,
    ensures
        r is Ok <==> matches_level_prefix(input@.drop_first(), expected_uppercase@.drop_first()),
        r matches Ok(l) ==> l == ok,
{
    let mut i: usize = 1;
    let mut j: usize = 1;
    while i < input.len()
        invariant
            1 <= i <= input@.len(),
            i == j,
            j <= expected_uppercase@.len(),
            matches_level_prefix(input@.drop_first(), expected_uppercase@.drop_first())
                == matches_level_prefix(input@.skip(i as int), expected_uppercase@.skip(j as int)),
        decreases input@.len() - i,
    {
        let b = input[i];
        assert(input@.skip(i as int).drop_first() =~= input@.skip(i + 1));
        if (65 <= b && b <= 90) || (97 <= b && b <= 122) {
            if j >= expected_uppercase.len() {
                return Err(ParseLevelError {});
            }
            let e = expected_uppercase[j];
            let upper = if 97 <= b && b <= 122 { b - 32 } else { b };
            if upper != e {
                return Err(ParseLevelError {});
            }
            assert(expected_uppercase@.skip(j as int).drop_first() =~= expected_uppercase@.skip(j + 1));
            i = i + 1;
            j = j + 1;
        } else if 32 <= b && b < 127 {
            return Ok(ok);
        } else {
            return Err(ParseLevelError {});
        }
    }
    assert(input@.skip(i as int).len() == 0);
    Ok(ok)
}

impl Level {
    /// The formatted name of the level: `debug`, `info`, `warn` or `error`.
    pub fn to_string(&self) -> (r: String)
        ensures
            r@ == level_name(*self),
    {
        match self {
            Level::Debug => {
                proof {
                    reveal_strlit("debug");
                }
                String::from_str("debug")
            },
            Level::Info => {
                proof {
                    reveal_strlit("info");
                }
                String::from_str("info")
            },
            Level::Warn => {
                proof {
                    reveal_strlit("warn");
                }
                String::from_str("warn")
            },
            Level::Error => {
                proof {
                    reveal_strlit("error");
                }
                String::from_str("error")
            },
        }
    }

    /// Try parse a level from a formatted representation.
    pub fn try_from_str(s: &str) -> (r: Result<Self, ParseLevelError>)
        ensures
            r is Ok <==> parse_level(s@) is Some,
            r matches Ok(l) ==> parse_level(s@) == Some(l),
    {
        let t = str_trim(s);
        let lvl = t.as_bytes();
        if lvl.len() == 0 {
            return Err(ParseLevelError {});
        }
        let first = lvl[0];
        if first == 73 || first == 105 {
            let expected: [u8; 11] = [73, 78, 70, 79, 82, 77, 65, 84, 73, 79, 78];
            assert(expected@ =~= upper_information());
            parse(lvl, expected.as_slice(), Level::Info)
        } else if first == 68 || first == 100 {
            let expected: [u8; 5] = [68, 69, 66, 85, 71];
            assert(expected@ =~= upper_debug());
            match parse(lvl, expected.as_slice(), Level::Debug) {
                Ok(l) => Ok(l),
                Err(_) => {
                    let expected: [u8; 3] = [68, 66, 71];
                    assert(expected@ =~= upper_dbg());
                    parse(lvl, expected.as_slice(), Level::Debug)
                },
            }
        } else if first == 69 || first == 101 {
            let expected: [u8; 5] = [69, 82, 82, 79, 82];
            assert(expected@ =~= upper_error());
            parse(lvl, expected.as_slice(), Level::Error)
        } else if first == 87 || first == 119 {
            let expected: [u8; 7] = [87, 65, 82, 78, 73, 78, 71];
            assert(expected@ =~= upper_warning());
            match parse(lvl, expected.as_slice(), Level::Warn) {
                Ok(l) => Ok(l),
                Err(_) => {
                    let expected: [u8; 3] = [87, 82, 78];
                    assert(expected@ =~= upper_wrn());
                    parse(lvl, expected.as_slice(), Level::Warn)
                },
            }
        } else {
            Err(ParseLevelError {})
        }
    }
}

impl core::str::FromStr for Level {
    type Err = ParseLevelError;

    fn from_str(s: &str) -> (r: Result<Self, Self::Err>)
        ensures
            r is Ok <==> parse_level(s@) is Some,
            r matches Ok(l) ==> parse_level(s@) == Some(l),
    {
        Self::try_from_str(s)
    }
}

/// The ASCII bytes of a level's name.
pub open spec fn level_name_bytes(l: Level) -> Seq<u8> {
    match l {
        Level::Debug => seq![100u8, 101, 98, 117, 103],
        Level::Info => seq![105u8, 110, 102, 111],
        Level::Warn => seq![119u8, 97, 114, 110],
        Level::Error => seq![101u8, 114, 114, 111, 114],
    }
}

proof fn lemma_level_name_bytes(l: Level)
    ensures
        trim_ws(level_name(l)) == level_name(l),
        encode_utf8(level_name(l)) == level_name_bytes(l),
{
    let n = level_name(l);
    assert(!is_white_space(n[0]));
    assert(!is_white_space(n.last()));
    assert(trim_start_ws(n) == n);
    assert(trim_end_ws(n) == n);
    assert forall|i: int| 0 <= i < n.len() implies '\0' <= #[trigger] n[i] <= '\u{7f}' by {}
    is_ascii_chars_encode_utf8(n);
    let e = encode_utf8(n);
    let b = level_name_bytes(l);
    assert forall|i: int| 0 <= i < n.len() implies #[trigger] e[i] == b[i] by {
        assert(n[i] as u8 == e[i]);
    }
    assert(e =~= b);
}

/// Every level is parsed back from its formatted name.
pub proof fn law_level_roundtrip(l: Level)
    ensures
        parse_level(level_name(l)) == Some(l),
{
    lemma_level_name_bytes(l);
    reveal_with_fuel(matches_level_prefix, 6);
    let b = level_name_bytes(l);
    match l {
        Level::Debug => {
            assert(b.drop_first() =~= seq![101u8, 98, 117, 103]);
            assert(upper_debug().drop_first() =~= seq![69u8, 66, 85, 71]);
        },
        Level::Info => {
            assert(b.drop_first() =~= seq![110u8, 102, 111]);
            assert(upper_information().drop_first() =~= seq![78u8, 70, 79, 82, 77, 65, 84, 73, 79, 78]);
        },
        Level::Warn => {
            assert(b.drop_first() =~= seq![97u8, 114, 110]);
            assert(upper_warning().drop_first() =~= seq![65u8, 82, 78, 73, 78, 71]);
        },
        Level::Error => {
            assert(b.drop_first() =~= seq![114u8, 114, 111, 114]);
            assert(upper_error().drop_first() =~= seq![82u8, 82, 79, 82]);
        },
    }
}

/// A level that filters compare against a minimum.
///
/// Levels are compared by their rank; a level is at least another when its rank is at
/// least the other's.
pub trait FilterLevel: Copy {
    /// The position of the level in the order that filters compare by.
    spec fn rank(&self) -> int;

    /// The rank of the level that unleveled events are treated as carrying by default.
    spec fn default_rank() -> int;

    /// Whether `self` is at least `min`.
    fn is_at_least(&self, min: &Self) -> (r: bool)
        ensures
            r == (self.rank() >= min.rank()),
    ;

    /// The level that unleveled events are treated as carrying by default.
    fn default_level() -> (r: Self)
        ensures
            r.rank() == Self::default_rank(),
    ;
}

impl FilterLevel for Level {
    open spec fn rank(&self) -> int {
        level_rank(*self)
    }

    open spec fn default_rank() -> int {
        level_rank(Level::Info)
    }

    fn is_at_least(&self, min: &Self) -> (r: bool) {
        level_index(*self) >= level_index(*min)
    }

    fn default_level() -> (r: Self) {
        Level::Info
    }
}

/// The rank of a level.
fn level_index(l: Level) -> (r: u8)
    ensures
        r == level_rank(l),
{
    match l {
        Level::Debug => 0,
        Level::Info => 1,
        Level::Warn => 2,
        Level::Error => 3,
    }
}

impl FilterLevel for u8 {
    open spec fn rank(&self) -> int {
        *self as int
    }

    open spec fn default_rank() -> int {
        0
    }

    fn is_at_least(&self, min: &Self) -> (r: bool) {
        *self >= *min
    }

    fn default_level() -> (r: Self) {
        0
    }
}

impl FilterLevel for u16 {
    open spec fn rank(&self) -> int {
        *self as int
    }

    open spec fn default_rank() -> int {
        0
    }

    fn is_at_least(&self, min: &Self) -> (r: bool) {
        *self >= *min
    }

    fn default_level() -> (r: Self) {
        0
    }
}

impl FilterLevel for u32 {
    open spec fn rank(&self) -> int {
        *self as int
    }

    open spec fn default_rank() -> int {
        0
    }

    fn is_at_least(&self, min: &Self) -> (r: bool) {
        *self >= *min
    }

    fn default_level() -> (r: Self) {
        0
    }
}

impl FilterLevel for u64 {
    open spec fn rank(&self) -> int {
        *self as int
    }

    open spec fn default_rank() -> int {
        0
    }

    fn is_at_least(&self, min: &Self) -> (r: bool) {
        *self >= *min
    }

    fn default_level() -> (r: Self) {
        0
    }
}

impl FilterLevel for i32 {
    open spec fn rank(&self) -> int {
        *self as int
    }

    open spec fn default_rank() -> int {
        0
    }

    fn is_at_least(&self, min: &Self) -> (r: bool) {
        *self >= *min
    }

    fn default_level() -> (r: Self) {
        0
    }
}

impl FilterLevel for i64 {
    open spec fn rank(&self) -> int {
        *self as int
    }

    open spec fn default_rank() -> int {
        0
    }

    fn is_at_least(&self, min: &Self) -> (r: bool) {
        *self >= *min
    }

    fn default_level() -> (r: Self) {
        0
    }
}

/// The rank an event's level is filtered at: its own level if it has one, else the
/// filter's level for unleveled events if it was given one, else the default level.
pub open spec fn effective_rank<L: FilterLevel>(default: Option<L>, lvl: Option<L>) -> int {
    match lvl {
        Some(l) => l.rank(),
        None => match default {
            Some(d) => d.rank(),
            None => L::default_rank(),
        },
    }
}

/// Whether a filter with minimum `min` and level for unleveled events `default` lets an
/// event with level `lvl` (`None` for an unleveled one) through.
pub open spec fn min_filter_matches<L: FilterLevel>(min: L, default: Option<L>, lvl: Option<L>) -> bool {
    effective_rank(default, lvl) >= min.rank()
}

/// A filter that matches events whose level is at least a minimum.
///
/// Events that don't carry any specific level are treated as carrying a default one, as
/// set by [`MinLevelFilter::treat_unleveled_as`].
#[derive(Debug)]
pub struct MinLevelFilter<L> {
    min: L,
    default: Option<L>,
}

impl<L> View for MinLevelFilter<L> {
    /// The minimum level, and the level unleveled events are treated as carrying if set.
    type V = (L, Option<L>);

    closed spec fn view(&self) -> (L, Option<L>) {
        (self.min, self.default)
    }
}

/// Only match events that carry at least the given level.
pub fn min_filter(min: Level) -> (r: MinLevelFilter<Level>)
    ensures
        r@ == (min, None::<Level>),
{
    MinLevelFilter::new(min)
}

impl<L: FilterLevel> MinLevelFilter<L> {
    /// Construct a new filter, treating unleveled events as carrying the default level.
    pub fn new(min: L) -> (r: MinLevelFilter<L>)
        ensures
            r@ == (min, None::<L>),
    {
        MinLevelFilter { min, default: None }
    }

    /// Treat events without an explicit level as having `default`.
    pub fn treat_unleveled_as(self, default: L) -> (r: Self)
        ensures
            r@ == (self@.0, Some(default)),
    {
        MinLevelFilter { min: self.min, default: Some(default) }
    }

    /// Whether an event carrying the level `lvl` (or `None` if it carries no level) passes the filter.
    pub fn matches(&self, lvl: Option<L>) -> (r: bool)
        ensures
            r == min_filter_matches(self@.0, self@.1, lvl),
    {
        let effective = match lvl {
            Some(l) => l,
            None => match self.default {
                Some(d) => d,
                None => L::default_level(),
            },
        };
        effective.is_at_least(&self.min)
    }
}

} // verus!

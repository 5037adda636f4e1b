//! Events: when they happened, their level, message template and properties, and the
//! levels that events are written at by the collectors and formatters.
use vstd::prelude::*;
use vstd::string::*;
use vstd::utf8::{encode_utf8, encode_utf8_decode_utf8};
use log::Level as LogLevel;

use crate::buf::{compare_bytes, lemma_lex_transitive, lemma_lex_trichotomy, lex_lt};
use crate::platform::system_clock::{epoch_offset_now, offset_wf, EpochOffset};
use crate::utc::{utc_of_offset, UtcTime};

verus! {

#[verifier::external_type_specification]
pub struct ExLogLevel(LogLevel);

/// The name the `log` crate gives a level.
pub open spec fn log_level_name(l: LogLevel) -> Seq<char> {
    match l {
        LogLevel::Error => seq!['E', 'R', 'R', 'O', 'R'],
        LogLevel::Warn => seq!['W', 'A', 'R', 'N'],
        LogLevel::Info => seq!['I', 'N', 'F', 'O'],
        LogLevel::Debug => seq!['D', 'E', 'B', 'U', 'G'],
        LogLevel::Trace => seq!['T', 'R', 'A', 'C', 'E'],
    }
}

/// `log::Level::as_str`: the level's name, which the `log` crate's source takes from its
/// table `["OFF", "ERROR", "WARN", "INFO", "DEBUG", "TRACE"]` by the level's number
/// (`Error` is 1 through `Trace` 5).
#[verifier::external_body]
pub(crate) fn log_level_as_str(l: LogLevel) -> (r: &'static str)
    ensures
        r@ == log_level_name(l),
{
    l.as_str()
}


/// The number the `log` crate gives a level: `Error` is 1 through `Trace` 5, more verbose
/// levels having larger numbers.
pub open spec fn log_level_rank(l: LogLevel) -> int {
    match l {
        LogLevel::Error => 1,
        LogLevel::Warn => 2,
        LogLevel::Info => 3,
        LogLevel::Debug => 4,
        LogLevel::Trace => 5,
    }
}

/// Whether events at `level` pass a filter at `filter`: those at the filter's level and
/// less verbose ones do.
pub fn level_is_enabled(filter: LogLevel, level: LogLevel) -> (r: bool)
    ensures
        r == (log_level_rank(level) <= log_level_rank(filter)),
{
    let f: u8 = match filter {
        LogLevel::Error => 1,
        LogLevel::Warn => 2,
        LogLevel::Info => 3,
        LogLevel::Debug => 4,
        LogLevel::Trace => 5,
    };
    let l: u8 = match level {
        LogLevel::Error => 1,
        LogLevel::Warn => 2,
        LogLevel::Info => 3,
        LogLevel::Debug => 4,
        LogLevel::Trace => 5,
    };
    l <= f
}

/// The bytes a property's name sorts by.
pub open spec fn name_bytes(name: Seq<char>) -> Seq<u8> {
    encode_utf8(name)
}

/// The properties are strictly sorted by the bytes of their names.
pub open spec fn props_sorted<V>(ps: Seq<(String, V)>) -> bool {
    forall|i: int, j: int|
        0 <= i < j < ps.len() ==> lex_lt(name_bytes((#[trigger] ps[i]).0@), name_bytes((#[trigger] ps[j]).0@))
}

/// The value of the property `name` in `ps`, if any.
pub open spec fn prop_lookup<V>(ps: Seq<(String, V)>, name: Seq<char>) -> Option<V> {
    if exists|i: int| 0 <= i < ps.len() && (#[trigger] ps[i]).0@ == name {
        let i = choose|i: int| 0 <= i < ps.len() && (#[trigger] ps[i]).0@ == name;
        Some(ps[i].1)
    } else {
        None
    }
}

/// The properties `ps` as a map by name.
pub open spec fn props_map<V>(ps: Seq<(String, V)>) -> Map<Seq<char>, V> {
    Map::new(|k: Seq<char>| prop_lookup(ps, k) is Some, |k: Seq<char>| prop_lookup(ps, k).unwrap())
}

/// `m` with each of `ps` set in turn, a later value replacing an earlier one.
pub open spec fn set_all<V>(m: Map<Seq<char>, V>, ps: Seq<(String, V)>) -> Map<Seq<char>, V>
    decreases ps.len(),
{
    if ps.len() == 0 {
        m
    } else {
        set_all(m.insert(ps[0].0@, ps[0].1), ps.drop_first())
    }
}

/// Names with the same bytes are the same name.
proof fn lemma_name_bytes_injective(a: Seq<char>, b: Seq<char>)
    ensures
        name_bytes(a) == name_bytes(b) ==> a == b,
{
    encode_utf8_decode_utf8(a);
    encode_utf8_decode_utf8(b);
}

proof fn lemma_prop_lookup_index<V>(ps: Seq<(String, V)>, i: int)
    requires
        props_sorted(ps),
        0 <= i < ps.len(),
    ensures
        prop_lookup(ps, ps[i].0@) == Some(ps[i].1),
{
    let k = ps[i].0@;
    assert(0 <= i < ps.len() && ps[i].0@ == k);
    let j = choose|j: int| 0 <= j < ps.len() && (#[trigger] ps[j]).0@ == k;
    lemma_lex_trichotomy(name_bytes(k), name_bytes(k));
    if j < i {
        assert(lex_lt(name_bytes(ps[j].0@), name_bytes(ps[i].0@)));
    } else if j > i {
        assert(lex_lt(name_bytes(ps[i].0@), name_bytes(ps[j].0@)));
    }
}

/// The position of the property `name` in sorted properties, or where it would go.
fn search_props<V>(ps: &Vec<(String, V)>, name: &str) -> (r: Result<usize, usize>)
    requires
        props_sorted(ps@),
    ensures
        r matches Ok(i) ==> i < ps@.len() && ps@[i as int].0@ == name@,
        r matches Err(i) ==> i <= ps@.len() && (forall|j: int| 0 <= j < i ==> lex_lt(
            name_bytes((#[trigger] ps@[j]).0@),
            name_bytes(name@),
        )) && (forall|j: int| i <= j < ps@.len() ==> lex_lt(name_bytes(name@), name_bytes((#[trigger] ps@[j]).0@))),
{
    let key = name.as_bytes();
    let mut lo: usize = 0;
    let mut hi: usize = ps.len();
    while lo < hi
        invariant
            lo <= hi <= ps@.len(),
            props_sorted(ps@),
            key@ == name_bytes(name@),
            forall|j: int| 0 <= j < lo ==> lex_lt(name_bytes((#[trigger] ps@[j]).0@), name_bytes(name@)),
            forall|j: int| hi <= j < ps@.len() ==> lex_lt(name_bytes(name@), name_bytes((#[trigger] ps@[j]).0@)),
        decreases hi - lo,
    {
        let mid = lo + (hi - lo) / 2;
        let c = compare_bytes(ps[mid].0.as_str().as_bytes(), key);
        if c == 0 {
            proof {
                lemma_name_bytes_injective(ps@[mid as int].0@, name@);
            }
            return Ok(mid);
        } else if c < 0 {
            assert forall|j: int| 0 <= j < mid + 1 implies lex_lt(name_bytes((#[trigger] ps@[j]).0@), name_bytes(name@)) by {
                if j < mid {
                    lemma_lex_transitive(name_bytes(ps@[j].0@), name_bytes(ps@[mid as int].0@), name_bytes(name@));
                }
            }
            lo = mid + 1;
        } else {
            assert forall|j: int| mid <= j < ps@.len() implies lex_lt(name_bytes(name@), name_bytes((#[trigger] ps@[j]).0@)) by {
                if j > mid {
                    lemma_lex_transitive(name_bytes(name@), name_bytes(ps@[mid as int].0@), name_bytes(ps@[j].0@));
                }
            }
            hi = mid;
        }
    }
    Err(lo)
}

/// Set the property `name` to `value` in sorted properties, keeping them sorted; if
/// `keep_existing`, a property already set is left as it is.
fn set_prop<V>(ps: &mut Vec<(String, V)>, name: &str, value: V, keep_existing: bool)
    requires
        props_sorted(old(ps)@),
    ensures
        props_sorted(final(ps)@),
        props_map(final(ps)@) == if keep_existing && props_map(old(ps)@).dom().contains(name@) {
            props_map(old(ps)@)
        } else {
            props_map(old(ps)@).insert(name@, value)
        },
{
    let ghost old_ps = ps@;
    match search_props(ps, name) {
        Ok(i) => {
            proof {
                lemma_prop_lookup_index(old_ps, i as int);
            }
            if !keep_existing {
                let key = String::from_str(name);
                ps.set(i, (key, value));
                proof {
                    let new_ps = ps@;
                    assert forall|a: int, b: int| 0 <= a < b < new_ps.len() implies lex_lt(
                        name_bytes((#[trigger] new_ps[a]).0@),
                        name_bytes((#[trigger] new_ps[b]).0@),
                    ) by {
                        assert(new_ps[a].0@ == old_ps[a].0@);
                        assert(new_ps[b].0@ == old_ps[b].0@);
                    }
                    assert forall|k: Seq<char>| #[trigger] prop_lookup(new_ps, k) == if k == name@ {
                        Some(value)
                    } else {
                        prop_lookup(old_ps, k)
                    } by {
                        if k == name@ {
                            lemma_prop_lookup_index(new_ps, i as int);
                        } else if exists|j: int| 0 <= j < old_ps.len() && (#[trigger] old_ps[j]).0@ == k {
                            let j = choose|j: int| 0 <= j < old_ps.len() && (#[trigger] old_ps[j]).0@ == k;
                            lemma_prop_lookup_index(old_ps, j);
                            assert(new_ps[j] == old_ps[j]);
                            lemma_prop_lookup_index(new_ps, j);
                        } else {
                            assert forall|j: int| 0 <= j < new_ps.len() implies (#[trigger] new_ps[j]).0@ != k by {
                                assert(new_ps[j].0@ == old_ps[j].0@);
                            }
                        }
                    }
                    assert(props_map(new_ps) =~= props_map(old_ps).insert(name@, value));
                }
            }
        },
        Err(i) => {
            let key = String::from_str(name);
            ps.insert(i, (key, value));
            proof {
                let new_ps = ps@;
                let nb = name_bytes(name@);
                assert(new_ps == old_ps.insert(i as int, (key, value)));
                assert forall|a: int, b: int| 0 <= a < b < new_ps.len() implies lex_lt(
                    name_bytes((#[trigger] new_ps[a]).0@),
                    name_bytes((#[trigger] new_ps[b]).0@),
                ) by {
                    if a < i && b < i {
                        assert(new_ps[a] == old_ps[a] && new_ps[b] == old_ps[b]);
                    } else if a < i && b == i {
                        assert(new_ps[a] == old_ps[a]);
                    } else if a < i && b > i {
                        assert(new_ps[a] == old_ps[a] && new_ps[b] == old_ps[b - 1]);
                        lemma_lex_transitive(name_bytes(old_ps[a].0@), nb, name_bytes(old_ps[b - 1].0@));
                    } else if a == i {
                        assert(new_ps[b] == old_ps[b - 1]);
                    } else {
                        assert(new_ps[a] == old_ps[a - 1] && new_ps[b] == old_ps[b - 1]);
                    }
                }
                assert forall|j: int| 0 <= j < old_ps.len() implies (#[trigger] old_ps[j]).0@ != name@ by {
                    lemma_lex_trichotomy(name_bytes(old_ps[j].0@), nb);
                }
                assert forall|k: Seq<char>| #[trigger] prop_lookup(new_ps, k) == if k == name@ {
                    Some(value)
                } else {
                    prop_lookup(old_ps, k)
                } by {
                    if k == name@ {
                        lemma_prop_lookup_index(new_ps, i as int);
                    } else if exists|j: int| 0 <= j < old_ps.len() && (#[trigger] old_ps[j]).0@ == k {
                        let j = choose|j: int| 0 <= j < old_ps.len() && (#[trigger] old_ps[j]).0@ == k;
                        lemma_prop_lookup_index(old_ps, j);
                        if j < i {
                            assert(new_ps[j] == old_ps[j]);
                            lemma_prop_lookup_index(new_ps, j);
                        } else {
                            assert(new_ps[j + 1] == old_ps[j]);
                            lemma_prop_lookup_index(new_ps, j + 1);
                        }
                    } else {
                        assert forall|j: int| 0 <= j < new_ps.len() implies (#[trigger] new_ps[j]).0@ != k by {
                            if j < i {
                                assert(new_ps[j] == old_ps[j]);
                            } else if j > i {
                                assert(new_ps[j] == old_ps[j - 1]);
                            }
                        }
                    }
                }
                assert(props_map(new_ps) =~= props_map(old_ps).insert(name@, value));
                assert(!props_map(old_ps).dom().contains(name@));
            }
        },
    }
}

/// A diagnostic event: when it happened, its level, its message template, and its
/// properties sorted by name.
pub struct Event<V> {
    timestamp: UtcTime,
    level: LogLevel,
    message_template: String,
    properties: Vec<(String, V)>,
}

impl<V> Event<V> {
    #[verifier::type_invariant]
    spec fn inv(self) -> bool {
        props_sorted(self.properties@)
    }
}

/// What an event holds.
pub struct EventView<V> {
    /// When it happened.
    pub timestamp: UtcTime,
    /// Its level.
    pub level: LogLevel,
    /// Its message template.
    pub message_template: Seq<char>,
    /// Its properties, by name.
    pub properties: Map<Seq<char>, V>,
}

impl<V> View for Event<V> {
    type V = EventView<V>;

    closed spec fn view(&self) -> EventView<V> {
        EventView {
            timestamp: self.timestamp,
            level: self.level,
            message_template: self.message_template@,
            properties: props_map(self.properties@),
        }
    }
}

impl<V> Event<V> {
    /// An event at `timestamp` and `level` with a message template and properties, each
    /// set in turn so that a later value of a name replaces an earlier one.
    pub fn new(timestamp: UtcTime, level: LogLevel, message_template: String, properties: Vec<(String, V)>) -> (r: Self)
        ensures
            r@.timestamp == timestamp,
            r@.level == level,
            r@.message_template == message_template@,
            r@.properties == set_all(Map::empty(), properties@),
    {
        let mut sorted: Vec<(String, V)> = Vec::new();
        let mut rest = properties;
        let ghost all = rest@;
        assert(props_map(sorted@) =~= Map::<Seq<char>, V>::empty());
        while rest.len() > 0
            invariant
                props_sorted(sorted@),
                set_all(props_map(sorted@), rest@) == set_all(Map::empty(), all),
            decreases rest.len(),
        {
            let ghost before = rest@;
            let (name, value) = rest.remove(0);
            assert(rest@ =~= before.drop_first());
            set_prop(&mut sorted, name.as_str(), value, false);
        }
        Event { timestamp, level, message_template, properties: sorted }
    }

    /// An event at the system time now, as [`Event::new`] makes it, before the Unix epoch
    /// too: its timestamp is the moment of a reading of the system clock, as
    /// [`UtcTime::from_epoch_offset`] gives it. Which reading is taken is left open; the
    /// event is `None` only where that reading gives no moment, its whole seconds not
    /// fitting in an `i64`.
    pub fn new_now(level: LogLevel, message_template: String, properties: Vec<(String, V)>) -> (r: Option<Self>)
        ensures
            r is None ==> exists|o: EpochOffset| offset_wf(o) && utc_of_offset(o) is None,
            r matches Some(e) ==> exists|o: EpochOffset| offset_wf(o) && utc_of_offset(o) == Some(e@.timestamp),
            r matches Some(e) ==> e@.level == level && e@.message_template == message_template@
                && e@.properties == set_all(Map::empty(), properties@),
    {
        let o = epoch_offset_now();
        match UtcTime::from_epoch_offset(o) {
            Some(now) => {
                let e = Self::new(now, level, message_template, properties);
                assert(offset_wf(o) && utc_of_offset(o) == Some(e@.timestamp));
                Some(e)
            },
            None => {
                assert(offset_wf(o) && utc_of_offset(o) is None);
                None
            },
        }
    }

    /// When the event happened.
    pub fn timestamp(&self) -> (r: UtcTime)
        ensures
            r == self@.timestamp,
    {
        self.timestamp
    }

    /// The event's level.
    pub fn level(&self) -> (r: LogLevel)
        ensures
            r == self@.level,
    {
        self.level
    }

    /// The event's message template.
    pub fn message_template(&self) -> (r: &str)
        ensures
            r@ == self@.message_template,
    {
        self.message_template.as_str()
    }

    /// The event's properties, sorted by name.
    pub fn properties(&self) -> (r: &[(String, V)])
        ensures
            props_sorted(r@),
            props_map(r@) == self@.properties,
    {
        proof {
            use_type_invariant(self);
        }
        self.properties.as_slice()
    }

    /// Set the property `name` to `value`, replacing any value it had.
    pub fn add_or_update_property(&mut self, name: &str, value: V)
        ensures
            final(self)@.properties == old(self)@.properties.insert(name@, value),
            final(self)@.timestamp == old(self)@.timestamp,
            final(self)@.level == old(self)@.level,
            final(self)@.message_template == old(self)@.message_template,
    {
        proof {
            use_type_invariant(&*self);
        }
        let mut properties = Vec::new();
        core::mem::swap(&mut properties, &mut self.properties);
        set_prop(&mut properties, name, value, false);
        self.properties = properties;
    }

    /// Set the property `name` to `value` unless it is already set.
    pub fn add_property_if_absent(&mut self, name: &str, value: V)
        ensures
            final(self)@.properties == if old(self)@.properties.dom().contains(name@) {
                old(self)@.properties
            } else {
                old(self)@.properties.insert(name@, value)
            },
            final(self)@.timestamp == old(self)@.timestamp,
            final(self)@.level == old(self)@.level,
            final(self)@.message_template == old(self)@.message_template,
    {
        proof {
            use_type_invariant(&*self);
        }
        let mut properties = Vec::new();
        core::mem::swap(&mut properties, &mut self.properties);
        set_prop(&mut properties, name, value, true);
        self.properties = properties;
    }
}

/// Filtering by level orders the levels: every level passes a filter at itself; of two
/// different levels, exactly one passes a filter at the other, the less verbose one; and a
/// level passing a filter passes every filter that lets the filter's own level through. A
/// filter at `Error` lets only errors through, and one at `Trace` lets every level through.
pub proof fn law_level_filter_orders_levels(a: LogLevel, b: LogLevel, c: LogLevel)
    ensures
        log_level_rank(a) <= log_level_rank(a),
        a != b ==> (log_level_rank(b) <= log_level_rank(a)) != (log_level_rank(a) <= log_level_rank(b)),
        log_level_rank(a) <= log_level_rank(b) && log_level_rank(b) <= log_level_rank(c) ==> log_level_rank(a)
            <= log_level_rank(c),
        log_level_rank(a) <= log_level_rank(LogLevel::Error) <==> a == LogLevel::Error,
        log_level_rank(a) <= log_level_rank(LogLevel::Trace),
        log_level_rank(LogLevel::Trace) <= log_level_rank(a) <==> a == LogLevel::Trace,
{
}

} // verus!

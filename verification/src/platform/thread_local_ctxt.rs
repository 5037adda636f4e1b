//! The [`ThreadLocalCtxt`] type: ambient properties pushed in frames.
//!
//! A frame holds the trace id, span id and parent span id inline, and every other
//! property in a map. Frames fully encapsulate all properties that were active when they
//! were created. Pushing properties onto a frame gives a new frame of the next generation:
//! within one push the first value of a key wins, and a push replaces the values of
//! earlier generations. A value under an inline key that cannot be read as the id it
//! names is held in the map instead, and dropped from it once a later push sets the
//! inline id again.
use vstd::prelude::*;
use vstd::string::*;
use std::collections::HashMap;

use crate::span::{SpanId, TraceId};

verus! {

/// The key of the trace id.
pub open spec fn trace_key() -> Seq<char> {
    "trace_id"@
}

/// The key of the span id.
pub open spec fn span_key() -> Seq<char> {
    "span_id"@
}

/// The key of the parent span id.
pub open spec fn parent_key() -> Seq<char> {
    "span_parent"@
}

/// The keys whose values a frame holds inline.
pub open spec fn is_inline_key(k: Seq<char>) -> bool {
    k == trace_key() || k == span_key() || k == parent_key()
}

/// A property pushed onto a context: its key and value, with the value read as a trace id
/// and as a span id where it can be.
pub struct CtxtProp<T> {
    /// The key.
    pub key: String,
    /// The value.
    pub value: T,
    /// The value read as a trace id, if it can be.
    pub as_trace_id: Option<TraceId>,
    /// The value read as a span id, if it can be.
    pub as_span_id: Option<SpanId>,
}

/// Whether the value of `p` can be read as the id its key names: a trace id under
/// `trace_id`, a span id under `span_id` and `span_parent`.
pub open spec fn reads_as_id<T>(p: CtxtProp<T>) -> bool {
    if p.key@ == trace_key() {
        p.as_trace_id is Some
    } else {
        p.as_span_id is Some
    }
}

/// The index of the first of `ps` under the key `k`, if any.
pub open spec fn find_key<T>(ps: Seq<CtxtProp<T>>, k: Seq<char>) -> Option<int>
    decreases ps.len(),
{
    if ps.len() == 0 {
        None
    } else {
        match find_key(ps.drop_last(), k) {
            Some(i) => Some(i),
            None => if ps.last().key@ == k {
                Some(ps.len() - 1)
            } else {
                None
            },
        }
    }
}

/// Whether `ps` sets the inline slot for `k`: the first of them under `k`, an inline key,
/// reads as the id it names.
pub open spec fn sets_inline<T>(ps: Seq<CtxtProp<T>>, k: Seq<char>) -> bool {
    is_inline_key(k) && match find_key(ps, k) {
        Some(i) => reads_as_id(ps[i]),
        None => false,
    }
}

/// The index of the one of `ps` that is held in the map under `k`, if any: the first under
/// `k`, unless it is set inline instead.
pub open spec fn map_source<T>(ps: Seq<CtxtProp<T>>, k: Seq<char>) -> Option<int> {
    match find_key(ps, k) {
        Some(i) => if is_inline_key(k) && reads_as_id(ps[i]) {
            None
        } else {
            Some(i)
        },
        None => None,
    }
}

/// The entry of `m` under `k`, if any.
pub open spec fn map_get<K, V>(m: Map<K, V>, k: K) -> Option<V> {
    if m.dom().contains(k) {
        Some(m[k])
    } else {
        None
    }
}

/// What a frame holds.
#[verifier::ext_equal]
pub struct FrameView<T> {
    /// The trace id, if set.
    pub trace_id: Option<TraceId>,
    /// The parent span id, if set.
    pub span_parent: Option<SpanId>,
    /// The span id, if set.
    pub span_id: Option<SpanId>,
    /// The generation the frame was pushed at.
    pub generation: usize,
    /// Whether the map holds a value under an inline key.
    pub any_fallback: bool,
    /// The other properties, with the generation each was set at.
    pub rest: Map<Seq<char>, (T, usize)>,
}

/// The map entry under `k` after adding `ps` to the map of `f`: where one of `ps` is held
/// under `k`, the first, unless `f` holds a value of the same generation; else what `f`
/// holds.
pub open spec fn merged_entry<T>(f: FrameView<T>, ps: Seq<CtxtProp<T>>, k: Seq<char>) -> Option<(T, usize)> {
    match map_source(ps, k) {
        None => map_get(f.rest, k),
        Some(i) => match map_get(f.rest, k) {
            Some(e) => if e.1 == f.generation {
                Some(e)
            } else {
                Some((ps[i].value, f.generation))
            },
            None => Some((ps[i].value, f.generation)),
        },
    }
}

/// The map entry under `k` after pushing `ps` onto `f`: dropped where `ps` sets `k` inline,
/// else as merged.
pub open spec fn pushed_entry<T>(f: FrameView<T>, ps: Seq<CtxtProp<T>>, k: Seq<char>) -> Option<(T, usize)> {
    if sets_inline(ps, k) {
        None
    } else {
        merged_entry(f, ps, k)
    }
}

/// The inline trace id after pushing `ps` onto a frame holding `cur`: the first trace id
/// pushed as read, else `cur`.
pub open spec fn pushed_trace_id<T>(cur: Option<TraceId>, ps: Seq<CtxtProp<T>>) -> Option<TraceId> {
    match find_key(ps, trace_key()) {
        Some(i) => ps[i].as_trace_id,
        None => cur,
    }
}

/// The inline span id under `k` after pushing `ps` onto a frame holding `cur`: the first
/// value pushed under `k` as read, else `cur`.
pub open spec fn pushed_span_id<T>(cur: Option<SpanId>, ps: Seq<CtxtProp<T>>, k: Seq<char>) -> Option<SpanId> {
    match find_key(ps, k) {
        Some(i) => ps[i].as_span_id,
        None => cur,
    }
}

/// The frame `f` with `ps` pushed onto it, at its own generation.
pub open spec fn pushed<T>(f: FrameView<T>, ps: Seq<CtxtProp<T>>) -> FrameView<T> {
    let rest = Map::new(
        |k: Seq<char>| pushed_entry(f, ps, k) is Some,
        |k: Seq<char>| pushed_entry(f, ps, k).unwrap(),
    );
    FrameView {
        trace_id: pushed_trace_id(f.trace_id, ps),
        span_parent: pushed_span_id(f.span_parent, ps, parent_key()),
        span_id: pushed_span_id(f.span_id, ps, span_key()),
        generation: f.generation,
        any_fallback: rest.dom().contains(trace_key()) || rest.dom().contains(span_key())
            || rest.dom().contains(parent_key()),
        rest,
    }
}

/// The entry of `rest` under `k`, if any.
pub open spec fn rest_lookup<T>(rest: Seq<(String, T, usize)>, k: Seq<char>) -> Option<(T, usize)> {
    if exists|i: int| 0 <= i < rest.len() && (#[trigger] rest[i]).0@ == k {
        let i = choose|i: int| 0 <= i < rest.len() && (#[trigger] rest[i]).0@ == k;
        Some((rest[i].1, rest[i].2))
    } else {
        None
    }
}

/// No two entries of `rest` share a key.
pub open spec fn keys_unique<T>(rest: Seq<(String, T, usize)>) -> bool {
    forall|i: int, j: int|
        0 <= i < rest.len() && 0 <= j < rest.len() && i != j ==> (#[trigger] rest[i]).0@ != (
        #[trigger] rest[j]).0@
}

/// The map of entries `rest`.
pub open spec fn rest_map<T>(rest: Seq<(String, T, usize)>) -> Map<Seq<char>, (T, usize)> {
    Map::new(|k: Seq<char>| rest_lookup(rest, k) is Some, |k: Seq<char>| rest_lookup(rest, k).unwrap())
}

proof fn lemma_lookup_index<T>(rest: Seq<(String, T, usize)>, i: int)
    requires
        keys_unique(rest),
        0 <= i < rest.len(),
    ensures
        rest_lookup(rest, rest[i].0@) == Some((rest[i].1, rest[i].2)),
{
    let k = rest[i].0@;
    assert(0 <= i < rest.len() && rest[i].0@ == k);
    let j = choose|j: int| 0 <= j < rest.len() && (#[trigger] rest[j]).0@ == k;
    if j != i {
        assert(rest[i].0@ != rest[j].0@);
    }
}

proof fn lemma_lookup_none<T>(rest: Seq<(String, T, usize)>, k: Seq<char>)
    requires
        forall|i: int| 0 <= i < rest.len() ==> (#[trigger] rest[i]).0@ != k,
    ensures
        rest_lookup(rest, k) is None,
{
}

/// Adding an entry under a new key.
proof fn lemma_lookup_push<T>(rest: Seq<(String, T, usize)>, e: (String, T, usize))
    requires
        keys_unique(rest),
        rest_lookup(rest, e.0@) is None,
    ensures
        keys_unique(rest.push(e)),
        forall|k: Seq<char>| #[trigger] rest_lookup(rest.push(e), k) == if k == e.0@ {
            Some((e.1, e.2))
        } else {
            rest_lookup(rest, k)
        },
{
    let r2 = rest.push(e);
    assert forall|i: int| 0 <= i < rest.len() implies (#[trigger] rest[i]).0@ != e.0@ by {
        if rest[i].0@ == e.0@ {
            assert(exists|j: int| 0 <= j < rest.len() && (#[trigger] rest[j]).0@ == e.0@);
        }
    }
    assert forall|i: int, j: int|
        0 <= i < r2.len() && 0 <= j < r2.len() && i != j implies (#[trigger] r2[i]).0@ != (
        #[trigger] r2[j]).0@ by {
        if i < rest.len() && j < rest.len() {
            assert(r2[i] == rest[i] && r2[j] == rest[j]);
        } else if i < rest.len() {
            assert(r2[i] == rest[i]);
        } else if j < rest.len() {
            assert(r2[j] == rest[j]);
        }
    }
    assert forall|k: Seq<char>| #[trigger] rest_lookup(r2, k) == if k == e.0@ {
        Some((e.1, e.2))
    } else {
        rest_lookup(rest, k)
    } by {
        if k == e.0@ {
            lemma_lookup_index(r2, rest.len() as int);
        } else if exists|i: int| 0 <= i < rest.len() && (#[trigger] rest[i]).0@ == k {
            let i = choose|i: int| 0 <= i < rest.len() && (#[trigger] rest[i]).0@ == k;
            lemma_lookup_index(rest, i);
            assert(r2[i] == rest[i]);
            lemma_lookup_index(r2, i);
        } else {
            assert forall|i: int| 0 <= i < r2.len() implies (#[trigger] r2[i]).0@ != k by {
                if i < rest.len() {
                    assert(r2[i] == rest[i]);
                }
            }
        }
    }
}

/// Replacing the entry at `i` with one under the same key.
proof fn lemma_lookup_update<T>(rest: Seq<(String, T, usize)>, i: int, e: (String, T, usize))
    requires
        keys_unique(rest),
        0 <= i < rest.len(),
        e.0@ == rest[i].0@,
    ensures
        keys_unique(rest.update(i, e)),
        forall|k: Seq<char>| #[trigger] rest_lookup(rest.update(i, e), k) == if k == e.0@ {
            Some((e.1, e.2))
        } else {
            rest_lookup(rest, k)
        },
{
    let r2 = rest.update(i, e);
    assert forall|a: int, b: int|
        0 <= a < r2.len() && 0 <= b < r2.len() && a != b implies (#[trigger] r2[a]).0@ != (
        #[trigger] r2[b]).0@ by {
        assert(r2[a].0@ == rest[a].0@);
        assert(r2[b].0@ == rest[b].0@);
    }
    assert forall|k: Seq<char>| #[trigger] rest_lookup(r2, k) == if k == e.0@ {
        Some((e.1, e.2))
    } else {
        rest_lookup(rest, k)
    } by {
        if k == e.0@ {
            lemma_lookup_index(r2, i);
        } else if exists|j: int| 0 <= j < rest.len() && (#[trigger] rest[j]).0@ == k {
            let j = choose|j: int| 0 <= j < rest.len() && (#[trigger] rest[j]).0@ == k;
            lemma_lookup_index(rest, j);
            assert(r2[j] == rest[j]);
            lemma_lookup_index(r2, j);
        } else {
            assert forall|j: int| 0 <= j < r2.len() implies (#[trigger] r2[j]).0@ != k by {
                assert(r2[j].0@ == rest[j].0@);
            }
        }
    }
}

/// The first index under a key, after one more prop.
proof fn lemma_find_key_push<T>(ps: Seq<CtxtProp<T>>, p: CtxtProp<T>, k: Seq<char>)
    ensures
        find_key(ps.push(p), k) == match find_key(ps, k) {
            Some(i) => Some(i),
            None => if p.key@ == k {
                Some(ps.len() as int)
            } else {
                None
            },
        },
{
    assert(ps.push(p).drop_last() =~= ps);
}

/// A first index is in range and has the key.
proof fn lemma_find_key_found<T>(ps: Seq<CtxtProp<T>>, k: Seq<char>)
    ensures
        match find_key(ps, k) {
            Some(i) => 0 <= i < ps.len() && ps[i].key@ == k,
            None => forall|i: int| 0 <= i < ps.len() ==> (#[trigger] ps[i]).key@ != k,
        },
    decreases ps.len(),
{
    if ps.len() > 0 {
        lemma_find_key_found(ps.drop_last(), k);
        match find_key(ps.drop_last(), k) {
            Some(i) => {
                assert(ps[i] == ps.drop_last()[i]);
            },
            None => {
                assert forall|i: int| 0 <= i < ps.len() - 1 implies (#[trigger] ps[i]).key@ != k by {
                    assert(ps[i] == ps.drop_last()[i]);
                }
            },
        }
    }
}


/// A frame on a [`ThreadLocalCtxt`]: the properties that were active when it was created.
#[derive(Debug)]
pub struct ThreadLocalCtxtFrame<T> {
    trace_id: Option<TraceId>,
    span_parent: Option<SpanId>,
    span_id: Option<SpanId>,
    generation: usize,
    any_fallback: bool,
    rest: Vec<(String, T, usize)>,
}

/// Whether `rest` holds a value under an inline key.
pub open spec fn holds_inline_key<T>(rest: Seq<(String, T, usize)>) -> bool {
    rest_lookup(rest, trace_key()) is Some || rest_lookup(rest, span_key()) is Some || rest_lookup(
        rest,
        parent_key(),
    ) is Some
}

impl<T> ThreadLocalCtxtFrame<T> {
    #[verifier::type_invariant]
    spec fn inv(self) -> bool {
        &&& keys_unique(self.rest@)
        &&& self.any_fallback == holds_inline_key(self.rest@)
    }
}

impl<T> View for ThreadLocalCtxtFrame<T> {
    type V = FrameView<T>;

    closed spec fn view(&self) -> FrameView<T> {
        FrameView {
            trace_id: self.trace_id,
            span_parent: self.span_parent,
            span_id: self.span_id,
            generation: self.generation,
            any_fallback: self.any_fallback,
            rest: rest_map(self.rest@),
        }
    }
}

/// `copy` holds what `orig` holds, with each other property's value a clone of the
/// value in `orig`.
pub open spec fn frame_cloned<T: Clone>(orig: FrameView<T>, copy: FrameView<T>) -> bool {
    &&& copy.trace_id == orig.trace_id
    &&& copy.span_parent == orig.span_parent
    &&& copy.span_id == orig.span_id
    &&& copy.generation == orig.generation
    &&& copy.any_fallback == orig.any_fallback
    &&& copy.rest.dom() == orig.rest.dom()
    &&& forall|k: Seq<char>| #[trigger] copy.rest.dom().contains(k) ==> copy.rest[k].1 == orig.rest[k].1
        && cloned::<T>(orig.rest[k].0, copy.rest[k].0)
}

impl<T: Clone> Clone for ThreadLocalCtxtFrame<T> {
    /// A frame holding the same ids, and a clone of each other property under the same
    /// key and generation.
    fn clone(&self) -> (r: Self)
        ensures
            frame_cloned(self@, r@),
    {
        proof {
            use_type_invariant(self);
        }
        let mut rest: Vec<(String, T, usize)> = Vec::new();
        let mut i: usize = 0;
        while i < self.rest.len()
            invariant
                i <= self.rest@.len(),
                rest@.len() == i,
                forall|j: int| 0 <= j < i ==> (#[trigger] rest@[j]).0@ == self.rest@[j].0@ && rest@[j].2
                    == self.rest@[j].2 && cloned::<T>(self.rest@[j].1, rest@[j].1),
            decreases self.rest@.len() - i,
        {
            let e = &self.rest[i];
            rest.push((e.0.clone(), e.1.clone(), e.2));
            i = i + 1;
        }
        let ghost old_rest = self.rest@;
        let ghost new_rest = rest@;
        proof {
            assert forall|a: int, b: int|
                0 <= a < new_rest.len() && 0 <= b < new_rest.len() && a != b implies (
            #[trigger] new_rest[a]).0@ != (#[trigger] new_rest[b]).0@ by {
                assert(old_rest[a].0@ != old_rest[b].0@);
            }
            assert forall|k: Seq<char>| #[trigger] rest_lookup(new_rest, k) is Some == rest_lookup(old_rest, k) is Some
                && (rest_lookup(new_rest, k) is Some ==> rest_lookup(new_rest, k).unwrap().1 == rest_lookup(
                old_rest,
                k,
            ).unwrap().1 && cloned::<T>(rest_lookup(old_rest, k).unwrap().0, rest_lookup(new_rest, k).unwrap().0)) by {
                if exists|j: int| 0 <= j < old_rest.len() && (#[trigger] old_rest[j]).0@ == k {
                    let j = choose|j: int| 0 <= j < old_rest.len() && (#[trigger] old_rest[j]).0@ == k;
                    lemma_lookup_index(old_rest, j);
                    lemma_lookup_index(new_rest, j);
                } else {
                    assert forall|j: int| 0 <= j < new_rest.len() implies (#[trigger] new_rest[j]).0@ != k by {
                        assert(new_rest[j].0@ == old_rest[j].0@);
                    }
                }
            }
        }
        let r = ThreadLocalCtxtFrame {
            trace_id: self.trace_id,
            span_parent: self.span_parent,
            span_id: self.span_id,
            generation: self.generation,
            any_fallback: self.any_fallback,
            rest,
        };
        proof {
            assert(r@.rest.dom() =~= self@.rest.dom());
        }
        r
    }
}

/// The index of the entry of `rest` under `key`, if any.
fn find_entry<T>(rest: &Vec<(String, T, usize)>, key: &String) -> (r: Option<usize>)
    ensures
        match r {
            Some(i) => i < rest@.len() && rest@[i as int].0@ == key@,
            None => forall|i: int| 0 <= i < rest@.len() ==> (#[trigger] rest@[i]).0@ != key@,
        },
{
    let mut i: usize = 0;
    while i < rest.len()
        invariant
            i <= rest@.len(),
            forall|j: int| 0 <= j < i ==> (#[trigger] rest@[j]).0@ != key@,
        decreases rest@.len() - i,
    {
        if rest[i].0 == *key {
            return Some(i);
        }
        i = i + 1;
    }
    None
}

proof fn lemma_special_keys_distinct()
    ensures
        trace_key() != span_key(),
        trace_key() != parent_key(),
        span_key() != parent_key(),
{
    reveal_strlit("trace_id");
    reveal_strlit("span_id");
    reveal_strlit("span_parent");
    assert(trace_key()[0] != span_key()[0]);
    assert(trace_key()[0] != parent_key()[0]);
    assert(span_key().len() != parent_key().len());
}

/// Push `props` onto `frame`, at its generation.
fn open_frame<T>(frame: ThreadLocalCtxtFrame<T>, props: Vec<CtxtProp<T>>) -> (r: ThreadLocalCtxtFrame<T>)
    ensures
        r@ == pushed(frame@, props@),
{
    proof {
        use_type_invariant(&frame);
        lemma_special_keys_distinct();
    }
    let ghost f = frame@;
    let ghost all = props@;
    let ThreadLocalCtxtFrame { trace_id, span_parent, span_id, generation, any_fallback, rest } = frame;
    let mut trace_id = trace_id;
    let mut span_parent = span_parent;
    let mut span_id = span_id;
    let mut rest = rest;
    let trace_k = String::from_str("trace_id");
    let span_k = String::from_str("span_id");
    let parent_k = String::from_str("span_parent");
    let mut trace_seen = false;
    let mut span_seen = false;
    let mut parent_seen = false;
    let mut fallback_any = any_fallback;
    let mut props = props;
    let ghost rest_init = rest@;
    let ghost mut n: int = 0;
    proof {
        assert(all.skip(0) =~= all);
        assert(all.take(0) =~= Seq::<CtxtProp<T>>::empty());
    }
    while props.len() > 0
        invariant
            0 <= n <= all.len(),
            props@ == all.skip(n),
            trace_k@ == trace_key(),
            span_k@ == span_key(),
            parent_k@ == parent_key(),
            trace_key() != span_key(),
            trace_key() != parent_key(),
            span_key() != parent_key(),
            f.generation == generation,
            f.rest == rest_map(rest_init),
            trace_seen == find_key(all.take(n), trace_key()) is Some,
            span_seen == find_key(all.take(n), span_key()) is Some,
            parent_seen == find_key(all.take(n), parent_key()) is Some,
            trace_id == pushed_trace_id(f.trace_id, all.take(n)),
            span_id == pushed_span_id(f.span_id, all.take(n), span_key()),
            span_parent == pushed_span_id(f.span_parent, all.take(n), parent_key()),
            keys_unique(rest@),
            forall|k: Seq<char>| #[trigger] rest_lookup(rest@, k) == merged_entry(f, all.take(n), k),
            !fallback_any ==> !holds_inline_key(rest@),
        decreases props@.len(),
    {
        let ghost ps = all.take(n);
        let ghost rest0 = rest@;
        let p = props.remove(0);
        proof {
            assert(p == all[n]);
            assert(all.take(n + 1) =~= ps.push(p));
            assert(props@ =~= all.skip(n + 1));
            assert forall|i: int| 0 <= i < n implies #[trigger] ps.push(p)[i] == ps[i] by {}
        }
        let ghost ps2 = ps.push(p);
        let CtxtProp { key, value, as_trace_id, as_span_id } = p;
        let mut fallback = false;
        let mut skip = false;
        if key == trace_k {
            if trace_seen {
                skip = true;
            } else {
                trace_seen = true;
                trace_id = as_trace_id;
                if as_trace_id.is_some() {
                    skip = true;
                } else {
                    fallback = true;
                }
            }
        } else if key == span_k {
            if span_seen {
                skip = true;
            } else {
                span_seen = true;
                span_id = as_span_id;
                if as_span_id.is_some() {
                    skip = true;
                } else {
                    fallback = true;
                }
            }
        } else if key == parent_k {
            if parent_seen {
                skip = true;
            } else {
                parent_seen = true;
                span_parent = as_span_id;
                if as_span_id.is_some() {
                    skip = true;
                } else {
                    fallback = true;
                }
            }
        }
        proof {
            assert(ps2[n] == p);
            lemma_find_key_push(ps, p, trace_key());
            lemma_find_key_push(ps, p, span_key());
            lemma_find_key_push(ps, p, parent_key());
            lemma_find_key_push(ps, p, key@);
            lemma_find_key_found(ps, trace_key());
            lemma_find_key_found(ps, span_key());
            lemma_find_key_found(ps, parent_key());
            lemma_find_key_found(ps, key@);
            assert(fallback ==> is_inline_key(key@));
            assert(skip ==> map_source(ps2, key@) == map_source(ps, key@));
            assert(!skip ==> find_key(ps, key@) is None || !is_inline_key(key@));
            assert(!skip ==> map_source(ps2, key@) is Some);
            assert forall|k: Seq<char>| k != key@ implies #[trigger] merged_entry(f, ps2, k) == merged_entry(
                f,
                ps,
                k,
            ) by {
                lemma_find_key_push(ps, p, k);
                lemma_find_key_found(ps, k);
            }
        }
        if !skip {
            let ghost kv = key@;
            let ghost entry = (ps2[n].value, generation);
            match find_entry(&rest, &key) {
                Some(i) => {
                    proof {
                        lemma_lookup_index(rest0, i as int);
                    }
                    if rest[i].2 != generation {
                        let ghost e = (key, value, generation);
                        proof {
                            lemma_lookup_update(rest0, i as int, e);
                        }
                        rest.set(i, (key, value, generation));
                        fallback_any = fallback_any || fallback;
                        proof {
                            assert(rest_lookup(rest@, kv) == Some(entry));
                            assert(merged_entry(f, ps2, kv) == Some(entry));
                        }
                    }
                },
                None => {
                    let ghost e = (key, value, generation);
                    proof {
                        lemma_lookup_none(rest0, key@);
                        lemma_lookup_push(rest0, e);
                    }
                    rest.push((key, value, generation));
                    fallback_any = fallback_any || fallback;
                    proof {
                        assert(rest_lookup(rest@, kv) == Some(entry));
                    }
                },
            }
        }
        proof {
            n = n + 1;
        }
    }
    proof {
        assert(all.take(n) =~= all);
        lemma_find_key_found(all, trace_key());
        lemma_find_key_found(all, span_key());
        lemma_find_key_found(all, parent_key());
    }
    let trace_inline = trace_seen && trace_id.is_some();
    let span_inline = span_seen && span_id.is_some();
    let parent_inline = parent_seen && span_parent.is_some();
    let mut any = false;
    if fallback_any {
        let ghost orig = rest@;
        let mut kept: Vec<(String, T, usize)> = Vec::new();
        while rest.len() > 0
            invariant
                keys_unique(orig),
                rest@ == orig.take(rest@.len() as int),
                rest@.len() <= orig.len(),
                trace_k@ == trace_key(),
                span_k@ == span_key(),
                parent_k@ == parent_key(),
                trace_inline == sets_inline(all, trace_key()),
                span_inline == sets_inline(all, span_key()),
                parent_inline == sets_inline(all, parent_key()),
                keys_unique(kept@),
                forall|k: Seq<char>| #[trigger] rest_lookup(kept@, k) == if (exists|j: int|
                    rest@.len() <= j < orig.len() && (#[trigger] orig[j]).0@ == k) && !sets_inline(all, k) {
                    rest_lookup(orig, k)
                } else {
                    None
                },
                any == holds_inline_key(kept@),
            decreases rest@.len(),
        {
            let ghost m: int = rest@.len() - 1;
            let ghost kept0 = kept@;
            let e = rest.pop().unwrap();
            let ghost ek = e.0@;
            proof {
                assert(e == orig[m]);
                assert(rest@ =~= orig.take(m));
                lemma_lookup_index(orig, m);
                assert forall|j: int| m < j < orig.len() implies (#[trigger] orig[j]).0@ != ek by {
                    assert(orig[j].0@ != orig[m].0@);
                }
                assert(rest_lookup(kept0, ek) is None);
            }
            let is_trace = e.0 == trace_k;
            let is_span = e.0 == span_k;
            let is_parent = e.0 == parent_k;
            let drop = (is_trace && trace_inline) || (is_span && span_inline) || (is_parent && parent_inline);
            proof {
                assert(drop == sets_inline(all, ek));
            }
            if !drop {
                if is_trace || is_span || is_parent {
                    any = true;
                }
                proof {
                    lemma_lookup_push(kept0, e);
                }
                kept.push(e);
            }
            proof {
                assert forall|k: Seq<char>| #[trigger] rest_lookup(kept@, k) == if (exists|j: int|
                    m <= j < orig.len() && (#[trigger] orig[j]).0@ == k) && !sets_inline(all, k) {
                    rest_lookup(orig, k)
                } else {
                    None
                } by {
                    if k != ek {
                        if exists|j: int| m <= j < orig.len() && (#[trigger] orig[j]).0@ == k {
                            let j = choose|j: int| m <= j < orig.len() && (#[trigger] orig[j]).0@ == k;
                            assert(j != m);
                            assert(m + 1 <= j < orig.len() && orig[j].0@ == k);
                        }
                    } else {
                        assert(m <= m < orig.len() && orig[m].0@ == k);
                    }
                }
            }
        }
        proof {
            assert forall|k: Seq<char>| #[trigger] rest_lookup(kept@, k) == pushed_entry(f, all, k) by {
                if !(exists|j: int| 0 <= j < orig.len() && (#[trigger] orig[j]).0@ == k) {
                    lemma_lookup_none(orig, k);
                }
            }
        }
        rest = kept;
    } else {
        proof {
            assert forall|k: Seq<char>| #[trigger] rest_lookup(rest@, k) == pushed_entry(f, all, k) by {
                if sets_inline(all, k) {
                    assert(is_inline_key(k));
                }
            }
        }
    }
    let r = ThreadLocalCtxtFrame { trace_id, span_parent, span_id, generation, any_fallback: any, rest };
    proof {
        assert(r@.rest =~= pushed(f, all).rest);
        assert(r@ =~= pushed(f, all));
    }
    r
}


/// The view of a frame with nothing set, at generation zero.
pub open spec fn empty_frame<T>() -> FrameView<T> {
    FrameView {
        trace_id: None,
        span_parent: None,
        span_id: None,
        generation: 0,
        any_fallback: false,
        rest: Map::empty(),
    }
}

/// The view of `f` moved to the next generation, wrapping around.
pub open spec fn next_generation<T>(f: FrameView<T>) -> FrameView<T> {
    FrameView { generation: f.generation.wrapping_add(1), ..f }
}

/// Whether looking `k` up in `f` hits an inline id that is set.
pub open spec fn inline_hit<T>(f: FrameView<T>, k: Seq<char>) -> bool {
    (k == trace_key() && f.trace_id is Some) || (k == span_key() && f.span_id is Some) || (k
        == parent_key() && f.span_parent is Some)
}

/// A value found in a frame: an inline id, or another property's value.
#[derive(Debug, PartialEq)]
pub enum FrameValue<'a, T> {
    /// The inline trace id.
    TraceId(TraceId),
    /// An inline span id: the span id or the parent span id.
    SpanId(SpanId),
    /// The value of another property.
    Value(&'a T),
}

impl<T> Default for ThreadLocalCtxtFrame<T> {
    /// A frame with nothing set, at generation zero.
    fn default() -> (r: Self)
        ensures
            r@ == empty_frame::<T>(),
    {
        let r = ThreadLocalCtxtFrame {
            trace_id: None,
            span_parent: None,
            span_id: None,
            generation: 0,
            any_fallback: false,
            rest: Vec::new(),
        };
        assert(r@.rest =~= Map::<Seq<char>, (T, usize)>::empty());
        r
    }
}

impl<T> ThreadLocalCtxtFrame<T> {
    /// The inline trace id, if set.
    pub fn trace_id(&self) -> (r: Option<TraceId>)
        ensures
            r == self@.trace_id,
    {
        self.trace_id
    }

    /// The inline span id, if set.
    pub fn span_id(&self) -> (r: Option<SpanId>)
        ensures
            r == self@.span_id,
    {
        self.span_id
    }

    /// The inline parent span id, if set.
    pub fn span_parent(&self) -> (r: Option<SpanId>)
        ensures
            r == self@.span_parent,
    {
        self.span_parent
    }

    /// The generation the frame was pushed at.
    pub fn generation(&self) -> (r: usize)
        ensures
            r == self@.generation,
    {
        self.generation
    }

    /// Whether a value under an inline key is held with the other properties, because it
    /// could not be read as the id its key names.
    pub fn any_fallback(&self) -> (r: bool)
        ensures
            r == self@.any_fallback,
            r == (self@.rest.dom().contains(trace_key()) || self@.rest.dom().contains(span_key())
                || self@.rest.dom().contains(parent_key())),
    {
        proof {
            use_type_invariant(self);
        }
        self.any_fallback
    }

    /// The number of properties held besides the inline ids.
    pub fn rest_len(&self) -> (r: usize)
        ensures
            r == self@.rest.dom().len(),
    {
        proof {
            use_type_invariant(self);
            let keys = self.rest@.map_values(|e: (String, T, usize)| e.0@);
            assert forall|i: int, j: int| 0 <= i < keys.len() && 0 <= j < keys.len() && i != j implies keys[i]
                != keys[j] by {
                assert(self.rest@[i].0@ != self.rest@[j].0@);
            }
            keys.unique_seq_to_set();
            assert forall|k: Seq<char>| self@.rest.dom().contains(k) == keys.to_set().contains(k) by {
                if keys.to_set().contains(k) {
                    let i = choose|i: int| 0 <= i < keys.len() && keys[i] == k;
                    assert(self.rest@[i].0@ == k);
                }
                if self@.rest.dom().contains(k) {
                    let i = choose|i: int| 0 <= i < self.rest@.len() && (#[trigger] self.rest@[i]).0@ == k;
                    assert(keys[i] == k);
                }
            }
            assert(self@.rest.dom() =~= keys.to_set());
        }
        self.rest.len()
    }

    /// The value of the property `key` held besides the inline ids, if any.
    pub fn rest_value(&self, key: &str) -> (r: Option<&T>)
        ensures
            match r {
                Some(v) => self@.rest.dom().contains(key@) && *v == self@.rest[key@].0,
                None => !self@.rest.dom().contains(key@),
            },
    {
        proof {
            use_type_invariant(self);
        }
        let key = String::from_str(key);
        match find_entry(&self.rest, &key) {
            Some(i) => {
                proof {
                    lemma_lookup_index(self.rest@, i as int);
                }
                Some(&self.rest[i].1)
            },
            None => {
                proof {
                    lemma_lookup_none(self.rest@, key@);
                }
                None
            },
        }
    }

    /// The value of the property `key`: the inline id for an inline key where it is set,
    /// else the value held with the other properties, if any.
    pub fn get(&self, key: &str) -> (r: Option<FrameValue<'_, T>>)
        ensures
            match r {
                Some(FrameValue::TraceId(t)) => key@ == trace_key() && self@.trace_id == Some(t),
                Some(FrameValue::SpanId(s)) => (key@ == span_key() && self@.span_id == Some(s)) || (
                key@ == parent_key() && self@.span_parent == Some(s)),
                Some(FrameValue::Value(v)) => !inline_hit(self@, key@) && self@.rest.dom().contains(key@)
                    && *v == self@.rest[key@].0,
                None => !inline_hit(self@, key@) && !self@.rest.dom().contains(key@),
            },
    {
        proof {
            lemma_special_keys_distinct();
        }
        let k = String::from_str(key);
        let trace_k = String::from_str("trace_id");
        let span_k = String::from_str("span_id");
        let parent_k = String::from_str("span_parent");
        if k == trace_k {
            if let Some(t) = self.trace_id {
                return Some(FrameValue::TraceId(t));
            }
        } else if k == span_k {
            if let Some(s) = self.span_id {
                return Some(FrameValue::SpanId(s));
            }
        } else if k == parent_k {
            if let Some(s) = self.span_parent {
                return Some(FrameValue::SpanId(s));
            }
        }
        match self.rest_value(key) {
            Some(v) => Some(FrameValue::Value(v)),
            None => None,
        }
    }
}

/// The id after `id` among the ids of isolated contexts: counting up, and wrapping around
/// past zero, which is the id of the shared context.
pub open spec fn next_ctxt_id(id: usize) -> usize {
    if id == usize::MAX {
        1
    } else {
        (id + 1) as usize
    }
}

/// Hand out the context id held in `next_id`, moving it on to the next. Zero is the shared
/// context's id: it is never handed out, and `next_id` never comes to hold it.
pub fn ctxt_id(next_id: &mut usize) -> (r: usize)
    requires
        *old(next_id) != 0,
    ensures
        r == *old(next_id),
        r != 0,
        *final(next_id) == next_ctxt_id(*old(next_id)),
        *final(next_id) != 0,
{
    let id = *next_id;
    *next_id = if id == usize::MAX {
        1
    } else {
        id + 1
    };
    id
}

/// A context that stores ambient state in thread local storage, under its id.
///
/// The storage itself, one current frame per id and thread, is kept by the caller: it
/// reads the current frame to push onto, and swaps frames in and out on entry and exit.
#[derive(Debug, Clone, Copy)]
pub struct ThreadLocalCtxt {
    id: usize,
}

impl View for ThreadLocalCtxt {
    /// The id of the storage.
    type V = usize;

    closed spec fn view(&self) -> usize {
        self.id
    }
}

impl ThreadLocalCtxt {
    /// Create a new context with fully isolated storage: its id is the one `next_id`
    /// holds, which moves on to the next; it is never the shared context's id zero.
    pub fn new(next_id: &mut usize) -> (r: Self)
        requires
            *old(next_id) != 0,
        ensures
            r@ == *old(next_id),
            r@ != 0,
            *final(next_id) == next_ctxt_id(*old(next_id)),
            *final(next_id) != 0,
    {
        ThreadLocalCtxt { id: ctxt_id(next_id) }
    }

    /// Create a context sharing the same storage as any other shared one: that of id zero.
    pub fn shared() -> (r: Self)
        ensures
            r@ == 0,
    {
        ThreadLocalCtxt { id: 0 }
    }

    /// The id of the storage.
    pub fn id(&self) -> (r: usize)
        ensures
            r == self@,
    {
        self.id
    }

    /// A frame with just `props`, at generation zero.
    pub fn open_root<T>(&self, props: Vec<CtxtProp<T>>) -> (r: ThreadLocalCtxtFrame<T>)
        ensures
            r@ == pushed(empty_frame::<T>(), props@),
    {
        open_frame(ThreadLocalCtxtFrame::default(), props)
    }

    /// The frame `current` with `props` pushed onto it, at the next generation.
    pub fn open_push<T>(&self, current: ThreadLocalCtxtFrame<T>, props: Vec<CtxtProp<T>>) -> (r:
        ThreadLocalCtxtFrame<T>)
        ensures
            r@ == pushed(next_generation(current@), props@),
    {
        proof {
            use_type_invariant(&current);
        }
        let ThreadLocalCtxtFrame { trace_id, span_parent, span_id, generation, any_fallback, rest } =
            current;
        let frame = ThreadLocalCtxtFrame {
            trace_id,
            span_parent,
            span_id,
            generation: generation.wrapping_add(1),
            any_fallback,
            rest,
        };
        assert(frame@ =~= next_generation(current@));
        open_frame(frame, props)
    }
}

/// Pushing properties keeps every property of the frame that none of them names.
pub proof fn law_push_keeps_unnamed<T>(f: FrameView<T>, ps: Seq<CtxtProp<T>>, k: Seq<char>)
    requires
        find_key(ps, k) is None,
    ensures
        map_get(pushed(f, ps).rest, k) == map_get(f.rest, k),
{
}

/// Within one push the first value of a key wins, unless the frame already holds one
/// from the same generation; a value from an earlier generation is replaced.
pub proof fn law_push_first_value_wins<T>(f: FrameView<T>, ps: Seq<CtxtProp<T>>, i: int)
    requires
        0 <= i < ps.len(),
        !is_inline_key(ps[i].key@),
        forall|j: int| 0 <= j < i ==> (#[trigger] ps[j]).key@ != ps[i].key@,
        !(f.rest.dom().contains(ps[i].key@) && f.rest[ps[i].key@].1 == f.generation),
    ensures
        pushed(f, ps).rest.dom().contains(ps[i].key@),
        pushed(f, ps).rest[ps[i].key@] == (ps[i].value, f.generation),
{
    let k = ps[i].key@;
    lemma_find_key_found(ps, k);
    let j = find_key(ps, k).unwrap();
    assert(j == i) by {
        if j < i {
            assert(ps[j].key@ != k);
        } else if j > i {
            lemma_find_key_before(ps, k, i);
        }
    }
}

/// No prop before the first with a key has that key, so a prop with it at `i` comes at or
/// after the first.
proof fn lemma_find_key_before<T>(ps: Seq<CtxtProp<T>>, k: Seq<char>, i: int)
    requires
        0 <= i < ps.len(),
        ps[i].key@ == k,
    ensures
        find_key(ps, k) matches Some(j) && j <= i,
    decreases ps.len(),
{
    if i < ps.len() - 1 {
        assert(ps.drop_last()[i] == ps[i]);
        lemma_find_key_before(ps.drop_last(), k, i);
    } else {
        match find_key(ps.drop_last(), k) {
            Some(j) => {
                lemma_find_key_found(ps.drop_last(), k);
            },
            None => {},
        }
    }
}

/// A pushed value that reads as the id its inline key names sets that id, and leaves no
/// value under the key with the other properties.
pub proof fn law_push_sets_inline_id<T>(f: FrameView<T>, ps: Seq<CtxtProp<T>>, i: int)
    requires
        0 <= i < ps.len(),
        ps[i].key@ == trace_key(),
        forall|j: int| 0 <= j < i ==> (#[trigger] ps[j]).key@ != trace_key(),
        ps[i].as_trace_id is Some,
    ensures
        pushed(f, ps).trace_id == ps[i].as_trace_id,
        !pushed(f, ps).rest.dom().contains(trace_key()),
        !pushed(f, ps).any_fallback || pushed(f, ps).rest.dom().contains(span_key())
            || pushed(f, ps).rest.dom().contains(parent_key()),
{
    lemma_find_key_found(ps, trace_key());
    lemma_find_key_before(ps, trace_key(), i);
    let j = find_key(ps, trace_key()).unwrap();
    if j < i {
        assert(ps[j].key@ != trace_key());
    }
}


/// The frame a store holds for the context `id`: the one set for it, else a frame with
/// nothing set.
pub open spec fn store_frame<T>(m: Map<usize, FrameView<T>>, id: usize) -> FrameView<T> {
    if m.dom().contains(id) {
        m[id]
    } else {
        empty_frame()
    }
}

/// The current frame of each context on one thread, by the context's id; the shared
/// context has id zero.
pub struct CtxtStore<T> {
    shared: ThreadLocalCtxtFrame<T>,
    active: HashMap<usize, ThreadLocalCtxtFrame<T>>,
}

/// The frames of `active`, by id, with `shared` under id zero.
pub open spec fn store_map<T>(shared: FrameView<T>, active: Map<usize, ThreadLocalCtxtFrame<T>>) -> Map<
    usize,
    FrameView<T>,
> {
    Map::new(
        |id: usize| id == 0 || active.contains_key(id),
        |id: usize| if id == 0 {
            shared
        } else {
            active[id]@
        },
    )
}

impl<T> CtxtStore<T> {
    #[verifier::type_invariant]
    spec fn inv(self) -> bool {
        !self.active@.contains_key(0)
    }
}

impl<T> View for CtxtStore<T> {
    /// The frame set for each context, by id.
    type V = Map<usize, FrameView<T>>;

    closed spec fn view(&self) -> Map<usize, FrameView<T>> {
        store_map(self.shared@, self.active@)
    }
}

impl<T> CtxtStore<T> {
    /// A store where every context has a frame with nothing set.
    pub fn new() -> (r: Self)
        ensures
            forall|id: usize| #[trigger] store_frame(r@, id) == empty_frame::<T>(),
    {
        let r = CtxtStore { shared: ThreadLocalCtxtFrame::default(), active: HashMap::new() };
        assert forall|id: usize| #[trigger] store_frame(r@, id) == empty_frame::<T>() by {}
        r
    }

    /// Swap the frame held for the context `id` with `incoming`: entering a frame, and
    /// exiting it again.
    pub fn swap(&mut self, id: usize, incoming: &mut ThreadLocalCtxtFrame<T>)
        ensures
            final(self)@ == old(self)@.insert(id, old(incoming)@),
            final(incoming)@ == store_frame(old(self)@, id),
    {
        broadcast use vstd::std_specs::hash::group_hash_axioms;

        proof {
            use_type_invariant(&*self);
        }
        let ghost old_map = self@;
        if id == 0 {
            let mut shared = ThreadLocalCtxtFrame::default();
            core::mem::swap(&mut shared, &mut self.shared);
            core::mem::swap(&mut shared, incoming);
            self.shared = shared;
            proof {
                assert(self@ =~= old_map.insert(id, old(incoming)@));
            }
        } else {
            let mut active = HashMap::new();
            core::mem::swap(&mut active, &mut self.active);
            let mut f = match active.remove(&id) {
                Some(f) => f,
                None => ThreadLocalCtxtFrame::default(),
            };
            core::mem::swap(&mut f, incoming);
            active.insert(id, f);
            self.active = active;
            proof {
                assert(self@ =~= old_map.insert(id, old(incoming)@));
            }
        }
    }
}

impl<T: Clone> CtxtStore<T> {
    /// A copy of the frame held for the context `id`.
    pub fn current(&self, id: usize) -> (r: ThreadLocalCtxtFrame<T>)
        ensures
            frame_cloned(store_frame(self@, id), r@),
    {
        broadcast use vstd::std_specs::hash::group_hash_axioms;

        proof {
            use_type_invariant(self);
        }
        if id == 0 {
            return self.shared.clone();
        }
        match self.active.get(&id) {
            Some(f) => f.clone(),
            None => {
                let r = ThreadLocalCtxtFrame::default();
                proof {
                    assert(!self@.dom().contains(id));
                    assert(r@.rest.dom() =~= empty_frame::<T>().rest.dom());
                }
                r
            },
        }
    }
}

/// Exiting a frame undoes entering it: swapping the same frame in and back out leaves
/// every context's frame, and the frame itself, as they were.
pub proof fn law_exit_undoes_enter<T>(m: Map<usize, FrameView<T>>, id: usize, f: FrameView<T>)
    ensures
        ({
            let entered = m.insert(id, f);
            let replaced = store_frame(m, id);
            let exited = entered.insert(id, replaced);
            &&& store_frame(entered, id) == f
            &&& forall|x: usize| #[trigger] store_frame(exited, x) == store_frame(m, x)
        }),
{
    let entered = m.insert(id, f);
    let replaced = store_frame(m, id);
    let exited = entered.insert(id, replaced);
    assert forall|x: usize| #[trigger] store_frame(exited, x) == store_frame(m, x) by {
        if x == id {
            if !m.dom().contains(id) {
                assert(store_frame(exited, x) == empty_frame::<T>());
            }
        }
    }
}

/// Contexts are isolated: swapping a frame in for one context leaves every other
/// context's frame as it was.
pub proof fn law_contexts_isolated<T>(m: Map<usize, FrameView<T>>, id: usize, f: FrameView<T>, other: usize)
    requires
        other != id,
    ensures
        store_frame(m.insert(id, f), other) == store_frame(m, other),
{
}

/// Two contexts made by `new` one after the other have different ids, and neither has the
/// shared context's id: a frame swapped in for one leaves what the other, and the shared
/// context, observe as it was.
pub proof fn law_new_contexts_isolated<T>(m: Map<usize, FrameView<T>>, id: usize, f: FrameView<T>)
    requires
        id != 0,
    ensures
        next_ctxt_id(id) != id,
        next_ctxt_id(id) != 0,
        store_frame(m.insert(id, f), 0) == store_frame(m, 0),
        store_frame(m.insert(id, f), next_ctxt_id(id)) == store_frame(m, next_ctxt_id(id)),
        store_frame(m.insert(next_ctxt_id(id), f), id) == store_frame(m, id),
        store_frame(m.insert(next_ctxt_id(id), f), 0) == store_frame(m, 0),
{
}

} // verus!

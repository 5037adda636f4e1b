use emit::platform::thread_local_ctxt::{
    ctxt_id, CtxtProp, CtxtStore, FrameValue, ThreadLocalCtxt, ThreadLocalCtxtFrame,
};
use emit::span::{SpanCtxt, SpanId, TraceId};

#[derive(Debug, Clone, PartialEq)]
enum TestValue {
    Int(i64),
    Bool(bool),
    Trace(TraceId),
    Span(SpanId),
}

// Read a value as the ids it can stand for.
fn prop(key: &str, value: TestValue) -> CtxtProp<TestValue> {
    let (as_trace_id, as_span_id) = match &value {
        TestValue::Trace(t) => (Some(*t), None),
        TestValue::Span(s) => (None, Some(*s)),
        TestValue::Int(n) if *n > 0 => (
            TraceId::from_u128(*n as u128),
            SpanId::from_u64(*n as u64),
        ),
        _ => (None, None),
    };
    CtxtProp {
        key: key.to_string(),
        value,
        as_trace_id,
        as_span_id,
    }
}

fn int_value(frame: &ThreadLocalCtxtFrame<TestValue>, key: &str) -> Option<i64> {
    match frame.rest_value(key) {
        Some(TestValue::Int(n)) => Some(*n),
        _ => None,
    }
}

fn new_ctxt() -> ThreadLocalCtxt {
    let mut next = 1;
    ThreadLocalCtxt::new(&mut next)
}

#[test]
fn can_inline() {
    assert!(
        std::mem::size_of::<ThreadLocalCtxt>() <= std::mem::size_of::<[usize; 2]>()
            && std::mem::align_of::<ThreadLocalCtxt>() <= std::mem::align_of::<[usize; 2]>()
    );
}

#[test]
fn push_props() {
    let ctxt = new_ctxt();
    let mut store = CtxtStore::<TestValue>::new();

    assert_eq!(0, store.current(ctxt.id()).rest_len());

    let mut frame = ctxt.open_push(store.current(ctxt.id()), vec![prop("a", TestValue::Int(1))]);

    assert_eq!(1, frame.rest_len());
    assert_eq!(0, store.current(ctxt.id()).rest_len());

    store.swap(ctxt.id(), &mut frame);

    assert_eq!(0, frame.rest_len());

    let mut inner = ctxt.open_push(
        store.current(ctxt.id()),
        vec![prop("b", TestValue::Int(1)), prop("a", TestValue::Int(2))],
    );

    {
        let props = store.current(ctxt.id());
        assert_eq!(1, props.rest_len());
        assert_eq!(Some(1), int_value(&props, "a"));
    }

    store.swap(ctxt.id(), &mut inner);

    {
        let props = store.current(ctxt.id());
        assert_eq!(2, props.rest_len());
        assert_eq!(Some(2), int_value(&props, "a"));
        assert_eq!(Some(1), int_value(&props, "b"));
    }

    store.swap(ctxt.id(), &mut inner);
    store.swap(ctxt.id(), &mut frame);

    assert_eq!(1, frame.rest_len());
    assert_eq!(0, store.current(ctxt.id()).rest_len());
}

#[test]
fn out_of_order_enter_exit() {
    let ctxt = new_ctxt();
    let mut store = CtxtStore::<TestValue>::new();

    let mut a = ctxt.open_push(store.current(ctxt.id()), vec![prop("a", TestValue::Int(1))]);
    store.swap(ctxt.id(), &mut a);

    let mut b = ctxt.open_push(store.current(ctxt.id()), vec![prop("b", TestValue::Int(1))]);
    store.swap(ctxt.id(), &mut b);

    // Ensure out-of-order exit doesn't panic
    store.swap(ctxt.id(), &mut a);
    store.swap(ctxt.id(), &mut b);
}

#[test]
fn isolation() {
    let mut next = 1;
    let ctxt_a = ThreadLocalCtxt::new(&mut next);
    let ctxt_b = ThreadLocalCtxt::new(&mut next);
    let mut store = CtxtStore::<TestValue>::new();

    let mut frame_a = ctxt_a.open_push(store.current(ctxt_a.id()), vec![prop("a", TestValue::Int(1))]);
    store.swap(ctxt_a.id(), &mut frame_a);

    assert_eq!(1, store.current(ctxt_a.id()).rest_len());
    assert_eq!(0, store.current(ctxt_b.id()).rest_len());

    store.swap(ctxt_a.id(), &mut frame_a);
}

#[test]
fn shared_store_frame() {
    let ctxt = ThreadLocalCtxt::shared();
    let mut store = CtxtStore::<TestValue>::new();

    let mut frame = ctxt.open_push(store.current(ctxt.id()), vec![prop("s", TestValue::Int(4))]);
    store.swap(ctxt.id(), &mut frame);
    assert_eq!(Some(4), int_value(&store.current(0), "s"));
    assert_eq!(0, frame.rest_len());
    store.swap(ctxt.id(), &mut frame);
    assert_eq!(0, store.current(0).rest_len());
    assert_eq!(Some(4), int_value(&frame, "s"));
}

#[test]
fn dedup() {
    let ctxt = new_ctxt();

    let frame = ctxt.open_push(
        ThreadLocalCtxtFrame::default(),
        vec![prop("a", TestValue::Int(1)), prop("a", TestValue::Int(2))],
    );

    assert_eq!(Some(1), int_value(&frame, "a"));

    let inner = ctxt.open_push(
        frame,
        vec![prop("a", TestValue::Int(2)), prop("a", TestValue::Int(3))],
    );

    assert_eq!(Some(2), int_value(&inner, "a"));
}

#[test]
fn inline_props() {
    let ctxt = new_ctxt();

    let frame = ctxt.open_push(
        ThreadLocalCtxtFrame::default(),
        vec![
            prop("trace_id", TestValue::Trace(TraceId::from_u128(42).unwrap())),
            prop("span_id", TestValue::Span(SpanId::from_u64(1).unwrap())),
            prop("a", TestValue::Int(1)),
        ],
    );

    assert_eq!(1, frame.rest_len());
    assert_eq!(Some(TraceId::from_u128(42).unwrap()), frame.trace_id());
    assert_eq!(Some(SpanId::from_u64(1).unwrap()), frame.span_id());
    assert_eq!(
        Some(FrameValue::TraceId(TraceId::from_u128(42).unwrap())),
        frame.get("trace_id")
    );
    assert_eq!(
        Some(FrameValue::SpanId(SpanId::from_u64(1).unwrap())),
        frame.get("span_id")
    );
    assert_eq!(Some(FrameValue::Value(&TestValue::Int(1))), frame.get("a"));
    assert!(!frame.any_fallback());

    // Add more props
    {
        let frame = ctxt.open_push(
            clone_frame(&frame),
            vec![
                prop("trace_id", TestValue::Trace(TraceId::from_u128(43).unwrap())),
                prop("span_parent", TestValue::Span(SpanId::from_u64(1).unwrap())),
                prop("b", TestValue::Int(2)),
            ],
        );

        assert_eq!(2, frame.rest_len());
        assert_eq!(Some(1), int_value(&frame, "a"));
        assert_eq!(Some(2), int_value(&frame, "b"));

        assert_eq!(Some(TraceId::from_u128(43).unwrap()), frame.trace_id());
        assert_eq!(Some(SpanId::from_u64(1).unwrap()), frame.span_parent());
        assert_eq!(Some(SpanId::from_u64(1).unwrap()), frame.span_id());

        assert!(!frame.any_fallback());
    }

    // Replace an inline prop with a fallback
    {
        let frame = ctxt.open_push(
            clone_frame(&frame),
            vec![
                prop("trace_id", TestValue::Bool(true)),
                prop("span_parent", TestValue::Span(SpanId::from_u64(1).unwrap())),
            ],
        );

        assert_eq!(2, frame.rest_len());
        assert_eq!(Some(1), int_value(&frame, "a"));
        assert_eq!(
            Some(FrameValue::Value(&TestValue::Bool(true))),
            frame.get("trace_id")
        );

        assert_eq!(None, frame.trace_id());
        assert_eq!(Some(SpanId::from_u64(1).unwrap()), frame.span_parent());

        assert!(frame.any_fallback());

        // Replace a fallback prop with an inline
        {
            let frame = ctxt.open_push(
                frame,
                vec![
                    prop("trace_id", TestValue::Trace(TraceId::from_u128(43).unwrap())),
                    prop("span_id", TestValue::Span(SpanId::from_u64(2).unwrap())),
                ],
            );

            assert_eq!(1, frame.rest_len());
            assert_eq!(Some(1), int_value(&frame, "a"));

            assert_eq!(Some(TraceId::from_u128(43).unwrap()), frame.trace_id());
            assert_eq!(Some(SpanId::from_u64(1).unwrap()), frame.span_parent());
            assert_eq!(Some(SpanId::from_u64(2).unwrap()), frame.span_id());

            assert!(!frame.any_fallback());
        }
    }
}

fn clone_frame(frame: &ThreadLocalCtxtFrame<TestValue>) -> ThreadLocalCtxtFrame<TestValue> {
    frame.clone()
}

#[test]
fn open_root_starts_at_generation_zero() {
    let ctxt = ThreadLocalCtxt::shared();
    assert_eq!(0, ctxt.id());

    let frame = ctxt.open_root(vec![prop("x", TestValue::Int(5)), prop("x", TestValue::Int(6))]);
    assert_eq!(0, frame.generation());
    assert_eq!(Some(5), int_value(&frame, "x"));

    let next = ctxt.open_push(frame, vec![]);
    assert_eq!(1, next.generation());
    assert_eq!(Some(5), int_value(&next, "x"));
}

#[test]
fn duplicate_inline_keys_only_read_the_first() {
    let ctxt = ThreadLocalCtxt::shared();

    let frame = ctxt.open_root(vec![
        prop("span_id", TestValue::Int(7)),
        prop("span_id", TestValue::Bool(false)),
    ]);

    assert_eq!(SpanId::from_u64(7), frame.span_id());
    assert_eq!(0, frame.rest_len());
    assert!(!frame.any_fallback());
}

#[test]
fn ctxt_ids_count_up_and_wrap() {
    let mut next = 1;
    assert_eq!(1, ctxt_id(&mut next));
    assert_eq!(2, next);

    // Zero belongs to the shared context, so the ids wrap around past it
    let mut last = usize::MAX;
    assert_eq!(usize::MAX, ctxt_id(&mut last));
    assert_eq!(1, last);

    let mut next = 7;
    let ctxt = ThreadLocalCtxt::new(&mut next);
    assert_eq!(7, ctxt.id());
    assert_eq!(8, next);
}

#[test]
fn unknown_keys_are_not_found() {
    let frame = ThreadLocalCtxtFrame::<TestValue>::default();
    assert_eq!(None, frame.get("trace_id"));
    assert_eq!(None, frame.get("zzz"));
}

#[test]
fn span_ctxt_from_current_frame() {
    let ctxt = ThreadLocalCtxt::shared();
    let frame = ctxt.open_root(vec![
        prop("trace_id", TestValue::Trace(TraceId::from_u128(9).unwrap())),
        prop("span_parent", TestValue::Bool(true)),
        prop("span_id", TestValue::Int(3)),
    ]);

    let current = SpanCtxt::current(&frame);
    assert_eq!(Some(&TraceId::from_u128(9).unwrap()), current.trace_id());
    assert_eq!(None, current.span_parent());
    assert_eq!(Some(&SpanId::from_u64(3).unwrap()), current.span_id());
}

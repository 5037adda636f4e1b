//! The [`SpanGuard`] type: what a starting span is filtered by, and whether, with what,
//! and as which span an active span completes.
use vstd::prelude::*;

use crate::metric::delta::period_extent;
use crate::metric::{Extent, Timestamp};
use crate::span::SpanCtxt;

verus! {

/// The template of the event a starting span is filtered by.
pub open spec fn start_template_text() -> Seq<char> {
    "{span_name} started"@
}

/// The template of the event a starting span is filtered by: `{span_name} started`.
pub fn start_template() -> (r: &'static str)
    ensures
        r@ == start_template_text(),
{
    "{span_name} started"
}

/// A completed span: the module that ran the operation, its name, the time it covered, and
/// its properties.
pub struct Span<P> {
    /// The module that ran the operation.
    pub mdl: String,
    /// The name of the operation.
    pub name: String,
    /// The time the operation covered.
    pub extent: Option<Extent>,
    /// The span's own properties.
    pub props: P,
}

/// The event a starting span is filtered by: it has the span's module, the template
/// `{span_name} started` and no extent. Its properties are looked up in the order of the
/// fields that follow: the event kind `span` and `span_name`, then the span's own
/// properties, the properties pushed with it onto the context, its new span context, and
/// the properties already on the context.
pub struct SpanStartEvent<P, Q, R> {
    /// The module that runs the operation.
    pub mdl: String,
    /// The event's template.
    pub template: &'static str,
    /// The event's extent: none.
    pub extent: Option<Extent>,
    /// The span's name, the value of the `span_name` property.
    pub span_name: String,
    /// The span's own properties.
    pub span_props: P,
    /// The properties pushed with the span onto the context.
    pub ctxt_props: Q,
    /// The span's new trace id, parent span id and span id.
    pub span_ctxt: SpanCtxt,
    /// The properties already on the context.
    pub current_props: R,
}

/// The event the filter is asked about when a span named `name` starts in `mdl`, with its
/// new context `span_ctxt`.
pub fn span_start_event<P, Q, R>(
    mdl: String,
    name: String,
    span_props: P,
    ctxt_props: Q,
    span_ctxt: SpanCtxt,
    current_props: R,
) -> (r: SpanStartEvent<P, Q, R>)
    ensures
        r.mdl@ == mdl@,
        r.template@ == start_template_text(),
        r.extent is None,
        r.span_name@ == name@,
        r.span_props == span_props,
        r.ctxt_props == ctxt_props,
        r.span_ctxt == span_ctxt,
        r.current_props == current_props,
{
    SpanStartEvent {
        mdl,
        template: start_template(),
        extent: None,
        span_name: name,
        span_props,
        ctxt_props,
        span_ctxt,
        current_props,
    }
}

/// What an active span completes from: its module, name, context, the clock reading at its
/// start, and its properties.
pub struct SpanGuardState<P> {
    /// The module that runs the operation.
    pub mdl: String,
    /// The name of the operation.
    pub name: String,
    /// The span's trace id, parent span id and span id.
    pub ctxt: SpanCtxt,
    /// The clock reading when the span started.
    pub start: Option<Timestamp>,
    /// The span's own properties.
    pub props: P,
}

/// The span that `state` completes as at the clock reading `end`: its module, name and
/// properties, over the time from its start to `end`.
pub open spec fn completed_span<P>(state: SpanGuardState<P>, end: Option<Timestamp>) -> (Seq<char>, Seq<char>, Option<Extent>, P) {
    (state.mdl@, state.name@, period_extent(state.start, end), state.props)
}

/// The parts of a span: its module, name, extent and properties.
pub open spec fn span_parts<P>(s: Span<P>) -> (Seq<char>, Seq<char>, Option<Extent>, P) {
    (s.mdl@, s.name@, s.extent, s.props)
}

/// A guard over an active span. It holds what the span completes from and, where the filter
/// let the span through, the completion that receives it.
///
/// Completing hands the completed span and its completion back to the caller, who passes
/// the one to the other; a disabled span hands back nothing.
pub struct SpanGuard<P, F> {
    state: Option<SpanGuardState<P>>,
    completion: Option<F>,
}

impl<P, F> SpanGuard<P, F> {
    /// What the span completes from, until it is completed.
    pub closed spec fn state(&self) -> Option<SpanGuardState<P>> {
        self.state
    }

    /// The completion the span goes to, where the span is enabled.
    pub closed spec fn completion(&self) -> Option<F> {
        self.completion
    }

    /// A guard for a span starting from `state`, whose start event (see
    /// [`span_start_event`]) the filter let through exactly when `is_enabled`; only an
    /// enabled span keeps `completion`.
    pub fn new(state: SpanGuardState<P>, completion: F, is_enabled: bool) -> (r: Self)
        ensures
            r.state() == Some(state),
            r.completion() == (if is_enabled {
                Some(completion)
            } else {
                None
            }),
    {
        SpanGuard { state: Some(state), completion: if is_enabled { Some(completion) } else { None } }
    }

    /// Whether the span is enabled: whether completing it reaches a completion, and whether
    /// its context frame is pushed.
    pub fn is_enabled(&self) -> (r: bool)
        ensures
            r == self.completion() is Some,
    {
        self.completion.is_some()
    }

    /// The span's trace id, parent span id and span id, which its context frame carries.
    pub fn span_ctxt(&self) -> (r: Option<SpanCtxt>)
        ensures
            match self.state() {
                Some(s) => r == Some(s.ctxt),
                None => r is None,
            },
    {
        match &self.state {
            Some(s) => Some(s.ctxt),
            None => None,
        }
    }

    /// Complete the span at the clock reading `end` with its own completion: the completed
    /// span and that completion, where the span is enabled; nothing where it is disabled.
    pub fn complete(self, end: Option<Timestamp>) -> (r: Option<(Span<P>, F)>)
        ensures
            r is Some <==> (self.state() is Some && self.completion() is Some),
            r matches Some((span, f)) ==> span_parts(span) == completed_span(self.state()->0, end)
                && f == self.completion()->0,
    {
        match (self.state, self.completion) {
            (Some(s), Some(f)) => Some((complete_state(s, end), f)),
            _ => None,
        }
    }

    /// Complete the span at the clock reading `end` with `completion` in place of its own:
    /// the completed span and `completion`, where the span is enabled; nothing where it is
    /// disabled, so that `completion` is then not called.
    pub fn complete_with<G>(self, end: Option<Timestamp>, completion: G) -> (r: Option<(Span<P>, G)>)
        ensures
            r is Some <==> (self.state() is Some && self.completion() is Some),
            r matches Some((span, g)) ==> span_parts(span) == completed_span(self.state()->0, end)
                && g == completion,
    {
        match (self.state, self.completion) {
            (Some(s), Some(_)) => Some((complete_state(s, end), completion)),
            _ => None,
        }
    }
}

/// The span that `state` completes as at the clock reading `end`.
fn complete_state<P>(state: SpanGuardState<P>, end: Option<Timestamp>) -> (r: Span<P>)
    ensures
        span_parts(r) == completed_span(state, end),
{
    let extent = match (state.start, end) {
        (Some(s), Some(e)) => Some(Extent::Range(s, e)),
        (Some(s), None) => Some(Extent::Point(s)),
        (None, Some(e)) => Some(Extent::Point(e)),
        (None, None) => None,
    };
    Span { mdl: state.mdl, name: state.name, extent, props: state.props }
}

/// A span that the filter let through completes, once, as the span it started from over
/// the time to the completing clock reading; one it did not let through never reaches a
/// completion.
pub proof fn law_span_guard_completes_when_enabled<P, F>(
    g: SpanGuard<P, F>,
    state: SpanGuardState<P>,
    completion: F,
    is_enabled: bool,
)
    requires
        g.state() == Some(state),
        g.completion() == (if is_enabled {
            Some(completion)
        } else {
            None
        }),
    ensures
        (g.state() is Some && g.completion() is Some) == is_enabled,
        is_enabled ==> g.state()->0 == state && g.completion()->0 == completion,
{
}

} // verus!

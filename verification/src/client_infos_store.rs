//! The per-client store of the monitor: it takes the messages of one client
//! and keeps that client's spans, scopes and events, with the timeline of
//! their creation and the stack of open scopes.

use crate::entities::{
    event_views, opt_diagnostic, span_views, CalcScope, Diagnostic, Event, Span, SpanView,
};
use crate::ids::Id;
use crate::message::{merged, MonitorMsg};
use crate::tables::{
    keys_contains, keys_insert, keys_new, table_get, table_insert, table_len, table_new,
    table_remove, KeySet, Table,
};
use crate::timeline::{event_keys, scope_keys, span_keys, StoreView};
use std::collections::VecDeque;
use std::time::Instant;
use vstd::prelude::*;

verus! {

/// `std::time::Instant`: a reading of the monotonic clock, carried as it is.
#[verifier::external_type_specification]
#[verifier::external_body]
pub struct ExInstant(Instant);

/// The span limit of a store that was given none.
pub const DEFAULT_SPAN_LIMIT: usize = 1024;

/// Everything the monitor knows about one client.
pub struct ClientInfoStore {
    client_name: String,
    /// The wall-clock instant that the client's time stamps are relative to.
    client_start_at: Instant,
    spans: Table<Span>,
    events: Table<Event>,
    calc_scopes: Table<CalcScope>,
    timelines: VecDeque<Id>,
    call_stack: Vec<Id>,
    event_id_acc: u64,
    calc_span_id_acc: u64,
    span_limit: usize,
}

impl View for ClientInfoStore {
    type V = StoreView;

    closed spec fn view(&self) -> StoreView {
        StoreView {
            spans: span_views(self.spans@),
            events: event_views(self.events@),
            calc_scopes: self.calc_scopes@,
            timelines: self.timelines@,
            call_stack: self.call_stack@,
            event_id_acc: self.event_id_acc,
            calc_span_id_acc: self.calc_span_id_acc,
            span_limit: self.span_limit,
        }
    }
}

/// The ids among the first `j + 1` entries of `list` are those among the
/// first `j`, and the entry at `j`.
proof fn lemma_to_set_next(list: Seq<Id>, j: int)
    requires
        0 <= j < list.len(),
    ensures
        list.take(j + 1).to_set() == list.take(j).to_set().insert(list[j]),
{
    let a = list.take(j + 1);
    let b = list.take(j);
    assert forall|x: Id| a.contains(x) <==> (b.contains(x) || x == list[j]) by {
        if a.contains(x) {
            let i = choose|i: int| 0 <= i < a.len() && a[i] == x;
            if i < j {
                assert(b[i] == x);
            }
        }
        if b.contains(x) {
            let i = choose|i: int| 0 <= i < b.len() && b[i] == x;
            assert(a[i] == x);
        }
        assert(a[j] == list[j]);
    }
    assert(a.to_set() =~= b.to_set().insert(list[j]));
}

impl ClientInfoStore {
    /// The name of the client.
    pub closed spec fn name(&self) -> Seq<char> {
        self.client_name@
    }

    /// The instant that the client's time stamps are relative to.
    pub closed spec fn started(&self) -> Instant {
        self.client_start_at
    }

    /// The store of a client that has sent nothing yet.
    pub fn new(client_name: String, client_start_at: Instant, span_limit: usize) -> (store: Self)
        ensures
            store@ == StoreView::empty(span_limit),
            store@.inv(),
            store.name() == client_name@,
            store.started() == client_start_at,
    {
        let store = ClientInfoStore {
            client_name,
            client_start_at,
            spans: table_new(),
            events: table_new(),
            calc_scopes: table_new(),
            timelines: VecDeque::new(),
            call_stack: Vec::new(),
            event_id_acc: 0,
            calc_span_id_acc: 0,
            span_limit,
        };
        assert(store@.spans =~= Map::empty());
        assert(store@.events =~= Map::empty());
        proof {
            StoreView::lemma_empty_inv(span_limit);
        }
        store
    }

    /// The name of the client.
    pub fn client_name(&self) -> (name: &str)
        ensures
            name@ == self.name(),
    {
        self.client_name.as_str()
    }

    /// The instant that the client's time stamps are relative to.
    pub fn client_start_at(&self) -> (at: Instant)
        ensures
            at == self.started(),
    {
        self.client_start_at
    }

    /// From how many spans on the closing of a top-level span evicts.
    pub fn span_limit(&self) -> (limit: usize)
        ensures
            limit == self@.span_limit,
    {
        self.span_limit
    }

    /// Sets the span limit and leaves everything else as it is.
    pub fn set_span_limit(&mut self, limit: usize)
        ensures
            final(self)@ == (StoreView { span_limit: limit, ..old(self)@ }),
            final(self).name() == old(self).name(),
            final(self).started() == old(self).started(),
    {
        self.span_limit = limit;
    }

    /// The number of spans in the store.
    pub fn spans_len(&self) -> (n: usize)
        ensures
            n == self@.spans.len(),
    {
        assert(self@.spans.dom() =~= self.spans@.dom());
        table_len(&self.spans)
    }

    /// The number of scopes in the store.
    pub fn calc_scopes_len(&self) -> (n: usize)
        ensures
            n == self@.calc_scopes.len(),
    {
        table_len(&self.calc_scopes)
    }

    /// The number of events in the store.
    pub fn events_len(&self) -> (n: usize)
        ensures
            n == self@.events.len(),
    {
        assert(self@.events.dom() =~= self.events@.dom());
        table_len(&self.events)
    }

    /// The number of entries of the timeline.
    pub fn timelines_len(&self) -> (n: usize)
        ensures
            n == self@.timelines.len(),
    {
        self.timelines.len()
    }

    /// The `i`-th entry of the timeline, if there are that many.
    pub fn timeline_at(&self, i: usize) -> (id: Option<Id>)
        ensures
            id == (if i < self@.timelines.len() {
                Some(self@.timelines[i as int])
            } else {
                None
            }),
    {
        if i < self.timelines.len() {
            Some(self.timelines[i])
        } else {
            None
        }
    }

    /// The number of open scopes.
    pub fn call_stack_len(&self) -> (n: usize)
        ensures
            n == self@.call_stack.len(),
    {
        self.call_stack.len()
    }

    /// The innermost open scope.
    pub fn top_scope(&self) -> (top: Option<Id>)
        ensures
            top == self@.top(),
    {
        let n = self.call_stack.len();
        if n > 0 {
            Some(self.call_stack[n - 1])
        } else {
            None
        }
    }

    /// The span number `id`, if it is stored.
    pub fn span(&self, id: u64) -> (span: Option<&Span>)
        ensures
            match span {
                Some(s) => self@.spans.contains_key(id) && s@ == self@.spans[id],
                None => !self@.spans.contains_key(id),
            },
    {
        table_get(&self.spans, id)
    }

    /// The scope number `id`, if it is stored.
    pub fn calc_scope(&self, id: u64) -> (scope: Option<&CalcScope>)
        ensures
            match scope {
                Some(s) => self@.calc_scopes.contains_key(id) && *s == self@.calc_scopes[id],
                None => !self@.calc_scopes.contains_key(id),
            },
    {
        table_get(&self.calc_scopes, id)
    }

    /// The event number `id`, if it is stored.
    pub fn event(&self, id: u64) -> (event: Option<&Event>)
        ensures
            match event {
                Some(e) => self@.events.contains_key(id) && e@ == self@.events[id],
                None => !self@.events.contains_key(id),
            },
    {
        table_get(&self.events, id)
    }

    /// Whether the entity called `id` is in its store.
    pub fn holds(&self, id: Id) -> (b: bool)
        ensures
            b == self@.holds(id),
    {
        match id {
            Id::Span(k) => table_get(&self.spans, k).is_some(),
            Id::CalcScope(k) => table_get(&self.calc_scopes, k).is_some(),
            Id::Event(k) => table_get(&self.events, k).is_some(),
        }
    }

    /// Whether the counters can mint the id that `msg` asks for. Where they
    /// cannot, `record` must not be called with `msg`.
    pub fn can_record(&self, msg: &MonitorMsg) -> (b: bool)
        ensures
            b == self@.has_room(msg@),
    {
        match msg {
            MonitorMsg::Event { .. } => self.event_id_acc < u64::MAX,
            MonitorMsg::EnterSpan { id, .. } => {
                table_get(&self.spans, *id).is_none() || self.calc_span_id_acc < u64::MAX
            },
            _ => true,
        }
    }

    fn new_event_id(&mut self) -> (id: Id)
        requires
            old(self).event_id_acc < u64::MAX,
        ensures
            id == Id::Event((old(self).event_id_acc + 1) as u64),
            *final(self) == (ClientInfoStore { event_id_acc: id.raw(), ..*old(self) }),
    {
        self.event_id_acc += 1;
        Id::Event(self.event_id_acc)
    }

    fn new_scope_id(&mut self) -> (id: Id)
        requires
            old(self).calc_span_id_acc < u64::MAX,
        ensures
            id == Id::CalcScope((old(self).calc_span_id_acc + 1) as u64),
            *final(self) == (ClientInfoStore { calc_span_id_acc: id.raw(), ..*old(self) }),
    {
        self.calc_span_id_acc += 1;
        Id::CalcScope(self.calc_span_id_acc)
    }

    /// Takes one message of the client.
    ///
    /// An event and each entry into a stored span mint an id, and so need
    /// room in their counter. Everything else is accepted as it comes: what
    /// names an unknown span is dropped, and what cannot be right is
    /// reported.
    pub fn record(&mut self, msg: MonitorMsg) -> (report: Option<Diagnostic>)
        requires
            old(self)@.has_room(msg@),
        ensures
            final(self)@ == old(self)@.recorded(msg@),
            opt_diagnostic(report) == old(self)@.diagnosis(msg@),
            old(self)@.inv() && old(self)@.admits(msg@) ==> final(self)@.inv(),
            old(self)@.inv() && old(self)@.admits(msg@) ==> forall|k: u64|
                old(self)@.spans.contains_key(k) && old(self)@.spans[k].close_at is Some
                    && #[trigger] final(self)@.spans.contains_key(k) ==> final(self)@.spans[k]
                    == old(self)@.spans[k],
            final(self).name() == old(self).name(),
            final(self).started() == old(self).started(),
    {
        proof {
            if old(self)@.inv() && old(self)@.admits(msg@) {
                old(self)@.lemma_recorded_inv(msg@);
            }
        }
        match msg {
            MonitorMsg::Event { meta, fields, time_stamp, parent_span: _ } => {
                let calc_scope = self.top_scope();
                let id = self.new_event_id();
                self.timelines.push_back(id);
                let event = Event { meta, calc_scope, fields, time_stamp };
                table_insert(&mut self.events, id.number(), event);
                assert(self@.events =~= old(self)@.events.insert(id.raw(), event@));
                assert(self@.spans =~= old(self)@.spans);
                None
            },
            MonitorMsg::NewSpan { id, meta, fields, time_stamp, parent_span: _ } => {
                self.timelines.push_back(Id::Span(id));
                let span = Span {
                    meta,
                    fields,
                    start_at: time_stamp,
                    close_at: None,
                    calc_scope: self.top_scope(),
                };
                table_insert(&mut self.spans, id, span);
                assert(self@.spans =~= old(self)@.spans.insert(id, span@));
                assert(self@.events =~= old(self)@.events);
                None
            },
            MonitorMsg::SpanUpdate { id, changes, time_stamp: _ } => {
                let mut changes = changes;
                match table_remove(&mut self.spans, id) {
                    Some(span) => {
                        let mut span = span;
                        let ghost before = span@;
                        span.fields.merge(&mut changes);
                        assert(span@ == (SpanView {
                            fields: merged(before.fields, msg@->changes),
                            ..before
                        }));
                        table_insert(&mut self.spans, id, span);
                        assert(self@.spans =~= old(self)@.spans.insert(id, span@));
                    },
                    None => {
                        assert(self.spans@ =~= old(self).spans@);
                    },
                }
                assert(self@.events =~= old(self)@.events);
                None
            },
            MonitorMsg::EnterSpan { id, time_stamp } => {
                if table_get(&self.spans, id).is_some() {
                    let parent_scope = self.top_scope();
                    let scope_id = self.new_scope_id();
                    self.timelines.push_back(scope_id);
                    let scope = CalcScope {
                        parent_scope,
                        host: Id::Span(id),
                        enter_at: time_stamp,
                        exit_at: None,
                    };
                    table_insert(&mut self.calc_scopes, scope_id.number(), scope);
                    self.call_stack.push(scope_id);
                    assert(self@.spans =~= old(self)@.spans);
                    assert(self@.events =~= old(self)@.events);
                }
                None
            },
            MonitorMsg::ExitSpan { id, time_stamp } => {
                let mut report: Option<Diagnostic> = None;
                match self.call_stack.pop() {
                    Some(Id::CalcScope(k)) => {
                        assert(self.call_stack@ =~= old(self)@.call_stack.drop_last());
                        match table_remove(&mut self.calc_scopes, k) {
                            Some(scope) => {
                                let mut scope = scope;
                                if scope.host != Id::Span(id) {
                                    report = Some(Diagnostic::CallStackRecord);
                                } else {
                                    scope.exit_at = Some(time_stamp);
                                }
                                table_insert(&mut self.calc_scopes, k, scope);
                                assert(self.calc_scopes@ =~= old(self).calc_scopes@.insert(
                                    k,
                                    scope,
                                ));
                                if scope.host != Id::Span(id) {
                                    assert(self.calc_scopes@ =~= old(self).calc_scopes@);
                                }
                            },
                            None => {
                                assert(self.calc_scopes@ =~= old(self).calc_scopes@);
                            },
                        }
                    },
                    Some(_) => {
                        assert(self.call_stack@ =~= old(self)@.call_stack.drop_last());
                    },
                    None => {},
                }
                report
            },
            MonitorMsg::CloseSpan { id, time_stamp } => {
                let mut report: Option<Diagnostic> = None;
                match table_remove(&mut self.spans, id) {
                    Some(span) => {
                        let mut span = span;
                        let ghost before = span@;
                        if span.close_at.is_some() {
                            report = Some(Diagnostic::TwiceClose);
                            table_insert(&mut self.spans, id, span);
                            assert(self.spans@ =~= old(self).spans@);
                        } else {
                            span.close_at = Some(time_stamp);
                            let top_level = span.calc_scope.is_none();
                            table_insert(&mut self.spans, id, span);
                            assert(self@.spans =~= old(self)@.spans.insert(id, span@));
                            assert(self@.events =~= old(self)@.events);
                            assert(self@.spans.dom() =~= old(self)@.spans.dom());
                            assert(self.spans@.dom() =~= self@.spans.dom());
                            if top_level && table_len(&self.spans) >= self.span_limit {
                                self.try_reduce_closed_spans();
                            }
                        }
                    },
                    None => {
                        assert(self.spans@ =~= old(self).spans@);
                    },
                }
                report
            },
            MonitorMsg::MonitorError(reason) => Some(Diagnostic::MonitorError(reason)),
        }
    }

    /// Whether `id` was removed, by the key sets of what was.
    fn is_gone(
        gone_spans: &KeySet,
        gone_scopes: &KeySet,
        gone_events: &KeySet,
        id: Id,
        Ghost(removed): Ghost<Set<Id>>,
    ) -> (b: bool)
        requires
            gone_spans@ == span_keys(removed),
            gone_scopes@ == scope_keys(removed),
            gone_events@ == event_keys(removed),
        ensures
            b == removed.contains(id),
    {
        match id {
            Id::Span(k) => keys_contains(gone_spans, k),
            Id::CalcScope(k) => keys_contains(gone_scopes, k),
            Id::Event(k) => keys_contains(gone_events, k),
        }
    }

    /// Whether an optional id names something that was removed.
    fn is_gone_opt(
        gone_spans: &KeySet,
        gone_scopes: &KeySet,
        gone_events: &KeySet,
        id: Option<Id>,
        Ghost(removed): Ghost<Set<Id>>,
    ) -> (b: bool)
        requires
            gone_spans@ == span_keys(removed),
            gone_scopes@ == scope_keys(removed),
            gone_events@ == event_keys(removed),
        ensures
            b == (id matches Some(t) && removed.contains(t)),
    {
        match id {
            Some(t) => Self::is_gone(gone_spans, gone_scopes, gone_events, t, Ghost(removed)),
            None => false,
        }
    }

    /// Whether the eviction pass removes `id` when it meets it.
    fn should_drop(
        &self,
        id: Id,
        none_removed: bool,
        gone_spans: &KeySet,
        gone_scopes: &KeySet,
        gone_events: &KeySet,
        Ghost(removed): Ghost<Set<Id>>,
    ) -> (b: bool)
        requires
            none_removed == removed.is_empty(),
            gone_spans@ == span_keys(removed),
            gone_scopes@ == scope_keys(removed),
            gone_events@ == event_keys(removed),
        ensures
            b == self@.should_drop(removed, id),
    {
        match id {
            Id::Span(k) => match table_get(&self.spans, k) {
                Some(span) => none_removed || Self::is_gone_opt(
                    gone_spans,
                    gone_scopes,
                    gone_events,
                    span.calc_scope,
                    Ghost(removed),
                ),
                None => false,
            },
            Id::CalcScope(k) => match table_get(&self.calc_scopes, k) {
                Some(scope) => Self::is_gone(
                    gone_spans,
                    gone_scopes,
                    gone_events,
                    scope.host,
                    Ghost(removed),
                ) || Self::is_gone_opt(
                    gone_spans,
                    gone_scopes,
                    gone_events,
                    scope.parent_scope,
                    Ghost(removed),
                ),
                None => false,
            },
            Id::Event(k) => match table_get(&self.events, k) {
                Some(event) => Self::is_gone_opt(
                    gone_spans,
                    gone_scopes,
                    gone_events,
                    event.calc_scope,
                    Ghost(removed),
                ),
                None => false,
            },
        }
    }

    /// Evicts finished work: one pass over the timeline, oldest entry first,
    /// removes the first span it meets and whatever was created under
    /// something removed. The removed entities leave their stores and the
    /// timeline; the stack of open scopes is not touched.
    pub fn try_reduce_closed_spans(&mut self)
        ensures
            final(self)@ == old(self)@.reduced(),
            old(self)@.inv() ==> final(self)@.entities_inv(),
            old(self)@.inv() ==> forall|id: Id, t: Id|
                final(self)@.holds(id) && #[trigger] final(self)@.refers(id, t)
                    ==> !old(self)@.doomed().contains(t) && final(self)@.holds(t),
            final(self).name() == old(self).name(),
            final(self).started() == old(self).started(),
    {
        proof {
            if old(self)@.inv() {
                old(self)@.lemma_reduced_entities_inv();
                old(self)@.lemma_eviction_keeps_references();
            }
        }
        let ghost s = self@;
        let n = self.timelines.len();
        let mut removed: Vec<Id> = Vec::new();
        let mut gone_spans = keys_new();
        let mut gone_scopes = keys_new();
        let mut gone_events = keys_new();
        let mut kept: VecDeque<Id> = VecDeque::new();
        let mut i: usize = 0;
        assert(removed@.to_set() =~= Set::empty());
        while i < n
            invariant
                i <= n,
                n == self.timelines@.len(),
                self@ == s,
                *self == *old(self),
                kept@ == s.kept(i as nat),
                removed@.to_set() == s.evicted(i as nat),
                (removed@.len() == 0) == s.evicted(i as nat).is_empty(),
                gone_spans@ == span_keys(s.evicted(i as nat)),
                gone_scopes@ == scope_keys(s.evicted(i as nat)),
                gone_events@ == event_keys(s.evicted(i as nat)),
            decreases n - i,
        {
            let id = self.timelines[i];
            let ghost before = s.evicted(i as nat);
            let drop = self.should_drop(
                id,
                removed.len() == 0,
                &gone_spans,
                &gone_scopes,
                &gone_events,
                Ghost(before),
            );
            if drop {
                proof {
                    removed@.lemma_push_to_set_commute(id);
                    assert(before.insert(id).contains(id));
                }
                removed.push(id);
                match id {
                    Id::Span(k) => keys_insert(&mut gone_spans, k),
                    Id::CalcScope(k) => keys_insert(&mut gone_scopes, k),
                    Id::Event(k) => keys_insert(&mut gone_events, k),
                }
            } else if self.holds(id) {
                kept.push_back(id);
            }
            i += 1;
        }
        let ghost doomed = s.doomed();
        let mut j: usize = 0;
        assert(removed@.take(0) =~= Seq::empty());
        assert(removed@.take(0).to_set() =~= Set::empty());
        while j < removed.len()
            invariant
                j <= removed.len(),
                removed@.to_set() == doomed,
                span_views(self.spans@) == s.spans.remove_keys(
                    span_keys(removed@.take(j as int).to_set()),
                ),
                event_views(self.events@) == s.events.remove_keys(
                    event_keys(removed@.take(j as int).to_set()),
                ),
                self.calc_scopes@ == s.calc_scopes.remove_keys(
                    scope_keys(removed@.take(j as int).to_set()),
                ),
                self.timelines@ == s.timelines,
                self.call_stack@ == s.call_stack,
                self.event_id_acc == s.event_id_acc,
                self.calc_span_id_acc == s.calc_span_id_acc,
                self.span_limit == s.span_limit,
                self.name() == old(self).name(),
                self.started() == old(self).started(),
            decreases removed.len() - j,
        {
            let ghost done = removed@.take(j as int).to_set();
            let ghost spans_before = self.spans@;
            let ghost events_before = self.events@;
            proof {
                lemma_to_set_next(removed@, j as int);
            }
            match removed[j] {
                Id::Span(k) => {
                    table_remove(&mut self.spans, k);
                    assert(span_views(self.spans@) =~= span_views(spans_before).remove(k));
                    assert(span_keys(done.insert(Id::Span(k))) =~= span_keys(done).insert(k));
                    assert(event_keys(done.insert(Id::Span(k))) =~= event_keys(done));
                    assert(scope_keys(done.insert(Id::Span(k))) =~= scope_keys(done));
                },
                Id::CalcScope(k) => {
                    table_remove(&mut self.calc_scopes, k);
                    assert(span_keys(done.insert(Id::CalcScope(k))) =~= span_keys(done));
                    assert(event_keys(done.insert(Id::CalcScope(k))) =~= event_keys(done));
                    assert(scope_keys(done.insert(Id::CalcScope(k))) =~= scope_keys(done).insert(
                        k,
                    ));
                },
                Id::Event(k) => {
                    table_remove(&mut self.events, k);
                    assert(event_views(self.events@) =~= event_views(events_before).remove(k));
                    assert(span_keys(done.insert(Id::Event(k))) =~= span_keys(done));
                    assert(event_keys(done.insert(Id::Event(k))) =~= event_keys(done).insert(k));
                    assert(scope_keys(done.insert(Id::Event(k))) =~= scope_keys(done));
                },
            }
            j += 1;
            assert(span_views(self.spans@) =~= s.spans.remove_keys(
                span_keys(done.insert(removed@[j - 1])),
            ));
            assert(event_views(self.events@) =~= s.events.remove_keys(
                event_keys(done.insert(removed@[j - 1])),
            ));
            assert(self.calc_scopes@ =~= s.calc_scopes.remove_keys(
                scope_keys(done.insert(removed@[j - 1])),
            ));
        }
        assert(removed@.take(removed@.len() as int) =~= removed@);
        self.timelines = kept;
    }
}

} // verus!

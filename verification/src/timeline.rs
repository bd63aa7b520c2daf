//! The mathematical model of a client store: what recording a message and
//! evicting finished work do to it.

use crate::entities::{CalcScope, DiagnosticView, EventView, SpanView};
use crate::ids::Id;
use crate::message::{merged, MonitorMsgView};
use vstd::prelude::*;

verus! {

/// The state of a client store.
pub struct StoreView {
    /// The spans, by the number of their id.
    pub spans: Map<u64, SpanView>,
    /// The events, by the number of their id.
    pub events: Map<u64, EventView>,
    /// The scopes, by the number of their id.
    pub calc_scopes: Map<u64, CalcScope>,
    /// Every entity's id, in the order in which the entities were created.
    pub timelines: Seq<Id>,
    /// The scopes that are open, innermost last.
    pub call_stack: Seq<Id>,
    /// The number of the event minted last.
    pub event_id_acc: u64,
    /// The number of the scope minted last.
    pub calc_span_id_acc: u64,
    /// From how many spans on the closing of a top-level span evicts.
    pub span_limit: usize,
}

/// The numbers of the spans in `ids`.
pub open spec fn span_keys(ids: Set<Id>) -> Set<u64> {
    Set::new(|k: u64| ids.contains(Id::Span(k)))
}

/// The numbers of the scopes in `ids`.
pub open spec fn scope_keys(ids: Set<Id>) -> Set<u64> {
    Set::new(|k: u64| ids.contains(Id::CalcScope(k)))
}

/// The numbers of the events in `ids`.
pub open spec fn event_keys(ids: Set<Id>) -> Set<u64> {
    Set::new(|k: u64| ids.contains(Id::Event(k)))
}

impl StoreView {
    /// The store of a client that has sent nothing yet.
    pub open spec fn empty(span_limit: usize) -> StoreView {
        StoreView {
            spans: Map::empty(),
            events: Map::empty(),
            calc_scopes: Map::empty(),
            timelines: Seq::empty(),
            call_stack: Seq::empty(),
            event_id_acc: 0,
            calc_span_id_acc: 0,
            span_limit,
        }
    }

    /// The innermost open scope.
    pub open spec fn top(self) -> Option<Id> {
        if self.call_stack.len() > 0 {
            Some(self.call_stack.last())
        } else {
            None
        }
    }

    /// Whether the entity called `id` is in its store.
    pub open spec fn holds(self, id: Id) -> bool {
        match id {
            Id::Span(k) => self.spans.contains_key(k),
            Id::CalcScope(k) => self.calc_scopes.contains_key(k),
            Id::Event(k) => self.events.contains_key(k),
        }
    }

    /// Whether the stored entity `id` names `target`: as the scope it was
    /// created in, as the span it entered, or as its enclosing scope.
    pub open spec fn refers(self, id: Id, target: Id) -> bool {
        match id {
            Id::Span(k) => self.spans.contains_key(k) && self.spans[k].calc_scope == Some(target),
            Id::CalcScope(k) => self.calc_scopes.contains_key(k) && (self.calc_scopes[k].host
                == target || self.calc_scopes[k].parent_scope == Some(target)),
            Id::Event(k) => self.events.contains_key(k) && self.events[k].calc_scope == Some(
                target,
            ),
        }
    }

    /// Whether the eviction pass removes `id` when it meets it with `removed`
    /// already removed: a span goes when nothing was removed yet or the scope
    /// it was created in went; a scope goes when its host or its enclosing
    /// scope went; an event goes when its scope went.
    pub open spec fn should_drop(self, removed: Set<Id>, id: Id) -> bool {
        match id {
            Id::Span(k) => self.spans.contains_key(k) && (removed.is_empty() || (
            self.spans[k].calc_scope matches Some(c) && removed.contains(c))),
            Id::CalcScope(k) => self.calc_scopes.contains_key(k) && (removed.contains(
                self.calc_scopes[k].host,
            ) || (self.calc_scopes[k].parent_scope matches Some(p) && removed.contains(p))),
            Id::Event(k) => self.events.contains_key(k) && (
            self.events[k].calc_scope matches Some(c) && removed.contains(c)),
        }
    }

    /// What the eviction pass has removed after the first `n` entries of the
    /// timeline.
    pub open spec fn evicted(self, n: nat) -> Set<Id>
        decreases n,
    {
        if n == 0 {
            Set::empty()
        } else {
            let before = self.evicted((n - 1) as nat);
            let id = self.timelines[n - 1];
            if self.should_drop(before, id) {
                before.insert(id)
            } else {
                before
            }
        }
    }

    /// What the eviction pass has kept of the first `n` entries of the
    /// timeline, in order. An entry whose entity is missing is not kept.
    pub open spec fn kept(self, n: nat) -> Seq<Id>
        decreases n,
    {
        if n == 0 {
            Seq::empty()
        } else {
            let id = self.timelines[n - 1];
            if self.holds(id) && !self.should_drop(self.evicted((n - 1) as nat), id) {
                self.kept((n - 1) as nat).push(id)
            } else {
                self.kept((n - 1) as nat)
            }
        }
    }

    /// Everything that one eviction removes.
    pub open spec fn doomed(self) -> Set<Id> {
        self.evicted(self.timelines.len())
    }

    /// The store after one eviction: the timeline keeps what the pass kept,
    /// and the removed entities leave their stores.
    pub open spec fn reduced(self) -> StoreView {
        StoreView {
            spans: self.spans.remove_keys(span_keys(self.doomed())),
            events: self.events.remove_keys(event_keys(self.doomed())),
            calc_scopes: self.calc_scopes.remove_keys(scope_keys(self.doomed())),
            timelines: self.kept(self.timelines.len()),
            ..self
        }
    }

    /// Whether the counters can mint the id that `msg` asks for.
    pub open spec fn has_room(self, msg: MonitorMsgView) -> bool {
        match msg {
            MonitorMsgView::Event { .. } => self.event_id_acc < u64::MAX,
            MonitorMsgView::EnterSpan { id, .. } => self.spans.contains_key(id)
                ==> self.calc_span_id_acc < u64::MAX,
            _ => true,
        }
    }

    /// Whether closing span `id` now sets off an eviction: the span is
    /// stored, open and top-level, and the spans have reached the limit.
    pub open spec fn close_evicts(self, id: u64) -> bool {
        &&& self.spans.contains_key(id)
        &&& self.spans[id].close_at is None
        &&& self.spans[id].calc_scope is None
        &&& self.spans.len() >= self.span_limit
    }

    /// The store after `msg`.
    pub open spec fn recorded(self, msg: MonitorMsgView) -> StoreView {
        match msg {
            MonitorMsgView::Event { meta, fields, time_stamp, .. } => {
                let k = (self.event_id_acc + 1) as u64;
                StoreView {
                    event_id_acc: k,
                    timelines: self.timelines.push(Id::Event(k)),
                    events: self.events.insert(
                        k,
                        EventView { meta, calc_scope: self.top(), fields, time_stamp },
                    ),
                    ..self
                }
            },
            MonitorMsgView::NewSpan { id, meta, fields, time_stamp, .. } => StoreView {
                timelines: self.timelines.push(Id::Span(id)),
                spans: self.spans.insert(
                    id,
                    SpanView {
                        meta,
                        fields,
                        start_at: time_stamp,
                        close_at: None,
                        calc_scope: self.top(),
                    },
                ),
                ..self
            },
            MonitorMsgView::SpanUpdate { id, changes, .. } => {
                if self.spans.contains_key(id) {
                    let span = self.spans[id];
                    StoreView {
                        spans: self.spans.insert(
                            id,
                            SpanView { fields: merged(span.fields, changes), ..span },
                        ),
                        ..self
                    }
                } else {
                    self
                }
            },
            MonitorMsgView::EnterSpan { id, time_stamp } => {
                if self.spans.contains_key(id) {
                    let k = (self.calc_span_id_acc + 1) as u64;
                    StoreView {
                        calc_span_id_acc: k,
                        timelines: self.timelines.push(Id::CalcScope(k)),
                        calc_scopes: self.calc_scopes.insert(
                            k,
                            CalcScope {
                                parent_scope: self.top(),
                                host: Id::Span(id),
                                enter_at: time_stamp,
                                exit_at: None,
                            },
                        ),
                        call_stack: self.call_stack.push(Id::CalcScope(k)),
                        ..self
                    }
                } else {
                    self
                }
            },
            MonitorMsgView::ExitSpan { id, time_stamp } => {
                if self.call_stack.len() == 0 {
                    self
                } else {
                    let popped = StoreView { call_stack: self.call_stack.drop_last(), ..self };
                    match self.call_stack.last() {
                        Id::CalcScope(k) => {
                            if self.calc_scopes.contains_key(k) && self.calc_scopes[k].host
                                == Id::Span(id) {
                                StoreView {
                                    calc_scopes: self.calc_scopes.insert(
                                        k,
                                        CalcScope {
                                            exit_at: Some(time_stamp),
                                            ..self.calc_scopes[k]
                                        },
                                    ),
                                    ..popped
                                }
                            } else {
                                popped
                            }
                        },
                        _ => popped,
                    }
                }
            },
            MonitorMsgView::CloseSpan { id, time_stamp } => {
                if self.spans.contains_key(id) && self.spans[id].close_at is None {
                    let closed = StoreView {
                        spans: self.spans.insert(
                            id,
                            SpanView { close_at: Some(time_stamp), ..self.spans[id] },
                        ),
                        ..self
                    };
                    if self.close_evicts(id) {
                        closed.reduced()
                    } else {
                        closed
                    }
                } else {
                    self
                }
            },
            MonitorMsgView::MonitorError(_) => self,
        }
    }

    /// What the store reports about `msg`: an exit that does not match the
    /// innermost open scope, a second close of a span, or the failure that
    /// the message itself carries.
    pub open spec fn diagnosis(self, msg: MonitorMsgView) -> Option<DiagnosticView> {
        match msg {
            MonitorMsgView::ExitSpan { id, .. } => {
                if self.call_stack.len() > 0 && (self.call_stack.last() matches Id::CalcScope(k)
                    && self.calc_scopes.contains_key(k) && self.calc_scopes[k].host != Id::Span(
                    id,
                )) {
                    Some(DiagnosticView::CallStackRecord)
                } else {
                    None
                }
            },
            MonitorMsgView::CloseSpan { id, .. } => {
                if self.spans.contains_key(id) && self.spans[id].close_at is Some {
                    Some(DiagnosticView::TwiceClose)
                } else {
                    None
                }
            },
            MonitorMsgView::MonitorError(reason) => Some(DiagnosticView::MonitorError(reason)),
            _ => None,
        }
    }

    /// The store after the messages of `msgs`, first to last.
    pub open spec fn replayed(self, msgs: Seq<MonitorMsgView>) -> StoreView
        decreases msgs.len(),
    {
        if msgs.len() == 0 {
            self
        } else {
            self.replayed(msgs.drop_last()).recorded(msgs.last())
        }
    }
}

} // verus!

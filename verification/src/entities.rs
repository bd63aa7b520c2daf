//! What a client store keeps: spans, the scopes opened by entering them, and
//! events.
//!
//! Entities refer to one another by [`Id`], never by value.

use crate::ids::Id;
use crate::message::{Fields, FieldsView, Meta, MetaView};
use std::time::Duration;
use vstd::prelude::*;

verus! {

/// A region of execution of the client.
#[derive(Debug, PartialEq, Eq)]
pub struct Span {
    pub meta: Meta,
    pub fields: Fields,
    /// When the span was created.
    pub start_at: Duration,
    /// When the span was closed, once it has been.
    pub close_at: Option<Duration>,
    /// The scope that was active when the span was created.
    pub calc_scope: Option<Id>,
}

/// The view of a [`Span`].
pub struct SpanView {
    pub meta: MetaView,
    pub fields: FieldsView,
    pub start_at: Duration,
    pub close_at: Option<Duration>,
    pub calc_scope: Option<Id>,
}

impl View for Span {
    type V = SpanView;

    open spec fn view(&self) -> SpanView {
        SpanView {
            meta: self.meta@,
            fields: self.fields@,
            start_at: self.start_at,
            close_at: self.close_at,
            calc_scope: self.calc_scope,
        }
    }
}

impl Clone for Span {
    fn clone(&self) -> (copy: Span)
        ensures
            copy@ == self@,
    {
        Span {
            meta: self.meta.clone(),
            fields: self.fields.clone(),
            start_at: self.start_at,
            close_at: self.close_at,
            calc_scope: self.calc_scope,
        }
    }
}

/// The views of the spans of a table.
pub open spec fn span_views(m: Map<u64, Span>) -> Map<u64, SpanView> {
    m.map_values(|s: Span| s@)
}

/// One entry into a span, until the matching exit.
#[derive(Clone, Copy, Debug, PartialEq, Eq)]
pub struct CalcScope {
    /// The scope that encloses this one.
    pub parent_scope: Option<Id>,
    /// The span that was entered.
    pub host: Id,
    pub enter_at: Duration,
    pub exit_at: Option<Duration>,
}

/// A point-in-time observation of the client.
#[derive(Debug, PartialEq, Eq)]
pub struct Event {
    pub meta: Meta,
    /// The scope that was active when the event was emitted.
    pub calc_scope: Option<Id>,
    pub fields: Fields,
    pub time_stamp: Duration,
}

/// The view of an [`Event`].
pub struct EventView {
    pub meta: MetaView,
    pub calc_scope: Option<Id>,
    pub fields: FieldsView,
    pub time_stamp: Duration,
}

impl View for Event {
    type V = EventView;

    open spec fn view(&self) -> EventView {
        EventView {
            meta: self.meta@,
            calc_scope: self.calc_scope,
            fields: self.fields@,
            time_stamp: self.time_stamp,
        }
    }
}

impl Clone for Event {
    fn clone(&self) -> (copy: Event)
        ensures
            copy@ == self@,
    {
        Event {
            meta: self.meta.clone(),
            calc_scope: self.calc_scope,
            fields: self.fields.clone(),
            time_stamp: self.time_stamp,
        }
    }
}

/// The views of the events of a table.
pub open spec fn event_views(m: Map<u64, Event>) -> Map<u64, EventView> {
    m.map_values(|e: Event| e@)
}

/// What a store has to report about a message that it took.
#[derive(Debug, PartialEq, Eq)]
pub enum Diagnostic {
    /// A span was exited that the innermost open scope did not enter.
    CallStackRecord,
    /// A span that was closed already was closed again.
    TwiceClose,
    /// The client or the pipeline reported a failure of its own.
    MonitorError(String),
}

impl Clone for Diagnostic {
    fn clone(&self) -> (copy: Diagnostic)
        ensures
            copy@ == self@,
    {
        match self {
            Diagnostic::CallStackRecord => Diagnostic::CallStackRecord,
            Diagnostic::TwiceClose => Diagnostic::TwiceClose,
            Diagnostic::MonitorError(reason) => Diagnostic::MonitorError(reason.clone()),
        }
    }
}

/// The view of a [`Diagnostic`].
pub enum DiagnosticView {
    CallStackRecord,
    TwiceClose,
    MonitorError(Seq<char>),
}

impl View for Diagnostic {
    type V = DiagnosticView;

    open spec fn view(&self) -> DiagnosticView {
        match self {
            Diagnostic::CallStackRecord => DiagnosticView::CallStackRecord,
            Diagnostic::TwiceClose => DiagnosticView::TwiceClose,
            Diagnostic::MonitorError(reason) => DiagnosticView::MonitorError(reason@),
        }
    }
}

/// The view of an optional diagnostic.
pub open spec fn opt_diagnostic(d: Option<Diagnostic>) -> Option<DiagnosticView> {
    match d {
        Some(d) => Some(d@),
        None => None,
    }
}

} // verus!

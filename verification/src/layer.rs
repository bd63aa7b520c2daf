//! The producer's side: what the tracing layer of an instrumented program
//! makes of each callback before it hands the message to the pipeline.

use crate::message::{
    upsert, FieldValue, FieldValueView, Fields, FieldsView, Meta, MetaView, MonitorMsg,
    MonitorMsgView,
};
use crossbeam_channel::Sender;
use std::time::{Duration, Instant};
use vstd::prelude::*;

verus! {

/// The time from `start` to `now`, as `Instant::duration_since` gives it.
pub uninterp spec fn elapsed(start: Instant, now: Instant) -> Duration;

/// `Instant::duration_since`: the time that passed from `start` to `now`,
/// zero where `now` is the earlier of the two.
#[verifier::external_body]
fn duration_between(start: Instant, now: Instant) -> (d: Duration)
    ensures
        d == elapsed(start, now),
{
    now.duration_since(start)
}

/// `Sender::send`: hands `msg` to the channel. Returns whether the channel
/// took it; it does not when the receiving end is gone.
#[verifier::external_body]
fn channel_send(tx: &Sender<MonitorMsg>, msg: MonitorMsg) -> (sent: bool) {
    tx.send(msg).is_ok()
}

/// The text of an optional string slice.
pub open spec fn opt_str(t: Option<&str>) -> Option<Seq<char>> {
    match t {
        Some(s) => Some(s@),
        None => None,
    }
}

fn owned(t: Option<&str>) -> (r: Option<String>)
    ensures
        crate::message::opt_text(r) == opt_str(t),
{
    match t {
        Some(s) => Some(s.to_owned()),
        None => None,
    }
}

/// The metadata of a site, from what its callsite says of it.
pub fn record_meta_data(
    name: &str,
    target: &str,
    level: &str,
    module: Option<&str>,
    file: Option<&str>,
    line: Option<u32>,
) -> (meta: Meta)
    ensures
        meta@ == (MetaView {
            name: name@,
            target: target@,
            level: level@,
            module: opt_str(module),
            file: opt_str(file),
            line,
        }),
{
    Meta {
        name: name.to_owned(),
        target: target.to_owned(),
        level: level.to_owned(),
        module: owned(module),
        file: owned(file),
        line,
    }
}

/// A level of verbosity, most severe first.
#[derive(Clone, Copy, Debug, PartialEq, Eq, Structural)]
pub enum Level {
    Error,
    Warn,
    Info,
    Debug,
    Trace,
}

/// Which levels of verbosity are instrumented.
#[derive(Clone, Copy, Debug, PartialEq, Eq, Structural)]
pub struct LevelFlags {
    pub error: bool,
    pub warn: bool,
    pub info: bool,
    pub debug: bool,
    pub trace: bool,
}

impl LevelFlags {
    /// Whether sites of level `level` are instrumented.
    pub open spec fn allows(self, level: Level) -> bool {
        match level {
            Level::Error => self.error,
            Level::Warn => self.warn,
            Level::Info => self.info,
            Level::Debug => self.debug,
            Level::Trace => self.trace,
        }
    }

    /// Every level instrumented.
    pub fn all() -> (flags: LevelFlags)
        ensures
            forall|level: Level| flags.allows(level),
    {
        LevelFlags { error: true, warn: true, info: true, debug: true, trace: true }
    }

    /// No level instrumented.
    pub fn none() -> (flags: LevelFlags)
        ensures
            forall|level: Level| !flags.allows(level),
    {
        LevelFlags { error: false, warn: false, info: false, debug: false, trace: false }
    }

    /// Whether sites of level `level` are instrumented.
    pub fn enabled(&self, level: Level) -> (b: bool)
        ensures
            b == self.allows(level),
    {
        match level {
            Level::Error => self.error,
            Level::Warn => self.warn,
            Level::Info => self.info,
            Level::Debug => self.debug,
            Level::Trace => self.trace,
        }
    }
}

/// Collects the fields of one callback. A value that could not be rendered
/// is left out of the fields and reported on the side instead.
pub struct FieldsVisitor {
    fields: Fields,
    errors: Vec<MonitorMsg>,
}

impl FieldsVisitor {
    /// The fields collected so far.
    pub closed spec fn fields(&self) -> FieldsView {
        self.fields@
    }

    /// The reports made so far, oldest first.
    pub closed spec fn errors(&self) -> Seq<MonitorMsgView> {
        crate::message::batch_view(self.errors@)
    }

    /// A visitor that has seen nothing.
    pub fn new() -> (v: FieldsVisitor)
        ensures
            v.fields().len() == 0,
            v.errors().len() == 0,
    {
        FieldsVisitor { fields: Fields::new(), errors: Vec::new() }
    }

    /// Records a value of a primitive type.
    pub fn record(&mut self, field: &str, value: FieldValue)
        ensures
            final(self).fields() == upsert(old(self).fields(), field@, value@),
            final(self).errors() == old(self).errors(),
    {
        self.fields.insert(field.to_owned(), value);
    }

    /// Records a structured value, given what its rendering came to: the
    /// text, or the reason why there is none. A value without a text adds no
    /// field; a `MonitorError` with the reason is reported instead.
    pub fn record_rendered(&mut self, field: &str, rendered: Result<String, String>)
        ensures
            match rendered {
                Ok(text) => final(self).fields() == upsert(
                    old(self).fields(),
                    field@,
                    FieldValueView::String(text@),
                ) && final(self).errors() == old(self).errors(),
                Err(reason) => final(self).fields() == old(self).fields()
                    && final(self).errors() == old(self).errors().push(
                    MonitorMsgView::MonitorError(reason@),
                ),
            },
    {
        match rendered {
            Ok(text) => {
                self.fields.insert(field.to_owned(), FieldValue::String(text));
            },
            Err(reason) => {
                self.errors.push(MonitorMsg::MonitorError(reason));
                assert(self.errors() =~= old(self).errors().push(
                    MonitorMsgView::MonitorError(reason@),
                ));
            },
        }
    }

    /// Hands out what was collected: the fields, and the reports for the
    /// side channel.
    pub fn data(self) -> (r: (Fields, Vec<MonitorMsg>))
        ensures
            r.0@ == self.fields(),
            crate::message::batch_view(r.1@) == self.errors(),
    {
        (self.fields, self.errors)
    }
}

/// Turns the callbacks of the tracing system into messages, stamped with the
/// time since the layer was started.
pub struct MonitorLayer {
    start_time: Instant,
    msg_sender: Sender<MonitorMsg>,
}

impl MonitorLayer {
    /// When the layer was started.
    pub closed spec fn started(&self) -> Instant {
        self.start_time
    }

    /// A layer started at `start_time` that sends through `sender`.
    pub fn new(sender: Sender<MonitorMsg>, start_time: Instant) -> (layer: MonitorLayer)
        ensures
            layer.started() == start_time,
    {
        MonitorLayer { start_time, msg_sender: sender }
    }

    /// The time stamp of something that happens at `now`.
    pub fn time_stamp(&self, now: Instant) -> (stamp: Duration)
        ensures
            stamp == elapsed(self.started(), now),
    {
        duration_between(self.start_time, now)
    }

    /// The message for an event emitted at `now`.
    pub fn on_event(&self, meta: Meta, fields: Fields, now: Instant) -> (msg: MonitorMsg)
        ensures
            msg@ == (MonitorMsgView::Event {
                meta: meta@,
                fields: fields@,
                time_stamp: elapsed(self.started(), now),
                parent_span: None,
            }),
    {
        MonitorMsg::Event { meta, fields, time_stamp: self.time_stamp(now), parent_span: None }
    }

    /// The message for a span created at `now`.
    pub fn on_new_span(&self, id: u64, meta: Meta, fields: Fields, now: Instant) -> (msg:
        MonitorMsg)
        ensures
            msg@ == (MonitorMsgView::NewSpan {
                id,
                meta: meta@,
                fields: fields@,
                time_stamp: elapsed(self.started(), now),
                parent_span: None,
            }),
    {
        MonitorMsg::NewSpan {
            id,
            meta,
            fields,
            time_stamp: self.time_stamp(now),
            parent_span: None,
        }
    }

    /// The message for values recorded on span `id` at `now`.
    pub fn on_record(&self, id: u64, changes: Fields, now: Instant) -> (msg: MonitorMsg)
        ensures
            msg@ == (MonitorMsgView::SpanUpdate {
                id,
                changes: changes@,
                time_stamp: elapsed(self.started(), now),
            }),
    {
        MonitorMsg::SpanUpdate { id, changes, time_stamp: self.time_stamp(now) }
    }

    /// The message for span `id` entered at `now`.
    pub fn on_enter(&self, id: u64, now: Instant) -> (msg: MonitorMsg)
        ensures
            msg@ == (MonitorMsgView::EnterSpan { id, time_stamp: elapsed(self.started(), now) }),
    {
        MonitorMsg::EnterSpan { id, time_stamp: self.time_stamp(now) }
    }

    /// The message for span `id` exited at `now`.
    pub fn on_exit(&self, id: u64, now: Instant) -> (msg: MonitorMsg)
        ensures
            msg@ == (MonitorMsgView::ExitSpan { id, time_stamp: elapsed(self.started(), now) }),
    {
        MonitorMsg::ExitSpan { id, time_stamp: self.time_stamp(now) }
    }

    /// The message for span `id` closed at `now`.
    pub fn on_close(&self, id: u64, now: Instant) -> (msg: MonitorMsg)
        ensures
            msg@ == (MonitorMsgView::CloseSpan { id, time_stamp: elapsed(self.started(), now) }),
    {
        MonitorMsg::CloseSpan { id, time_stamp: self.time_stamp(now) }
    }

    /// Hands `msg` to the pipeline. Returns whether the pipeline took it; it
    /// does not once its receiving end is gone.
    pub fn send_msg(&self, msg: MonitorMsg) -> (sent: bool) {
        channel_send(&self.msg_sender, msg)
    }
}

} // verus!

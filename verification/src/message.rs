//! The wire schema: metadata, field values, ordered field sets and the
//! message family exchanged between an instrumented program and the monitor.
//!
//! Every type has a mathematical view. Text is viewed as `Seq<char>`, a field
//! set as the sequence of its `(name, value)` entries in wire order.

use std::time::Duration;
use vstd::prelude::*;

verus! {

/// Describes the site that emitted a span or an event.
#[derive(Debug, PartialEq, Eq)]
pub struct Meta {
    /// Short identifier of the span or event.
    pub name: String,
    /// Path of the subsystem the site belongs to.
    pub target: String,
    /// Verbosity tag: error, warn, info, debug or trace.
    pub level: String,
    /// Module in which the site lies, when known.
    pub module: Option<String>,
    /// Source file of the site, when known.
    pub file: Option<String>,
    /// Line of the site in its source file, when known.
    pub line: Option<u32>,
}

/// The view of a [`Meta`].
pub struct MetaView {
    pub name: Seq<char>,
    pub target: Seq<char>,
    pub level: Seq<char>,
    pub module: Option<Seq<char>>,
    pub file: Option<Seq<char>>,
    pub line: Option<u32>,
}

/// The view of an optional text.
pub open spec fn opt_text(t: Option<String>) -> Option<Seq<char>> {
    match t {
        Some(s) => Some(s@),
        None => None,
    }
}

impl View for Meta {
    type V = MetaView;

    open spec fn view(&self) -> MetaView {
        MetaView {
            name: self.name@,
            target: self.target@,
            level: self.level@,
            module: opt_text(self.module),
            file: opt_text(self.file),
            line: self.line,
        }
    }
}

/// One recorded value, tagged by its primitive type.
#[derive(Debug, PartialEq, Eq)]
pub enum FieldValue {
    Bool(bool),
    /// A double, held as its IEEE 754 bit pattern.
    F64(u64),
    I64(i64),
    U64(u64),
    I128(i128),
    U128(u128),
    String(String),
}

impl Clone for Meta {
    fn clone(&self) -> (copy: Meta)
        ensures
            copy@ == self@,
    {
        Meta {
            name: self.name.clone(),
            target: self.target.clone(),
            level: self.level.clone(),
            module: match &self.module {
                Some(text) => Some(text.clone()),
                None => None,
            },
            file: match &self.file {
                Some(text) => Some(text.clone()),
                None => None,
            },
            line: self.line,
        }
    }
}

/// The view of a [`FieldValue`].
pub enum FieldValueView {
    Bool(bool),
    F64(u64),
    I64(i64),
    U64(u64),
    I128(i128),
    U128(u128),
    String(Seq<char>),
}

impl View for FieldValue {
    type V = FieldValueView;

    open spec fn view(&self) -> FieldValueView {
        match self {
            FieldValue::Bool(b) => FieldValueView::Bool(*b),
            FieldValue::F64(bits) => FieldValueView::F64(*bits),
            FieldValue::I64(v) => FieldValueView::I64(*v),
            FieldValue::U64(v) => FieldValueView::U64(*v),
            FieldValue::I128(v) => FieldValueView::I128(*v),
            FieldValue::U128(v) => FieldValueView::U128(*v),
            FieldValue::String(s) => FieldValueView::String(s@),
        }
    }
}

impl Clone for FieldValue {
    fn clone(&self) -> (copy: FieldValue)
        ensures
            copy@ == self@,
    {
        match self {
            FieldValue::Bool(v) => FieldValue::Bool(*v),
            FieldValue::F64(bits) => FieldValue::F64(*bits),
            FieldValue::I64(v) => FieldValue::I64(*v),
            FieldValue::U64(v) => FieldValue::U64(*v),
            FieldValue::I128(v) => FieldValue::I128(*v),
            FieldValue::U128(v) => FieldValue::U128(*v),
            FieldValue::String(text) => FieldValue::String(text.clone()),
        }
    }
}

/// The view of a field set: its entries in wire order.
pub type FieldsView = Seq<(Seq<char>, FieldValueView)>;

/// The view of one stored entry.
pub open spec fn entry_view(e: (String, FieldValue)) -> (Seq<char>, FieldValueView) {
    (e.0@, e.1@)
}

/// The view of a run of stored entries.
pub open spec fn entries_view(s: Seq<(String, FieldValue)>) -> FieldsView {
    s.map_values(|e: (String, FieldValue)| entry_view(e))
}

/// The position of the first entry called `name`, or the length of `s` when
/// there is none.
pub open spec fn position(s: FieldsView, name: Seq<char>) -> int
    decreases s.len(),
{
    if s.len() == 0 {
        0
    } else if s[0].0 == name {
        0
    } else {
        1 + position(s.drop_first(), name)
    }
}

/// Whether some entry of `s` is called `name`.
pub open spec fn has_name(s: FieldsView, name: Seq<char>) -> bool {
    position(s, name) < s.len()
}

/// The value recorded under `name`, if any.
pub open spec fn lookup(s: FieldsView, name: Seq<char>) -> Option<FieldValueView> {
    if has_name(s, name) {
        Some(s[position(s, name)].1)
    } else {
        None
    }
}

/// `s` after recording `value` under `name`: an entry of that name keeps its
/// place and takes the new value, a new name goes to the end.
pub open spec fn upsert(s: FieldsView, name: Seq<char>, value: FieldValueView) -> FieldsView {
    if has_name(s, name) {
        s.update(position(s, name), (name, value))
    } else {
        s.push((name, value))
    }
}

/// `a` after recording every entry of `b`, first to last.
pub open spec fn merged(a: FieldsView, b: FieldsView) -> FieldsView
    decreases b.len(),
{
    if b.len() == 0 {
        a
    } else {
        merged(upsert(a, b[0].0, b[0].1), b.drop_first())
    }
}

/// No two entries of `s` share a name.
pub open spec fn distinct_names(s: FieldsView) -> bool {
    forall|i: int, j: int| 0 <= i < j < s.len() ==> s[i].0 != s[j].0
}

/// The mapping from names to values that `s` stands for.
pub open spec fn as_map(s: FieldsView) -> Map<Seq<char>, FieldValueView> {
    Map::new(|n: Seq<char>| has_name(s, n), |n: Seq<char>| s[position(s, n)].1)
}

/// `position` stays within the sequence, and names the first match.
pub proof fn lemma_position(s: FieldsView, name: Seq<char>)
    ensures
        0 <= position(s, name) <= s.len(),
        has_name(s, name) ==> s[position(s, name)].0 == name,
        forall|i: int| 0 <= i < position(s, name) ==> (#[trigger] s[i]).0 != name,
    decreases s.len(),
{
    if s.len() != 0 && s[0].0 != name {
        let t = s.drop_first();
        lemma_position(t, name);
        assert forall|i: int| 0 <= i < position(s, name) implies (#[trigger] s[i]).0 != name by {
            if i > 0 {
                assert(s[i] == t[i - 1]);
            }
        }
    }
}

/// The first index whose entry is called `name` is `position`.
pub proof fn lemma_position_is(s: FieldsView, name: Seq<char>, i: int)
    requires
        0 <= i <= s.len(),
        forall|j: int| 0 <= j < i ==> (#[trigger] s[j]).0 != name,
        i < s.len() ==> s[i].0 == name,
    ensures
        position(s, name) == i,
{
    lemma_position(s, name);
    let p = position(s, name);
    if p < i {
        assert(s[p].0 != name);
    }
}

/// Recording a value keeps the names distinct.
pub proof fn lemma_upsert_distinct(s: FieldsView, name: Seq<char>, value: FieldValueView)
    requires
        distinct_names(s),
    ensures
        distinct_names(upsert(s, name, value)),
{
    lemma_position(s, name);
    let r = upsert(s, name, value);
    let p = position(s, name);
    assert forall|i: int, j: int| 0 <= i < j < r.len() implies r[i].0 != r[j].0 by {
        if has_name(s, name) {
            assert(r[i].0 == s[i].0);
            assert(r[j].0 == s[j].0);
        } else {
            if j == s.len() {
                assert(s[i].0 != name);
            }
        }
    }
}

/// Merging keeps the names distinct.
pub proof fn lemma_merged_distinct(a: FieldsView, b: FieldsView)
    requires
        distinct_names(a),
    ensures
        distinct_names(merged(a, b)),
    decreases b.len(),
{
    if b.len() != 0 {
        lemma_upsert_distinct(a, b[0].0, b[0].1);
        lemma_merged_distinct(upsert(a, b[0].0, b[0].1), b.drop_first());
    }
}

/// Looking a name up after a recording gives the recorded value for that
/// name and the earlier answer for every other.
pub proof fn lemma_upsert_lookup(
    s: FieldsView,
    name: Seq<char>,
    value: FieldValueView,
    other: Seq<char>,
)
    ensures
        lookup(upsert(s, name, value), name) == Some(value),
        other != name ==> lookup(upsert(s, name, value), other) == lookup(s, other),
{
    lemma_position(s, name);
    lemma_position(s, other);
    let r = upsert(s, name, value);
    let p = position(s, name);
    if has_name(s, name) {
        assert forall|j: int| 0 <= j < p implies (#[trigger] r[j]).0 != name by {
            assert(r[j] == s[j]);
        }
        lemma_position_is(r, name, p);
    } else {
        assert forall|j: int| 0 <= j < s.len() implies (#[trigger] r[j]).0 != name by {
            assert(r[j] == s[j]);
        }
        lemma_position_is(r, name, s.len() as int);
    }
    if other != name {
        let q = position(s, other);
        assert forall|j: int| 0 <= j < q implies (#[trigger] r[j]).0 != other by {
            assert(r[j].0 == s[j].0);
        }
        if q < s.len() {
            assert(r[q] == s[q]);
            lemma_position_is(r, other, q);
        } else if has_name(s, name) {
            lemma_position_is(r, other, q);
        } else {
            assert(r[q].0 == name);
            assert forall|j: int| 0 <= j < r.len() implies (#[trigger] r[j]).0 != other by {
                if j < q {
                    assert(r[j].0 == s[j].0);
                }
            }
            lemma_position_is(r, other, r.len() as int);
        }
    }
}

/// As a mapping, a recording is an insertion.
pub proof fn lemma_upsert_as_map(s: FieldsView, name: Seq<char>, value: FieldValueView)
    ensures
        as_map(upsert(s, name, value)) == as_map(s).insert(name, value),
{
    let r = upsert(s, name, value);
    assert forall|n: Seq<char>| has_name(r, n) == (n == name || has_name(s, n)) by {
        lemma_upsert_lookup(s, name, value, n);
    }
    assert forall|n: Seq<char>| has_name(r, n) implies #[trigger] as_map(r)[n] == as_map(
        s,
    ).insert(name, value)[n] by {
        lemma_upsert_lookup(s, name, value, n);
    }
    assert(as_map(r) =~= as_map(s).insert(name, value));
}

/// As mappings, a merge lets the newer entries win: the entries of `b`
/// replace those of `a` that carry the same name.
pub proof fn lemma_merged_as_map(a: FieldsView, b: FieldsView)
    requires
        distinct_names(b),
    ensures
        as_map(merged(a, b)) == as_map(a).union_prefer_right(as_map(b)),
    decreases b.len(),
{
    if b.len() == 0 {
        assert(as_map(b) =~= Map::empty());
        assert(as_map(a).union_prefer_right(as_map(b)) =~= as_map(a));
    } else {
        let t = b.drop_first();
        let a1 = upsert(a, b[0].0, b[0].1);
        assert(distinct_names(t)) by {
            assert forall|i: int, j: int| 0 <= i < j < t.len() implies t[i].0 != t[j].0 by {
                assert(t[i] == b[i + 1]);
                assert(t[j] == b[j + 1]);
            }
        }
        lemma_merged_as_map(a1, t);
        lemma_upsert_as_map(a, b[0].0, b[0].1);
        lemma_position(t, b[0].0);
        assert(!has_name(t, b[0].0)) by {
            if has_name(t, b[0].0) {
                let p = position(t, b[0].0);
                assert(t[p] == b[p + 1]);
            }
        }
        assert forall|n: Seq<char>| has_name(b, n) == (n == b[0].0 || has_name(t, n)) by {
            lemma_position(b, n);
            lemma_position(t, n);
        }
        assert forall|n: Seq<char>| has_name(b, n) implies #[trigger] as_map(b)[n] == (if n
            == b[0].0 {
            b[0].1
        } else {
            as_map(t)[n]
        }) by {
            lemma_position(b, n);
            lemma_position(t, n);
            if n != b[0].0 {
                assert(b[position(b, n)] == t[position(t, n)]);
            }
        }
        assert(as_map(a1).union_prefer_right(as_map(t)) =~= as_map(a).union_prefer_right(
            as_map(b),
        ));
    }
}

/// An ordered mapping from field names to values.
///
/// Entries keep the order in which their names were first recorded; a later
/// value for a known name replaces the earlier one in place.
#[derive(Debug, PartialEq, Eq)]
pub struct Fields {
    entries: Vec<(String, FieldValue)>,
}

impl View for Fields {
    type V = FieldsView;

    closed spec fn view(&self) -> FieldsView {
        entries_view(self.entries@)
    }
}

impl Clone for Fields {
    fn clone(&self) -> (copy: Fields)
        ensures
            copy@ == self@,
    {
        let mut entries: Vec<(String, FieldValue)> = Vec::new();
        let mut i: usize = 0;
        while i < self.entries.len()
            invariant
                i <= self.entries.len(),
                entries@.len() == i,
                self@.len() == self.entries@.len(),
                entries_view(entries@) == self@.take(i as int),
            decreases self.entries.len() - i,
        {
            let name = self.entries[i].0.clone();
            let value = self.entries[i].1.clone();
            let ghost before = entries@;
            entries.push((name, value));
            assert(entries_view(entries@) =~= entries_view(before).push((name@, value@)));
            assert(entries_view(entries@) =~= self@.take(i + 1));
            i += 1;
        }
        assert(self@.take(i as int) =~= self@);
        Fields { entries }
    }
}

impl Default for Fields {
    fn default() -> (r: Fields)
        ensures
            r@ == Seq::<(Seq<char>, FieldValueView)>::empty(),
    {
        Fields::new()
    }
}

impl Fields {
    /// A field set without entries.
    pub fn new() -> (r: Fields)
        ensures
            r@ == Seq::<(Seq<char>, FieldValueView)>::empty(),
    {
        let r = Fields { entries: Vec::new() };
        assert(r@ =~= Seq::empty());
        r
    }

    /// The number of entries.
    pub fn len(&self) -> (n: usize)
        ensures
            n == self@.len(),
    {
        self.entries.len()
    }

    /// Whether the set has no entry.
    pub fn is_empty(&self) -> (b: bool)
        ensures
            b == (self@.len() == 0),
    {
        self.entries.len() == 0
    }

    /// The entries in wire order.
    pub fn as_slice(&self) -> (s: &[(String, FieldValue)])
        ensures
            entries_view(s@) == self@,
    {
        self.entries.as_slice()
    }

    /// The index of the first entry called `name`, or the number of entries.
    fn find(&self, name: &String) -> (i: usize)
        ensures
            i == position(self@, name@),
            i <= self@.len(),
    {
        let mut i: usize = 0;
        while i < self.entries.len() && !(self.entries[i].0 == *name)
            invariant
                i <= self.entries.len(),
                forall|j: int| 0 <= j < i ==> (#[trigger] self@[j]).0 != name@,
            decreases self.entries.len() - i,
        {
            i += 1;
        }
        proof {
            lemma_position_is(self@, name@, i as int);
        }
        i
    }

    /// The value recorded under `name`, if any.
    pub fn get(&self, name: &str) -> (r: Option<&FieldValue>)
        ensures
            match r {
                Some(v) => lookup(self@, name@) == Some(v@),
                None => lookup(self@, name@).is_none(),
            },
    {
        let owned = name.to_owned();
        let i = self.find(&owned);
        if i < self.entries.len() {
            Some(&self.entries[i].1)
        } else {
            None
        }
    }

    /// Records `value` under `name`. A value already recorded under that name
    /// is replaced where it stands; a new name is appended.
    pub fn insert(&mut self, name: String, value: FieldValue)
        ensures
            final(self)@ == upsert(old(self)@, name@, value@),
    {
        let i = self.find(&name);
        if i < self.entries.len() {
            self.entries.set(i, (name, value));
        } else {
            self.entries.push((name, value));
        }
        assert(self@ =~= upsert(old(self)@, name@, value@));
    }

    /// Records a double, given as its IEEE 754 bit pattern.
    pub fn record_f64(&mut self, field: &str, bits: u64)
        ensures
            final(self)@ == upsert(old(self)@, field@, FieldValueView::F64(bits)),
    {
        self.insert(field.to_owned(), FieldValue::F64(bits));
    }

    /// Records a signed 64-bit integer.
    pub fn record_i64(&mut self, field: &str, value: i64)
        ensures
            final(self)@ == upsert(old(self)@, field@, FieldValueView::I64(value)),
    {
        self.insert(field.to_owned(), FieldValue::I64(value));
    }

    /// Records an unsigned 64-bit integer.
    pub fn record_u64(&mut self, field: &str, value: u64)
        ensures
            final(self)@ == upsert(old(self)@, field@, FieldValueView::U64(value)),
    {
        self.insert(field.to_owned(), FieldValue::U64(value));
    }

    /// Records a signed 128-bit integer.
    pub fn record_i128(&mut self, field: &str, value: i128)
        ensures
            final(self)@ == upsert(old(self)@, field@, FieldValueView::I128(value)),
    {
        self.insert(field.to_owned(), FieldValue::I128(value));
    }

    /// Records an unsigned 128-bit integer.
    pub fn record_u128(&mut self, field: &str, value: u128)
        ensures
            final(self)@ == upsert(old(self)@, field@, FieldValueView::U128(value)),
    {
        self.insert(field.to_owned(), FieldValue::U128(value));
    }

    /// Records a boolean.
    pub fn record_bool(&mut self, field: &str, value: bool)
        ensures
            final(self)@ == upsert(old(self)@, field@, FieldValueView::Bool(value)),
    {
        self.insert(field.to_owned(), FieldValue::Bool(value));
    }

    /// Records a text.
    pub fn record_str(&mut self, field: &str, value: &str)
        ensures
            final(self)@ == upsert(old(self)@, field@, FieldValueView::String(value@)),
    {
        self.insert(field.to_owned(), FieldValue::String(value.to_owned()));
    }

    /// Records a structured value by its rendered text.
    pub fn record_debug(&mut self, field: &str, rendered: String)
        ensures
            final(self)@ == upsert(old(self)@, field@, FieldValueView::String(rendered@)),
    {
        self.insert(field.to_owned(), FieldValue::String(rendered));
    }

    /// Moves every entry of `other` into `self`, first to last, and leaves
    /// `other` empty. Where both hold a name, the value of `other` wins.
    pub fn merge(&mut self, other: &mut Fields)
        ensures
            final(self)@ == merged(old(self)@, old(other)@),
            final(other)@.len() == 0,
            distinct_names(old(self)@) ==> distinct_names(final(self)@),
            distinct_names(old(other)@) ==> as_map(final(self)@) == as_map(
                old(self)@,
            ).union_prefer_right(as_map(old(other)@)),
    {
        while other.entries.len() > 0
            invariant
                merged(self@, other@) == merged(old(self)@, old(other)@),
            decreases other.entries.len(),
        {
            let ghost before = other@;
            let (name, value) = other.entries.remove(0);
            assert(other@ =~= before.drop_first());
            assert(before[0] == (name@, value@));
            self.insert(name, value);
        }
        proof {
            if distinct_names(old(self)@) {
                lemma_merged_distinct(old(self)@, old(other)@);
            }
            if distinct_names(old(other)@) {
                lemma_merged_as_map(old(self)@, old(other)@);
            }
        }
    }
}

/// One message of the monitored program.
///
/// A `time_stamp` is the time since the producer's layer was started.
#[derive(Debug, PartialEq, Eq)]
pub enum MonitorMsg {
    Event { meta: Meta, fields: Fields, time_stamp: Duration, parent_span: Option<u64> },
    NewSpan { id: u64, meta: Meta, fields: Fields, time_stamp: Duration, parent_span: Option<u64> },
    SpanUpdate { id: u64, changes: Fields, time_stamp: Duration },
    EnterSpan { id: u64, time_stamp: Duration },
    ExitSpan { id: u64, time_stamp: Duration },
    CloseSpan { id: u64, time_stamp: Duration },
    /// Something in the pipeline failed without ending the stream.
    MonitorError(String),
}

/// The view of a [`MonitorMsg`].
pub enum MonitorMsgView {
    Event { meta: MetaView, fields: FieldsView, time_stamp: Duration, parent_span: Option<u64> },
    NewSpan {
        id: u64,
        meta: MetaView,
        fields: FieldsView,
        time_stamp: Duration,
        parent_span: Option<u64>,
    },
    SpanUpdate { id: u64, changes: FieldsView, time_stamp: Duration },
    EnterSpan { id: u64, time_stamp: Duration },
    ExitSpan { id: u64, time_stamp: Duration },
    CloseSpan { id: u64, time_stamp: Duration },
    MonitorError(Seq<char>),
}

impl View for MonitorMsg {
    type V = MonitorMsgView;

    open spec fn view(&self) -> MonitorMsgView {
        match self {
            MonitorMsg::Event { meta, fields, time_stamp, parent_span } => MonitorMsgView::Event {
                meta: meta@,
                fields: fields@,
                time_stamp: *time_stamp,
                parent_span: *parent_span,
            },
            MonitorMsg::NewSpan {
                id,
                meta,
                fields,
                time_stamp,
                parent_span,
            } => MonitorMsgView::NewSpan {
                id: *id,
                meta: meta@,
                fields: fields@,
                time_stamp: *time_stamp,
                parent_span: *parent_span,
            },
            MonitorMsg::SpanUpdate { id, changes, time_stamp } => MonitorMsgView::SpanUpdate {
                id: *id,
                changes: changes@,
                time_stamp: *time_stamp,
            },
            MonitorMsg::EnterSpan { id, time_stamp } => MonitorMsgView::EnterSpan {
                id: *id,
                time_stamp: *time_stamp,
            },
            MonitorMsg::ExitSpan { id, time_stamp } => MonitorMsgView::ExitSpan {
                id: *id,
                time_stamp: *time_stamp,
            },
            MonitorMsg::CloseSpan { id, time_stamp } => MonitorMsgView::CloseSpan {
                id: *id,
                time_stamp: *time_stamp,
            },
            MonitorMsg::MonitorError(reason) => MonitorMsgView::MonitorError(reason@),
        }
    }
}

impl Clone for MonitorMsg {
    fn clone(&self) -> (copy: MonitorMsg)
        ensures
            copy@ == self@,
    {
        match self {
            MonitorMsg::Event { meta, fields, time_stamp, parent_span } => MonitorMsg::Event {
                meta: meta.clone(),
                fields: fields.clone(),
                time_stamp: *time_stamp,
                parent_span: *parent_span,
            },
            MonitorMsg::NewSpan { id, meta, fields, time_stamp, parent_span } => {
                MonitorMsg::NewSpan {
                    id: *id,
                    meta: meta.clone(),
                    fields: fields.clone(),
                    time_stamp: *time_stamp,
                    parent_span: *parent_span,
                }
            },
            MonitorMsg::SpanUpdate { id, changes, time_stamp } => MonitorMsg::SpanUpdate {
                id: *id,
                changes: changes.clone(),
                time_stamp: *time_stamp,
            },
            MonitorMsg::EnterSpan { id, time_stamp } => MonitorMsg::EnterSpan {
                id: *id,
                time_stamp: *time_stamp,
            },
            MonitorMsg::ExitSpan { id, time_stamp } => MonitorMsg::ExitSpan {
                id: *id,
                time_stamp: *time_stamp,
            },
            MonitorMsg::CloseSpan { id, time_stamp } => MonitorMsg::CloseSpan {
                id: *id,
                time_stamp: *time_stamp,
            },
            MonitorMsg::MonitorError(reason) => MonitorMsg::MonitorError(reason.clone()),
        }
    }
}

/// The views of a batch of messages, in order.
pub open spec fn batch_view(batch: Seq<MonitorMsg>) -> Seq<MonitorMsgView> {
    batch.map_values(|m: MonitorMsg| m@)
}

} // verus!

//! What holds of every client store that took admissible messages only, and
//! why recording and eviction keep it so.

use crate::ids::Id;
use crate::message::{merged, MonitorMsgView};
use crate::timeline::{event_keys, scope_keys, span_keys, StoreView};
use vstd::prelude::*;

verus! {

/// Whether `t` stands among the first `j` entries of `tl`.
pub open spec fn before(tl: Seq<Id>, j: int, t: Id) -> bool {
    exists|i: int| 0 <= i < j && i < tl.len() && tl[i] == t
}

impl StoreView {
    /// The stores are finite.
    pub open spec fn finite(self) -> bool {
        &&& self.spans.dom().finite()
        &&& self.events.dom().finite()
        &&& self.calc_scopes.dom().finite()
    }

    /// The host of every scope is a span of the store.
    pub open spec fn hosts_resolve(self) -> bool {
        forall|k: u64| #[trigger]
            self.calc_scopes.contains_key(k) ==> self.calc_scopes[k].host is Span && self.holds(
                self.calc_scopes[k].host,
            )
    }

    /// The scope of every event that has one is a scope of the store.
    pub open spec fn event_scopes_resolve(self) -> bool {
        forall|k: u64| #[trigger]
            self.events.contains_key(k) ==> (self.events[k].calc_scope matches Some(c) ==> c is CalcScope
                && self.holds(c))
    }

    /// The enclosing scope of every scope that has one is a scope of the
    /// store.
    pub open spec fn parent_scopes_resolve(self) -> bool {
        forall|k: u64| #[trigger]
            self.calc_scopes.contains_key(k) ==> (
            self.calc_scopes[k].parent_scope matches Some(p) ==> p is CalcScope && self.holds(p))
    }

    /// The scope in which a span was created, where there was one, is a
    /// scope of the store.
    pub open spec fn span_scopes_resolve(self) -> bool {
        forall|k: u64| #[trigger]
            self.spans.contains_key(k) ==> (self.spans[k].calc_scope matches Some(c) ==> c is CalcScope
                && self.holds(c))
    }

    /// The timeline holds no id twice, and holds exactly the ids of the
    /// stored entities.
    pub open spec fn timeline_exact(self) -> bool {
        &&& self.timelines.no_duplicates()
        &&& forall|id: Id| self.timelines.contains(id) <==> self.holds(id)
    }

    /// The stack of open scopes holds no id twice, and only scopes of the
    /// store that were not exited.
    pub open spec fn stack_open(self) -> bool {
        &&& self.call_stack.no_duplicates()
        &&& forall|i: int|
            0 <= i < self.call_stack.len() ==> (#[trigger] self.call_stack[i] matches Id::CalcScope(
                k,
            ) && self.calc_scopes.contains_key(k) && self.calc_scopes[k].exit_at is None)
    }

    /// Whatever an entity refers to stands before it in the timeline.
    pub open spec fn causal(self) -> bool {
        forall|j: int, t: Id|
            0 <= j < self.timelines.len() && #[trigger] self.refers(self.timelines[j], t)
                ==> before(self.timelines, j, t)
    }

    /// No stored event or scope carries a number that is still to be minted.
    pub open spec fn counters_ahead(self) -> bool {
        &&& forall|k: u64| #[trigger] self.events.contains_key(k) ==> k <= self.event_id_acc
        &&& forall|k: u64| #[trigger]
            self.calc_scopes.contains_key(k) ==> k <= self.calc_span_id_acc
    }

    /// What holds of the stored entities and the timeline.
    pub open spec fn entities_inv(self) -> bool {
        &&& self.finite()
        &&& self.hosts_resolve()
        &&& self.event_scopes_resolve()
        &&& self.parent_scopes_resolve()
        &&& self.span_scopes_resolve()
        &&& self.timeline_exact()
        &&& self.causal()
        &&& self.counters_ahead()
    }

    /// The invariant of a client store.
    pub open spec fn inv(self) -> bool {
        &&& self.entities_inv()
        &&& self.stack_open()
    }

    /// Whether an eviction now would leave every open scope in the store.
    pub open spec fn eviction_spares_stack(self) -> bool {
        forall|i: int|
            0 <= i < self.call_stack.len() ==> !self.doomed().contains(#[trigger] self.call_stack[i])
    }

    /// The messages that keep the invariant. Left out are: a new span under
    /// the id of a stored one, an update that changes a closed span, a close
    /// whose eviction would remove a scope that is still open, and what the
    /// counters have no room for.
    pub open spec fn admits(self, msg: MonitorMsgView) -> bool {
        &&& self.has_room(msg)
        &&& match msg {
            MonitorMsgView::NewSpan { id, .. } => !self.spans.contains_key(id),
            MonitorMsgView::SpanUpdate { id, changes, .. } => self.spans.contains_key(id)
                && self.spans[id].close_at is Some ==> merged(self.spans[id].fields, changes)
                == self.spans[id].fields,
            MonitorMsgView::CloseSpan { id, .. } => self.close_evicts(id)
                ==> self.eviction_spares_stack(),
            _ => true,
        }
    }

    /// Whether every message of `msgs` is admitted by the store that the
    /// messages before it leave.
    pub open spec fn admits_all(self, msgs: Seq<MonitorMsgView>) -> bool
        decreases msgs.len(),
    {
        msgs.len() > 0 ==> self.admits_all(msgs.drop_last()) && self.replayed(
            msgs.drop_last(),
        ).admits(msgs.last())
    }

    /// Where the eviction pass stands after the first `n` entries: what it
    /// kept and what it removed part the entries it has seen, and whatever a
    /// kept entity refers to was kept before it.
    spec fn pass_ok(self, n: nat) -> bool {
        let kept = self.kept(n);
        let gone = self.evicted(n);
        &&& forall|x: Id| #[trigger] kept.contains(x) ==> before(self.timelines, n as int, x) && !gone.contains(x)
        &&& forall|x: Id| #[trigger] before(self.timelines, n as int, x) ==> kept.contains(x) || gone.contains(x)
        &&& forall|x: Id| #[trigger] gone.contains(x) ==> before(self.timelines, n as int, x)
        &&& kept.no_duplicates()
        &&& forall|j: int, t: Id|
            0 <= j < kept.len() && #[trigger] self.refers(kept[j], t) ==> before(kept, j, t)
    }
}

proof fn lemma_before_next(tl: Seq<Id>, n: int, x: Id)
    requires
        0 <= n < tl.len(),
    ensures
        before(tl, n + 1, x) <==> (before(tl, n, x) || tl[n] == x),
{
    if before(tl, n + 1, x) {
        let i = choose|i: int| 0 <= i < n + 1 && i < tl.len() && tl[i] == x;
        if i < n {
            assert(before(tl, n, x));
        }
    }
    if before(tl, n, x) {
        let i = choose|i: int| 0 <= i < n && i < tl.len() && tl[i] == x;
        assert(0 <= i < n + 1 && i < tl.len() && tl[i] == x);
    }
    if tl[n] == x {
        assert(0 <= n < n + 1 && n < tl.len() && tl[n] == x);
    }
}

proof fn lemma_before_whole(tl: Seq<Id>, x: Id)
    ensures
        before(tl, tl.len() as int, x) <==> tl.contains(x),
{
    if before(tl, tl.len() as int, x) {
        let i = choose|i: int| 0 <= i < tl.len() && i < tl.len() && tl[i] == x;
        assert(tl[i] == x);
    }
    if tl.contains(x) {
        let i = choose|i: int| 0 <= i < tl.len() && tl[i] == x;
        assert(0 <= i < tl.len() && i < tl.len() && tl[i] == x);
    }
}

proof fn lemma_before_contains(tl: Seq<Id>, j: int, x: Id)
    requires
        before(tl, j, x),
    ensures
        tl.contains(x),
{
    let i = choose|i: int| 0 <= i < j && i < tl.len() && tl[i] == x;
    assert(tl[i] == x);
}

proof fn lemma_push_contains(s: Seq<Id>, e: Id, x: Id)
    ensures
        s.push(e).contains(x) <==> (s.contains(x) || x == e),
{
    let p = s.push(e);
    if p.contains(x) {
        let i = choose|i: int| 0 <= i < p.len() && p[i] == x;
        if i < s.len() {
            assert(s[i] == x);
        }
    }
    if s.contains(x) {
        let i = choose|i: int| 0 <= i < s.len() && s[i] == x;
        assert(p[i] == x);
    }
    assert(p[s.len() as int] == e);
}

proof fn lemma_before_push(s: Seq<Id>, e: Id, j: int, x: Id)
    requires
        0 <= j <= s.len(),
    ensures
        before(s.push(e), j, x) <==> before(s, j, x),
{
    let p = s.push(e);
    if before(p, j, x) {
        let i = choose|i: int| 0 <= i < j && i < p.len() && p[i] == x;
        assert(s[i] == x);
    }
    if before(s, j, x) {
        let i = choose|i: int| 0 <= i < j && i < s.len() && s[i] == x;
        assert(p[i] == x);
    }
}

proof fn lemma_no_duplicates_push(s: Seq<Id>, e: Id)
    requires
        s.no_duplicates(),
        !s.contains(e),
    ensures
        s.push(e).no_duplicates(),
{
    let p = s.push(e);
    assert forall|i: int, j: int| 0 <= i < p.len() && 0 <= j < p.len() && i != j implies p[i]
        != p[j] by {
        if i < s.len() {
            assert(s[i] == p[i]);
        }
        if j < s.len() {
            assert(s[j] == p[j]);
        }
    }
}

impl StoreView {
    /// The eviction pass keeps `pass_ok` from entry to entry.
    proof fn lemma_pass(self, n: nat)
        requires
            self.timeline_exact(),
            self.causal(),
            n <= self.timelines.len(),
        ensures
            self.pass_ok(n),
        decreases n,
    {
        let tl = self.timelines;
        if n == 0 {
            assert forall|x: Id| !before(tl, 0, x) by {}
        } else {
            let m = (n - 1) as nat;
            self.lemma_pass(m);
            let e = tl[m as int];
            let kept0 = self.kept(m);
            let gone0 = self.evicted(m);
            let kept = self.kept(n);
            let gone = self.evicted(n);
            assert(tl.contains(e));
            assert(self.holds(e));
            assert(!before(tl, m as int, e)) by {
                if before(tl, m as int, e) {
                    let i = choose|i: int| 0 <= i < m && i < tl.len() && tl[i] == e;
                    assert(tl[i] == tl[m as int]);
                }
            }
            assert(!kept0.contains(e));
            assert(!gone0.contains(e));
            assert forall|x: Id| before(tl, n as int, x) <==> (before(tl, m as int, x) || x
                == e) by {
                lemma_before_next(tl, m as int, x);
            }
            if self.should_drop(gone0, e) {
                assert(kept == kept0);
                assert(gone == gone0.insert(e));
            } else {
                assert(kept == kept0.push(e));
                assert(gone == gone0);
                assert forall|x: Id| kept.contains(x) <==> (kept0.contains(x) || x == e) by {
                    lemma_push_contains(kept0, e, x);
                }
                lemma_no_duplicates_push(kept0, e);
                assert forall|j: int, t: Id|
                    0 <= j < kept.len() && #[trigger] self.refers(kept[j], t) implies before(
                    kept,
                    j,
                    t,
                ) by {
                    if j < kept0.len() {
                        assert(kept[j] == kept0[j]);
                        assert(self.refers(kept0[j], t));
                        lemma_before_push(kept0, e, j, t);
                    } else {
                        assert(kept[j] == e);
                        assert(self.refers(tl[m as int], t));
                        assert(before(tl, m as int, t));
                        assert(!gone0.contains(t));
                        assert(kept0.contains(t));
                        lemma_before_whole(kept0, t);
                        lemma_before_push(kept0, e, j, t);
                    }
                }
            }
        }
    }

    /// What one eviction leaves: the entities that it did not remove, as
    /// they were, and a timeline that holds exactly their ids.
    pub proof fn lemma_reduced_holds(self)
        requires
            self.timeline_exact(),
            self.causal(),
        ensures
            forall|id: Id| #[trigger]
                self.reduced().holds(id) <==> self.holds(id) && !self.doomed().contains(id),
            forall|id: Id, t: Id| #[trigger]
                self.reduced().refers(id, t) <==> self.refers(id, t) && !self.doomed().contains(
                    id,
                ),
            forall|id: Id| #[trigger]
                self.reduced().timelines.contains(id) <==> self.reduced().holds(id),
            self.reduced().timelines.no_duplicates(),
    {
        let r = self.reduced();
        let n = self.timelines.len();
        self.lemma_pass(n);
        assert forall|id: Id| #[trigger] r.holds(id) <==> self.holds(id) && !self.doomed().contains(
            id,
        ) by {}
        assert forall|id: Id, t: Id| #[trigger]
            r.refers(id, t) <==> self.refers(id, t) && !self.doomed().contains(id) by {}
        assert forall|id: Id| #[trigger] r.timelines.contains(id) <==> r.holds(id) by {
            lemma_before_whole(self.timelines, id);
        }
    }

    /// Eviction keeps the references whole: whatever a surviving span, scope
    /// or event refers to was not removed, and is still in the store.
    pub proof fn lemma_eviction_keeps_references(self)
        requires
            self.inv(),
        ensures
            forall|id: Id, t: Id|
                self.reduced().holds(id) && #[trigger] self.reduced().refers(id, t)
                    ==> !self.doomed().contains(t) && self.reduced().holds(t),
    {
        let r = self.reduced();
        let n = self.timelines.len();
        self.lemma_pass(n);
        self.lemma_reduced_holds();
        assert forall|id: Id, t: Id| r.holds(id) && #[trigger] r.refers(id, t) implies !self.doomed().contains(
            t,
        ) && r.holds(t) by {
            assert(r.timelines.contains(id));
            let j = choose|j: int| 0 <= j < r.timelines.len() && r.timelines[j] == id;
            assert(self.refers(r.timelines[j], t));
            assert(before(r.timelines, j, t));
            lemma_before_contains(r.timelines, j, t);
        }
    }

    /// Eviction keeps what holds of the entities and the timeline.
    pub proof fn lemma_reduced_entities_inv(self)
        requires
            self.entities_inv(),
        ensures
            self.reduced().entities_inv(),
    {
        let r = self.reduced();
        let n = self.timelines.len();
        self.lemma_pass(n);
        self.lemma_reduced_holds();
        assert(r.finite()) by {
            vstd::set_lib::lemma_len_subset(r.spans.dom(), self.spans.dom());
            vstd::set_lib::lemma_len_subset(r.events.dom(), self.events.dom());
            vstd::set_lib::lemma_len_subset(r.calc_scopes.dom(), self.calc_scopes.dom());
        }
        assert forall|j: int, t: Id|
            0 <= j < r.timelines.len() && #[trigger] r.refers(r.timelines[j], t) implies before(
            r.timelines,
            j,
            t,
        ) by {
            assert(self.refers(r.timelines[j], t));
        }
        assert(r.causal());
        assert forall|id: Id, t: Id| r.holds(id) && #[trigger] r.refers(id, t) implies r.holds(
            t,
        ) by {
            assert(r.timelines.contains(id));
            let j = choose|j: int| 0 <= j < r.timelines.len() && r.timelines[j] == id;
            assert(r.refers(r.timelines[j], t));
            lemma_before_contains(r.timelines, j, t);
        }
        assert forall|k: u64| #[trigger] r.calc_scopes.contains_key(k) implies r.calc_scopes[k].host is Span
            && r.holds(r.calc_scopes[k].host) by {
            assert(self.calc_scopes.contains_key(k));
            assert(r.holds(Id::CalcScope(k)));
            assert(r.refers(Id::CalcScope(k), r.calc_scopes[k].host));
        }
        assert forall|k: u64| #[trigger] r.calc_scopes.contains_key(k) implies (
        r.calc_scopes[k].parent_scope matches Some(p) ==> p is CalcScope && r.holds(p)) by {
            assert(self.calc_scopes.contains_key(k));
            assert(r.holds(Id::CalcScope(k)));
            if r.calc_scopes[k].parent_scope is Some {
                assert(r.refers(Id::CalcScope(k), r.calc_scopes[k].parent_scope->0));
            }
        }
        assert forall|k: u64| #[trigger] r.events.contains_key(k) implies (
        r.events[k].calc_scope matches Some(c) ==> c is CalcScope && r.holds(c)) by {
            assert(self.events.contains_key(k));
            assert(r.holds(Id::Event(k)));
            if r.events[k].calc_scope is Some {
                assert(r.refers(Id::Event(k), r.events[k].calc_scope->0));
            }
        }
        assert forall|k: u64| #[trigger] r.spans.contains_key(k) implies (
        r.spans[k].calc_scope matches Some(c) ==> c is CalcScope && r.holds(c)) by {
            assert(self.spans.contains_key(k));
            assert(r.holds(Id::Span(k)));
            if r.spans[k].calc_scope is Some {
                assert(r.refers(Id::Span(k), r.spans[k].calc_scope->0));
            }
        }
    }
}


/// Appending the id of a new entity, which refers to stored entities only,
/// keeps the timeline exact and causal.
proof fn lemma_appended(old: StoreView, new: StoreView, e: Id)
    requires
        old.timeline_exact(),
        old.causal(),
        new.timelines == old.timelines.push(e),
        !old.holds(e),
        forall|id: Id| #[trigger] new.holds(id) <==> old.holds(id) || id == e,
        forall|id: Id, t: Id| id != e ==> (#[trigger] new.refers(id, t) <==> old.refers(id, t)),
        forall|t: Id| #[trigger] new.refers(e, t) ==> old.holds(t),
    ensures
        new.timeline_exact(),
        new.causal(),
{
    let tl = old.timelines;
    assert(!tl.contains(e));
    lemma_no_duplicates_push(tl, e);
    assert forall|id: Id| new.timelines.contains(id) <==> new.holds(id) by {
        lemma_push_contains(tl, e, id);
    }
    assert forall|j: int, t: Id|
        0 <= j < new.timelines.len() && #[trigger] new.refers(new.timelines[j], t) implies before(
        new.timelines,
        j,
        t,
    ) by {
        if j < tl.len() {
            assert(new.timelines[j] == tl[j]);
            assert(tl.contains(tl[j]));
            assert(old.refers(tl[j], t));
            lemma_before_push(tl, e, j, t);
        } else {
            assert(new.timelines[j] == e);
            assert(old.holds(t));
            assert(tl.contains(t));
            lemma_before_whole(tl, t);
            lemma_before_push(tl, e, j, t);
        }
    }
}

impl StoreView {
    /// Closing a span changes nothing that the eviction pass looks at.
    proof fn lemma_close_same_pass(self, closed: StoreView, id: u64, n: nat)
        requires
            self.spans.contains_key(id),
            closed.spans.dom() == self.spans.dom(),
            forall|k: u64| #[trigger]
                self.spans.contains_key(k) ==> closed.spans[k].calc_scope
                    == self.spans[k].calc_scope,
            closed.events == self.events,
            closed.calc_scopes == self.calc_scopes,
            closed.timelines == self.timelines,
        ensures
            closed.evicted(n) == self.evicted(n),
            closed.kept(n) == self.kept(n),
        decreases n,
    {
        if n > 0 {
            let m = (n - 1) as nat;
            self.lemma_close_same_pass(closed, id, m);
            let e = self.timelines[m as int];
            let gone = self.evicted(m);
            assert(closed.holds(e) == self.holds(e));
            assert(closed.should_drop(gone, e) == self.should_drop(gone, e));
        }
    }

    proof fn lemma_recorded_event(self, msg: MonitorMsgView)
        requires
            self.inv(),
            self.admits(msg),
            msg is Event,
        ensures
            self.recorded(msg).inv(),
    {
        let r = self.recorded(msg);
        let k = r.event_id_acc;
        let e = Id::Event(k);
        assert(!self.holds(e));
        assert forall|t: Id| #[trigger] r.refers(e, t) implies self.holds(t) by {
            assert(self.call_stack.last() == t);
        }
        lemma_appended(self, r, e);
        assert(r.event_scopes_resolve()) by {
            assert forall|j: u64| #[trigger] r.events.contains_key(j) implies (
            r.events[j].calc_scope matches Some(c) ==> c is CalcScope && r.holds(c)) by {
                if j == k {
                    if self.call_stack.len() > 0 {
                        assert(r.events[j].calc_scope == Some(self.call_stack.last()));
                    }
                } else {
                    assert(self.events.contains_key(j));
                }
            }
        }
        assert(r.hosts_resolve());
        assert(r.parent_scopes_resolve());
        assert(r.span_scopes_resolve());
        assert(r.stack_open());
    }

    proof fn lemma_recorded_new_span(self, msg: MonitorMsgView)
        requires
            self.inv(),
            self.admits(msg),
            msg is NewSpan,
        ensures
            self.recorded(msg).inv(),
    {
        let r = self.recorded(msg);
        let k = msg->NewSpan_id;
        let e = Id::Span(k);
        assert forall|t: Id| #[trigger] r.refers(e, t) implies self.holds(t) by {
            assert(self.call_stack.last() == t);
        }
        lemma_appended(self, r, e);
        assert(r.span_scopes_resolve()) by {
            assert forall|j: u64| #[trigger] r.spans.contains_key(j) implies (
            r.spans[j].calc_scope matches Some(c) ==> c is CalcScope && r.holds(c)) by {
                if j == k {
                    if self.call_stack.len() > 0 {
                        assert(r.spans[j].calc_scope == Some(self.call_stack.last()));
                    }
                } else {
                    assert(self.spans.contains_key(j));
                }
            }
        }
        assert(r.hosts_resolve()) by {
            assert forall|j: u64| #[trigger] r.calc_scopes.contains_key(j) implies r.calc_scopes[j].host is Span
                && r.holds(r.calc_scopes[j].host) by {
                assert(self.calc_scopes.contains_key(j));
            }
        }
        assert(r.event_scopes_resolve());
        assert(r.parent_scopes_resolve());
        assert(r.stack_open());
    }

    proof fn lemma_recorded_update(self, msg: MonitorMsgView)
        requires
            self.inv(),
            self.admits(msg),
            msg is SpanUpdate,
        ensures
            self.recorded(msg).inv(),
    {
        let r = self.recorded(msg);
        let k = msg->SpanUpdate_id;
        if self.spans.contains_key(k) {
            assert(r.spans.dom() =~= self.spans.dom());
            assert forall|id: Id| #[trigger] r.holds(id) <==> self.holds(id) by {}
            assert forall|id: Id, t: Id| #[trigger] r.refers(id, t) <==> self.refers(id, t) by {}
            assert(r.causal()) by {
                assert forall|j: int, t: Id|
                    0 <= j < r.timelines.len() && #[trigger] r.refers(
                        r.timelines[j],
                        t,
                    ) implies before(r.timelines, j, t) by {
                    assert(self.refers(self.timelines[j], t));
                }
            }
            assert(r.timeline_exact()) by {
                assert forall|id: Id| r.timelines.contains(id) <==> r.holds(id) by {
                    assert(r.holds(id) <==> self.holds(id));
                }
            }
            assert(r.span_scopes_resolve()) by {
                assert forall|j: u64| #[trigger] r.spans.contains_key(j) implies (
                r.spans[j].calc_scope matches Some(c) ==> c is CalcScope && r.holds(c)) by {
                    assert(self.spans.contains_key(j));
                }
            }
            assert(r.hosts_resolve()) by {
                assert forall|j: u64| #[trigger] r.calc_scopes.contains_key(j) implies r.calc_scopes[j].host is Span
                    && r.holds(r.calc_scopes[j].host) by {
                    assert(self.calc_scopes.contains_key(j));
                    assert(self.holds(self.calc_scopes[j].host));
                }
            }
        }
    }

    proof fn lemma_recorded_enter(self, msg: MonitorMsgView)
        requires
            self.inv(),
            self.admits(msg),
            msg is EnterSpan,
        ensures
            self.recorded(msg).inv(),
    {
        let r = self.recorded(msg);
        let id = msg->EnterSpan_id;
        if self.spans.contains_key(id) {
            let k = r.calc_span_id_acc;
            let e = Id::CalcScope(k);
            assert(!self.holds(e));
            assert forall|t: Id| #[trigger] r.refers(e, t) implies self.holds(t) by {
                if t != Id::Span(id) {
                    assert(self.call_stack.last() == t);
                }
            }
            lemma_appended(self, r, e);
            assert(r.hosts_resolve()) by {
                assert forall|j: u64| #[trigger] r.calc_scopes.contains_key(j) implies r.calc_scopes[j].host is Span
                    && r.holds(r.calc_scopes[j].host) by {
                    if j != k {
                        assert(self.calc_scopes.contains_key(j));
                    }
                }
            }
            assert(r.parent_scopes_resolve()) by {
                assert forall|j: u64| #[trigger] r.calc_scopes.contains_key(j) implies (
                r.calc_scopes[j].parent_scope matches Some(p) ==> p is CalcScope && r.holds(
                    p,
                )) by {
                    if j == k {
                        if self.call_stack.len() > 0 {
                            assert(r.calc_scopes[j].parent_scope == Some(
                                self.call_stack.last(),
                            ));
                        }
                    } else {
                        assert(self.calc_scopes.contains_key(j));
                    }
                }
            }
            assert(r.event_scopes_resolve()) by {
                assert forall|j: u64| #[trigger] r.events.contains_key(j) implies (
                r.events[j].calc_scope matches Some(c) ==> c is CalcScope && r.holds(c)) by {
                    assert(self.events.contains_key(j));
                }
            }
            assert(r.span_scopes_resolve()) by {
                assert forall|j: u64| #[trigger] r.spans.contains_key(j) implies (
                r.spans[j].calc_scope matches Some(c) ==> c is CalcScope && r.holds(c)) by {
                    assert(self.spans.contains_key(j));
                }
            }
            assert(r.stack_open()) by {
                assert(!self.call_stack.contains(e)) by {
                    if self.call_stack.contains(e) {
                        let i = choose|i: int|
                            0 <= i < self.call_stack.len() && self.call_stack[i] == e;
                        assert(self.call_stack[i] == e);
                    }
                }
                lemma_no_duplicates_push(self.call_stack, e);
                assert forall|i: int| 0 <= i < r.call_stack.len() implies (
                #[trigger] r.call_stack[i] matches Id::CalcScope(c) && r.calc_scopes.contains_key(
                    c,
                ) && r.calc_scopes[c].exit_at is None) by {
                    if i < self.call_stack.len() {
                        assert(r.call_stack[i] == self.call_stack[i]);
                    }
                }
            }
        }
    }

    proof fn lemma_recorded_exit(self, msg: MonitorMsgView)
        requires
            self.inv(),
            self.admits(msg),
            msg is ExitSpan,
        ensures
            self.recorded(msg).inv(),
    {
        let r = self.recorded(msg);
        if self.call_stack.len() > 0 {
            let n = self.call_stack.len() - 1;
            let last = self.call_stack[n];
            assert(r.call_stack =~= self.call_stack.take(n));
            assert(r.calc_scopes.dom() =~= self.calc_scopes.dom());
            assert forall|id: Id| #[trigger] r.holds(id) <==> self.holds(id) by {}
            assert forall|id: Id, t: Id| #[trigger] r.refers(id, t) <==> self.refers(id, t) by {}
            assert(r.causal()) by {
                assert forall|j: int, t: Id|
                    0 <= j < r.timelines.len() && #[trigger] r.refers(
                        r.timelines[j],
                        t,
                    ) implies before(r.timelines, j, t) by {
                    assert(self.refers(self.timelines[j], t));
                }
            }
            assert(r.timeline_exact()) by {
                assert forall|id: Id| r.timelines.contains(id) <==> r.holds(id) by {
                    assert(r.holds(id) <==> self.holds(id));
                }
            }
            assert(r.hosts_resolve()) by {
                assert forall|j: u64| #[trigger] r.calc_scopes.contains_key(j) implies r.calc_scopes[j].host is Span
                    && r.holds(r.calc_scopes[j].host) by {
                    assert(self.calc_scopes.contains_key(j));
                    assert(self.holds(self.calc_scopes[j].host));
                }
            }
            assert(r.parent_scopes_resolve()) by {
                assert forall|j: u64| #[trigger] r.calc_scopes.contains_key(j) implies (
                r.calc_scopes[j].parent_scope matches Some(p) ==> p is CalcScope && r.holds(
                    p,
                )) by {
                    assert(self.calc_scopes.contains_key(j));
                }
            }
            assert(r.event_scopes_resolve()) by {
                assert forall|j: u64| #[trigger] r.events.contains_key(j) implies (
                r.events[j].calc_scope matches Some(c) ==> c is CalcScope && r.holds(c)) by {
                    assert(self.events.contains_key(j));
                }
            }
            assert(r.span_scopes_resolve()) by {
                assert forall|j: u64| #[trigger] r.spans.contains_key(j) implies (
                r.spans[j].calc_scope matches Some(c) ==> c is CalcScope && r.holds(c)) by {
                    assert(self.spans.contains_key(j));
                }
            }
            assert(r.stack_open()) by {
                assert forall|i: int| 0 <= i < r.call_stack.len() implies (
                #[trigger] r.call_stack[i] matches Id::CalcScope(c) && r.calc_scopes.contains_key(
                    c,
                ) && r.calc_scopes[c].exit_at is None) by {
                    assert(r.call_stack[i] == self.call_stack[i]);
                    assert(self.call_stack[i] != self.call_stack[n]);
                }
            }
        }
    }

    proof fn lemma_recorded_close(self, msg: MonitorMsgView)
        requires
            self.inv(),
            self.admits(msg),
            msg is CloseSpan,
        ensures
            self.recorded(msg).inv(),
            forall|k: u64|
                self.spans.contains_key(k) && self.spans[k].close_at is Some
                    && #[trigger] self.recorded(msg).spans.contains_key(k) ==> self.recorded(
                    msg,
                ).spans[k] == self.spans[k],
    {
        let r = self.recorded(msg);
        let id = msg->CloseSpan_id;
        if self.spans.contains_key(id) && self.spans[id].close_at is None {
            let closed = StoreView {
                spans: self.spans.insert(
                    id,
                    crate::entities::SpanView {
                        close_at: Some(msg->CloseSpan_time_stamp),
                        ..self.spans[id]
                    },
                ),
                ..self
            };
            assert(closed.spans.dom() =~= self.spans.dom());
            assert forall|x: Id| #[trigger] closed.holds(x) <==> self.holds(x) by {}
            assert forall|x: Id, t: Id| #[trigger]
                closed.refers(x, t) <==> self.refers(x, t) by {}
            assert(closed.causal()) by {
                assert forall|j: int, t: Id|
                    0 <= j < closed.timelines.len() && #[trigger] closed.refers(
                        closed.timelines[j],
                        t,
                    ) implies before(closed.timelines, j, t) by {
                    assert(self.refers(self.timelines[j], t));
                }
            }
            assert(closed.timeline_exact()) by {
                assert forall|x: Id| closed.timelines.contains(x) <==> closed.holds(x) by {
                    assert(closed.holds(x) <==> self.holds(x));
                }
            }
            assert(closed.span_scopes_resolve()) by {
                assert forall|j: u64| #[trigger] closed.spans.contains_key(j) implies (
                closed.spans[j].calc_scope matches Some(c) ==> c is CalcScope && closed.holds(
                    c,
                )) by {
                    assert(self.spans.contains_key(j));
                }
            }
            assert(closed.hosts_resolve()) by {
                assert forall|j: u64| #[trigger]
                    closed.calc_scopes.contains_key(j) implies closed.calc_scopes[j].host is Span
                    && closed.holds(closed.calc_scopes[j].host) by {
                    assert(self.calc_scopes.contains_key(j));
                    assert(self.holds(self.calc_scopes[j].host));
                }
            }
            assert(closed.inv());
            if self.close_evicts(id) {
                let n = self.timelines.len();
                self.lemma_close_same_pass(closed, id, n);
                assert(closed.doomed() == self.doomed());
                closed.lemma_reduced_entities_inv();
                closed.lemma_reduced_holds();
                assert(r == closed.reduced());
                assert(r.stack_open()) by {
                    assert forall|i: int| 0 <= i < r.call_stack.len() implies (
                    #[trigger] r.call_stack[i] matches Id::CalcScope(c)
                        && r.calc_scopes.contains_key(c) && r.calc_scopes[c].exit_at is None) by {
                        assert(r.call_stack[i] == self.call_stack[i]);
                        assert(!self.doomed().contains(self.call_stack[i]));
                    }
                }
            }
        }
    }

    /// An admitted message keeps the invariant of the store, and leaves
    /// every closed span that stays in the store as it was.
    pub proof fn lemma_recorded_inv(self, msg: MonitorMsgView)
        requires
            self.inv(),
            self.admits(msg),
        ensures
            self.recorded(msg).inv(),
            forall|k: u64|
                self.spans.contains_key(k) && self.spans[k].close_at is Some
                    && #[trigger] self.recorded(msg).spans.contains_key(k) ==> self.recorded(
                    msg,
                ).spans[k] == self.spans[k],
    {
        match msg {
            MonitorMsgView::Event { .. } => self.lemma_recorded_event(msg),
            MonitorMsgView::NewSpan { .. } => self.lemma_recorded_new_span(msg),
            MonitorMsgView::SpanUpdate { .. } => self.lemma_recorded_update(msg),
            MonitorMsgView::EnterSpan { .. } => self.lemma_recorded_enter(msg),
            MonitorMsgView::ExitSpan { .. } => self.lemma_recorded_exit(msg),
            MonitorMsgView::CloseSpan { .. } => self.lemma_recorded_close(msg),
            MonitorMsgView::MonitorError(_) => {},
        }
    }

    /// A store that meets its invariant and takes admitted messages only
    /// meets it after the last of them: every scope's host is a stored span,
    /// every scope that an event, a span or a scope names is stored, the
    /// timeline holds exactly the stored entities, each once, and every
    /// scope on the stack is stored and open.
    pub proof fn lemma_replayed_inv(self, msgs: Seq<MonitorMsgView>)
        requires
            self.inv(),
            self.admits_all(msgs),
        ensures
            self.replayed(msgs).inv(),
        decreases msgs.len(),
    {
        if msgs.len() > 0 {
            self.lemma_replayed_inv(msgs.drop_last());
            self.replayed(msgs.drop_last()).lemma_recorded_inv(msgs.last());
        }
    }

    /// The empty store meets the invariant.
    pub proof fn lemma_empty_inv(span_limit: usize)
        ensures
            StoreView::empty(span_limit).inv(),
    {
        let s = StoreView::empty(span_limit);
        assert forall|id: Id| !s.timelines.contains(id) by {
            if s.timelines.contains(id) {
                let i = choose|i: int| 0 <= i < s.timelines.len() && s.timelines[i] == id;
            }
        }
    }
}


impl StoreView {
    /// Whether `id` is the oldest span of the timeline.
    pub open spec fn is_oldest_span(self, id: Id) -> bool {
        &&& id is Span
        &&& exists|p: int|
            0 <= p < self.timelines.len() && self.timelines[p] == id && self.no_span_before(p)
    }

    /// Whether none of the first `p` entries of the timeline is a span.
    pub open spec fn no_span_before(self, p: int) -> bool {
        forall|q: int| 0 <= q < p && q < self.timelines.len() ==> !(#[trigger] self.timelines[q] is Span)
    }

    /// Whether `id` refers to something in `removed`.
    pub open spec fn hangs_on(self, removed: Set<Id>, id: Id) -> bool {
        exists|t: Id| self.refers(id, t) && removed.contains(t)
    }

    /// The rule of the pass in other words: a stored span goes when nothing
    /// went before it, and any stored entity goes when something it refers
    /// to went.
    proof fn lemma_should_drop(self, removed: Set<Id>, id: Id)
        ensures
            self.should_drop(removed, id) <==> self.holds(id) && ((id is Span
                && removed.is_empty()) || self.hangs_on(removed, id)),
    {
        if self.should_drop(removed, id) {
            match id {
                Id::Span(k) => {
                    if !removed.is_empty() {
                        let c = self.spans[k].calc_scope->0;
                        assert(self.refers(id, c) && removed.contains(c));
                    }
                },
                Id::CalcScope(k) => {
                    if removed.contains(self.calc_scopes[k].host) {
                        assert(self.refers(id, self.calc_scopes[k].host));
                    } else {
                        let p = self.calc_scopes[k].parent_scope->0;
                        assert(self.refers(id, p) && removed.contains(p));
                    }
                },
                Id::Event(k) => {
                    let c = self.events[k].calc_scope->0;
                    assert(self.refers(id, c) && removed.contains(c));
                },
            }
        }
        if self.hangs_on(removed, id) {
            let t = choose|t: Id| self.refers(id, t) && removed.contains(t);
            assert(self.refers(id, t) && removed.contains(t));
        }
    }

    /// Whether an entry goes is settled when the pass meets it.
    proof fn lemma_settled(self, p: int, n: nat)
        requires
            self.timeline_exact(),
            0 <= p < n <= self.timelines.len(),
        ensures
            self.evicted(n).contains(self.timelines[p]) <==> self.should_drop(
                self.evicted(p as nat),
                self.timelines[p],
            ),
        decreases n,
    {
        let x = self.timelines[p];
        let m = (n - 1) as nat;
        if m == p {
            let gone = self.evicted(m);
            assert(!gone.contains(x)) by {
                self.lemma_gone_was_seen(m);
                if gone.contains(x) {
                    let i = choose|i: int| 0 <= i < m && i < self.timelines.len() && self.timelines[i] == x;
                    assert(self.timelines[i] == self.timelines[p]);
                }
            }
        } else {
            self.lemma_settled(p, m);
            assert(self.timelines[m as int] != x);
        }
    }

    /// The pass removes nothing that it has not met.
    proof fn lemma_gone_was_seen(self, n: nat)
        requires
            n <= self.timelines.len(),
        ensures
            forall|x: Id| #[trigger] self.evicted(n).contains(x) ==> before(self.timelines, n as int, x),
        decreases n,
    {
        if n > 0 {
            let m = (n - 1) as nat;
            self.lemma_gone_was_seen(m);
            assert forall|x: Id| #[trigger] self.evicted(n).contains(x) implies before(
                self.timelines,
                n as int,
                x,
            ) by {
                lemma_before_next(self.timelines, m as int, x);
                assert(self.evicted(m).contains(x) || x == self.timelines[m as int]);
                assert(n as int == m + 1);
            }
        }
    }

    /// The pass has removed nothing exactly as long as it has met no span.
    proof fn lemma_nothing_gone(self, n: nat)
        requires
            self.timeline_exact(),
            n <= self.timelines.len(),
        ensures
            self.evicted(n).is_empty() <==> self.no_span_before(n as int),
        decreases n,
    {
        if n > 0 {
            let m = (n - 1) as nat;
            self.lemma_nothing_gone(m);
            let e = self.timelines[m as int];
            let gone = self.evicted(m);
            assert(self.timelines.contains(e));
            assert(self.holds(e));
            if gone.is_empty() {
                if e is Span {
                    assert(self.should_drop(gone, e));
                    assert(self.evicted(n).contains(e));
                    assert(!self.no_span_before(n as int));
                } else {
                    assert(!self.should_drop(gone, e));
                    assert forall|q: int| 0 <= q < n && q < self.timelines.len() implies !(
                    #[trigger] self.timelines[q] is Span) by {
                        if q < m {
                        }
                    }
                }
            } else {
                let w = choose|w: Id| gone.contains(w);
                if forall|w: Id| !gone.contains(w) {
                    assert(gone =~= Set::empty());
                }
                assert(gone.contains(w));
                assert(self.evicted(n).contains(w));
                let q = choose|q: int| 0 <= q < m && q < self.timelines.len() && #[trigger] self.timelines[q] is Span;
                assert(!self.no_span_before(n as int)) by {
                    if self.no_span_before(n as int) {
                        assert(!(self.timelines[q] is Span));
                    }
                }
            }
        }
    }

    /// What an eviction removes: the oldest span of the timeline, and every
    /// entity that refers to something removed. So it removes what was
    /// created under the oldest span, directly or through other entities,
    /// and nothing else.
    pub proof fn lemma_doomed(self, id: Id)
        requires
            self.inv(),
            self.holds(id),
        ensures
            self.doomed().contains(id) <==> self.is_oldest_span(id) || self.hangs_on(
                self.doomed(),
                id,
            ),
    {
        let tl = self.timelines;
        let n = tl.len();
        assert(tl.contains(id));
        let p = choose|p: int| 0 <= p < tl.len() && tl[p] == id;
        let seen = self.evicted(p as nat);
        self.lemma_settled(p, n);
        self.lemma_should_drop(seen, id);
        self.lemma_nothing_gone(p as nat);
        assert forall|t: Id| self.refers(id, t) implies (seen.contains(t) <==> self.doomed().contains(
            t,
        )) by {
            assert(self.refers(tl[p], t));
            assert(before(tl, p, t));
            let i = choose|i: int| 0 <= i < p && i < tl.len() && tl[i] == t;
            self.lemma_settled(i, p as nat);
            self.lemma_settled(i, n);
        }
        if self.hangs_on(seen, id) {
            let t = choose|t: Id| self.refers(id, t) && seen.contains(t);
            assert(self.refers(id, t) && self.doomed().contains(t));
        }
        if self.hangs_on(self.doomed(), id) {
            let t = choose|t: Id| self.refers(id, t) && self.doomed().contains(t);
            assert(self.refers(id, t) && seen.contains(t));
        }
        if self.is_oldest_span(id) {
            let q = choose|q: int| 0 <= q < tl.len() && tl[q] == id && self.no_span_before(q);
            assert(q == p);
        }
        if id is Span && seen.is_empty() {
            assert(0 <= p < tl.len() && tl[p] == id && self.no_span_before(p));
        }
    }
}

} // verus!

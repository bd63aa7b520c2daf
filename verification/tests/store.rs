use ribir_monitor::client_infos_store::ClientInfoStore;
use ribir_monitor::entities::Diagnostic;
use ribir_monitor::ids::Id;
use ribir_monitor::message::{FieldValue, Fields, Meta, MonitorMsg};
use ribir_monitor::monitor::Monitor;
use std::time::{Duration, Instant};

fn store() -> ClientInfoStore {
    ClientInfoStore::new("test client".into(), Instant::now(), 1024)
}

fn mock_meta() -> Meta {
    Meta {
        name: "test meta".into(),
        target: "monitor test".into(),
        level: "error".into(),
        module: None,
        file: None,
        line: None,
    }
}

fn new_span(id: u64) -> MonitorMsg {
    MonitorMsg::NewSpan {
        id,
        meta: mock_meta(),
        fields: Fields::default(),
        time_stamp: Duration::ZERO,
        parent_span: None,
    }
}

fn event() -> MonitorMsg {
    MonitorMsg::Event {
        meta: mock_meta(),
        fields: Fields::default(),
        time_stamp: Duration::ZERO,
        parent_span: None,
    }
}

#[test]
fn smoke() {
    let mut store = store();
    store.set_span_limit(2);

    store.record(new_span(0));
    store.record(MonitorMsg::EnterSpan { id: 0, time_stamp: Duration::ZERO });

    {
        // new span
        store.record(new_span(1));
        store.record(MonitorMsg::EnterSpan { id: 1, time_stamp: Duration::ZERO });

        store.record(event());

        store.record(MonitorMsg::ExitSpan { id: 1, time_stamp: Duration::ZERO });
        store.record(MonitorMsg::CloseSpan { id: 1, time_stamp: Duration::ZERO });
    }

    store.record(MonitorMsg::ExitSpan { id: 0, time_stamp: Duration::ZERO });
    assert_eq!(store.spans_len(), 2);
    assert_eq!(store.calc_scopes_len(), 2);
    assert_eq!(store.events_len(), 1);

    assert!(store.span(1).unwrap().close_at.is_some());
    assert!(store.span(0).unwrap().close_at.is_none());
    assert!(store.calc_scope(1).unwrap().exit_at.is_some());

    store.record(MonitorMsg::CloseSpan { id: 0, time_stamp: Duration::ZERO });

    assert_eq!(store.spans_len(), 0);
    assert_eq!(store.calc_scopes_len(), 0);
    assert_eq!(store.events_len(), 0);
    assert_eq!(store.timelines_len(), 0);
}

#[test]
fn span_update_merges_fields() {
    let mut store = store();
    let mut fields = Fields::new();
    fields.record_i64("a", 1);
    store.record(MonitorMsg::NewSpan {
        id: 0,
        meta: mock_meta(),
        fields,
        time_stamp: Duration::ZERO,
        parent_span: None,
    });
    let mut changes = Fields::new();
    changes.record_i64("a", 2);
    changes.record_i64("b", 3);
    store.record(MonitorMsg::SpanUpdate { id: 0, changes, time_stamp: Duration::from_secs(1) });
    let stored = &store.span(0).unwrap().fields;
    assert_eq!(stored.len(), 2);
    assert_eq!(stored.get("a"), Some(&FieldValue::I64(2)));
    assert_eq!(stored.get("b"), Some(&FieldValue::I64(3)));
    assert_eq!(stored.as_slice()[0].0, "a");
    assert_eq!(stored.as_slice()[1].0, "b");
}

#[test]
fn unmatched_exit_is_reported() {
    let mut store = store();
    assert_eq!(store.record(new_span(0)), None);
    assert_eq!(store.record(MonitorMsg::EnterSpan { id: 0, time_stamp: Duration::ZERO }), None);
    let report = store.record(MonitorMsg::ExitSpan { id: 1, time_stamp: Duration::from_secs(3) });
    assert_eq!(report, Some(Diagnostic::CallStackRecord));
    assert!(store.calc_scope(2).is_none());
    let scope = store.calc_scope(1).unwrap();
    assert_eq!(scope.host, Id::Span(0));
    assert_eq!(scope.exit_at, None);
    assert_eq!(store.call_stack_len(), 0);
}

fn close(id: u64, secs: u64) -> MonitorMsg {
    MonitorMsg::CloseSpan { id, time_stamp: Duration::from_secs(secs) }
}

fn enter(id: u64) -> MonitorMsg {
    MonitorMsg::EnterSpan { id, time_stamp: Duration::ZERO }
}

fn exit(id: u64, secs: u64) -> MonitorMsg {
    MonitorMsg::ExitSpan { id, time_stamp: Duration::from_secs(secs) }
}

/// What must hold of a store however it got where it is.
fn assert_invariants(store: &ClientInfoStore) {
    let n = store.timelines_len();
    assert_eq!(n, store.spans_len() + store.calc_scopes_len() + store.events_len());
    for i in 0..n {
        let id = store.timeline_at(i).unwrap();
        assert!(store.holds(id));
        for j in 0..i {
            assert_ne!(store.timeline_at(j).unwrap(), id);
        }
        let before = |target: Id| (0..i).any(|j| store.timeline_at(j) == Some(target));
        match id {
            Id::Span(k) => {
                if let Some(scope) = store.span(k).unwrap().calc_scope {
                    assert!(matches!(scope, Id::CalcScope(_)));
                    assert!(before(scope));
                }
            }
            Id::CalcScope(k) => {
                let scope = store.calc_scope(k).unwrap();
                assert!(matches!(scope.host, Id::Span(_)));
                assert!(before(scope.host));
                if let Some(parent) = scope.parent_scope {
                    assert!(matches!(parent, Id::CalcScope(_)));
                    assert!(before(parent));
                }
            }
            Id::Event(k) => {
                if let Some(scope) = store.event(k).unwrap().calc_scope {
                    assert!(matches!(scope, Id::CalcScope(_)));
                    assert!(before(scope));
                }
            }
        }
    }
    assert_eq!(store.timeline_at(n), None);
}

#[test]
fn new_store_is_empty() {
    let at = Instant::now();
    let store = ClientInfoStore::new("client".to_string(), at, 1024);
    assert_eq!(store.client_name(), "client");
    assert_eq!(store.client_start_at(), at);
    assert_eq!(store.span_limit(), 1024);
    assert_eq!(ribir_monitor::client_infos_store::DEFAULT_SPAN_LIMIT, 1024);
    assert_eq!(store.spans_len(), 0);
    assert_eq!(store.timelines_len(), 0);
    assert_eq!(store.call_stack_len(), 0);
    assert_eq!(store.top_scope(), None);
    assert_invariants(&store);
}

#[test]
fn ids_are_minted_in_sequence() {
    let mut store = store();
    store.record(event());
    store.record(event());
    store.record(new_span(9));
    store.record(enter(9));
    store.record(enter(9));
    assert_eq!(store.timeline_at(0), Some(Id::Event(1)));
    assert_eq!(store.timeline_at(1), Some(Id::Event(2)));
    assert_eq!(store.timeline_at(2), Some(Id::Span(9)));
    assert_eq!(store.timeline_at(3), Some(Id::CalcScope(1)));
    assert_eq!(store.timeline_at(4), Some(Id::CalcScope(2)));
    assert_eq!(store.top_scope(), Some(Id::CalcScope(2)));
    assert_eq!(store.calc_scope(2).unwrap().parent_scope, Some(Id::CalcScope(1)));
    assert_eq!(store.calc_scope(1).unwrap().parent_scope, None);
    assert_invariants(&store);
}

#[test]
fn event_and_span_take_the_innermost_scope() {
    let mut store = store();
    store.record(event());
    store.record(new_span(3));
    store.record(enter(3));
    store.record(event());
    store.record(new_span(4));
    assert_eq!(store.event(1).unwrap().calc_scope, None);
    assert_eq!(store.span(3).unwrap().calc_scope, None);
    assert_eq!(store.event(2).unwrap().calc_scope, Some(Id::CalcScope(1)));
    assert_eq!(store.span(4).unwrap().calc_scope, Some(Id::CalcScope(1)));
    assert_eq!(store.span(4).unwrap().start_at, Duration::ZERO);
    assert_eq!(store.calc_scope(1).unwrap().host, Id::Span(3));
    assert_invariants(&store);
}

#[test]
fn unknown_span_is_dropped() {
    let mut store = store();
    store.record(new_span(1));
    assert_eq!(store.record(enter(2)), None);
    assert_eq!(store.record(close(2, 1)), None);
    let mut changes = Fields::new();
    changes.record_bool("x", true);
    let update = MonitorMsg::SpanUpdate { id: 2, changes, time_stamp: Duration::ZERO };
    assert_eq!(store.record(update), None);
    assert_eq!(store.spans_len(), 1);
    assert_eq!(store.calc_scopes_len(), 0);
    assert_eq!(store.timelines_len(), 1);
    assert_eq!(store.call_stack_len(), 0);
    assert_eq!(store.span(1).unwrap().close_at, None);
    assert!(store.span(1).unwrap().fields.is_empty());
}

#[test]
fn exit_sets_the_time_of_the_matching_scope() {
    let mut store = store();
    store.record(new_span(0));
    store.record(enter(0));
    assert_eq!(store.record(exit(0, 7)), None);
    assert_eq!(store.calc_scope(1).unwrap().exit_at, Some(Duration::from_secs(7)));
    assert_eq!(store.call_stack_len(), 0);
    assert_eq!(store.record(exit(0, 8)), None);
    assert_eq!(store.calc_scope(1).unwrap().exit_at, Some(Duration::from_secs(7)));
    assert_invariants(&store);
}

#[test]
fn twice_close_is_reported() {
    let mut store = store();
    store.record(new_span(0));
    assert_eq!(store.record(close(0, 1)), None);
    assert_eq!(store.record(close(0, 2)), Some(Diagnostic::TwiceClose));
    assert_eq!(store.span(0).unwrap().close_at, Some(Duration::from_secs(1)));
    assert_eq!(store.spans_len(), 1);
}

#[test]
fn twice_close_does_not_evict() {
    let mut store = store();
    store.record(new_span(0));
    store.record(close(0, 1));
    store.set_span_limit(1);
    assert_eq!(store.record(close(0, 2)), Some(Diagnostic::TwiceClose));
    assert_eq!(store.spans_len(), 1);
    assert_eq!(store.timelines_len(), 1);
}

#[test]
fn monitor_error_is_forwarded() {
    let mut store = store();
    let report = store.record(MonitorMsg::MonitorError("lost a frame".to_string()));
    assert_eq!(report, Some(Diagnostic::MonitorError("lost a frame".to_string())));
    assert_eq!(store.timelines_len(), 0);
}

#[test]
fn closing_below_the_limit_keeps_everything() {
    let mut store = store();
    store.set_span_limit(3);
    store.record(new_span(0));
    store.record(new_span(1));
    store.record(close(0, 1));
    assert_eq!(store.spans_len(), 2);
    assert_eq!(store.timelines_len(), 2);
    assert_eq!(store.span(0).unwrap().close_at, Some(Duration::from_secs(1)));
}

#[test]
fn closing_a_nested_span_does_not_evict() {
    let mut store = store();
    store.set_span_limit(1);
    store.record(new_span(0));
    store.record(enter(0));
    store.record(new_span(1));
    store.record(close(1, 1));
    assert_eq!(store.spans_len(), 2);
    assert_eq!(store.timelines_len(), 3);
    assert_invariants(&store);
}

#[test]
fn eviction_keeps_what_hangs_on_nothing_removed() {
    let mut store = store();
    store.set_span_limit(2);
    store.record(new_span(0));
    store.record(new_span(1));
    store.record(enter(1));
    store.record(event());
    store.record(exit(1, 1));
    store.record(close(0, 2));
    assert_eq!(store.spans_len(), 1);
    assert!(store.span(0).is_none());
    assert!(store.span(1).is_some());
    assert_eq!(store.calc_scopes_len(), 1);
    assert_eq!(store.events_len(), 1);
    assert_eq!(store.timeline_at(0), Some(Id::Span(1)));
    assert_eq!(store.timeline_at(1), Some(Id::CalcScope(1)));
    assert_eq!(store.timeline_at(2), Some(Id::Event(1)));
    assert_eq!(store.timelines_len(), 3);
    assert_invariants(&store);
}

#[test]
fn eviction_removes_the_oldest_span_even_when_it_is_open() {
    let mut store = store();
    store.set_span_limit(2);
    store.record(new_span(0));
    store.record(new_span(1));
    store.record(close(1, 1));
    assert!(store.span(0).is_none());
    assert_eq!(store.span(1).unwrap().close_at, Some(Duration::from_secs(1)));
    assert_eq!(store.timelines_len(), 1);
    assert_invariants(&store);
}

#[test]
fn eviction_never_removes_an_event_without_a_scope() {
    let mut store = store();
    store.record(event());
    store.record(new_span(0));
    store.try_reduce_closed_spans();
    assert_eq!(store.events_len(), 1);
    assert_eq!(store.spans_len(), 0);
    assert_eq!(store.timeline_at(0), Some(Id::Event(1)));
    assert_eq!(store.timelines_len(), 1);
}

#[test]
fn eviction_leaves_no_reference_to_what_it_removed() {
    let mut store = store();
    store.record(new_span(0));
    store.record(enter(0));
    store.record(new_span(1));
    store.record(enter(1));
    store.record(event());
    store.record(exit(1, 1));
    store.record(exit(0, 2));
    store.record(new_span(2));
    store.record(enter(2));
    store.record(event());
    store.record(exit(2, 3));
    store.try_reduce_closed_spans();
    assert_eq!(store.spans_len(), 1);
    assert_eq!(store.calc_scopes_len(), 1);
    assert_eq!(store.events_len(), 1);
    assert_eq!(store.span(2).unwrap().calc_scope, None);
    assert_eq!(store.calc_scope(3).unwrap().host, Id::Span(2));
    assert_eq!(store.event(2).unwrap().calc_scope, Some(Id::CalcScope(3)));
    assert_invariants(&store);
}

#[test]
fn eviction_does_not_touch_the_stack() {
    let mut store = store();
    store.record(new_span(0));
    store.record(enter(0));
    store.try_reduce_closed_spans();
    assert_eq!(store.spans_len(), 0);
    assert_eq!(store.calc_scopes_len(), 0);
    assert_eq!(store.top_scope(), Some(Id::CalcScope(1)));
    assert!(!store.holds(Id::CalcScope(1)));
}

#[test]
fn a_second_span_under_a_stored_id_overwrites() {
    let mut store = store();
    store.record(new_span(0));
    store.record(close(0, 1));
    store.record(new_span(0));
    assert_eq!(store.spans_len(), 1);
    assert_eq!(store.span(0).unwrap().close_at, None);
    assert_eq!(store.timelines_len(), 2);
}

#[test]
fn invariants_hold_along_a_session() {
    let mut store = store();
    store.set_span_limit(3);
    let session = vec![
        new_span(0),
        enter(0),
        event(),
        new_span(1),
        enter(1),
        exit(1, 1),
        close(1, 1),
        exit(0, 2),
        close(0, 2),
        new_span(2),
        event(),
        new_span(3),
        enter(3),
        new_span(4),
        exit(3, 3),
        close(4, 4),
        close(3, 4),
        close(2, 5),
    ];
    for msg in session {
        assert!(store.can_record(&msg));
        store.record(msg);
        assert_invariants(&store);
    }
}

#[test]
fn monitor_keeps_one_store_for_each_client() {
    let mut monitor = Monitor::default();
    assert_eq!(monitor.clients_len(), 0);
    assert!(monitor.client(0).is_none());
    let a = monitor.add_client(store());
    let b = monitor.add_client(store());
    assert_eq!((a, b), (0, 1));
    assert!(monitor.can_record(1, &new_span(5)));
    assert!(!monitor.can_record(2, &new_span(5)));
    assert_eq!(monitor.record(1, new_span(5)), None);
    assert_eq!(monitor.client(0).unwrap().spans_len(), 0);
    assert_eq!(monitor.client(1).unwrap().spans_len(), 1);
}

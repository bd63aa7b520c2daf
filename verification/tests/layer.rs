use ribir_monitor::layer::{record_meta_data, Level, LevelFlags, MonitorLayer};
use ribir_monitor::message::{Fields, Meta, MonitorMsg};
use std::time::{Duration, Instant};

fn meta(name: &str) -> Meta {
    record_meta_data(name, "layer test", "ERROR", None, None, None)
}

#[test]
fn layer_smoke() {
    let (tx, rx) = crossbeam_channel::unbounded();
    let layer = MonitorLayer::new(tx, Instant::now());

    {
        assert!(layer.send_msg(layer.on_new_span(1, meta("outside span"), Fields::new(), Instant::now())));
        {
            assert!(layer.send_msg(layer.on_enter(1, Instant::now())));
            assert!(layer.send_msg(layer.on_new_span(2, meta("inner span"), Fields::new(), Instant::now())));
            {
                let mut fields = Fields::new();
                fields.record_debug("message", "error event".to_string());
                assert!(layer.send_msg(layer.on_event(meta("event"), fields, Instant::now())));
            }
            assert!(layer.send_msg(layer.on_close(2, Instant::now())));
            assert!(layer.send_msg(layer.on_exit(1, Instant::now())));
        }
        assert!(layer.send_msg(layer.on_close(1, Instant::now())));
    }

    let mut msgs = vec![];
    while let Ok(msg) = rx.try_recv() {
        msgs.push(msg)
    }
    assert_eq!(msgs.len(), 7);
    let MonitorMsg::NewSpan { id: outside_id, meta: Meta { name, .. }, .. } = &msgs[0] else {
        panic!();
    };
    assert_eq!(name, "outside span");
    assert_eq!(*outside_id, 1);

    assert!(matches!(&msgs[1], MonitorMsg::EnterSpan { .. }));

    assert!(matches!(
        &msgs[2],
        MonitorMsg::NewSpan { meta: Meta { name, .. }, .. } if name == "inner span"
    ));

    assert!(matches!(&msgs[4], MonitorMsg::CloseSpan { .. }));
    assert!(matches!(&msgs[5], MonitorMsg::ExitSpan { .. }));
    assert!(matches!(&msgs[6], MonitorMsg::CloseSpan { .. }));
}

#[test]
fn time_stamps_count_from_the_start_of_the_layer() {
    let (tx, _rx) = crossbeam_channel::unbounded();
    let start = Instant::now();
    let layer = MonitorLayer::new(tx, start);
    let later = start + Duration::from_millis(1500);
    assert_eq!(layer.time_stamp(later), Duration::from_millis(1500));
    assert_eq!(layer.time_stamp(start), Duration::ZERO);
    assert_eq!(
        layer.on_enter(4, later),
        MonitorMsg::EnterSpan { id: 4, time_stamp: Duration::from_millis(1500) }
    );
    assert_eq!(
        layer.on_exit(4, later),
        MonitorMsg::ExitSpan { id: 4, time_stamp: Duration::from_millis(1500) }
    );
    assert_eq!(
        layer.on_close(4, later),
        MonitorMsg::CloseSpan { id: 4, time_stamp: Duration::from_millis(1500) }
    );
    let mut changes = Fields::new();
    changes.record_u64("n", 1);
    assert_eq!(
        layer.on_record(4, changes.clone(), later),
        MonitorMsg::SpanUpdate { id: 4, changes, time_stamp: Duration::from_millis(1500) }
    );
    assert_eq!(
        layer.on_event(meta("e"), Fields::new(), later),
        MonitorMsg::Event {
            meta: meta("e"),
            fields: Fields::new(),
            time_stamp: Duration::from_millis(1500),
            parent_span: None,
        }
    );
}

#[test]
fn a_message_is_not_sent_once_the_receiver_is_gone() {
    let (tx, rx) = crossbeam_channel::unbounded();
    let layer = MonitorLayer::new(tx, Instant::now());
    assert!(layer.send_msg(MonitorMsg::MonitorError("a".to_string())));
    assert_eq!(rx.try_recv(), Ok(MonitorMsg::MonitorError("a".to_string())));
    drop(rx);
    assert!(!layer.send_msg(MonitorMsg::MonitorError("b".to_string())));
}

#[test]
fn meta_data_is_taken_over() {
    let meta = record_meta_data("span", "app::db", "INFO", Some("app::db"), Some("db.rs"), Some(7));
    assert_eq!(
        meta,
        Meta {
            name: "span".to_string(),
            target: "app::db".to_string(),
            level: "INFO".to_string(),
            module: Some("app::db".to_string()),
            file: Some("db.rs".to_string()),
            line: Some(7),
        }
    );
    let bare = record_meta_data("e", "t", "TRACE", None, None, None);
    assert_eq!((bare.module, bare.file, bare.line), (None, None, None));
}

#[test]
fn level_flags_gate_each_level() {
    let levels = [Level::Error, Level::Warn, Level::Info, Level::Debug, Level::Trace];
    for level in levels {
        assert!(LevelFlags::all().enabled(level));
        assert!(!LevelFlags::none().enabled(level));
    }
    let flags = LevelFlags { error: true, warn: false, info: true, debug: false, trace: false };
    let enabled: Vec<bool> = levels.iter().map(|l| flags.enabled(*l)).collect();
    assert_eq!(enabled, [true, false, true, false, false]);
}

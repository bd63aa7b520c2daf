use ribir_monitor::log_writer::{new_log_writer, LogConsumer, RLogConsumers};
use ribir_monitor::message::MonitorMsg;
use ribir_monitor::wslog::{
    ConnectStep, LogWS, SendStep, Verdict, WriteOutcome, MAX_RECOVERIES, SERVER_ADDR,
};
use std::sync::{Arc, Mutex};

/// A remote sender whose transport is a list that a test can look at.
struct ToList {
    ws: LogWS,
    recvs: Arc<Mutex<Vec<MonitorMsg>>>,
}

impl LogConsumer for ToList {
    fn consumes(&mut self, vals: &[MonitorMsg]) -> bool {
        let mut run = self.ws.send_to_remote(vals.len());
        while run.step() == SendStep::Write {
            self.recvs.lock().unwrap().push(vals[run.index()].clone());
            run.advance(WriteOutcome::Written);
        }
        !self.ws.settle(&run)
    }
}

#[test]
fn ws_handle_websocket_log() {
    let recvs: Arc<Mutex<Vec<MonitorMsg>>> = Arc::new(Mutex::new(vec![]));
    let mut consumer = LogWS::new(SERVER_ADDR.to_string());
    consumer.dialed(true);
    let (sender, rx, mut consumers): (_, _, RLogConsumers<ToList>) = new_log_writer();
    consumers.add(ToList { ws: consumer, recvs: recvs.clone() });

    sender
        .send(MonitorMsg::EnterSpan { id: 1, time_stamp: std::time::Duration::from_secs(2) })
        .unwrap();
    consumers.drain(&rx);
    assert!(recvs.lock().unwrap().len() == 1);
}

#[test]
fn a_sender_that_is_not_connected_takes_batches_and_writes_nothing() {
    let recvs: Arc<Mutex<Vec<MonitorMsg>>> = Arc::new(Mutex::new(vec![]));
    let consumer = LogWS::new(SERVER_ADDR.to_string());
    let (sender, rx, mut consumers): (_, _, RLogConsumers<ToList>) = new_log_writer();
    let handle = consumers.add(ToList { ws: consumer, recvs: recvs.clone() });
    sender.send(MonitorMsg::MonitorError("unheard".to_string())).unwrap();
    assert_eq!(consumers.drain(&rx).len(), 1);
    assert!(recvs.lock().unwrap().is_empty());
    assert!(!handle.is_closed(&consumers));
}

fn connected() -> LogWS {
    let mut ws = LogWS::new(SERVER_ADDR.to_string());
    assert!(ws.dialed(true));
    ws
}

#[test]
fn wslog_websocket_log() {
    let mut consumer = LogWS::new(SERVER_ADDR.to_string());
    assert_eq!(consumer.connect(), ConnectStep::Dial);
    consumer.dialed(true);
    let vals = [MonitorMsg::EnterSpan { id: 1, time_stamp: std::time::Duration::from_secs(2) }];
    let mut recvs = vec![];
    let mut run = consumer.send_to_remote(vals.len());
    while run.step() != SendStep::Finished {
        assert_eq!(run.step(), SendStep::Write);
        recvs.push(vals[run.index()].clone());
        assert_eq!(run.advance(WriteOutcome::Written), Verdict::Sent);
    }
    assert!(!consumer.settle(&run));
    assert!(recvs.len() == 1);
}

#[test]
fn a_new_sender_is_not_connected() {
    let ws = LogWS::new("ws://example:1/socket".to_string());
    assert_eq!(ws.addr(), "ws://example:1/socket");
    assert_eq!(SERVER_ADDR, "ws://localhost:31813/socket");
    assert!(!ws.is_connected());
    assert_eq!(ws.connect(), ConnectStep::Dial);
}

#[test]
fn connect_is_idempotent() {
    let mut ws = LogWS::new(SERVER_ADDR.to_string());
    assert!(!ws.dialed(false));
    assert_eq!(ws.connect(), ConnectStep::Dial);
    assert!(ws.dialed(true));
    assert_eq!(ws.connect(), ConnectStep::Open);
    assert!(ws.dialed(false));
    assert!(ws.is_connected());
}

#[test]
fn nothing_is_sent_while_disconnected() {
    let mut ws = connected();
    assert!(ws.disconnect());
    assert!(!ws.disconnect());
    assert!(!ws.is_connected());
    let mut run = ws.send_to_remote(3);
    assert_eq!(run.step(), SendStep::Finished);
    assert!(run.is_finished());
    assert_eq!(run.advance(WriteOutcome::Written), Verdict::Idle);
    assert_eq!(run.step(), SendStep::Finished);
    assert!(!ws.settle(&run));
    ws.dialed(true);
    assert_eq!(ws.send_to_remote(3).step(), SendStep::Write);
}

#[test]
fn every_message_is_written_in_order() {
    let ws = connected();
    let mut run = ws.send_to_remote(3);
    for i in 0..3 {
        assert_eq!(run.step(), SendStep::Write);
        assert_eq!(run.index(), i);
        assert_eq!(run.substitute(), None);
        assert_eq!(run.advance(WriteOutcome::Written), Verdict::Sent);
    }
    assert_eq!(run.step(), SendStep::Finished);
    assert!(!run.is_lost());
}

#[test]
fn a_full_queue_is_flushed_and_the_write_tried_again() {
    let ws = connected();
    let mut run = ws.send_to_remote(2);
    assert_eq!(run.advance(WriteOutcome::QueueFull), Verdict::Again);
    assert_eq!(run.step(), SendStep::Flush);
    assert_eq!(run.advance(WriteOutcome::Written), Verdict::Again);
    assert_eq!(run.step(), SendStep::Write);
    assert_eq!(run.index(), 0);
    assert_eq!(run.advance(WriteOutcome::Written), Verdict::Sent);
    assert_eq!(run.index(), 1);
    assert_eq!(run.step(), SendStep::Write);
}

#[test]
fn capacity_fallback_substitutes_a_monitor_error() {
    let ws = connected();
    let mut run = ws.send_to_remote(1);
    let verdict = run.advance(WriteOutcome::Capacity("message too long".to_string()));
    assert_eq!(verdict, Verdict::Again);
    assert_eq!(run.step(), SendStep::Substitute);
    assert_eq!(run.index(), 0);
    let frame = run.substitute().unwrap();
    assert_eq!(frame, MonitorMsg::MonitorError("message too long".to_string()));
    match frame {
        MonitorMsg::MonitorError(body) => assert!(!body.is_empty()),
        _ => unreachable!(),
    }
    assert_eq!(run.advance(WriteOutcome::Written), Verdict::Sent);
    assert_eq!(run.step(), SendStep::Finished);
}

#[test]
fn a_message_is_given_up_after_two_recoveries() {
    assert_eq!(MAX_RECOVERIES, 2);
    let ws = connected();
    let mut run = ws.send_to_remote(2);
    assert_eq!(run.advance(WriteOutcome::QueueFull), Verdict::Again);
    assert_eq!(run.advance(WriteOutcome::Written), Verdict::Again);
    assert_eq!(run.advance(WriteOutcome::Capacity("big".to_string())), Verdict::Again);
    assert_eq!(run.step(), SendStep::Substitute);
    assert_eq!(run.advance(WriteOutcome::QueueFull), Verdict::Skipped);
    assert_eq!(run.index(), 1);
    assert_eq!(run.step(), SendStep::Write);
    assert_eq!(run.substitute(), None);
    assert_eq!(run.advance(WriteOutcome::Written), Verdict::Sent);
    assert!(run.is_finished());
    assert!(!run.is_lost());
}

#[test]
fn a_full_queue_keeps_the_substitute() {
    let ws = connected();
    let mut run = ws.send_to_remote(1);
    run.advance(WriteOutcome::Capacity("big".to_string()));
    assert_eq!(run.advance(WriteOutcome::QueueFull), Verdict::Again);
    assert_eq!(run.step(), SendStep::Flush);
    assert_eq!(run.advance(WriteOutcome::Written), Verdict::Again);
    assert_eq!(run.step(), SendStep::Substitute);
    assert_eq!(run.substitute(), Some(MonitorMsg::MonitorError("big".to_string())));
}

#[test]
fn a_message_that_does_not_encode_is_substituted_once() {
    let ws = connected();
    let mut run = ws.send_to_remote(2);
    assert_eq!(run.advance(WriteOutcome::Unencodable("bad".to_string())), Verdict::Again);
    assert_eq!(run.step(), SendStep::Substitute);
    assert_eq!(run.substitute(), Some(MonitorMsg::MonitorError("bad".to_string())));
    assert_eq!(run.advance(WriteOutcome::Unencodable("worse".to_string())), Verdict::Skipped);
    assert_eq!(run.index(), 1);
    assert_eq!(run.step(), SendStep::Write);
}

#[test]
fn a_hard_error_closes_the_connection() {
    let mut ws = connected();
    let mut run = ws.send_to_remote(3);
    assert_eq!(run.advance(WriteOutcome::Written), Verdict::Sent);
    assert_eq!(run.advance(WriteOutcome::Fatal), Verdict::Lost);
    assert_eq!(run.step(), SendStep::Finished);
    assert!(run.is_lost());
    assert_eq!(run.index(), 1);
    assert!(ws.settle(&run));
    assert!(!ws.is_connected());
    assert_eq!(ws.send_to_remote(1).step(), SendStep::Finished);
    assert_eq!(ws.connect(), ConnectStep::Dial);
}

#[test]
fn a_run_ends_whatever_the_transport_says() {
    let ws = connected();
    let len = 4;
    let mut run = ws.send_to_remote(len);
    let mut outcomes = 0;
    while !run.is_finished() {
        let outcome = match outcomes % 3 {
            0 => WriteOutcome::QueueFull,
            1 => WriteOutcome::Capacity("big".to_string()),
            _ => WriteOutcome::Unencodable("bad".to_string()),
        };
        run.advance(outcome);
        outcomes += 1;
        assert!(outcomes <= 12 * len);
    }
    assert_eq!(run.index(), len);
}

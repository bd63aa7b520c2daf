use ribir_monitor::message::MonitorMsg;
use ribir_monitor::net::{Incoming, Reaction, StreamHandle, DEFAULT_LISTEN_ADDR};

fn note(text: &str) -> MonitorMsg {
    MonitorMsg::MonitorError(text.to_string())
}

#[test]
fn a_new_stream_is_open() {
    let handle = StreamHandle::new("127.0.0.1:4000".to_string());
    assert_eq!(handle.addr(), "127.0.0.1:4000");
    assert!(!handle.is_close());
    assert_eq!(DEFAULT_LISTEN_ADDR, "127.0.0.1:31813");
}

#[test]
fn a_decoded_message_is_delivered() {
    let mut handle = StreamHandle::new(String::new());
    assert_eq!(handle.next(Incoming::Message(note("a"))), Reaction::Deliver(note("a")));
    assert!(!handle.is_close());
}

#[test]
fn a_payload_that_does_not_decode_does_not_end_the_stream() {
    let mut handle = StreamHandle::new(String::new());
    let reaction = handle.next(Incoming::Undecodable("unexpected end".to_string()));
    assert_eq!(reaction, Reaction::Warn("unexpected end".to_string()));
    assert!(!handle.is_close());
    assert_eq!(handle.next(Incoming::Message(note("b"))), Reaction::Deliver(note("b")));
}

#[test]
fn other_frames_are_passed_over() {
    let mut handle = StreamHandle::new(String::new());
    assert_eq!(handle.next(Incoming::Other), Reaction::Skip);
    assert!(!handle.is_close());
}

#[test]
fn a_close_frame_ends_the_stream() {
    let mut handle = StreamHandle::new(String::new());
    assert_eq!(handle.next(Incoming::Close), Reaction::End);
    assert!(handle.is_close());
    assert_eq!(handle.next(Incoming::Message(note("late"))), Reaction::End);
    assert_eq!(handle.next(Incoming::Other), Reaction::End);
    assert!(!handle.close());
}

#[test]
fn a_failure_of_the_transport_ends_the_stream() {
    let mut handle = StreamHandle::new(String::new());
    let reaction = handle.next(Incoming::Failed("connection reset".to_string()));
    assert_eq!(reaction, Reaction::Abort("connection reset".to_string()));
    assert!(handle.is_close());
}

#[test]
fn closing_twice_is_closing_once() {
    let mut handle = StreamHandle::new(String::new());
    assert!(handle.close());
    assert!(handle.is_close());
    assert!(!handle.close());
    assert!(handle.is_close());
}

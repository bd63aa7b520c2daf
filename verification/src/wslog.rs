//! The remote sender: the consumer that writes every message of a batch as
//! one binary frame to a persistent connection.
//!
//! The connection itself belongs to the caller. This module decides: whether
//! to dial, what to write next, and what to do when a write fails. The caller
//! performs each step on its transport and reports back what the transport
//! said.

use crate::message::{MonitorMsg, MonitorMsgView};
use vstd::prelude::*;

verus! {

/// The address of the monitor when the sender is given none.
pub const SERVER_ADDR: &'static str = "ws://localhost:31813/socket";

/// How often the recovery from a failed write is tried for one message.
pub const MAX_RECOVERIES: u8 = 2;

/// What a caller of [`LogWS::connect`] has to do.
#[derive(Clone, Copy, Debug, PartialEq, Eq, Structural)]
pub enum ConnectStep {
    /// The connection is open: nothing.
    Open,
    /// Open a connection to the address, then call [`LogWS::dialed`].
    Dial,
}

/// The state of the connection to the monitor, as far as the sender was
/// told.
#[derive(Clone, Debug, PartialEq, Eq)]
pub struct LogWS {
    addr: String,
    connected: bool,
}

/// What the transport said about one step.
#[derive(Clone, Debug, PartialEq, Eq)]
pub enum WriteOutcome {
    /// The step succeeded.
    Written,
    /// The message could not be encoded; the text says why.
    Unencodable(String),
    /// The send queue is full for the moment.
    QueueFull,
    /// The message is larger than the transport takes; the text says why.
    Capacity(String),
    /// Anything else: the connection cannot be used any more.
    Fatal,
}

/// The view of a [`WriteOutcome`].
pub enum WriteOutcomeView {
    Written,
    Unencodable(Seq<char>),
    QueueFull,
    Capacity(Seq<char>),
    Fatal,
}

impl View for WriteOutcome {
    type V = WriteOutcomeView;

    open spec fn view(&self) -> WriteOutcomeView {
        match self {
            WriteOutcome::Written => WriteOutcomeView::Written,
            WriteOutcome::Unencodable(reason) => WriteOutcomeView::Unencodable(reason@),
            WriteOutcome::QueueFull => WriteOutcomeView::QueueFull,
            WriteOutcome::Capacity(reason) => WriteOutcomeView::Capacity(reason@),
            WriteOutcome::Fatal => WriteOutcomeView::Fatal,
        }
    }
}

/// The next thing to do for a batch.
#[derive(Clone, Copy, Debug, PartialEq, Eq, Structural)]
pub enum SendStep {
    /// Nothing: the batch is through, or the connection is not open.
    Finished,
    /// Encode the current message and write it as one binary frame.
    Write,
    /// Flush the pending output.
    Flush,
    /// Write the substitute of the current message as one binary frame.
    Substitute,
}

/// What one reported outcome meant for the batch.
#[derive(Clone, Copy, Debug, PartialEq, Eq, Structural)]
pub enum Verdict {
    /// The current message needs another step.
    Again,
    /// The current message, or its substitute, was written.
    Sent,
    /// The current message was given up; the failure is to be reported.
    Skipped,
    /// The connection is lost; what is left of the batch is dropped.
    Lost,
    /// The batch was finished already.
    Idle,
}

/// What is written for the current message.
pub enum FrameView {
    /// The message itself.
    Message,
    /// A `MonitorError` with this text, in place of the message.
    Substitute(Seq<char>),
}

/// The state of the sending of one batch.
pub struct RunView {
    /// The number of messages of the batch.
    pub len: usize,
    /// The index of the current message.
    pub index: usize,
    /// How many recoveries were begun for the current message.
    pub recoveries: u8,
    /// Whether a flush is due before the next write.
    pub flushing: bool,
    /// What is written for the current message.
    pub frame: FrameView,
    /// Whether the connection was lost.
    pub lost: bool,
}

impl RunView {
    /// The run of a batch of `len` messages; over a connection that is not
    /// open, the run of no messages.
    pub open spec fn start(len: usize, connected: bool) -> RunView {
        RunView {
            len: if connected {
                len
            } else {
                0
            },
            index: 0,
            recoveries: 0,
            flushing: false,
            frame: FrameView::Message,
            lost: false,
        }
    }

    /// The counters stay in their ranges.
    pub open spec fn wf(self) -> bool {
        &&& self.index <= self.len
        &&& self.recoveries <= MAX_RECOVERIES
    }

    /// Whether nothing is left to do.
    pub open spec fn finished(self) -> bool {
        self.lost || self.index >= self.len
    }

    /// The next thing to do.
    pub open spec fn step(self) -> SendStep {
        if self.finished() {
            SendStep::Finished
        } else if self.flushing {
            SendStep::Flush
        } else {
            match self.frame {
                FrameView::Message => SendStep::Write,
                FrameView::Substitute(_) => SendStep::Substitute,
            }
        }
    }

    /// The run at the next message.
    pub open spec fn next_message(self) -> RunView {
        RunView {
            index: (self.index + 1) as usize,
            recoveries: 0,
            flushing: false,
            frame: FrameView::Message,
            ..self
        }
    }

    /// The run after the transport said `outcome` about the step that was
    /// due.
    ///
    /// A success of a flush leads to the write it was made for, any other
    /// success to the next message. A message that does not encode is
    /// replaced by a substitute, and given up when it is one. A full queue is
    /// met by a flush and a second write, a message over capacity by a
    /// substitute; after `MAX_RECOVERIES` of these the message is given up.
    /// Any other failure loses the connection.
    pub open spec fn advanced(self, outcome: WriteOutcomeView) -> RunView {
        if self.finished() {
            self
        } else {
            match outcome {
                WriteOutcomeView::Written => if self.flushing {
                    RunView { flushing: false, ..self }
                } else {
                    self.next_message()
                },
                WriteOutcomeView::Fatal => RunView { lost: true, ..self },
                WriteOutcomeView::Unencodable(reason) => if self.frame is Message {
                    RunView { flushing: false, frame: FrameView::Substitute(reason), ..self }
                } else {
                    self.next_message()
                },
                WriteOutcomeView::QueueFull => if self.recoveries < MAX_RECOVERIES {
                    RunView {
                        recoveries: (self.recoveries + 1) as u8,
                        flushing: true,
                        ..self
                    }
                } else {
                    self.next_message()
                },
                WriteOutcomeView::Capacity(reason) => if self.recoveries < MAX_RECOVERIES {
                    RunView {
                        recoveries: (self.recoveries + 1) as u8,
                        flushing: false,
                        frame: FrameView::Substitute(reason),
                        ..self
                    }
                } else {
                    self.next_message()
                },
            }
        }
    }

    /// What `outcome` meant for the batch.
    pub open spec fn verdict(self, outcome: WriteOutcomeView) -> Verdict {
        if self.finished() {
            Verdict::Idle
        } else {
            match outcome {
                WriteOutcomeView::Written => if self.flushing {
                    Verdict::Again
                } else {
                    Verdict::Sent
                },
                WriteOutcomeView::Fatal => Verdict::Lost,
                WriteOutcomeView::Unencodable(_) => if self.frame is Message {
                    Verdict::Again
                } else {
                    Verdict::Skipped
                },
                _ => if self.recoveries < MAX_RECOVERIES {
                    Verdict::Again
                } else {
                    Verdict::Skipped
                },
            }
        }
    }

    /// A bound on the outcomes that the run can still take before it is
    /// finished.
    pub open spec fn fuel(self) -> int {
        if self.finished() {
            0
        } else {
            (self.len - self.index - 1) * 12 + 2 * (MAX_RECOVERIES - self.recoveries) + (if self.flushing {
                2int
            } else {
                1int
            }) + (if self.frame is Message {
                6int
            } else {
                0int
            })
        }
    }

    /// Every outcome brings an unfinished run nearer to its end, so a batch
    /// of `len` messages is through after `12 * len` outcomes at most.
    pub proof fn lemma_advanced(self, outcome: WriteOutcomeView)
        requires
            self.wf(),
        ensures
            self.advanced(outcome).wf(),
            self.advanced(outcome).len == self.len,
            !self.finished() ==> self.advanced(outcome).fuel() < self.fuel(),
            self.fuel() <= 12 * self.len,
            self.lost ==> self.advanced(outcome).lost,
    {
    }
}

/// What is written for the current message.
enum Frame {
    Message,
    Substitute(String),
}

impl View for Frame {
    type V = FrameView;

    closed spec fn view(&self) -> FrameView {
        match self {
            Frame::Message => FrameView::Message,
            Frame::Substitute(reason) => FrameView::Substitute(reason@),
        }
    }
}

/// The sending of one batch, step by step.
pub struct SendRun {
    len: usize,
    index: usize,
    recoveries: u8,
    flushing: bool,
    frame: Frame,
    lost: bool,
}

impl View for SendRun {
    type V = RunView;

    closed spec fn view(&self) -> RunView {
        RunView {
            len: self.len,
            index: self.index,
            recoveries: self.recoveries,
            flushing: self.flushing,
            frame: self.frame@,
            lost: self.lost,
        }
    }
}

impl SendRun {
    /// The next thing to do.
    pub fn step(&self) -> (step: SendStep)
        ensures
            step == self@.step(),
    {
        if self.lost || self.index >= self.len {
            SendStep::Finished
        } else if self.flushing {
            SendStep::Flush
        } else {
            match &self.frame {
                Frame::Message => SendStep::Write,
                Frame::Substitute(_) => SendStep::Substitute,
            }
        }
    }

    /// Whether nothing is left to do.
    pub fn is_finished(&self) -> (b: bool)
        ensures
            b == self@.finished(),
    {
        self.lost || self.index >= self.len
    }

    /// The index, in the batch, of the current message.
    pub fn index(&self) -> (i: usize)
        ensures
            i == self@.index,
    {
        self.index
    }

    /// Whether the connection was lost.
    pub fn is_lost(&self) -> (b: bool)
        ensures
            b == self@.lost,
    {
        self.lost
    }

    /// The message to write in place of the current one, when a substitute
    /// is due: a `MonitorError` that carries what the transport said.
    pub fn substitute(&self) -> (msg: Option<MonitorMsg>)
        ensures
            match self@.frame {
                FrameView::Message => msg.is_none(),
                FrameView::Substitute(reason) => msg matches Some(m) && m@
                    == MonitorMsgView::MonitorError(reason),
            },
    {
        match &self.frame {
            Frame::Message => None,
            Frame::Substitute(reason) => Some(MonitorMsg::MonitorError(reason.clone())),
        }
    }

    fn next_message(&mut self)
        requires
            old(self).index < old(self).len,
        ensures
            final(self)@ == old(self)@.next_message(),
    {
        self.index = self.index + 1;
        self.recoveries = 0;
        self.flushing = false;
        self.frame = Frame::Message;
    }

    /// Takes what the transport said about the step that was due.
    pub fn advance(&mut self, outcome: WriteOutcome) -> (verdict: Verdict)
        ensures
            final(self)@ == old(self)@.advanced(outcome@),
            verdict == old(self)@.verdict(outcome@),
            old(self)@.wf() ==> final(self)@.wf(),
            old(self)@.wf() && !old(self)@.finished() ==> final(self)@.fuel() < old(self)@.fuel(),
    {
        proof {
            if old(self)@.wf() {
                old(self)@.lemma_advanced(outcome@);
            }
        }
        if self.is_finished() {
            return Verdict::Idle;
        }
        match outcome {
            WriteOutcome::Written => {
                if self.flushing {
                    self.flushing = false;
                    Verdict::Again
                } else {
                    self.next_message();
                    Verdict::Sent
                }
            },
            WriteOutcome::Fatal => {
                self.lost = true;
                Verdict::Lost
            },
            WriteOutcome::Unencodable(reason) => {
                let fresh = match &self.frame {
                    Frame::Message => true,
                    Frame::Substitute(_) => false,
                };
                if fresh {
                    self.flushing = false;
                    self.frame = Frame::Substitute(reason);
                    Verdict::Again
                } else {
                    self.next_message();
                    Verdict::Skipped
                }
            },
            WriteOutcome::QueueFull => {
                if self.recoveries < MAX_RECOVERIES {
                    self.recoveries = self.recoveries + 1;
                    self.flushing = true;
                    Verdict::Again
                } else {
                    self.next_message();
                    Verdict::Skipped
                }
            },
            WriteOutcome::Capacity(reason) => {
                if self.recoveries < MAX_RECOVERIES {
                    self.recoveries = self.recoveries + 1;
                    self.flushing = false;
                    self.frame = Frame::Substitute(reason);
                    Verdict::Again
                } else {
                    self.next_message();
                    Verdict::Skipped
                }
            },
        }
    }
}

impl LogWS {
    /// The address of the monitor.
    pub closed spec fn address(&self) -> Seq<char> {
        self.addr@
    }

    /// Whether the connection is open.
    pub closed spec fn connected(&self) -> bool {
        self.connected
    }

    /// A sender for the monitor at `addr`, not connected.
    pub fn new(addr: String) -> (ws: LogWS)
        ensures
            ws.address() == addr@,
            !ws.connected(),
    {
        LogWS { addr, connected: false }
    }

    /// The address of the monitor.
    pub fn addr(&self) -> (addr: &str)
        ensures
            addr@ == self.address(),
    {
        self.addr.as_str()
    }

    /// Whether the connection is open.
    pub fn is_connected(&self) -> (b: bool)
        ensures
            b == self.connected(),
    {
        self.connected
    }

    /// What opening the connection takes: a dial when it is not open,
    /// nothing when it is.
    pub fn connect(&self) -> (step: ConnectStep)
        ensures
            step == (if self.connected() {
                ConnectStep::Open
            } else {
                ConnectStep::Dial
            }),
    {
        if self.connected {
            ConnectStep::Open
        } else {
            ConnectStep::Dial
        }
    }

    /// Takes the result of a dial. Returns whether the connection is open
    /// now.
    pub fn dialed(&mut self, opened: bool) -> (b: bool)
        ensures
            final(self).connected() == (old(self).connected() || opened),
            final(self).address() == old(self).address(),
            b == final(self).connected(),
    {
        if opened {
            self.connected = true;
        }
        self.connected
    }

    /// Closes the connection. Returns whether there was one to close.
    pub fn disconnect(&mut self) -> (was_open: bool)
        ensures
            !final(self).connected(),
            final(self).address() == old(self).address(),
            was_open == old(self).connected(),
    {
        let was_open = self.connected;
        self.connected = false;
        was_open
    }

    /// Begins the sending of a batch of `len` messages. While the connection
    /// is not open there is nothing to do for any batch.
    pub fn send_to_remote(&self, len: usize) -> (run: SendRun)
        ensures
            run@ == RunView::start(len, self.connected()),
            run@.wf(),
            !self.connected() ==> run@.step() == SendStep::Finished,
    {
        SendRun {
            len: if self.connected {
                len
            } else {
                0
            },
            index: 0,
            recoveries: 0,
            flushing: false,
            frame: Frame::Message,
            lost: false,
        }
    }

    /// Takes the end of a run: a connection that was lost is closed. Returns
    /// whether it was lost.
    pub fn settle(&mut self, run: &SendRun) -> (lost: bool)
        ensures
            lost == run@.lost,
            final(self).connected() == (old(self).connected() && !run@.lost),
            final(self).address() == old(self).address(),
    {
        if run.lost {
            self.connected = false;
        }
        run.lost
    }
}

/// After a disconnect the connection is closed and no batch gives anything
/// to do, until a dial has succeeded.
pub proof fn lemma_disconnected_is_idle(ws: LogWS, len: usize)
    requires
        !ws.connected(),
    ensures
        RunView::start(len, ws.connected()).step() == SendStep::Finished,
        forall|outcome: WriteOutcomeView| #[trigger]
            RunView::start(len, ws.connected()).advanced(outcome) == RunView::start(
                len,
                ws.connected(),
            ),
{
}

} // verus!

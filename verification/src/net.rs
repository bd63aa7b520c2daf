//! The monitor's side of a client connection: what to do with each thing
//! that is read from the peer.
//!
//! Reading, the WebSocket handshake and the decoding of a payload belong to
//! the caller, who hands in what it read as an [`Incoming`].

use crate::message::{MonitorMsg, MonitorMsgView};
use vstd::prelude::*;

verus! {

/// The address on which the monitor listens when it is given none.
pub const DEFAULT_LISTEN_ADDR: &'static str = "127.0.0.1:31813";

/// One thing read from a peer.
#[derive(Clone, Debug, PartialEq, Eq)]
pub enum Incoming {
    /// A binary frame whose payload decoded to this message.
    Message(MonitorMsg),
    /// A binary frame whose payload did not decode; the text says why.
    Undecodable(String),
    /// A close frame.
    Close,
    /// Any other frame: text, ping or pong.
    Other,
    /// The transport failed; the text says how.
    Failed(String),
}

/// The view of an [`Incoming`].
pub enum IncomingView {
    Message(MonitorMsgView),
    Undecodable(Seq<char>),
    Close,
    Other,
    Failed(Seq<char>),
}

impl View for Incoming {
    type V = IncomingView;

    open spec fn view(&self) -> IncomingView {
        match self {
            Incoming::Message(msg) => IncomingView::Message(msg@),
            Incoming::Undecodable(why) => IncomingView::Undecodable(why@),
            Incoming::Close => IncomingView::Close,
            Incoming::Other => IncomingView::Other,
            Incoming::Failed(how) => IncomingView::Failed(how@),
        }
    }
}

/// What the reader of a client's stream does next.
#[derive(Clone, Debug, PartialEq, Eq)]
pub enum Reaction {
    /// Hand the message to the client's store, and read on.
    Deliver(MonitorMsg),
    /// Read on.
    Skip,
    /// Log that a payload did not decode, and read on.
    Warn(String),
    /// End the stream.
    End,
    /// Log that the transport failed, and end the stream.
    Abort(String),
}

/// The view of a [`Reaction`].
pub enum ReactionView {
    Deliver(MonitorMsgView),
    Skip,
    Warn(Seq<char>),
    End,
    Abort(Seq<char>),
}

impl View for Reaction {
    type V = ReactionView;

    open spec fn view(&self) -> ReactionView {
        match self {
            Reaction::Deliver(msg) => ReactionView::Deliver(msg@),
            Reaction::Skip => ReactionView::Skip,
            Reaction::Warn(why) => ReactionView::Warn(why@),
            Reaction::End => ReactionView::End,
            Reaction::Abort(how) => ReactionView::Abort(how@),
        }
    }
}

/// What is done with `incoming` on a stream that is closed or not: a
/// closed stream takes nothing more; an open one delivers what decoded,
/// passes over what is no message, warns of what did not decode, and ends on
/// a close frame or a failure of the transport.
pub open spec fn reaction(closed: bool, incoming: IncomingView) -> ReactionView {
    if closed {
        ReactionView::End
    } else {
        match incoming {
            IncomingView::Message(msg) => ReactionView::Deliver(msg),
            IncomingView::Undecodable(why) => ReactionView::Warn(why),
            IncomingView::Close => ReactionView::End,
            IncomingView::Other => ReactionView::Skip,
            IncomingView::Failed(how) => ReactionView::Abort(how),
        }
    }
}

/// Whether a stream is closed after `incoming`.
pub open spec fn closes(closed: bool, incoming: IncomingView) -> bool {
    closed || incoming is Close || incoming is Failed
}

/// The monitor's end of one client connection.
#[derive(Clone, Debug, PartialEq, Eq)]
pub struct StreamHandle {
    addr: String,
    closed: bool,
}

impl StreamHandle {
    /// The address of the peer.
    pub closed spec fn peer(&self) -> Seq<char> {
        self.addr@
    }

    /// Whether the stream has ended.
    pub closed spec fn closed(&self) -> bool {
        self.closed
    }

    /// The open stream of the peer at `addr`.
    pub fn new(addr: String) -> (handle: StreamHandle)
        ensures
            handle.peer() == addr@,
            !handle.closed(),
    {
        StreamHandle { addr, closed: false }
    }

    /// The address of the peer.
    pub fn addr(&self) -> (addr: &str)
        ensures
            addr@ == self.peer(),
    {
        self.addr.as_str()
    }

    /// Ends the stream. Returns whether it was open, that is, whether the
    /// peer is still to be told.
    pub fn close(&mut self) -> (was_open: bool)
        ensures
            final(self).closed(),
            final(self).peer() == old(self).peer(),
            was_open == !old(self).closed(),
    {
        let was_open = !self.closed;
        self.closed = true;
        was_open
    }

    /// Whether the stream has ended.
    pub fn is_close(&self) -> (b: bool)
        ensures
            b == self.closed(),
    {
        self.closed
    }

    /// Takes the next thing read from the peer and says what to do with it.
    /// A payload that did not decode does not end the stream.
    pub fn next(&mut self, incoming: Incoming) -> (r: Reaction)
        ensures
            r@ == reaction(old(self).closed(), incoming@),
            final(self).closed() == closes(old(self).closed(), incoming@),
            final(self).peer() == old(self).peer(),
    {
        if self.closed {
            return Reaction::End;
        }
        match incoming {
            Incoming::Message(msg) => Reaction::Deliver(msg),
            Incoming::Undecodable(why) => Reaction::Warn(why),
            Incoming::Close => {
                self.closed = true;
                Reaction::End
            },
            Incoming::Other => Reaction::Skip,
            Incoming::Failed(how) => {
                self.closed = true;
                Reaction::Abort(how)
            },
        }
    }
}

} // verus!

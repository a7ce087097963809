//! The per-connection driver task's decision logic.
//!
//! Every live connection has a background task that pumps the protocol's
//! asynchronous message channel, both while the connection is leased and
//! while it sits idle in the pool, so that server-pushed notices never block
//! the next query.  The task's I/O loop lives with the runtime; what it
//! decides on each observation is here.

use crate::level::Level;
use vstd::prelude::*;

verus! {

/// A protocol-level asynchronous message pumped from the connection.
#[derive(Debug)]
pub enum AsyncMessage {
    /// A server notice, with its rendered text.
    Notice(String),
    /// A notification, with the sending backend's process id and channel.
    Notification { process_id: u32, channel: String },
    /// Any other known asynchronous message.
    Other,
}

/// What the driver observed on one poll of the message stream.
#[derive(Debug)]
pub enum PollEvent {
    /// A message arrived.
    Message(AsyncMessage),
    /// The stream failed, with the rendered error.
    StreamError(String),
    /// The stream ended: the connection closed.
    End,
}

/// The driver's response to an observation: the severity to log at, and
/// whether the task terminates.
pub open spec fn driver_decision(event: PollEvent) -> (Level, bool) {
    match event {
        PollEvent::Message(AsyncMessage::Notice(_)) => (Level::Info, false),
        PollEvent::Message(AsyncMessage::Notification { .. }) => (Level::Warning, false),
        PollEvent::Message(AsyncMessage::Other) => (Level::Warning, false),
        PollEvent::StreamError(_) => (Level::Error, true),
        PollEvent::End => (Level::Info, true),
    }
}

/// The driver's only mutable state: the session id its log lines carry, so
/// that entries correlate with the request currently using the connection.
#[derive(Debug)]
pub struct DriverState {
    pub session: u128,
}

impl DriverState {
    /// A driver starts tagged with the session that dialed the connection.
    pub fn new(session: u128) -> (r: DriverState)
        ensures
            r.session == session,
    {
        DriverState { session }
    }

    /// The session watch channel changed: every log line that follows
    /// carries the new session id.
    pub fn on_session_change(&mut self, session: u128)
        ensures
            final(self).session == session,
    {
        self.session = session;
    }

    /// One poll of the message stream: notices log at info, notifications
    /// and unknown messages warn, a stream error logs an error and
    /// terminates, end of stream logs at info and terminates.
    pub fn on_event(&self, event: &PollEvent) -> (r: (Level, bool))
        ensures
            r == driver_decision(*event),
    {
        match event {
            PollEvent::Message(AsyncMessage::Notice(_)) => (Level::Info, false),
            PollEvent::Message(AsyncMessage::Notification { .. }) => (Level::Warning, false),
            PollEvent::Message(AsyncMessage::Other) => (Level::Warning, false),
            PollEvent::StreamError(_) => (Level::Error, true),
            PollEvent::End => (Level::Info, true),
        }
    }
}

} // verus!

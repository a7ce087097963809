//! Log severities, numbered as the backend encodes them on the wire.

use vstd::prelude::*;

verus! {

/// Lowest debug severity.
pub const DEBUG5: u32 = 10;
/// Debug severity above [`DEBUG5`].
pub const DEBUG4: u32 = 11;
/// Debug severity above [`DEBUG4`].
pub const DEBUG3: u32 = 12;
/// Debug severity above [`DEBUG3`].
pub const DEBUG2: u32 = 13;
/// Highest debug severity.
pub const DEBUG1: u32 = 14;
/// Server operational messages.
pub const LOG: u32 = 15;
/// Informational messages requested by the client.
pub const INFO: u32 = 17;
/// Notices delivered to the client.
pub const NOTICE: u32 = 18;
/// Warnings delivered to the client.
pub const WARNING: u32 = 19;
/// Errors that abort the current command.
pub const ERROR: u32 = 21;
/// Errors that abort the session.
pub const FATAL: u32 = 22;
/// Errors that abort every session.
pub const PANIC: u32 = 23;
/// Pool-internal events, above every backend severity.
pub const WPEVENT: u32 = 24;

/// A log severity, ordered from fine-grained debugging up to process panic.
#[derive(Debug, Clone, Copy, PartialEq, Eq, Structural)]
pub enum Level {
    Debug5,
    Debug4,
    Debug3,
    Debug2,
    Debug1,
    Log,
    Info,
    Notice,
    Warning,
    Error,
    Fatal,
    Panic,
    WPEvent,
}

/// Holds exactly of the numeric severities that [`Level::from`] accepts.
pub open spec fn is_known_level(elevel: u32) -> bool {
    ||| elevel == DEBUG5
    ||| elevel == DEBUG4
    ||| elevel == DEBUG3
    ||| elevel == DEBUG2
    ||| elevel == DEBUG1
    ||| elevel == LOG
    ||| elevel == INFO
    ||| elevel == NOTICE
    ||| elevel == WARNING
    ||| elevel == ERROR
    ||| elevel == FATAL
    ||| elevel == PANIC
    ||| elevel == WPEVENT
}

/// The severity a known numeric level decodes to.
pub open spec fn level_of(elevel: u32) -> Level {
    if elevel == DEBUG5 {
        Level::Debug5
    } else if elevel == DEBUG4 {
        Level::Debug4
    } else if elevel == DEBUG3 {
        Level::Debug3
    } else if elevel == DEBUG2 {
        Level::Debug2
    } else if elevel == DEBUG1 {
        Level::Debug1
    } else if elevel == LOG {
        Level::Log
    } else if elevel == INFO {
        Level::Info
    } else if elevel == NOTICE {
        Level::Notice
    } else if elevel == WARNING {
        Level::Warning
    } else if elevel == ERROR {
        Level::Error
    } else if elevel == FATAL {
        Level::Fatal
    } else if elevel == PANIC {
        Level::Panic
    } else {
        Level::WPEvent
    }
}

impl Level {
    /// Decodes a numeric severity.  Unknown numbers are ruled out by the
    /// caller; the backend never emits one.
    pub fn from(elevel: u32) -> (r: Level)
        requires
            is_known_level(elevel),
        ensures
            r == level_of(elevel),
    {
        if elevel == DEBUG5 {
            Level::Debug5
        } else if elevel == DEBUG4 {
            Level::Debug4
        } else if elevel == DEBUG3 {
            Level::Debug3
        } else if elevel == DEBUG2 {
            Level::Debug2
        } else if elevel == DEBUG1 {
            Level::Debug1
        } else if elevel == LOG {
            Level::Log
        } else if elevel == INFO {
            Level::Info
        } else if elevel == NOTICE {
            Level::Notice
        } else if elevel == WARNING {
            Level::Warning
        } else if elevel == ERROR {
            Level::Error
        } else if elevel == FATAL {
            Level::Fatal
        } else if elevel == PANIC {
            Level::Panic
        } else {
            Level::WPEvent
        }
    }
}

} // verus!

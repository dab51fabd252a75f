//! The event model: what a supervised process can report, and the two
//! recoverable registry-level errors.

use vstd::prelude::*;

verus! {

/// Largest number of bytes a single read may report: the size of the bounded
/// read chunk used by the per-process polling loop.
pub const MAX_LINE: usize = 8192;

/// Which standard stream of a supervised process a handle refers to.
#[derive(Clone, Copy, Debug, PartialEq, Eq, Structural)]
pub enum HandleType {
    StdInput,
    StdOutput,
    StdError,
}

/// A failure met while supervising one process. Each variant carries a
/// description of the underlying cause.
#[derive(Debug)]
pub enum ProcessError {
    /// The non-blocking liveness query failed. Fatal to that process's
    /// supervision: it is the last event the process produces.
    ErrorWaiting(String),
    /// A read from one of the output streams failed. Not fatal: supervision
    /// of the process continues.
    ErrorReading(String),
    /// A caller-supplied interception hook failed. Not fatal.
    ErrorHandling(String),
}

/// A recoverable registry-level error.
#[derive(Clone, Copy, Debug, PartialEq, Eq, Structural)]
pub enum ManagerError {
    /// The named process is not registered (returned by `stop_process` and
    /// by event delivery for a name that was never registered or was already
    /// removed).
    ProcessUnknown,
    /// The name is already registered (returned by `register`; the existing
    /// process is left untouched).
    NameInUse,
}

/// One notable happening in the life of a supervised process.
#[derive(Debug)]
pub enum ProcessEvent {
    /// The process exited, with the given exit code; 0 means success. A
    /// process produces exactly one terminal event, ever, as its last event.
    Exited(i32),
    /// A supervision failure; terminal exactly when the carried error is
    /// `ErrorWaiting`.
    Error(ProcessError),
    /// One bounded read from the given stream: the buffer read into and the
    /// number of bytes actually read. A read of length 0 is reported too.
    Output(HandleType, Vec<u8>, usize),
}

impl ProcessEvent {
    /// An event is well formed when an output chunk's reported length does
    /// not exceed the bytes actually carried, nor the chunk bound.
    pub open spec fn wf(self) -> bool {
        match self {
            ProcessEvent::Output(_, bytes, len) => len <= bytes@.len() && len <= MAX_LINE,
            _ => true,
        }
    }

    /// A terminal event: no further event for the same process may follow it.
    pub open spec fn terminal(self) -> bool {
        match self {
            ProcessEvent::Exited(_) => true,
            ProcessEvent::Error(e) => e matches ProcessError::ErrorWaiting(_),
            ProcessEvent::Output(_, _, _) => false,
        }
    }

    /// Runtime check of `wf`, for callers that build events of their own.
    pub fn is_wf(&self) -> (r: bool)
        ensures
            r == self.wf(),
    {
        match self {
            ProcessEvent::Output(_, bytes, len) => *len <= bytes.len() && *len <= MAX_LINE,
            _ => true,
        }
    }

    /// Runtime check of `terminal`.
    pub fn is_terminal(&self) -> (r: bool)
        ensures
            r == self.terminal(),
    {
        match self {
            ProcessEvent::Exited(_) => true,
            ProcessEvent::Error(e) => matches!(e, ProcessError::ErrorWaiting(_)),
            ProcessEvent::Output(_, _, _) => false,
        }
    }

    /// The tag of the event, as a short name.
    pub fn label(&self) -> (r: &'static str)
        ensures
            self matches ProcessEvent::Exited(_) ==> r@ == "Exited"@,
            self matches ProcessEvent::Error(_) ==> r@ == "Error"@,
            self matches ProcessEvent::Output(_, _, _) ==> r@ == "Output"@,
    {
        match self {
            ProcessEvent::Exited(_) => "Exited",
            ProcessEvent::Error(_) => "Error",
            ProcessEvent::Output(_, _, _) => "Output",
        }
    }
}

impl ProcessError {
    /// The tag of the error, as a short name.
    pub fn label(&self) -> (r: &'static str)
        ensures
            self matches ProcessError::ErrorWaiting(_) ==> r@ == "ErrorWaiting"@,
            self matches ProcessError::ErrorReading(_) ==> r@ == "ErrorReading"@,
            self matches ProcessError::ErrorHandling(_) ==> r@ == "ErrorHandling"@,
    {
        match self {
            ProcessError::ErrorWaiting(_) => "ErrorWaiting",
            ProcessError::ErrorReading(_) => "ErrorReading",
            ProcessError::ErrorHandling(_) => "ErrorHandling",
        }
    }

    /// The description of the underlying cause.
    pub fn cause(&self) -> (r: &String)
        ensures
            self matches ProcessError::ErrorWaiting(c) ==> r == c,
            self matches ProcessError::ErrorReading(c) ==> r == c,
            self matches ProcessError::ErrorHandling(c) ==> r == c,
    {
        match self {
            ProcessError::ErrorWaiting(c) => c,
            ProcessError::ErrorReading(c) => c,
            ProcessError::ErrorHandling(c) => c,
        }
    }
}

} // verus!

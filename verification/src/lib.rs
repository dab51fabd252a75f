//! A small process-supervision engine.
//!
//! The library is the verified core of a supervisor: a registry of named
//! processes, a per-process control block holding a FIFO queue of pending
//! events, the translation of poll results into events, and the director's
//! visitation pass that delivers events and retires finished entries.
//!
//! Everything that touches the operating system - spawning a child, reading
//! its streams, querying liveness, killing it, sleeping between ticks - lives
//! outside the library and hands in plain values: read outcomes, wait
//! outcomes, and names.

pub mod control;
pub mod director;
pub mod event;
pub mod manager;
pub mod tick;

pub use control::ProcessControl;
pub use director::exited_names;
pub use director::Delivery;
pub use event::HandleType;
pub use manager::ProcessEntry;
pub use manager::ProcessManager;
pub use tick::tick_events;
pub use tick::ReadOutcome;
pub use tick::WaitOutcome;
pub use event::ManagerError;
pub use event::ProcessError;
pub use event::ProcessEvent;
pub use event::MAX_LINE;

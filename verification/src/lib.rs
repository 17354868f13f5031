//! The deterministic core of a concurrent TCP port sweep: which ports a sweep
//! attempts, what one attempt reports, how the reports are gathered and
//! ordered, and the text that is printed. The network and the tasks live with
//! the caller, who hands in what each connection attempt gave.

pub mod args;
pub mod sweep;
pub mod text;

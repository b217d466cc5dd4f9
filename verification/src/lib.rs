//! Reports what each USB-C port of a Linux machine is doing: PD VDO decoding,
//! plain-English port summaries, charging diagnostics and text rendering.
pub mod pdvdo;
pub mod strings;
pub mod vendor;
pub mod snapshot;
pub mod summary;
pub mod sysfs;
pub mod order;
pub mod backend;
pub mod text;
pub mod json;
pub mod clock;
pub mod watch;

//! A 9P2000.L file server core that exports a host directory tree to a
//! virtual machine — path confinement, the fid table, per-operation
//! decisions, the wire format and paginated directory enumeration — and the
//! logic of a few platform daemons beside it: pixel-format conversions,
//! scheduler QoS settings, hibernate logging and resume decisions, and
//! pressure-stall waits.
pub mod error;
pub mod hiberlog;
pub mod image;
pub mod messages;
pub mod path;
pub mod protocol;
pub mod psi;
pub mod readdir;
pub mod resume;
pub mod schedqos;
pub mod server;
pub mod wire;

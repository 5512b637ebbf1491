//! Per-launch scratch directories for agent processes.
//!
//! Some agent binaries are self-extracting archives that unpack into the system
//! temp directory on every launch and only clean up on a GRACEFUL exit. A host
//! that ends agent processes by force never sees that cleanup run, and leaks up
//! to a gigabyte per launch. The lever is entirely on the host's side: a child
//! finds its temp directory through `TMP`, `TEMP` and `TMPDIR`. Pointing those at
//! a directory that the host owns turns an unbounded leak into a directory that
//! the host can delete.
//!
//! This library decides; it does not touch the disk, the environment or the
//! process table. Its functions take what those answered and say what is to be
//! done.

pub mod agent_env;
pub mod launch;
pub mod names;
pub mod ordering;
pub mod paths;
pub mod probe;
pub mod readonly;
pub mod registry;
pub mod removal;
pub mod settings;
pub mod sweep;
pub mod text;

//! The logic of `beyond-pg`, which boots a Postgres machine and keeps it running.
//!
//! Nothing here reads a file, opens a socket or starts a process. Each module says what is to be
//! done, as values that the program around it carries out, and takes what came back as values:
//!
//! - [`init`], [`mmds`]: the first process of a machine, and the configuration it is handed.
//! - [`boot`], [`config`], [`settings`], [`tls`], [`template`], [`http`]: setup before the server
//!   starts.
//! - [`supervisor`], [`scaler`], [`children`], [`handoff_bridge`], [`cert_watcher`]: the processes,
//!   how many poolers run, and how the supervisor itself is replaced.
//! - [`rpc`], [`vsock`], [`log_forwarder`]: what is said to the host.
//! - [`wal_proto`], [`wal_forwarder`], [`archive`]: the write-ahead log on its way out.
//! - [`pg`], [`sql`]: the server's tools and statements.
//! - [`text`], [`number`], [`bytes`]: what all of them are made of.
//!
//! Functions whose names begin with `law_` state what holds across several of the others.
pub mod archive;
pub mod boot;
pub mod bytes;
pub mod cert_watcher;
pub mod children;
pub mod config;
pub mod handoff_bridge;
pub mod http;
pub mod init;
pub mod log_forwarder;
pub mod mmds;
pub mod number;
pub mod pg;
pub mod rpc;
pub mod scaler;
pub mod settings;
pub mod sql;
pub mod supervisor;
pub mod template;
pub mod text;
pub mod tls;
pub mod values;
pub mod vsock;
pub mod wal_forwarder;
pub mod wal_proto;

//! Physical replication over the Postgres wire protocol.
pub mod lsn;
pub mod wire;
pub mod crypto;
pub mod scram;
pub mod connect;
pub mod replication;

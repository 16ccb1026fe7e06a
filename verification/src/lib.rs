//! The console log and the status of a process that runs in an enclave.
//!
//! The process writes to its streams; each is kept in a bounded log (`console`). Clients connect and
//! are sent what the logs hold and what is added to them, in frames (`frame`), in the order that
//! `connection` lays down. Other clients are told how the process fares (`status`).
pub mod byte_log_laws;
pub mod connection;
pub mod connection_laws;
pub mod console;
pub mod decimal;
pub mod decode_laws;
pub mod frame;
pub mod frame_laws;
pub mod log_laws;
pub mod log_view;
pub mod outside;
pub mod status;
pub mod stream_laws;

pub mod bytes_mut;
pub mod circ_buf;
pub mod signal;
pub mod watch;

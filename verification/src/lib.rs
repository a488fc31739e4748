//! Verified core of a serial-port monitor: transmit-input parsing, the
//! bounded terminal buffer with its rendering, port classification and the
//! decision logic of the connection worker and the user session.
pub mod text;
pub mod tx_parse;
pub mod timestamp;
pub mod serial_types;
pub mod render;
pub mod terminal_buffer;
pub mod ports;
pub mod worker;
pub mod device_info;
pub mod session;

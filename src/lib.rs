//! A verified implementation of a three-layer protocol for long-range sensor
//! telemetry: the binary codec (LEB128 integers, tagged packets), the
//! authenticated link layer with 4-bit session ids, and the application
//! sessions of the gateway and of the sensor boards.
//!
//! Every layer is a state machine without I/O: it is handed the frames that
//! the radio received and hands back the frames to transmit, so that a
//! driver owns the radio, the clock and the delays.

pub mod buffer;
pub mod codec;
pub mod encoding;
pub mod gateway_app;
pub mod gateway_link;
pub mod http;
pub mod link;
pub mod packet;
pub mod sensor_app;
pub mod sensor_link;
pub mod value_queue;

//! Control logic for a four-channel programmable electronic load.
//!
//! The library holds everything the firmware decides or computes: the
//! tag-length-value wire codec for the RPC messages, the request
//! dispatcher, the actuation sequence for the DAC/PWM/shutdown outputs,
//! the sensor decoding, and the models of the shared state store and the
//! single-slot command mailbox. Peripheral I/O and the task runtime live
//! outside the library and hand it plain values.

pub mod actuation;
pub mod coms;
pub mod rpc;
pub mod sampling;
pub mod state;
pub mod wire;

//! Host-side driver logic for the TI Stellaris/Tiva In-Circuit Debug
//! Interface (ICDI): GDB Remote Serial Protocol framing, binary-safe
//! escaping, response parsing, and chunked memory access, all stated
//! over an abstract bulk USB channel.

pub mod access_port;
pub mod channel;
pub mod codec;
pub mod device;
pub mod errors;
pub mod framer;
pub mod gdb_interface;
pub mod hla_interface;
pub mod probe;
pub mod response;
pub mod script;
pub mod usb;

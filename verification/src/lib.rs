//! The logic of a split keyboard and of the host tool that talks to it.
//!
//! Two controllers, one per hand, scan their key matrix; one sends its keys
//! to the other over a two-wire bus, and that one reports the keys of both to
//! the host. The host tool talks to the keyboard over a serial endpoint in
//! frames that mark their own end and carry a checksum.
//!
//! Everything here is computation on plain values: the tasks that wait on
//! endpoints, pins and timers live outside and call in.
//!
//! - [`proto`], [`key_update`], [`errors`], [`wire`]: the records and the
//!   bytes that carry them.
//! - [`proto_impl`]: checksum and escaping; frames in and out.
//! - [`serial`]: frames out of a byte stream, and the command server.
//! - [`host`]: the host's side of echo, upload and bootloader requests.
//! - [`key_matrix`], [`i2c`], [`key_hid`], [`key_map`], [`key_codes`]: from
//!   pressed keys to the keyboard report.
//! - [`logging`], [`panic_handler`]: the log ring and the buffers that outlive
//!   a crash.
//! - [`dfu`], [`uf2`]: firmware pages on the device, firmware containers on
//!   the host.
//! - [`neopixel`]: colours for the status light.

pub mod dfu;
pub mod errors;
pub mod host;
pub mod i2c;
pub mod key_codes;
pub mod key_hid;
pub mod key_map;
pub mod key_matrix;
pub mod key_update;
pub mod logging;
pub mod neopixel;
pub mod panic_handler;
pub mod proto;
pub mod proto_impl;
pub mod serial;
pub mod uf2;
pub mod wire;

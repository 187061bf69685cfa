//! Device side of the Android Debug Bridge: wire formats, stream and file-transfer state, and the
//! decisions that a USB gadget daemon takes between two system calls.

pub mod buffers;
pub mod bytes;
pub mod connection;
pub mod device_info;
pub mod dmi;
pub mod event;
pub mod ffs;
pub mod forward;
pub mod gadget;
pub mod guarantees;
pub mod message;
pub mod session;
pub mod stream;
pub mod sync;
pub mod sync_service;
pub mod text;
pub mod transfer;
pub mod usb;
pub mod user_data;

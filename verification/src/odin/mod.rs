//! The download-mode protocol of the device: commands, sessions, transfers, and what
//! is inspected of the images before they are sent.

pub mod connection;
pub mod error;
pub mod firmware;
pub mod lp;
pub mod lz4;
pub mod packets;
pub mod pit;
pub mod protocol;
pub mod replay;
pub mod session;
pub mod sparse;
pub mod transcript;
pub mod transfer;
pub mod usb;

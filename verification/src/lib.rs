//! The logic of a file and text bridge between a desktop computer and phones on
//! the same local network.

pub mod text;
pub mod decimal;
pub mod names;
pub mod clock;
pub mod records;
pub mod reply;
pub mod state;
pub mod outbox;
pub mod download;
pub mod events;
pub mod inbox;
pub mod upload;
pub mod chunks;
pub mod reassembly;
pub mod identity;
pub mod qr;
pub mod desktop;

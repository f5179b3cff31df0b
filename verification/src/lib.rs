//! The logic of a chat for the terminal, between the users of one local network.

pub mod bidi;
pub mod chat;
pub mod clock;
pub mod crypto;
pub mod download;
pub mod keyed;
pub mod order;
pub mod path;
pub mod peers;
pub mod picker;
pub mod protocol;
pub mod screen;
pub mod text;
pub mod transfer;

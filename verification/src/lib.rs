//! OSCAR (AIM) protocol library: FLAP framing, SNAC commands, TLV blocks,
//! the feedbag (buddy list) wire format, and the session state that the
//! server's pushes and the user's actions drive.

pub mod bytes;
pub mod flap;
pub mod text;
pub mod snac;
pub mod feedbag;
pub mod raw_feedbag;
pub mod server_address;
pub mod client;
pub mod chat_nav;
pub mod messaging;
pub mod chat;
pub mod session;
pub mod login;
pub mod snapshot;

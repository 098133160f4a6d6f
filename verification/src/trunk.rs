//! The trunk host: SIP messages, dialogs and peers.

pub mod config;
pub mod dialog;
pub mod dialog_laws;
pub mod peer_laws;
pub mod sip_laws;
pub mod sip_msg;
pub mod util;

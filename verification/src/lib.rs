//! Verified core of an HP2 UDP hole-punching tool: session codes, authenticated
//! control packets, STUN messages and the state machines that drive them.

pub mod address;
pub mod attribute_laws;
pub mod bytes;
pub mod code_laws;
pub mod command_laws;
pub mod consent_laws;
pub mod console;
pub mod console_laws;
pub mod crypto;
pub mod datagram_laws;
pub mod discovery;
pub mod discovery_laws;
pub mod lines;
pub mod meeting_laws;
pub mod pass_laws;
pub mod path_laws;
pub mod pending;
pub mod protocol;
pub mod protocol_laws;
pub mod refusal_laws;
pub mod runs;
pub mod search_laws;
pub mod session;
pub mod session_laws;
pub mod session_model;
pub mod stun;
pub mod stun_laws;
pub mod text;
pub mod text_laws;
pub mod timer_laws;
pub mod v6_laws;
pub mod wire_laws;

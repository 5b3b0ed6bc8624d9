//! Verified core of a headless EverQuest (Titanium) network client: the wire
//! formats of the login, world and zone protocols, the reliable-UDP session
//! state machine, the keyed CRC that guards datagrams, the null-key DES block
//! transform of login credentials, and the zone bookkeeping of spawns.
pub mod bytes;
pub mod crc;
pub mod opcodes;
pub mod packets;
pub mod udp_engine;
pub mod in_order;
pub mod session_laws;
pub mod crypto;
pub mod text;
pub mod zone_state;
pub mod login_client;

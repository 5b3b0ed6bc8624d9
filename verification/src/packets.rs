//! The wire records of the protocol layers, each with its decoding from and
//! encoding to bytes.
pub mod session;
pub mod zone;
pub mod login;
pub mod world;
pub mod combat;
pub mod server_list;

pub use session::{
    ReliableStreamHeader, ReliableStreamConnect, ReliableStreamConnectReply,
    ReliableStreamReliableHeader, ReliableFragmentHeader,
};
pub use zone::{sign_extend, ClientTarget, ClientUpdate, ClientUpdateClient, SpawnStruct, PlayerProfile};
pub use login::{
    LoginBaseMessage, LoginBaseReplyMessage, LoginHandShakeReply, SessionReady, PlayerLoginReply,
    PlayEverquestRequest, PlayEverquestResponse, ServerListRequest,
};
pub use world::{
    TintStruct, TintProfile, TextureStruct, TextureProfile, TitaniumCharInfo, EnterWorldRequest,
    LoginInfo, ZoneEntry, ClientZoneEntry,
};
pub use combat::{CombatDamage, Action};
pub use server_list::{LoginClientServerData, ServerListReply};
pub use crate::opcodes::{ReliableOp, LoginAppOp, WorldAppOp, ZoneAppOp};

//! Opcode sets of the protocol layers: the reliable-stream session opcodes and
//! the application opcodes of the login, world and zone servers, each with its
//! wire value and the decoding of a wire value back into the opcode.
use vstd::prelude::*;

verus! {

/// Reliable-stream (session layer) opcodes, the second byte of every datagram
/// whose first byte is zero.
#[derive(Debug, PartialEq, Eq, Structural, Copy, Clone)]
pub enum ReliableOp {
    Padding,
    SessionRequest,
    SessionResponse,
    Combined,
    SessionDisconnect,
    KeepAlive,
    Packet,
    Fragment,
    Ack,
    AppCombined,
    OutOfSession,
}

impl ReliableOp {
    /// The wire value of the opcode.
    pub open spec fn spec_code(self) -> u8 {
        match self {
            ReliableOp::Padding => 0x00,
            ReliableOp::SessionRequest => 0x01,
            ReliableOp::SessionResponse => 0x02,
            ReliableOp::Combined => 0x03,
            ReliableOp::SessionDisconnect => 0x05,
            ReliableOp::KeepAlive => 0x06,
            ReliableOp::Packet => 0x09,
            ReliableOp::Fragment => 0x0D,
            ReliableOp::Ack => 0x15,
            ReliableOp::AppCombined => 0x19,
            ReliableOp::OutOfSession => 0x1D,
        }
    }

    /// The wire value of the opcode.
    #[verifier::when_used_as_spec(spec_code)]
    pub fn code(self) -> (r: u8)
        ensures
            r == self.spec_code(),
    {
        match self {
            ReliableOp::Padding => 0x00,
            ReliableOp::SessionRequest => 0x01,
            ReliableOp::SessionResponse => 0x02,
            ReliableOp::Combined => 0x03,
            ReliableOp::SessionDisconnect => 0x05,
            ReliableOp::KeepAlive => 0x06,
            ReliableOp::Packet => 0x09,
            ReliableOp::Fragment => 0x0D,
            ReliableOp::Ack => 0x15,
            ReliableOp::AppCombined => 0x19,
            ReliableOp::OutOfSession => 0x1D,
        }
    }

    /// The opcode whose wire value is `c`, if there is one.
    pub fn from_code(c: u8) -> (r: Option<ReliableOp>)
        ensures
            match r {
                Some(op) => op.spec_code() == c,
                None => forall|op: ReliableOp| op.spec_code() != c,
            },
    {
        if c == 0x00 {
            Some(ReliableOp::Padding)
        } else if c == 0x01 {
            Some(ReliableOp::SessionRequest)
        } else if c == 0x02 {
            Some(ReliableOp::SessionResponse)
        } else if c == 0x03 {
            Some(ReliableOp::Combined)
        } else if c == 0x05 {
            Some(ReliableOp::SessionDisconnect)
        } else if c == 0x06 {
            Some(ReliableOp::KeepAlive)
        } else if c == 0x09 {
            Some(ReliableOp::Packet)
        } else if c == 0x0D {
            Some(ReliableOp::Fragment)
        } else if c == 0x15 {
            Some(ReliableOp::Ack)
        } else if c == 0x19 {
            Some(ReliableOp::AppCombined)
        } else if c == 0x1D {
            Some(ReliableOp::OutOfSession)
        } else {
            None
        }
    }
}

/// Distinct reliable opcodes have distinct wire values, so decoding a wire
/// value gives back the opcode that was encoded.
pub proof fn reliable_op_code_injective(a: ReliableOp, b: ReliableOp)
    ensures
        a.spec_code() == b.spec_code() ==> a == b,
{
}

/// Application opcodes of the login server (Titanium).
#[derive(Debug, PartialEq, Eq, Structural, Copy, Clone)]
pub enum LoginAppOp {
    SessionReady,
    Login,
    ServerListRequest,
    PlayEverquestRequest,
    PlayEverquestResponse,
    ChatMessage,
    LoginAccepted,
    ServerListResponse,
}

impl LoginAppOp {
    /// The wire value of the opcode.
    pub open spec fn spec_code(self) -> u16 {
        match self {
            LoginAppOp::SessionReady => 0x0001,
            LoginAppOp::Login => 0x0002,
            LoginAppOp::ServerListRequest => 0x0004,
            LoginAppOp::PlayEverquestRequest => 0x000d,
            LoginAppOp::PlayEverquestResponse => 0x0021,
            LoginAppOp::ChatMessage => 0x0016,
            LoginAppOp::LoginAccepted => 0x0017,
            LoginAppOp::ServerListResponse => 0x0018,
        }
    }

    /// The wire value of the opcode.
    #[verifier::when_used_as_spec(spec_code)]
    pub fn code(self) -> (r: u16)
        ensures
            r == self.spec_code(),
    {
        match self {
            LoginAppOp::SessionReady => 0x0001,
            LoginAppOp::Login => 0x0002,
            LoginAppOp::ServerListRequest => 0x0004,
            LoginAppOp::PlayEverquestRequest => 0x000d,
            LoginAppOp::PlayEverquestResponse => 0x0021,
            LoginAppOp::ChatMessage => 0x0016,
            LoginAppOp::LoginAccepted => 0x0017,
            LoginAppOp::ServerListResponse => 0x0018,
        }
    }

    /// The opcode whose wire value is `c`, if there is one.
    pub fn from_code(c: u16) -> (r: Option<LoginAppOp>)
        ensures
            match r {
                Some(op) => op.spec_code() == c,
                None => forall|op: LoginAppOp| op.spec_code() != c,
            },
    {
        if c == 0x0001 {
            Some(LoginAppOp::SessionReady)
        } else if c == 0x0002 {
            Some(LoginAppOp::Login)
        } else if c == 0x0004 {
            Some(LoginAppOp::ServerListRequest)
        } else if c == 0x000d {
            Some(LoginAppOp::PlayEverquestRequest)
        } else if c == 0x0021 {
            Some(LoginAppOp::PlayEverquestResponse)
        } else if c == 0x0016 {
            Some(LoginAppOp::ChatMessage)
        } else if c == 0x0017 {
            Some(LoginAppOp::LoginAccepted)
        } else if c == 0x0018 {
            Some(LoginAppOp::ServerListResponse)
        } else {
            None
        }
    }
}

/// Distinct login opcodes have distinct wire values.
pub proof fn login_app_op_code_injective(a: LoginAppOp, b: LoginAppOp)
    ensures
        a.spec_code() == b.spec_code() ==> a == b,
{
}

/// Application opcodes of the world server (Titanium).
#[derive(Debug, PartialEq, Eq, Structural, Copy, Clone)]
pub enum WorldAppOp {
    SendLoginInfo,
    ApproveWorld,
    LogServer,
    SendCharInfo,
    SendCharInfoNew,
    EnterWorld,
    PostEnterWorld,
    ZoneEntry,
    ZoneServerInfo,
}

impl WorldAppOp {
    /// The wire value of the opcode.
    pub open spec fn spec_code(self) -> u16 {
        match self {
            WorldAppOp::SendLoginInfo => 0x4dd0,
            WorldAppOp::ApproveWorld => 0x3c25,
            WorldAppOp::LogServer => 0x0fa6,
            WorldAppOp::SendCharInfo => 0x6957,
            WorldAppOp::SendCharInfoNew => 0x4513,
            WorldAppOp::EnterWorld => 0x7cba,
            WorldAppOp::PostEnterWorld => 0x52a4,
            WorldAppOp::ZoneEntry => 0x7213,
            WorldAppOp::ZoneServerInfo => 0x61b6,
        }
    }

    /// The wire value of the opcode.
    #[verifier::when_used_as_spec(spec_code)]
    pub fn code(self) -> (r: u16)
        ensures
            r == self.spec_code(),
    {
        match self {
            WorldAppOp::SendLoginInfo => 0x4dd0,
            WorldAppOp::ApproveWorld => 0x3c25,
            WorldAppOp::LogServer => 0x0fa6,
            WorldAppOp::SendCharInfo => 0x6957,
            WorldAppOp::SendCharInfoNew => 0x4513,
            WorldAppOp::EnterWorld => 0x7cba,
            WorldAppOp::PostEnterWorld => 0x52a4,
            WorldAppOp::ZoneEntry => 0x7213,
            WorldAppOp::ZoneServerInfo => 0x61b6,
        }
    }

    /// The opcode whose wire value is `c`, if there is one.
    pub fn from_code(c: u16) -> (r: Option<WorldAppOp>)
        ensures
            match r {
                Some(op) => op.spec_code() == c,
                None => forall|op: WorldAppOp| op.spec_code() != c,
            },
    {
        if c == 0x4dd0 {
            Some(WorldAppOp::SendLoginInfo)
        } else if c == 0x3c25 {
            Some(WorldAppOp::ApproveWorld)
        } else if c == 0x0fa6 {
            Some(WorldAppOp::LogServer)
        } else if c == 0x6957 {
            Some(WorldAppOp::SendCharInfo)
        } else if c == 0x4513 {
            Some(WorldAppOp::SendCharInfoNew)
        } else if c == 0x7cba {
            Some(WorldAppOp::EnterWorld)
        } else if c == 0x52a4 {
            Some(WorldAppOp::PostEnterWorld)
        } else if c == 0x7213 {
            Some(WorldAppOp::ZoneEntry)
        } else if c == 0x61b6 {
            Some(WorldAppOp::ZoneServerInfo)
        } else {
            None
        }
    }
}

/// Distinct world opcodes have distinct wire values.
pub proof fn world_app_op_code_injective(a: WorldAppOp, b: WorldAppOp)
    ensures
        a.spec_code() == b.spec_code() ==> a == b,
{
}

/// Application opcodes of the zone server.
#[derive(Debug, PartialEq, Eq, Structural, Copy, Clone)]
pub enum ZoneAppOp {
    ZoneEntry,
    PlayerProfile,
    NewZone,
    ItemData,
    ReqNewZone,
    ReqClientSpawn,
    ClientReady,
    SendExpZonein,
    SpawnDoor,
    ZoneSpawns,
    TimeOfDay,
    SetServerFilter,
    SpawnAppearance,
    SendAAStats,
    SendAATable,
    ZoneServerInfo,
    Action,
    Damage,
    AutoAttack,
}

impl ZoneAppOp {
    /// The wire value of the opcode.
    pub open spec fn spec_code(self) -> u16 {
        match self {
            ZoneAppOp::ZoneEntry => 0x7213,
            ZoneAppOp::PlayerProfile => 0x75df,
            ZoneAppOp::NewZone => 0x0920,
            ZoneAppOp::ItemData => 0x5394,
            ZoneAppOp::ReqNewZone => 0x7ac5,
            ZoneAppOp::ReqClientSpawn => 0x0322,
            ZoneAppOp::ClientReady => 0x345d,
            ZoneAppOp::SendExpZonein => 0x0587,
            ZoneAppOp::SpawnDoor => 0x4c24,
            ZoneAppOp::ZoneSpawns => 0x2e78,
            ZoneAppOp::TimeOfDay => 0x1580,
            ZoneAppOp::SetServerFilter => 0x6563,
            ZoneAppOp::SpawnAppearance => 0x7c32,
            ZoneAppOp::SendAAStats => 0x5996,
            ZoneAppOp::SendAATable => 0x367d,
            ZoneAppOp::ZoneServerInfo => 0x61b6,
            ZoneAppOp::Action => 0x497c,
            ZoneAppOp::Damage => 0x5c78,
            ZoneAppOp::AutoAttack => 0x5e55,
        }
    }

    /// The wire value of the opcode.
    #[verifier::when_used_as_spec(spec_code)]
    pub fn code(self) -> (r: u16)
        ensures
            r == self.spec_code(),
    {
        match self {
            ZoneAppOp::ZoneEntry => 0x7213,
            ZoneAppOp::PlayerProfile => 0x75df,
            ZoneAppOp::NewZone => 0x0920,
            ZoneAppOp::ItemData => 0x5394,
            ZoneAppOp::ReqNewZone => 0x7ac5,
            ZoneAppOp::ReqClientSpawn => 0x0322,
            ZoneAppOp::ClientReady => 0x345d,
            ZoneAppOp::SendExpZonein => 0x0587,
            ZoneAppOp::SpawnDoor => 0x4c24,
            ZoneAppOp::ZoneSpawns => 0x2e78,
            ZoneAppOp::TimeOfDay => 0x1580,
            ZoneAppOp::SetServerFilter => 0x6563,
            ZoneAppOp::SpawnAppearance => 0x7c32,
            ZoneAppOp::SendAAStats => 0x5996,
            ZoneAppOp::SendAATable => 0x367d,
            ZoneAppOp::ZoneServerInfo => 0x61b6,
            ZoneAppOp::Action => 0x497c,
            ZoneAppOp::Damage => 0x5c78,
            ZoneAppOp::AutoAttack => 0x5e55,
        }
    }

    /// The opcode whose wire value is `c`, if there is one.
    pub fn from_code(c: u16) -> (r: Option<ZoneAppOp>)
        ensures
            match r {
                Some(op) => op.spec_code() == c,
                None => forall|op: ZoneAppOp| op.spec_code() != c,
            },
    {
        if c == 0x7213 {
            Some(ZoneAppOp::ZoneEntry)
        } else if c == 0x75df {
            Some(ZoneAppOp::PlayerProfile)
        } else if c == 0x0920 {
            Some(ZoneAppOp::NewZone)
        } else if c == 0x5394 {
            Some(ZoneAppOp::ItemData)
        } else if c == 0x7ac5 {
            Some(ZoneAppOp::ReqNewZone)
        } else if c == 0x0322 {
            Some(ZoneAppOp::ReqClientSpawn)
        } else if c == 0x345d {
            Some(ZoneAppOp::ClientReady)
        } else if c == 0x0587 {
            Some(ZoneAppOp::SendExpZonein)
        } else if c == 0x4c24 {
            Some(ZoneAppOp::SpawnDoor)
        } else if c == 0x2e78 {
            Some(ZoneAppOp::ZoneSpawns)
        } else if c == 0x1580 {
            Some(ZoneAppOp::TimeOfDay)
        } else if c == 0x6563 {
            Some(ZoneAppOp::SetServerFilter)
        } else if c == 0x7c32 {
            Some(ZoneAppOp::SpawnAppearance)
        } else if c == 0x5996 {
            Some(ZoneAppOp::SendAAStats)
        } else if c == 0x367d {
            Some(ZoneAppOp::SendAATable)
        } else if c == 0x61b6 {
            Some(ZoneAppOp::ZoneServerInfo)
        } else if c == 0x497c {
            Some(ZoneAppOp::Action)
        } else if c == 0x5c78 {
            Some(ZoneAppOp::Damage)
        } else if c == 0x5e55 {
            Some(ZoneAppOp::AutoAttack)
        } else {
            None
        }
    }
}

/// Distinct zone opcodes have distinct wire values.
pub proof fn zone_app_op_code_injective(a: ZoneAppOp, b: ZoneAppOp)
    ensures
        a.spec_code() == b.spec_code() ==> a == b,
{
}

} // verus!

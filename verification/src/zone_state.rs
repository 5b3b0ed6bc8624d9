//! What the client knows of the zone it is in: the spawns by id, which of
//! them is the player, and the player's own record and profile.
use vstd::prelude::*;
use vstd::utf8::encode_utf8;
use std::collections::HashMap;
use crate::packets::zone::PlayerProfile;

verus! {

broadcast use vstd::std_specs::hash::group_hash_axioms;

/// One entity of the zone (player, NPC, ...). The position is kept as the
/// bit patterns of its `f32` coordinates and heading.
pub struct Spawn {
    pub id: u32,
    pub name: String,
    pub level: u8,
    pub race: u16,
    pub class: u8,
    pub hp: u8,
    pub max_hp: u8,
    pub x_bits: u32,
    pub y_bits: u32,
    pub z_bits: u32,
    pub heading_bits: u32,
    pub is_npc: bool,
}

/// A position: the bit patterns of the `f32` x, y, z and heading.
#[derive(Debug, PartialEq, Eq, Structural, Clone, Copy)]
pub struct PositionBits {
    pub x_bits: u32,
    pub y_bits: u32,
    pub z_bits: u32,
    pub heading_bits: u32,
}

impl Spawn {
    pub open spec fn position(&self) -> PositionBits {
        PositionBits {
            x_bits: self.x_bits,
            y_bits: self.y_bits,
            z_bits: self.z_bits,
            heading_bits: self.heading_bits,
        }
    }

    /// `self` equals `other` but for its id and position.
    pub open spec fn same_but_place(&self, other: &Spawn) -> bool {
        &&& self.name == other.name
        &&& self.level == other.level
        &&& self.race == other.race
        &&& self.class == other.class
        &&& self.hp == other.hp
        &&& self.max_hp == other.max_hp
        &&& self.is_npc == other.is_npc
    }
}

/// ASCII lower case of a byte.
pub open spec fn ascii_lower(c: u8) -> u8 {
    if 0x41 <= c <= 0x5A {
        (c + 0x20) as u8
    } else {
        c
    }
}

/// `a` and `b` are equal ignoring ASCII case.
pub open spec fn eq_ignore_ascii_case(a: Seq<u8>, b: Seq<u8>) -> bool {
    &&& a.len() == b.len()
    &&& forall|i: int| 0 <= i < a.len() ==> ascii_lower(#[trigger] a[i]) == ascii_lower(b[i])
}

/// The UTF-8 bytes of a string.
pub open spec fn utf8_of(s: &String) -> Seq<u8> {
    encode_utf8(s@)
}

fn lower_byte(c: u8) -> (r: u8)
    ensures
        r == ascii_lower(c),
{
    if c >= 0x41 && c <= 0x5A {
        c + 0x20
    } else {
        c
    }
}

/// Whether `a` and `b` are equal ignoring ASCII case.
pub fn names_match(a: &String, b: &String) -> (r: bool)
    ensures
        r == eq_ignore_ascii_case(utf8_of(a), utf8_of(b)),
{
    let x = a.as_str().as_bytes();
    let y = b.as_str().as_bytes();
    if x.len() != y.len() {
        return false;
    }
    let mut i: usize = 0;
    while i < x.len()
        invariant
            i <= x@.len(),
            x@.len() == y@.len(),
            x@ == utf8_of(a),
            y@ == utf8_of(b),
            forall|k: int| 0 <= k < i ==> ascii_lower(#[trigger] x@[k]) == ascii_lower(y@[k]),
        decreases x@.len() - i,
    {
        if lower_byte(x[i]) != lower_byte(y[i]) {
            return false;
        }
        i = i + 1;
    }
    true
}

/// The state of the zone the client is in.
pub struct ZoneState {
    pub zone_id: u32,
    pub zone_name: String,
    /// Name of the player's character, used to recognise its spawn.
    pub my_name: String,
    /// The player's spawn id, once recognised.
    pub my_spawn_id: Option<u32>,
    pub player: Option<Spawn>,
    pub spawns: HashMap<u32, Spawn>,
    pub profile: Option<PlayerProfile>,
}

impl ZoneState {
    /// An empty zone: no name, no spawns, no player.
    pub fn new() -> (r: ZoneState)
        ensures
            r.zone_id == 0,
            r.zone_name@ == Seq::<char>::empty(),
            r.my_name@ == Seq::<char>::empty(),
            r.my_spawn_id is None,
            r.player is None,
            r.spawns@ == Map::<u32, Spawn>::empty(),
            r.profile is None,
    {
        ZoneState {
            zone_id: 0,
            zone_name: String::new(),
            my_name: String::new(),
            my_spawn_id: None,
            player: None,
            spawns: HashMap::new(),
            profile: None,
        }
    }

    /// Sets the name of the player's character.
    pub fn set_my_name(&mut self, name: String)
        ensures
            final(self).my_name == name,
            final(self).zone_id == old(self).zone_id,
            final(self).zone_name == old(self).zone_name,
            final(self).my_spawn_id == old(self).my_spawn_id,
            final(self).player == old(self).player,
            final(self).spawns@ == old(self).spawns@,
            final(self).profile == old(self).profile,
    {
        self.my_name = name;
    }

    /// Moves the player's record, if there is one, to the given position.
    pub fn update_player_pos(&mut self, x_bits: u32, y_bits: u32, z_bits: u32, heading_bits: u32)
        ensures
            final(self).player is Some <==> old(self).player is Some,
            old(self).player matches Some(p) ==> {
                let q = final(self).player->0;
                &&& q.position() == (PositionBits { x_bits, y_bits, z_bits, heading_bits })
                &&& q.id == p.id
                &&& q.same_but_place(&p)
            },
            final(self).zone_id == old(self).zone_id,
            final(self).zone_name == old(self).zone_name,
            final(self).my_name == old(self).my_name,
            final(self).my_spawn_id == old(self).my_spawn_id,
            final(self).spawns@ == old(self).spawns@,
            final(self).profile == old(self).profile,
    {
        match &mut self.player {
            Some(player) => {
                player.x_bits = x_bits;
                player.y_bits = y_bits;
                player.z_bits = z_bits;
                player.heading_bits = heading_bits;
            },
            None => {},
        }
    }

    /// Records `spawn` under its id, replacing any earlier record. When the
    /// player's name is known and `spawn` carries it (ignoring ASCII case),
    /// `spawn` is the player: its id becomes the player's spawn id, and the
    /// player's record, if there is one, takes its id and position.
    pub fn add_or_update_spawn(&mut self, spawn: Spawn)
        ensures
            final(self).spawns@ == old(self).spawns@.insert(spawn.id, spawn),
            ({
                let is_me = old(self).my_name@.len() > 0 && eq_ignore_ascii_case(
                    utf8_of(&spawn.name),
                    utf8_of(&old(self).my_name),
                );
                &&& final(self).my_spawn_id == (if is_me {
                    Some(spawn.id)
                } else {
                    old(self).my_spawn_id
                })
                &&& final(self).player is Some <==> old(self).player is Some
                &&& old(self).player matches Some(p) ==> {
                    let q = final(self).player->0;
                    &&& q.same_but_place(&p)
                    &&& if is_me {
                        q.id == spawn.id && q.position() == spawn.position()
                    } else {
                        q.id == p.id && q.position() == p.position()
                    }
                }
            }),
            final(self).zone_id == old(self).zone_id,
            final(self).zone_name == old(self).zone_name,
            final(self).my_name == old(self).my_name,
            final(self).profile == old(self).profile,
    {
        let mine = self.my_name.as_str();
        let is_me = !mine.is_empty() && names_match(&spawn.name, &self.my_name);
        if is_me {
            self.my_spawn_id = Some(spawn.id);
            match &mut self.player {
                Some(player) => {
                    player.id = spawn.id;
                    player.x_bits = spawn.x_bits;
                    player.y_bits = spawn.y_bits;
                    player.z_bits = spawn.z_bits;
                    player.heading_bits = spawn.heading_bits;
                },
                None => {},
            }
        }
        self.spawns.insert(spawn.id, spawn);
    }

    /// Moves the spawn `spawn_id`, if recorded, to the given position; when
    /// it is the player's spawn, the player's record moves too.
    pub fn update_spawn_pos(&mut self, spawn_id: u32, x_bits: u32, y_bits: u32, z_bits: u32, heading_bits: u32)
        ensures
            ({
                let pos = PositionBits { x_bits, y_bits, z_bits, heading_bits };
                let is_me = old(self).my_spawn_id == Some(spawn_id);
                &&& final(self).spawns@.dom() == old(self).spawns@.dom()
                &&& forall|k: u32|
                    k != spawn_id && #[trigger] old(self).spawns@.contains_key(k)
                        ==> final(self).spawns@[k] == old(self).spawns@[k]
                &&& old(self).spawns@.contains_key(spawn_id) ==> {
                    let s = final(self).spawns@[spawn_id];
                    let o = old(self).spawns@[spawn_id];
                    &&& s.position() == pos
                    &&& s.id == o.id
                    &&& s.same_but_place(&o)
                }
                &&& final(self).player is Some <==> old(self).player is Some
                &&& old(self).player matches Some(p) ==> {
                    let q = final(self).player->0;
                    &&& q.id == p.id
                    &&& q.same_but_place(&p)
                    &&& q.position() == (if is_me {
                        pos
                    } else {
                        p.position()
                    })
                }
            }),
            final(self).zone_id == old(self).zone_id,
            final(self).zone_name == old(self).zone_name,
            final(self).my_name == old(self).my_name,
            final(self).my_spawn_id == old(self).my_spawn_id,
            final(self).profile == old(self).profile,
    {
        match self.my_spawn_id {
            Some(my_id) => {
                if spawn_id == my_id {
                    self.update_player_pos(x_bits, y_bits, z_bits, heading_bits);
                }
            },
            None => {},
        }
        let removed = self.spawns.remove(&spawn_id);
        match removed {
            Some(mut spawn) => {
                spawn.x_bits = x_bits;
                spawn.y_bits = y_bits;
                spawn.z_bits = z_bits;
                spawn.heading_bits = heading_bits;
                self.spawns.insert(spawn_id, spawn);
            },
            None => {},
        }
    }

    /// Forgets the spawn `id`.
    pub fn remove_spawn(&mut self, id: u32)
        ensures
            final(self).spawns@ == old(self).spawns@.remove(id),
            final(self).zone_id == old(self).zone_id,
            final(self).zone_name == old(self).zone_name,
            final(self).my_name == old(self).my_name,
            final(self).my_spawn_id == old(self).my_spawn_id,
            final(self).player == old(self).player,
            final(self).profile == old(self).profile,
    {
        self.spawns.remove(&id);
    }
}

} // verus!

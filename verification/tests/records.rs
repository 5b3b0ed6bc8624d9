use eqclient::packets::{
    ClientTarget, ClientUpdate, ClientUpdateClient, LoginBaseMessage, LoginBaseReplyMessage,
    LoginClientServerData, LoginHandShakeReply, LoginInfo, PlayerLoginReply, PlayerProfile,
    ReliableFragmentHeader, ReliableStreamReliableHeader, ServerListReply, SessionReady,
    SpawnStruct, TitaniumCharInfo, ZoneEntry,
};
use eqclient::packets::zone::sign_extend;

#[test]
fn sign_extend_values() {
    assert_eq!(sign_extend(0x7FFFF, 19), -1);
    assert_eq!(sign_extend(0x3FFFF, 19), 0x3FFFF);
    assert_eq!(sign_extend(0x40000, 19), -0x40000);
    assert_eq!(sign_extend(0xFFFF_FFFF, 32), -1);
    assert_eq!(sign_extend(1, 1), -1);
    assert_eq!(sign_extend(0x12345, 8), 0x45);
}

#[test]
fn client_target_bytes() {
    assert_eq!(ClientTarget { target_id: 0x0A0B0C0D }.to_bytes(), vec![0x0D, 0x0C, 0x0B, 0x0A]);
}

#[test]
fn reliable_headers_are_big_endian() {
    let h = ReliableStreamReliableHeader { zero: 0, opcode: 9, sequence: 0x0102 };
    assert_eq!(h.write(), vec![0, 9, 1, 2]);
    let f = ReliableFragmentHeader { zero: 0, opcode: 0x0D, sequence: 3, total_size: 0x01020304 };
    assert_eq!(f.write(), vec![0, 0x0D, 0, 3, 1, 2, 3, 4]);
    assert_eq!(ReliableFragmentHeader::read(&f.write()).unwrap().total_size, 0x01020304);
    assert!(ReliableFragmentHeader::read(&[0, 1, 2]).is_none());
}

#[test]
fn login_base_message_layout() {
    let m = LoginBaseMessage { sequence: 3, compressed: 0, encrypt_type: -2, unk3: -1 };
    let b = m.write();
    assert_eq!(b, vec![3, 0, 0, 0, 0, 0xFE, 0xFF, 0xFF, 0xFF, 0xFF]);
    let r = LoginBaseMessage::read(&b).unwrap();
    assert_eq!((r.sequence, r.compressed, r.encrypt_type, r.unk3), (3, 0, -2, -1));
    assert!(LoginBaseMessage::read(&b[..9]).is_none());
}

#[test]
fn handshake_reply_nests_the_base_header() {
    let m = LoginHandShakeReply {
        base_header: LoginBaseMessage { sequence: 2, compressed: 0, encrypt_type: 0, unk3: 0 },
        success: 1,
        error_str_id: 101,
    };
    let b = m.write();
    assert_eq!(b.len(), 15);
    let r = LoginHandShakeReply::read(&b).unwrap();
    assert_eq!(r.base_header.sequence, 2);
    assert_eq!(r.success, 1);
    assert_eq!(r.error_str_id, 101);
    assert_eq!(SessionReady {}.write(), Vec::<u8>::new());
}

#[test]
fn player_login_reply_key_offset() {
    let mut b = vec![0u8; 60];
    b[12..23].copy_from_slice(b"ABCDEFGHIJK");
    b[8] = 0x2A;
    let r = PlayerLoginReply::read(&b).unwrap();
    assert_eq!(&r.key, b"ABCDEFGHIJK");
    assert_eq!(r.lsid, 0x2A);
    assert_eq!(r.write(), b);
}

#[test]
fn titanium_char_info_roundtrip_bytes() {
    let mut b = vec![0u8; 1704];
    for (i, x) in b.iter_mut().enumerate() {
        *x = (i % 251) as u8;
    }
    let r = TitaniumCharInfo::read(&b).unwrap();
    assert_eq!(r.race[0], u32::from_le_bytes([0, 1, 2, 3]));
    assert_eq!(r.names[0][0], b[1024]);
    assert_eq!(r.level[9], b[1703]);
    assert_eq!(r.write(), b);
    assert!(TitaniumCharInfo::read(&b[..1703]).is_none());
}

#[test]
fn world_records_with_counted_vectors() {
    let mut b = vec![0u8; 488];
    b[188] = 1;
    let li = LoginInfo::read(&b).unwrap();
    assert_eq!(li.zoning, 1);
    assert_eq!(li.login_info.len(), 64);
    assert_eq!(li.unknown189.len(), 299);
    assert_eq!(li.write(), b);
    let mut z = vec![0u8; 276];
    z[272..276].copy_from_slice(&7000u32.to_le_bytes());
    z[216..220].copy_from_slice(&202u32.to_le_bytes());
    let ze = ZoneEntry::read(&z).unwrap();
    assert_eq!(ze.port, 7000);
    assert_eq!(ze.zone_id, 202);
}

fn server(name: &str) -> LoginClientServerData {
    LoginClientServerData {
        ip: "10.0.0.1".to_string(),
        server_type: 1,
        server_id: 42,
        server_name: name.to_string(),
        country_code: "US".to_string(),
        language_code: "en".to_string(),
        server_status: 0,
        player_count: -1,
    }
}

#[test]
fn server_list_reply_roundtrip_bytes() {
    let reply = ServerListReply {
        base_header: LoginBaseMessage { sequence: 4, compressed: 0, encrypt_type: 0, unk3: 0 },
        base_reply: LoginBaseReplyMessage { success: 1, error_str_id: 0, unknown: 0 },
        server_count: 2,
        servers: vec![server("Alpha"), server("Beta")],
    };
    let b = reply.write();
    let r = ServerListReply::read(&b).unwrap();
    assert_eq!(r.server_count, 2);
    assert_eq!(r.servers.len(), 2);
    assert_eq!(r.servers[1].server_name, "Beta");
    assert_eq!(r.servers[0].ip, "10.0.0.1");
    assert_eq!(r.servers[0].player_count, -1);
}

#[test]
fn server_list_rejects_negative_count_and_truncation() {
    let mut b = vec![0u8; 20];
    b[16..20].copy_from_slice(&(-1i32).to_le_bytes());
    assert!(ServerListReply::read(&b).is_none());
    b[16..20].copy_from_slice(&1i32.to_le_bytes());
    b.extend_from_slice(b"10.0.0.1");
    assert!(ServerListReply::read(&b).is_none());
}

#[test]
fn server_name_invalid_utf8_is_replaced() {
    let mut b = vec![0xFFu8, 0];
    b.extend_from_slice(&[0; 8]);
    b.extend_from_slice(b"x\0y\0z\0");
    b.extend_from_slice(&[0; 8]);
    let (r, end) = LoginClientServerData::read_at(&b, 0).unwrap();
    assert_eq!(r.ip, "\u{FFFD}");
    assert_eq!(r.server_name, "x");
    assert_eq!(end, b.len());
}

#[test]
fn client_update_decodes_signed_coordinates() {
    let c = ClientUpdateClient {
        spawn_id: 1,
        sequence: 77,
        y8: -8,
        delta_z8: 0,
        delta_x8: 3,
        delta_y8: -1,
        animation: 5,
        delta_heading: 2,
        x8: 800,
        z8: -0x40000,
        heading: 0x1FFF,
    };
    let b = c.to_bytes();
    assert_eq!(b.len(), 24);
    assert_eq!(&b[0..4], &[1, 0, 77, 0]);
    let mut pos: usize = 2;
    let u = ClientUpdate::read(&b, &mut pos).unwrap();
    assert_eq!(pos, 24);
    assert_eq!(u.spawn_id, 77);
    assert_eq!((u.x8, u.y8, u.z8), (800, -8, -0x40000));
    assert_eq!(u.heading_raw, 0xFFF);
    let mut pos: usize = 3;
    assert!(ClientUpdate::read(&b, &mut pos).is_none());
    assert_eq!(pos, 21);
    let mut pos: usize = 20;
    assert!(ClientUpdate::read(&b, &mut pos).is_none());
    assert_eq!(pos, 22);
    let mut pos: usize = 23;
    assert!(ClientUpdate::read(&b, &mut pos).is_none());
    assert_eq!(pos, 23);
    let mut pos: usize = 30;
    assert!(ClientUpdate::read(&b, &mut pos).is_none());
    assert_eq!(pos, 30);
}

#[test]
fn spawn_record_fields() {
    let mut b = vec![0u8; 388];
    b[7..7 + 11].copy_from_slice(b"a_big_orc00");
    b[7 + 9] = 0;
    b[7 + 10] = 0;
    let packed_x: u32 = ((-16i32 as u32) & 0x7FFFF) << 10;
    b[94..98].copy_from_slice(&packed_x.to_le_bytes());
    b[98..102].copy_from_slice(&24u32.to_le_bytes());
    b[106..110].copy_from_slice(&(0x123u32 << 13).to_le_bytes());
    b[151] = 50;
    b[284..288].copy_from_slice(&1u32.to_le_bytes());
    b[331] = 9;
    b[340..344].copy_from_slice(&1234u32.to_le_bytes());
    b[144] = 1;
    b[86] = 80;
    b[87] = 100;
    let mut pos: usize = 0;
    let s = SpawnStruct::read(&b, &mut pos).unwrap();
    assert_eq!(pos, 388);
    assert_eq!(s.name, "a big orc");
    assert_eq!((s.x8, s.y8, s.z8), (-16, 24, 0));
    assert_eq!(s.heading_raw, 0x123);
    assert_eq!((s.level, s.race, s.class, s.spawn_id), (50, 1, 9, 1234));
    assert!(s.is_npc);
    assert_eq!((s.cur_hp, s.max_hp), (80, 100));
    let mut pos: usize = 0;
    assert!(SpawnStruct::read(&b[..343], &mut pos).is_none());
    assert_eq!(pos, 340);
    let mut pos: usize = 0;
    assert!(SpawnStruct::read(&b[..50], &mut pos).is_none());
    assert_eq!(pos, 50);
    let mut pos: usize = 0;
    assert!(SpawnStruct::read(&b[..200], &mut pos).is_none());
    assert_eq!(pos, 284);
    let mut pos: usize = 0;
    assert!(SpawnStruct::read(&b[..151], &mut pos).is_none());
    assert_eq!(pos, 151);
    let mut two = vec![0u8; 10];
    two.extend_from_slice(&b[..344]);
    let mut pos: usize = 10;
    let again = SpawnStruct::read(&two, &mut pos).unwrap();
    assert_eq!(pos, 398);
    assert_eq!(again.name, "a big orc");
    assert_eq!(again.spawn_id, 1234);
}

#[test]
fn player_profile_offsets() {
    let mut b = vec![0u8; 13132];
    b[4..8].copy_from_slice(&1u32.to_le_bytes());
    b[20] = 60;
    b[2236..2240].copy_from_slice(&75u32.to_le_bytes());
    b[12940..12945].copy_from_slice(b"Hero\0");
    b[13116..13120].copy_from_slice(&1.5f32.to_le_bytes());
    b[7444] = 0xEE;
    let mut pos: usize = 77;
    let p = PlayerProfile::read(&b, &mut pos).unwrap();
    assert_eq!(pos, 13132);
    assert_eq!(p.gender, 1);
    assert_eq!(p.level, 60);
    assert_eq!(p.strength, 75);
    assert_eq!(p.name, "Hero");
    assert_eq!(f32::from_bits(p.x_bits), 1.5);
    assert_eq!(p.inventory_blob.len(), 5120);
    assert_eq!(p.inventory_blob[0], 0xEE);
    let mut pos: usize = 5;
    assert!(PlayerProfile::read(&b[..13131], &mut pos).is_none());
    assert_eq!(pos, 13128);
    let mut pos: usize = 5;
    assert!(PlayerProfile::read(&b[..5000], &mut pos).is_none());
    assert_eq!(pos, 5000);
    let mut pos: usize = 5;
    assert!(PlayerProfile::read(&b[..2250], &mut pos).is_none());
    assert_eq!(pos, 2248);
    let mut pos: usize = 5;
    assert!(PlayerProfile::read(&b[..10], &mut pos).is_none());
    assert_eq!(pos, 8);
}

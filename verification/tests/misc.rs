use eqclient::crypto::{decrypt_null_des, encrypt_null_des};
use eqclient::login_client::{classify_reply, frame_packet, split_body, string_to_bytes, LoginReply};
use eqclient::opcodes::{LoginAppOp, ReliableOp, ZoneAppOp};
use eqclient::text::{spaces_for_underscores, trim_nul_bytes};
use eqclient::zone_state::{names_match, Spawn, ZoneState};

#[test]
fn null_des_known_vector_and_inverse() {
    let enc = encrypt_null_des(&[0u8; 8]);
    assert_eq!(enc, vec![0x8C, 0xA6, 0x4D, 0xE9, 0xC1, 0xB1, 0x23, 0xA7]);
    assert_eq!(decrypt_null_des(&enc), vec![0u8; 8]);
    let data = b"user\0pass\0123456";
    assert_eq!(decrypt_null_des(&encrypt_null_des(data)), data.to_vec());
}

#[test]
fn null_des_unaligned_input_is_padded_then_encrypted() {
    let padded = vec![b'a', b'b', b'c', 0, 0, 0, 0, 0];
    let enc = encrypt_null_des(b"abc");
    assert_eq!(enc, encrypt_null_des(&padded));
    assert_eq!(enc.len(), 8);
    assert_ne!(enc, padded);
    assert_eq!(decrypt_null_des(&enc), padded);
    assert_eq!(encrypt_null_des(&[]), Vec::<u8>::new());
    let nine = encrypt_null_des(&[0u8; 9]);
    assert_eq!(nine.len(), 16);
    assert_eq!(&nine[..8], &[0x8C, 0xA6, 0x4D, 0xE9, 0xC1, 0xB1, 0x23, 0xA7]);
    assert_eq!(decrypt_null_des(&nine), vec![0u8; 16]);
    assert_eq!(decrypt_null_des(b"abc"), Vec::<u8>::new());
}

#[test]
fn opcodes_roundtrip() {
    assert_eq!(ReliableOp::Ack.code(), 0x15);
    assert_eq!(ReliableOp::from_code(0x0D), Some(ReliableOp::Fragment));
    assert_eq!(ReliableOp::from_code(0x04), None);
    assert_eq!(LoginAppOp::from_code(0x0021), Some(LoginAppOp::PlayEverquestResponse));
    assert_eq!(ZoneAppOp::PlayerProfile.code(), 0x75df);
}

#[test]
fn name_padding_is_trimmed() {
    assert_eq!(trim_nul_bytes(b"\0\0ab\0c\0\0"), b"ab\0c".to_vec());
    assert_eq!(trim_nul_bytes(b"\0\0"), Vec::<u8>::new());
    assert_eq!(spaces_for_underscores(b"a_b_"), b"a b ".to_vec());
}

#[test]
fn login_body_split_and_reply_kinds() {
    assert_eq!(split_body(&[0x00, 0x18, 5, 6]), (0x0018, vec![5, 6]));
    assert_eq!(split_body(&[0x18, 0x00]), (0x1800, vec![]));
    assert_eq!(split_body(&[7]), (0, vec![7]));
    assert_eq!(classify_reply(0x0018), LoginReply::ServerList);
    assert_eq!(classify_reply(0x0017), LoginReply::Accepted);
    assert_eq!(classify_reply(0x0099), LoginReply::Other);
}

#[test]
fn login_frames_carry_size_and_big_endian_opcode() {
    let f = frame_packet(0x0002, &[9, 8, 7]).unwrap();
    assert_eq!(f, vec![0x00, 0x05, 0x00, 0x02, 9, 8, 7]);
    assert_eq!(split_body(&f[2..]), (0x0002, vec![9, 8, 7]));
    assert_eq!(frame_packet(0x0001, &[]).unwrap(), vec![0, 2, 0, 1]);
    assert_eq!(frame_packet(0x0004, &vec![0u8; 0xFFFD]).unwrap().len(), 0xFFFD + 4);
    assert!(frame_packet(0x0004, &vec![0u8; 0xFFFE]).is_none());
}

#[test]
fn credential_field_is_padded_and_cut() {
    let f = string_to_bytes("eqemu");
    assert_eq!(&f[..5], b"eqemu");
    assert!(f[5..].iter().all(|&b| b == 0));
    let long = "x".repeat(70);
    assert_eq!(string_to_bytes(&long), [b'x'; 64]);
}

fn spawn(id: u32, name: &str) -> Spawn {
    Spawn {
        id,
        name: name.to_string(),
        level: 1,
        race: 1,
        class: 1,
        hp: 100,
        max_hp: 100,
        x_bits: 0,
        y_bits: 0,
        z_bits: 0,
        heading_bits: 0,
        is_npc: false,
    }
}

#[test]
fn zone_state_recognises_the_player() {
    let mut z = ZoneState::new();
    z.set_my_name("Hero".to_string());
    z.player = Some(spawn(0, "Hero"));
    let mut me = spawn(55, "hERO");
    me.x_bits = 10;
    z.add_or_update_spawn(me);
    assert_eq!(z.my_spawn_id, Some(55));
    assert_eq!(z.player.as_ref().unwrap().id, 55);
    assert_eq!(z.player.as_ref().unwrap().x_bits, 10);
    z.add_or_update_spawn(spawn(56, "orc"));
    assert_eq!(z.spawns.len(), 2);
    z.update_spawn_pos(55, 1, 2, 3, 4);
    assert_eq!(z.spawns[&55].y_bits, 2);
    assert_eq!(z.player.as_ref().unwrap().heading_bits, 4);
    z.update_spawn_pos(56, 9, 9, 9, 9);
    assert_eq!(z.player.as_ref().unwrap().x_bits, 1);
    z.remove_spawn(56);
    assert!(!z.spawns.contains_key(&56));
}

#[test]
fn unnamed_player_matches_nobody() {
    let mut z = ZoneState::new();
    z.add_or_update_spawn(spawn(1, ""));
    assert_eq!(z.my_spawn_id, None);
    assert!(names_match(&"AbC".to_string(), &"aBc".to_string()));
    assert!(!names_match(&"Ab".to_string(), &"Abc".to_string()));
}

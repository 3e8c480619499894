use demo::catalog::{MessageKind, NetKind, SvcKind, UserMessageKind};
use demo::format::{CommandHeader, DataHeader, DemHeader, PacketInfo, Parse, PlayerInfo, SequenceInfo, ViewInfo};
use demo::text::trim_nul;
use demo::varint::encode_varuint;
use demo::wire::{last_chunk_of, last_flag_of, last_int32_of, send_table_is_end, user_message_parts};
use demo::{read_varuint, DemoError};

#[test]
fn varint_zero_is_one_byte() {
    assert_eq!(encode_varuint(0), vec![0u8]);
    assert_eq!(read_varuint(&[0u8]), Ok((0, 1)));
}

#[test]
fn varint_round_trip_samples() {
    for v in [0u32, 1, 127, 128, 300, 16383, 16384, 2_097_151, 268_435_455, 268_435_456, u32::MAX] {
        let bytes = encode_varuint(v);
        assert!(bytes.len() <= 5);
        assert_eq!(read_varuint(&bytes), Ok((v, bytes.len())));
    }
}

#[test]
fn varint_known_encodings() {
    assert_eq!(encode_varuint(300), vec![0xAC, 0x02]);
    assert_eq!(encode_varuint(u32::MAX), vec![0xFF, 0xFF, 0xFF, 0xFF, 0x0F]);
    assert_eq!(read_varuint(&[0x96, 0x01, 0x55]), Ok((150, 2)));
}

#[test]
fn varint_fifth_byte_high_bits_are_cut() {
    assert_eq!(read_varuint(&[0xFF, 0xFF, 0xFF, 0xFF, 0x7F]), Ok((u32::MAX, 5)));
}

#[test]
fn varint_five_continuation_bytes_fail() {
    assert_eq!(read_varuint(&[0x80, 0x80, 0x80, 0x80, 0x80]), Err(DemoError::InvalidVarint));
    assert_eq!(read_varuint(&[0xFF; 6]), Err(DemoError::InvalidVarint));
}

#[test]
fn varint_truncated() {
    assert_eq!(read_varuint(&[]), Err(DemoError::Truncated));
    assert_eq!(read_varuint(&[0x80, 0x80]), Err(DemoError::Truncated));
}

#[test]
fn command_header_layout() {
    let bytes = [2u8, 0x10, 0x00, 0x00, 0x00, 1];
    let h = CommandHeader::parse(&bytes, 0).unwrap();
    assert_eq!((h.command, h.tick, h.player_slot), (2, 16, 1));
    assert_eq!(CommandHeader::layout_size(), 6);
    assert!(matches!(CommandHeader::parse(&bytes[..5], 0), Err(DemoError::Truncated)));
}

#[test]
fn signed_fields_are_twos_complement() {
    let d = DataHeader::parse(&[0xFE, 0xFF, 0xFF, 0xFF], 0).unwrap();
    assert_eq!(d.size, -2);
    let s = SequenceInfo::parse(&[1, 0, 0, 0, 0, 0, 0, 0x80], 0).unwrap();
    assert_eq!((s.sequence_in, s.sequence_out), (1, i32::MIN));
}

#[test]
fn view_info_keeps_float_bits() {
    let mut bytes = Vec::new();
    for x in [1.0f32, -2.5, 0.0, 3.25, 4.0, 5.0, 6.0, 7.0, 8.5] {
        bytes.extend_from_slice(&x.to_le_bytes());
    }
    let v = ViewInfo::parse(&bytes, 0).unwrap();
    assert_eq!(f32::from_bits(v.origin[0]), 1.0);
    assert_eq!(f32::from_bits(v.origin[1]), -2.5);
    assert_eq!(f32::from_bits(v.angles[1]), 4.0);
    assert_eq!(f32::from_bits(v.local_angles[2]), 8.5);
}

#[test]
fn record_sizes() {
    assert_eq!(DemHeader::layout_size(), 1072);
    assert_eq!(PacketInfo::layout_size(), 160);
    assert_eq!(PlayerInfo::layout_size(), 352);
    assert_eq!(ViewInfo::layout_size(), 36);
}

#[test]
fn dem_header_fields() {
    let mut bytes = vec![0u8; 1072];
    bytes[..8].copy_from_slice(b"HL2DEMO\0");
    bytes[8..12].copy_from_slice(&4i32.to_le_bytes());
    bytes[12..16].copy_from_slice(&13_000i32.to_le_bytes());
    bytes[536..544].copy_from_slice(b"de_dust2");
    bytes[1056..1060].copy_from_slice(&12.5f32.to_le_bytes());
    bytes[1068..1072].copy_from_slice(&777i32.to_le_bytes());
    let h = DemHeader::parse(&bytes, 0).unwrap();
    assert_eq!(trim_nul(&h.magic), b"HL2DEMO");
    assert_eq!(h.demo_protocol, 4);
    assert_eq!(h.network_protocol, 13_000);
    assert_eq!(h.map_name.len(), 260);
    assert_eq!(trim_nul(&h.map_name), b"de_dust2");
    assert_eq!(f32::from_bits(h.playback_time_bits), 12.5);
    assert_eq!(h.signon_length, 777);
    assert!(matches!(DemHeader::parse(&bytes[..1071], 0), Err(DemoError::Truncated)));
}

#[test]
fn player_info_flags() {
    let mut bytes = vec![0u8; 352];
    bytes[0..8].copy_from_slice(&7u64.to_le_bytes());
    bytes[16..21].copy_from_slice(b"alice");
    bytes[313] = 1;
    bytes[339..347].copy_from_slice(&u64::MAX.to_le_bytes());
    bytes[348..352].copy_from_slice(&(-1i32).to_le_bytes());
    let p = PlayerInfo::parse(&bytes, 0).unwrap();
    assert_eq!(p.version, 7);
    assert_eq!(trim_nul(&p.name), b"alice");
    assert!(p.fake_player);
    assert!(!p.is_hltv);
    assert_eq!(p.custom_files[3], u64::MAX);
    assert_eq!(p.entity_id, -1);
    bytes[314] = 2;
    assert!(matches!(PlayerInfo::parse(&bytes, 0), Err(DemoError::InvalidEncoding)));
}

#[test]
fn trim_nul_cases() {
    assert_eq!(trim_nul(b"abc\0\0"), b"abc");
    assert_eq!(trim_nul(b"abc"), b"abc");
    assert_eq!(trim_nul(b"\0abc"), b"");
    assert_eq!(trim_nul(b""), b"");
}

#[test]
fn catalog_lookups() {
    assert_eq!(MessageKind::from_code(0), Some(MessageKind::Net(NetKind::Nop)));
    assert_eq!(MessageKind::from_code(100), Some(MessageKind::Net(NetKind::PlayerAvatarData)));
    assert_eq!(MessageKind::from_code(9), Some(MessageKind::Svc(SvcKind::SendTable)));
    assert_eq!(MessageKind::from_code(23), Some(MessageKind::Svc(SvcKind::UserMessage)));
    assert_eq!(MessageKind::from_code(38), Some(MessageKind::Svc(SvcKind::BroadcastCommand)));
    assert_eq!(MessageKind::from_code(32), None);
    assert_eq!(MessageKind::from_code(37), None);
    assert_eq!(UserMessageKind::from_code(6), Some(UserMessageKind::SayText2));
    assert_eq!(UserMessageKind::from_code(11), None);
    assert_eq!(UserMessageKind::from_code(28), None);
    assert_eq!(UserMessageKind::from_code(74), None);
    assert_eq!(UserMessageKind::from_code(29), Some(UserMessageKind::StopSpectatorMode));
    assert_eq!(UserMessageKind::from_code(78), Some(UserMessageKind::DeepStats));
    assert_eq!(UserMessageKind::from_code(79), None);
    assert_eq!(SvcKind::PaintmapData.code(), 33);
    assert_eq!(MessageKind::Svc(SvcKind::GameEvent).code(), 25);
}

#[test]
fn send_table_end_flag() {
    assert_eq!(send_table_is_end(&[0x08, 0x01]), Ok(true));
    assert_eq!(send_table_is_end(&[0x08, 0x00]), Ok(false));
    assert_eq!(send_table_is_end(&[]), Ok(false));
    assert_eq!(send_table_is_end(&[0x12, 0x01, 0x41, 0x08, 0x01, 0x08, 0x00]), Ok(false));
    assert_eq!(send_table_is_end(&[0x08]), Err(DemoError::MalformedMessage));
}

#[test]
fn user_message_fields() {
    assert_eq!(user_message_parts(&[0x08, 0x05, 0x12, 0x02, 0xAA, 0xBB]), Ok((5, vec![0xAA, 0xBB])));
    assert_eq!(user_message_parts(&[]), Ok((0, vec![])));
    assert_eq!(
        user_message_parts(&[0x08, 0xFF, 0xFF, 0xFF, 0xFF, 0x0F]),
        Ok((-1, vec![]))
    );
    assert_eq!(user_message_parts(&[0x12, 0x05, 0x01]), Err(DemoError::MalformedMessage));
}

#[test]
fn field_value_readers() {
    assert!(!last_flag_of(&vec![]));
    assert!(last_flag_of(&vec![0, 3]));
    assert!(!last_flag_of(&vec![1, 1 << 32]));
    assert_eq!(last_int32_of(&vec![]), 0);
    assert_eq!(last_int32_of(&vec![5, 0xFFFF_FFFE]), -2);
    assert_eq!(last_chunk_of(&vec![]), Vec::<u8>::new());
    assert_eq!(last_chunk_of(&vec![vec![1], vec![2, 3]]), vec![2, 3]);
}

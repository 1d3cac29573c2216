use hieronymus::data::{Arm, Direction, Hand, Position, SlotData};
use hieronymus::parse::ParseError;
use hieronymus::play::{read_play, DiggingStatus, EntityInteraction, PlayPacket};

#[test]
fn keep_alive_and_pong() {
    match read_play(b"\x0f\x00\x00\x00\x00\x00\x00\x01\x02").unwrap() {
        PlayPacket::KeepAlive(v) => assert_eq!(v, 0x0102),
        other => panic!("{:?}", other),
    }
    match read_play(b"\x1d\xff\xff\xff\xfe").unwrap() {
        PlayPacket::Pong(v) => assert_eq!(v, 0xffff_fffe),
        other => panic!("{:?}", other),
    }
}

#[test]
fn chat_and_settings() {
    match read_play(b"\x03\x02hi").unwrap() {
        PlayPacket::ChatMessage { message } => assert_eq!(message, "hi"),
        other => panic!("{:?}", other),
    }
    match read_play(b"\x05\x05en_us\x0a\x00\x01\x7f\x01\x00").unwrap() {
        PlayPacket::ClientSettings { locale, view_distance, chat_mode, chat_colors, displayed_skin_parts, main_arm, enable_text_filtering } => {
            assert_eq!(locale, "en_us");
            assert_eq!(view_distance, 10);
            assert_eq!(chat_mode, 0);
            assert!(chat_colors);
            assert_eq!(displayed_skin_parts, 0x7f);
            assert_eq!(main_arm, Arm::Right);
            assert!(!enable_text_filtering);
        }
        other => panic!("{:?}", other),
    }
}

#[test]
fn edit_book_pages_and_title() {
    match read_play(b"\x0b\x01\x02\x01a\x02bc\x01\x03Tit").unwrap() {
        PlayPacket::EditBook { hand, entries, title } => {
            assert_eq!(hand, Hand::Offhand);
            assert_eq!(entries, vec!["a".to_string(), "bc".to_string()]);
            assert_eq!(title, Some("Tit".to_string()));
        }
        other => panic!("{:?}", other),
    }
    match read_play(b"\x0b\x00\x00\x00").unwrap() {
        PlayPacket::EditBook { entries, title, .. } => {
            assert!(entries.is_empty());
            assert_eq!(title, None);
        }
        other => panic!("{:?}", other),
    }
}

#[test]
fn click_window_slots() {
    let body = b"\x08\x01\x05\xff\xfe\x00\x01\x01\x00\x03\x01\x07\x02\x00\x00";
    match read_play(body).unwrap() {
        PlayPacket::ClickWindow { window_id, state_id, slot, button, mode, slots, clicked_item } => {
            assert_eq!((window_id, state_id, slot, button, mode), (1, 5, -2, 0, 1));
            assert_eq!(slots.len(), 1);
            assert_eq!(slots[0].0, 3);
            assert_eq!(slots[0].1, Some(SlotData { id: 7, count: 2, nbt: None }));
            assert_eq!(clicked_item, None);
        }
        other => panic!("{:?}", other),
    }
    assert_eq!(
        read_play(b"\x08\x01\x05\xff\xfe\x00\x01\x00\x01\x07\x02\x0a").unwrap_err(),
        ParseError::UnsupportedNbt
    );
}

#[test]
fn interaction_and_digging() {
    match read_play(b"\x0d\x2a\x02\x3f\x80\x00\x00\x00\x00\x00\x00\x40\x00\x00\x00\x00\x01").unwrap() {
        PlayPacket::InteractEntity { entity_id, interaction, is_sneaking } => {
            assert_eq!(entity_id, 42);
            assert_eq!(interaction, EntityInteraction::InteractAt(0x3f80_0000, 0, 0x4000_0000, Hand::Mainhand));
            assert!(is_sneaking);
        }
        other => panic!("{:?}", other),
    }
    let pos = Position::new(1, 2, 3);
    let mut body = vec![0x1a, 0x02];
    body.extend_from_slice(&pos.0.to_be_bytes());
    body.push(0x01);
    match read_play(&body).unwrap() {
        PlayPacket::PlayerDigging { status, location, face } => {
            assert_eq!(status, DiggingStatus::FinishedDigging);
            assert_eq!(location, pos);
            assert_eq!(face, Direction::Top);
        }
        other => panic!("{:?}", other),
    }
}

#[test]
fn play_errors() {
    assert_eq!(read_play(b"\x20").unwrap_err(), ParseError::UnknownPacketId(0x20));
    assert_eq!(read_play(b"\x14\x01\x00").unwrap_err(), ParseError::TrailingBytes);
    assert_eq!(read_play(b"\x14\x02").unwrap_err(), ParseError::InvalidBoolean(2));
    assert_eq!(read_play(b"\x1b\x01\x09\x00").unwrap_err(), ParseError::InvalidEnumValue(9));
    assert_eq!(read_play(b"\x0f\x00\x01").unwrap_err(), ParseError::Incomplete);
    assert_eq!(read_play(b"\x1f\x05stone").unwrap_err(), ParseError::InvalidIdentifier);
    match read_play(b"\x0a\x0fminecraft:brand\x07vanilla").unwrap() {
        PlayPacket::PluginMessage { channel, data } => {
            assert_eq!(channel.path, "brand");
            assert_eq!(data, b"\x07vanilla".to_vec());
        }
        other => panic!("{:?}", other),
    }
}

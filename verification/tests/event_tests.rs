use demostats::assoc::AssocMap;
use demostats::bitreader::BitReader;
use demostats::cmd::{Cmd, CmdId};
use demostats::game_event::{Event, EventContext, EventDescriptor};
use demostats::messages::{GameEventMsg, KeyVal};
use demostats::packet::{CmdType, PacketHeader};
use demostats::parse_game::show_key;
use demostats::textfmt::{i64_to_dec, u64_to_dec};
use demostats::DemoError;

fn registry() -> EventContext {
    let mut m: AssocMap<EventDescriptor> = AssocMap::new();
    m.insert(
        40,
        EventDescriptor {
            name: "round_end".to_string(),
            keys: vec![Some("winner".to_string()), Some("reason".to_string())],
        },
    );
    m.insert(
        41,
        EventDescriptor {
            name: "player_death".to_string(),
            keys: vec![
                Some("userid".to_string()),
                Some("attacker".to_string()),
                Some("assister".to_string()),
                Some("assistedflash".to_string()),
                Some("weapon".to_string()),
            ],
        },
    );
    m.insert(42, EventDescriptor { name: "weapon_fire".to_string(), keys: vec![] });
    EventContext::new(m)
}

#[test]
fn round_end_extracts_winning_side() {
    let ctx = registry();
    let ev = GameEventMsg {
        eventid: Some(40),
        event_name: None,
        keys: vec![KeyVal::VByte(2), KeyVal::VByte(1)],
    };
    assert!(matches!(ctx.parse_game_event(ev).unwrap(), Event::RoundEnd(true)));
    let ev3 = GameEventMsg {
        eventid: Some(40),
        event_name: None,
        keys: vec![KeyVal::VByte(3), KeyVal::VByte(1)],
    };
    assert!(matches!(ctx.parse_game_event(ev3).unwrap(), Event::RoundEnd(false)));
}

#[test]
fn round_end_rejects_unknown_side() {
    let ctx = registry();
    let ev = GameEventMsg {
        eventid: Some(40),
        event_name: None,
        keys: vec![KeyVal::VByte(5), KeyVal::VByte(1)],
    };
    let e = ctx.parse_game_event(ev).unwrap_err();
    assert_eq!(e, DemoError::SchemaMismatch { event_id: 40 });
}

#[test]
fn player_death_normalizes_zero_ids() {
    let ctx = registry();
    let ev = GameEventMsg {
        eventid: Some(41),
        event_name: None,
        keys: vec![
            KeyVal::VShort(9),
            KeyVal::VShort(0),
            KeyVal::VShort(3),
            KeyVal::VBool(true),
            KeyVal::VString("ak47".to_string()),
        ],
    };
    match ctx.parse_game_event(ev).unwrap() {
        Event::PlayerDeath { victim, killer, assist, flash_assist, weapon } => {
            assert_eq!(victim, 9);
            assert_eq!(killer, None);
            assert_eq!(assist, Some(3));
            assert!(flash_assist);
            assert_eq!(weapon, "ak47");
        }
        other => panic!("unexpected event {:?}", other),
    }
}

#[test]
fn ignored_events_are_filtered() {
    let ctx = registry();
    let ev = GameEventMsg { eventid: Some(42), event_name: None, keys: vec![] };
    assert!(matches!(ctx.parse_game_event(ev).unwrap(), Event::Filtered));
}

#[test]
fn unknown_id_falls_back_to_literal_name() {
    let ctx = registry();
    let ev = GameEventMsg {
        eventid: Some(99),
        event_name: Some("bomb_planted".to_string()),
        keys: vec![],
    };
    match ctx.parse_game_event(ev).unwrap() {
        Event::Other(n) => assert_eq!(n, "bomb_planted"),
        other => panic!("unexpected event {:?}", other),
    }
}

#[test]
fn missing_descriptor_and_name_is_schema_mismatch() {
    let ctx = registry();
    let ev = GameEventMsg { eventid: Some(99), event_name: None, keys: vec![] };
    assert_eq!(ctx.parse_game_event(ev).unwrap_err(), DemoError::SchemaMismatch { event_id: 99 });
}

#[test]
fn framer_returns_recognized_frames_and_skips_others() {
    // id 7 (unrecognized, skipped), then id 12 with a 3-byte body
    let payload: Vec<u8> = vec![7, 2, 0xAA, 0xBB, 12, 3, 1, 2, 3];
    let mut reader = BitReader::new(payload.as_slice());
    let frame = Cmd::parse(&mut reader).unwrap().unwrap();
    assert_eq!(frame.id, CmdId::CreateStringTable);
    assert_eq!(frame.data, vec![1, 2, 3]);
    assert!(Cmd::parse(&mut reader).unwrap().is_none());
}

#[test]
fn framer_reports_truncated_body() {
    let payload: Vec<u8> = vec![12, 5, 1, 2];
    let mut reader = BitReader::new(payload.as_slice());
    let e = Cmd::parse(&mut reader).unwrap_err();
    assert!(matches!(e, DemoError::Truncated { .. }));
}

#[test]
fn packet_header_rejects_unknown_record_type() {
    let data: Vec<u8> = vec![0xAA, 0, 0, 0, 0, 0];
    let mut reader = BitReader::new(data.as_slice());
    let e = PacketHeader::new(&mut reader).unwrap_err();
    assert_eq!(e, DemoError::Format { bit_offset: 0 });
}

#[test]
fn packet_header_reads_tick_and_slot() {
    let mut data: Vec<u8> = vec![2];
    data.extend_from_slice(&7700i32.to_le_bytes());
    data.push(3);
    let mut reader = BitReader::new(data.as_slice());
    let h = PacketHeader::new(&mut reader).unwrap();
    assert!(matches!(h.cmd_type, CmdType::Packet));
    assert_eq!(h.tick, 7700);
    assert_eq!(h.player_slot, 3);
}

#[test]
fn decimal_formatting() {
    assert_eq!("0", u64_to_dec(0));
    assert_eq!("120", u64_to_dec(120));
    assert_eq!("18446744073709551615", u64_to_dec(u64::MAX));
    assert_eq!("-5", i64_to_dec(-5));
    assert_eq!("7", i64_to_dec(7));
}

#[test]
fn show_key_renders_tag_and_value() {
    assert_eq!("[short] 5", show_key(&KeyVal::VShort(5)));
    assert_eq!("[string] ak47", show_key(&KeyVal::VString("ak47".to_string())));
    assert_eq!("[bool] true", show_key(&KeyVal::VBool(true)));
    assert_eq!("[empty]", show_key(&KeyVal::VNone));
}

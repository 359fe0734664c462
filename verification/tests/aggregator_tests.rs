use demostats::assoc::AssocMap;
use demostats::bitreader::BitReader;
use demostats::cmd::Cmd;
use demostats::game_event::{EventContext, EventDescriptor};
use demostats::header::Header;
use demostats::messages::{
    EventDescriptorMsg, GameEventListMsg, GameEventMsg, KeyVal, UserMessageMsg,
};
use demostats::packet::{read_record_payload, CmdType};
use demostats::parse_game::{PlayerState, State};
use demostats::player::Player;
use demostats::playerinfo::PlayerInfo;

fn test_header() -> Header {
    Header {
        magic: "HL2DEMO".to_string(),
        demo_protocol: 4,
        network_protocol: 0,
        server_name: String::new(),
        client_name: String::new(),
        map: String::new(),
        directory: String::new(),
        playback_time_bits: 0,
        playback_ticks: 0,
        playback_frames: 0,
        signon_length: 0,
    }
}

fn add_player(state: &mut State, id: i32, team: bool) {
    let info = PlayerInfo {
        version: 0,
        xuid: 1000 + id as i64,
        name: format!("Player {}", id),
        user_id: id,
        guid: String::new(),
        friends_id: 0,
        friends_name: String::new(),
        fake: false,
        proxy: false,
        custom_files_crc: [0, 0, 0, 0],
        files_downloaded: 0,
        entity_id: 0,
    };
    state.players.insert(id as i64, Player::new(info));
    state.teams.insert(id as i64, team);
}

fn schema() -> GameEventListMsg {
    GameEventListMsg {
        descriptors: vec![
            EventDescriptorMsg {
                eventid: Some(1),
                name: Some("round_start".to_string()),
                keys: vec![],
            },
            EventDescriptorMsg {
                eventid: Some(2),
                name: Some("round_end".to_string()),
                keys: vec![Some("winner".to_string())],
            },
            EventDescriptorMsg {
                eventid: Some(3),
                name: Some("begin_new_match".to_string()),
                keys: vec![],
            },
            EventDescriptorMsg {
                eventid: Some(4),
                name: Some("round_officially_ended".to_string()),
                keys: vec![],
            },
            EventDescriptorMsg {
                eventid: Some(5),
                name: Some("player_spawn".to_string()),
                keys: vec![Some("userid".to_string()), Some("teamnum".to_string())],
            },
            EventDescriptorMsg {
                eventid: Some(6),
                name: Some("item_equip".to_string()),
                keys: vec![Some("userid".to_string()), Some("item".to_string())],
            },
        ],
    }
}

fn ev(id: i32, keys: Vec<KeyVal>) -> Cmd {
    Cmd::GameEvent(GameEventMsg { eventid: Some(id), event_name: None, keys })
}

#[test]
fn round_end_scores_the_winning_side() {
    let mut state = State::new(test_header(), 64);
    state.handle_command(Cmd::GameEventList(schema())).unwrap();
    state.handle_command(ev(2, vec![KeyVal::VByte(2)])).unwrap();
    state.handle_command(ev(2, vec![KeyVal::VByte(3)])).unwrap();
    state.handle_command(ev(2, vec![KeyVal::VByte(2)])).unwrap();
    assert_eq!(state.score, (2, 1));
}

#[test]
fn begin_new_match_resets_stats_but_keeps_identity() {
    let mut state = State::new(test_header(), 64);
    state.handle_command(Cmd::GameEventList(schema())).unwrap();
    add_player(&mut state, 1, true);
    add_player(&mut state, 2, false);
    state.update_stats(2, Some(1), None, false, "rifle");
    assert_eq!(state.players.get(1).unwrap().kills, 1);
    state.current_round = 7;
    state.score = (4, 3);
    state.handle_command(ev(3, vec![])).unwrap();
    assert_eq!(state.current_round, 0);
    assert_eq!(state.score, (0, 0));
    assert_eq!(state.players.get(1).unwrap().kills, 0);
    assert_eq!(state.players.get(1).unwrap().name, "Player 1");
}

#[test]
fn round_officially_ended_credits_and_resets() {
    let mut state = State::new(test_header(), 64);
    state.handle_command(Cmd::GameEventList(schema())).unwrap();
    add_player(&mut state, 1, true);
    add_player(&mut state, 2, false);
    state.update_stats(2, Some(1), None, false, "rifle");
    // player 1 killed, player 2 died unavenged
    state.handle_command(ev(4, vec![])).unwrap();
    assert_eq!(state.players.get(1).unwrap().kast, 1);
    assert_eq!(state.players.get(2).unwrap().kast, 0);
    assert_eq!(*state.current_round_player_state.get(1).unwrap(), PlayerState::Survived);
    assert_eq!(*state.current_round_player_state.get(2).unwrap(), PlayerState::Survived);
}

#[test]
fn player_spawn_records_side_and_equip_tracks_utility() {
    let mut state = State::new(test_header(), 64);
    state.handle_command(Cmd::GameEventList(schema())).unwrap();
    add_player(&mut state, 5, true);
    state.handle_command(ev(5, vec![KeyVal::VShort(5), KeyVal::VShort(3)])).unwrap();
    assert_eq!(*state.teams.get(5).unwrap(), false);
    state.current_tick = 99;
    state
        .handle_command(ev(6, vec![KeyVal::VShort(5), KeyVal::VString("flashbang".to_string())]))
        .unwrap();
    let p = state.players.get(5).unwrap();
    assert_eq!(p.equipped, "flashbang");
    assert_eq!(p.latest_muna.as_deref(), Some("flashbang"));
    assert_eq!(p.muna_tick, 99);
    state
        .handle_command(ev(6, vec![KeyVal::VShort(5), KeyVal::VString("ak47".to_string())]))
        .unwrap();
    let p = state.players.get(5).unwrap();
    assert_eq!(p.equipped, "ak47");
    assert_eq!(p.muna_tick, 99);
}

#[test]
fn spawn_with_other_side_code_is_filtered() {
    let mut state = State::new(test_header(), 64);
    state.handle_command(Cmd::GameEventList(schema())).unwrap();
    state.handle_command(ev(5, vec![KeyVal::VShort(5), KeyVal::VShort(1)])).unwrap();
    assert!(state.teams.get(5).is_none());
}

#[test]
fn user_message_changes_nothing() {
    let mut state = State::new(test_header(), 64);
    let cmd = Cmd::UserMessage(UserMessageMsg { msg_type: Some(6), msg_data: Some(vec![1, 2]) });
    state.handle_command(cmd).unwrap();
    assert_eq!(state.score, (0, 0));
    assert_eq!(state.players.length(), 0);
}

#[test]
fn record_payload_extraction() {
    // a packet record body: 160 preamble bytes, a 4-byte length, the payload
    let mut data: Vec<u8> = vec![0xCC; 160];
    data.extend_from_slice(&3u32.to_le_bytes());
    data.extend_from_slice(&[9, 8, 7]);
    let mut reader = BitReader::new(data.as_slice());
    let payload = read_record_payload(&mut reader, CmdType::Packet).unwrap().unwrap();
    assert_eq!(payload, vec![9, 8, 7]);
    // unsupported record types are fatal, not skipped
    let empty: &[u8] = &[];
    let mut r2 = BitReader::new(empty);
    assert!(read_record_payload(&mut r2, CmdType::ConsoleCmd).is_err());
    let mut r3 = BitReader::new(empty);
    assert!(read_record_payload(&mut r3, CmdType::SyncTick).unwrap().is_none());
}

#[test]
fn event_context_registry_lookup() {
    let mut m: AssocMap<EventDescriptor> = AssocMap::new();
    m.insert(9, EventDescriptor { name: "x".to_string(), keys: vec![] });
    let ctx = EventContext::new(m);
    let out = ctx
        .parse_game_event(GameEventMsg { eventid: Some(9), event_name: None, keys: vec![] })
        .unwrap();
    match out {
        demostats::game_event::Event::Other(n) => assert_eq!(n, "x"),
        other => panic!("unexpected event {:?}", other),
    }
}

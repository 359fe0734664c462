use demostats::bitreader::BitReader;
use demostats::cmd::Cmd;
use demostats::header::Header;
use demostats::parse_game::{PlayerState, State};
use demostats::player::Player;
use demostats::playerinfo::PlayerInfo;

fn fixed_c(s: &str, len: usize) -> Vec<u8> {
    let mut v = s.as_bytes().to_vec();
    while v.len() < len {
        v.push(0);
    }
    v
}

fn example_header_bytes() -> Vec<u8> {
    let mut v: Vec<u8> = Vec::new();
    v.extend_from_slice(&fixed_c("HL2DEMO", 8));
    v.extend_from_slice(&4i32.to_le_bytes());
    v.extend_from_slice(&13769i32.to_le_bytes());
    v.extend_from_slice(&fixed_c("Kanaliiga #2", 260));
    v.extend_from_slice(&fixed_c("GOTV Demo", 260));
    v.extend_from_slice(&fixed_c("de_vertigo", 260));
    v.extend_from_slice(&fixed_c("csgo", 260));
    v.extend_from_slice(&2179.953125f32.to_bits().to_le_bytes());
    v.extend_from_slice(&279034i32.to_le_bytes());
    v.extend_from_slice(&139406i32.to_le_bytes());
    v.extend_from_slice(&447407i32.to_le_bytes());
    v
}

#[test]
fn header_parse() {
    let data = example_header_bytes();
    let mut reader = BitReader::new(data.as_slice());
    let header = Header::new(&mut reader).unwrap();
    assert_eq!("HL2DEMO", header.magic);
    assert_eq!(4, header.demo_protocol);
    assert_eq!(13769, header.network_protocol);
    assert_eq!("Kanaliiga #2", header.server_name);
    assert_eq!("GOTV Demo", header.client_name);
    assert_eq!("de_vertigo", header.map);
    assert_eq!("csgo", header.directory);
    assert_eq!(2179.953125f32.to_bits(), header.playback_time_bits);
    assert_eq!(279034, header.playback_ticks);
    assert_eq!(139406, header.playback_frames);
    assert_eq!(447407, header.signon_length);
}

#[test]
fn header_rejects_bad_magic() {
    let mut data = example_header_bytes();
    data[0] = b'X';
    let mut reader = BitReader::new(data.as_slice());
    let e = Header::new(&mut reader).unwrap_err();
    assert!(matches!(e, demostats::DemoError::Format { .. }));
}

#[test]
fn eof() {
    let data: &[u8] = &[];
    let mut reader = BitReader::new(data);
    assert!(Cmd::parse(&mut reader).unwrap().is_none());
}

#[test]
fn read_var() {
    let empty: &[u8] = &[];
    assert_eq!(None, BitReader::new(empty).read_var_u32().ok());
    assert_eq!(Some(1), BitReader::new(&[1u8][..]).read_var_u32().ok());
    assert_eq!(None, BitReader::new(&[255u8][..]).read_var_u32().ok());
    assert_eq!(Some(4), BitReader::new(&[4u8][..]).read_var_u32().ok());
    assert_eq!(Some(2226), BitReader::new(&[178u8, 17u8][..]).read_var_u32().ok());
}

fn test_header() -> Header {
    Header {
        magic: "HL2DEMO".to_string(),
        demo_protocol: 4,
        network_protocol: 0,
        server_name: String::new(),
        client_name: String::new(),
        map: String::new(),
        directory: String::new(),
        playback_time_bits: 1.0f32.to_bits(),
        playback_ticks: 1,
        playback_frames: 0,
        signon_length: 0,
    }
}

fn gen_player(state: &mut State, id: i32, team: bool) -> i32 {
    let info = PlayerInfo {
        version: 0,
        xuid: 0,
        name: format!("Player {}", id),
        user_id: id,
        guid: format!("STEAMGUID-{}", id),
        friends_id: 0,
        friends_name: format!("FriendsName{}", id),
        fake: false,
        proxy: false,
        custom_files_crc: [0, 0, 0, 0],
        files_downloaded: 0,
        entity_id: 0,
    };
    state.players.insert(id as i64, Player::new(info));
    state.teams.insert(id as i64, team);
    id
}

fn stat(state: &State, id: i32) -> (i32, i32, i32, i32) {
    let player = state.players.get(id as i64).unwrap();
    (player.kills, player.assists, player.deaths, player.flash_assists)
}

#[test]
fn kills() {
    // tick rate derived as frame count over duration: zero frames here.
    let mut state = State::new(test_header(), 0);
    let killer = Some(gen_player(&mut state, 1, false));
    let victim = gen_player(&mut state, 2, true);
    let assister = gen_player(&mut state, 3, false);
    let friendly_assister = gen_player(&mut state, 4, true);

    assert_eq!(stat(&state, killer.unwrap()), (0, 0, 0, 0));
    assert_eq!(stat(&state, victim), (0, 0, 0, 0));
    assert_eq!(stat(&state, assister), (0, 0, 0, 0));
    assert_eq!(stat(&state, friendly_assister), (0, 0, 0, 0));

    state.update_stats(victim, killer, None, false, "knife");

    assert_eq!(stat(&state, killer.unwrap()), (1, 0, 0, 0));
    assert_eq!(stat(&state, victim), (0, 0, 1, 0));
    assert_eq!(stat(&state, assister), (0, 0, 0, 0));
    assert_eq!(stat(&state, friendly_assister), (0, 0, 0, 0));

    state.update_stats(victim, killer, Some(assister), false, "knife");

    assert_eq!(stat(&state, killer.unwrap()), (2, 0, 0, 0));
    assert_eq!(stat(&state, victim), (0, 0, 2, 0));
    assert_eq!(stat(&state, assister), (0, 1, 0, 0));
    assert_eq!(stat(&state, friendly_assister), (0, 0, 0, 0));

    state.update_stats(victim, killer, Some(assister), true, "knife");

    assert_eq!(stat(&state, killer.unwrap()), (3, 0, 0, 0));
    assert_eq!(stat(&state, victim), (0, 0, 3, 0));
    assert_eq!(stat(&state, assister), (0, 1, 0, 1));
    assert_eq!(stat(&state, friendly_assister), (0, 0, 0, 0));

    state.update_stats(victim, killer, Some(friendly_assister), false, "knife");

    assert_eq!(stat(&state, killer.unwrap()), (4, 0, 0, 0));
    assert_eq!(stat(&state, victim), (0, 0, 4, 0));
    assert_eq!(stat(&state, assister), (0, 1, 0, 1));
    assert_eq!(stat(&state, friendly_assister), (0, -1, 0, 0));
}

#[test]
fn trade_inside_window_promotes_died_to_traded() {
    let mut state = State::new(test_header(), 10);
    gen_player(&mut state, 1, true);
    gen_player(&mut state, 2, false);
    gen_player(&mut state, 3, true);
    state.current_tick = 0;
    state.update_stats(1, Some(2), None, false, "rifle");
    assert_eq!(*state.current_round_player_state.get(1).unwrap(), PlayerState::Died(2, 0));
    // 181 ticks at 10 ticks per second: 18.1 seconds, inside the window.
    state.current_tick = 181;
    state.update_stats(2, Some(3), None, false, "rifle");
    assert_eq!(*state.current_round_player_state.get(1).unwrap(), PlayerState::Traded);
    state.update_player_kast_score();
    assert_eq!(state.players.get(1).unwrap().kast, 1);
}

#[test]
fn trade_outside_window_stays_died() {
    let mut state = State::new(test_header(), 10);
    gen_player(&mut state, 1, true);
    gen_player(&mut state, 2, false);
    gen_player(&mut state, 3, true);
    state.current_tick = 0;
    state.update_stats(1, Some(2), None, false, "rifle");
    // 183 ticks at 10 ticks per second: 18.3 seconds, too late.
    state.current_tick = 183;
    state.update_stats(2, Some(3), None, false, "rifle");
    assert_eq!(*state.current_round_player_state.get(1).unwrap(), PlayerState::Died(2, 0));
    state.update_player_kast_score();
    assert_eq!(state.players.get(1).unwrap().kast, 0);
    assert_eq!(state.players.get(3).unwrap().kast, 1);
}

#[test]
fn round_sixteen_swaps_score() {
    let mut state = State::new(test_header(), 0);
    state.score = (3, 12);
    state.current_round = 15;
    state.handle_round_start();
    assert_eq!(state.current_round, 16);
    assert_eq!(state.score, (12, 3));
}

#[test]
fn final_rosters_sorted_by_kills() {
    let mut state = State::new(test_header(), 0);
    gen_player(&mut state, 1, true);
    gen_player(&mut state, 2, true);
    gen_player(&mut state, 3, false);
    gen_player(&mut state, 4, false);
    state.players.remove(1);
    let mut p1 = {
        let info = state.players.get(2).unwrap().info.duplicate();
        Player::new(info)
    };
    p1.kills = 1;
    state.players.insert(1, p1);
    state.score = (5, 3);
    let (winners, losers) = state.final_rosters();
    assert_eq!(winners.len(), 2);
    assert_eq!(losers.len(), 2);
    assert_eq!(winners[0].kills, 1);
    assert_eq!(winners[1].kills, 0);
}

#[test]
fn current_time_formats_minutes_and_seconds() {
    let mut state = State::new(test_header(), 10);
    state.current_tick = 1250;
    assert_eq!("2m 5s", state.current_time());
}

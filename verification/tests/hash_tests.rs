use demostats::header::Header;
use demostats::player::Player;
use demostats::playerinfo::PlayerInfo;
use demostats::stable_hasher::{match_hash, StableHasher};

fn header() -> Header {
    Header {
        magic: "HL2DEMO".to_string(),
        demo_protocol: 4,
        network_protocol: 13769,
        server_name: "server one".to_string(),
        client_name: "GOTV Demo".to_string(),
        map: "de_vertigo".to_string(),
        directory: "csgo".to_string(),
        playback_time_bits: 0,
        playback_ticks: 1000,
        playback_frames: 500,
        signon_length: 0,
    }
}

fn player(xuid: i64) -> Player {
    Player::new(PlayerInfo {
        version: 0,
        xuid,
        name: format!("p{}", xuid),
        user_id: xuid as i32,
        guid: String::new(),
        friends_id: 0,
        friends_name: String::new(),
        fake: false,
        proxy: false,
        custom_files_crc: [0, 0, 0, 0],
        files_downloaded: 0,
        entity_id: 0,
    })
}

#[test]
fn hasher_mixes_bytes_deterministically() {
    let mut a = StableHasher::new();
    a.write(&[1, 2, 3]);
    let mut b = StableHasher::new();
    b.write(&[1]);
    b.write(&[2, 3]);
    assert_eq!(a.finish(), b.finish());
    let mut c = StableHasher::new();
    c.write(&[3, 2, 1]);
    assert_ne!(a.finish(), c.finish());
}

#[test]
fn match_hash_is_stable_across_runs() {
    let w = vec![player(10), player(11)];
    let l = vec![player(20), player(21)];
    let h1 = match_hash(&header(), &w, &l);
    let w2 = vec![player(10), player(11)];
    let l2 = vec![player(20), player(21)];
    let h2 = match_hash(&header(), &w2, &l2);
    assert_eq!(h1, h2);
}

#[test]
fn match_hash_depends_on_rosters_and_header() {
    let w = vec![player(10)];
    let l = vec![player(20)];
    let base = match_hash(&header(), &w, &l);
    let swapped = match_hash(&header(), &l, &w);
    assert_ne!(base, swapped);
    let mut h2 = header();
    h2.playback_ticks = 1001;
    assert_ne!(base, match_hash(&h2, &w, &l));
}

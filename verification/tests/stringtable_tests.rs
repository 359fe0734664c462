use demostats::cmd::Cmd;
use demostats::header::Header;
use demostats::messages::{CreateStringTableMsg, UpdateStringTableMsg};
use demostats::parse_game::State;
use demostats::stringtables::create_string_table;
use demostats::DemoError;

struct BitSink {
    bytes: Vec<u8>,
    bit: usize,
}

impl BitSink {
    fn new() -> BitSink {
        BitSink { bytes: Vec::new(), bit: 0 }
    }

    fn put_bit(&mut self, b: bool) {
        if self.bit % 8 == 0 {
            self.bytes.push(0);
        }
        if b {
            let n = self.bytes.len();
            self.bytes[n - 1] |= 1 << (self.bit % 8);
        }
        self.bit += 1;
    }

    fn put_bits(&mut self, v: u64, n: usize) {
        for i in 0..n {
            self.put_bit((v >> i) & 1 == 1);
        }
    }

    fn put_bytes(&mut self, bs: &[u8]) {
        for b in bs {
            self.put_bits(*b as u64, 8);
        }
    }
}

fn userinfo_msg(num_entries: i32, stream: Vec<u8>) -> CreateStringTableMsg {
    CreateStringTableMsg {
        name: Some("userinfo".to_string()),
        max_entries: Some(4),
        num_entries: Some(num_entries),
        user_data_fixed_size: Some(false),
        user_data_size_bits: None,
        flags: Some(0),
        string_data: Some(stream),
    }
}

fn two_entry_stream() -> Vec<u8> {
    let mut w = BitSink::new();
    w.put_bit(false); // no dictionary encoding
    // entry 0: sequential index, literal content "ab", no user data
    w.put_bit(true);
    w.put_bit(true);
    w.put_bit(false);
    w.put_bytes(b"ab\0");
    w.put_bit(false);
    // entry 1: sequential index, one byte copied from history slot 0 plus
    // literal suffix "z", no user data
    w.put_bit(true);
    w.put_bit(true);
    w.put_bit(true);
    w.put_bits(0, 5);
    w.put_bits(1, 5);
    w.put_bytes(b"z\0");
    w.put_bit(false);
    w.bytes
}

#[test]
fn history_substring_reconstruction() {
    let (table, players) = create_string_table(userinfo_msg(2, two_entry_stream()))
        .unwrap()
        .unwrap();
    assert_eq!(players.length(), 0);
    assert_eq!(table.cursor(), 1);
    assert_eq!(table.history_len(), 2);
    assert_eq!(table.get_entry(0).unwrap().0, b"ab".to_vec());
    assert_eq!(table.get_entry(1).unwrap().0, b"az".to_vec());
}

#[test]
fn replay_from_same_state_matches() {
    let (ta, _) = create_string_table(userinfo_msg(2, two_entry_stream())).unwrap().unwrap();
    let (tb, _) = create_string_table(userinfo_msg(2, two_entry_stream())).unwrap().unwrap();
    assert_eq!(ta.cursor(), tb.cursor());
    assert_eq!(ta.history_len(), tb.history_len());
    for i in 0..4 {
        match (ta.get_entry(i), tb.get_entry(i)) {
            (Some(a), Some(b)) => assert_eq!(a, b),
            (None, None) => {}
            _ => panic!("replayed decode diverged at entry {}", i),
        }
    }
}

#[test]
fn history_reference_out_of_range_fails() {
    let mut w = BitSink::new();
    w.put_bit(false); // no dictionary encoding
    // first entry already asks for a history slot, but the history is empty
    w.put_bit(true);
    w.put_bit(true);
    w.put_bit(true);
    w.put_bits(0, 5);
    let e = create_string_table(userinfo_msg(1, w.bytes)).unwrap_err();
    assert!(matches!(e, DemoError::Format { .. }));
}

#[test]
fn dictionary_encoding_is_refused() {
    let mut w = BitSink::new();
    w.put_bit(true);
    let e = create_string_table(userinfo_msg(0, w.bytes)).unwrap_err();
    assert_eq!(e, DemoError::Format { bit_offset: 0 });
}

#[test]
fn other_table_names_are_ignored() {
    let msg = CreateStringTableMsg {
        name: Some("decalprecache".to_string()),
        max_entries: Some(4),
        num_entries: Some(0),
        user_data_fixed_size: Some(false),
        user_data_size_bits: None,
        flags: Some(0),
        string_data: Some(vec![0]),
    };
    assert!(create_string_table(msg).unwrap().is_none());
}

fn playerinfo_record(xuid: u64, name: &str, user_id: u32) -> Vec<u8> {
    let mut v: Vec<u8> = Vec::new();
    v.extend_from_slice(&0u64.to_be_bytes());
    v.extend_from_slice(&xuid.to_be_bytes());
    let mut nm = name.as_bytes().to_vec();
    while nm.len() < 128 {
        nm.push(0);
    }
    v.extend_from_slice(&nm);
    v.extend_from_slice(&user_id.to_be_bytes());
    v.extend_from_slice(&[0u8; 32]);
    v.extend_from_slice(&0u32.to_be_bytes());
    v.extend_from_slice(&[0u8; 128]);
    v.push(0);
    v.push(0);
    v.extend_from_slice(&[0u8; 16]);
    v.push(0);
    v
}

#[test]
fn user_data_decodes_player_identity() {
    let rec = playerinfo_record(42, "Alice", 7);
    assert_eq!(rec.len(), 331);
    let mut w = BitSink::new();
    w.put_bit(false);
    w.put_bit(true); // sequential index: slot 0
    w.put_bit(true); // fresh content
    w.put_bit(false);
    w.put_bytes(b"p\0");
    w.put_bit(true); // user data follows
    w.put_bits(rec.len() as u64, 14);
    w.put_bytes(&rec);
    let (_, players) = create_string_table(userinfo_msg(1, w.bytes)).unwrap().unwrap();
    assert_eq!(players.length(), 1);
    let p = players.get(7).unwrap();
    assert_eq!(p.xuid, 42);
    assert_eq!(p.name, "Alice");
    assert_eq!(p.user_id, 7);
    assert_eq!(p.entity_id, 0);
}

fn identity_stream(xuid: u64, name: &str, user_id: u32) -> Vec<u8> {
    let rec = playerinfo_record(xuid, name, user_id);
    let mut w = BitSink::new();
    w.put_bit(false);
    w.put_bit(true);
    w.put_bit(true);
    w.put_bit(false);
    w.put_bytes(b"p\0");
    w.put_bit(true);
    w.put_bits(rec.len() as u64, 14);
    w.put_bytes(&rec);
    w.bytes
}

#[test]
fn update_carries_stats_across_user_id_churn() {
    let header = Header {
        magic: "HL2DEMO".to_string(),
        demo_protocol: 4,
        network_protocol: 0,
        server_name: String::new(),
        client_name: String::new(),
        map: String::new(),
        directory: String::new(),
        playback_time_bits: 0,
        playback_ticks: 0,
        playback_frames: 0,
        signon_length: 0,
    };
    let mut state = State::new(header, 64);
    state
        .handle_command(Cmd::CreateStringTable(userinfo_msg(1, identity_stream(42, "Alice", 7))))
        .unwrap();
    assert_eq!(state.players.get(7).unwrap().name, "Alice");
    state.teams.insert(7, true);
    state.teams.insert(99, false);
    let mut other = state.players.get(7).unwrap().duplicate();
    other.info.xuid = 500;
    other.info.user_id = 99;
    state.players.insert(99, other);
    state.update_stats(99, Some(7), None, false, "rifle");
    assert_eq!(state.players.get(7).unwrap().kills, 1);
    // the same identity reappears under a new in-match user id
    let update = UpdateStringTableMsg {
        table_id: Some(0),
        num_changed_entries: Some(1),
        string_data: Some(identity_stream(42, "Alice", 9)),
    };
    state.handle_command(Cmd::UpdateStringTable(update)).unwrap();
    assert!(state.players.get(7).is_none());
    let p = state.players.get(9).unwrap();
    assert_eq!(p.kills, 1);
    assert_eq!(p.info.user_id, 9);
    assert_eq!(p.info.xuid, 42);
}

#[test]
fn fixed_width_user_data_must_fit_one_byte() {
    // a 12-bit fixed-width payload whose value exceeds a byte is refused
    let mut w = BitSink::new();
    w.put_bit(false);
    w.put_bit(true);
    w.put_bit(true);
    w.put_bit(false);
    w.put_bytes(b"q\0");
    w.put_bit(true);
    w.put_bits(0x400, 12);
    let msg = CreateStringTableMsg {
        name: Some("userinfo".to_string()),
        max_entries: Some(4),
        num_entries: Some(1),
        user_data_fixed_size: Some(true),
        user_data_size_bits: Some(12),
        flags: Some(0),
        string_data: Some(w.bytes),
    };
    let e = create_string_table(msg).unwrap_err();
    assert!(matches!(e, DemoError::Format { .. }));
}

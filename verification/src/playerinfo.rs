use vstd::prelude::*;
use crate::bitreader::{
    before_nul, be_bytes_val, byte_at, bytes_seq, lossy_utf8, to_i32, to_i64, BitReader,
};
use crate::error::DemoError;

verus! {

/// One decoded player-identity record, as carried in the player-identity
/// string table. The layout is fixed-width and big-endian: trailing bytes of
/// each string field are NUL padding.
#[derive(Clone, Debug)]
pub struct PlayerInfo {
    pub version: u64,
    pub xuid: i64,
    pub name: String,
    pub user_id: i32,
    pub guid: String,
    pub friends_id: u32,
    pub friends_name: String,
    pub fake: bool,
    pub proxy: bool,
    pub custom_files_crc: [u32; 4],
    pub files_downloaded: u8,
    pub entity_id: i64,
}

/// The fixed byte length of an encoded player-identity record.
pub open spec fn playerinfo_len_bytes() -> int {
    331
}

/// The mathematical shape of a decoded record.
pub struct PlayerInfoV {
    pub version: nat,
    pub xuid: int,
    pub name: Seq<char>,
    pub user_id: int,
    pub guid: Seq<char>,
    pub friends_id: nat,
    pub friends_name: Seq<char>,
    pub fake: bool,
    pub proxy: bool,
    pub custom_files_crc: Seq<nat>,
    pub files_downloaded: nat,
    pub entity_id: int,
}

impl View for PlayerInfo {
    type V = PlayerInfoV;

    open spec fn view(&self) -> PlayerInfoV {
        PlayerInfoV {
            version: self.version as nat,
            xuid: self.xuid as int,
            name: self.name@,
            user_id: self.user_id as int,
            guid: self.guid@,
            friends_id: self.friends_id as nat,
            friends_name: self.friends_name@,
            fake: self.fake,
            proxy: self.proxy,
            custom_files_crc: Seq::new(4, |i: int| self.custom_files_crc@[i] as nat),
            files_downloaded: self.files_downloaded as nat,
            entity_id: self.entity_id as int,
        }
    }
}

/// The record that the fixed big-endian layout at the start of `data` holds,
/// owned by string-table slot `entry_index`.
pub open spec fn spec_playerinfo(data: Seq<u8>, entry_index: int) -> PlayerInfoV {
    PlayerInfoV {
        version: be_bytes_val(data, 0, 8),
        xuid: to_i64(be_bytes_val(data, 64, 8)),
        name: lossy_utf8(before_nul(bytes_seq(data, 128, 128))),
        user_id: to_i32(be_bytes_val(data, 1152, 4)),
        guid: lossy_utf8(before_nul(bytes_seq(data, 1184, 32))),
        friends_id: be_bytes_val(data, 1440, 4),
        friends_name: lossy_utf8(before_nul(bytes_seq(data, 1472, 128))),
        fake: byte_at(data, 2496) != 0,
        proxy: byte_at(data, 2504) != 0,
        custom_files_crc: Seq::new(4, |i: int| be_bytes_val(data, 2512 + 32 * i, 4)),
        files_downloaded: byte_at(data, 2640),
        entity_id: entry_index,
    }
}

impl PlayerInfo {
    /// A fresh copy of the record, field for field.
    pub fn duplicate(&self) -> (r: PlayerInfo)
        ensures
            r@ == self@,
    {
        let r = PlayerInfo {
            version: self.version,
            xuid: self.xuid,
            name: self.name.clone(),
            user_id: self.user_id,
            guid: self.guid.clone(),
            friends_id: self.friends_id,
            friends_name: self.friends_name.clone(),
            fake: self.fake,
            proxy: self.proxy,
            custom_files_crc: self.custom_files_crc,
            files_downloaded: self.files_downloaded,
            entity_id: self.entity_id,
        };
        proof {
            assert(r@.custom_files_crc =~= self@.custom_files_crc);
        }
        r
    }

    /// Decode one record from its fixed-width buffer; `entry_index` is the
    /// owning string-table slot. A buffer shorter than the fixed layout is a
    /// truncation error.
    pub fn new(entry_index: i64, buf: &[u8]) -> (res: Result<PlayerInfo, DemoError>)
        requires
            buf@.len() * 8 <= usize::MAX,
        ensures
            match res {
                Ok(p) => buf@.len() >= playerinfo_len_bytes() && p@ == spec_playerinfo(
                    buf@,
                    entry_index as int,
                ),
                Err(e) => buf@.len() < playerinfo_len_bytes() && e == (DemoError::Truncated {
                    bit_offset: (8 * buf@.len()) as usize,
                }),
            },
    {
        let mut r = BitReader::new(buf);
        let version = match r.read_u64_be() {
            Ok(v) => v,
            Err(e) => {
                return Err(e);
            },
        };
        let xuid = match r.read_i64_be() {
            Ok(v) => v,
            Err(e) => {
                return Err(e);
            },
        };
        let name = match r.read_fixed_c_string(128) {
            Ok(v) => v,
            Err(e) => {
                return Err(e);
            },
        };
        let user_id = match r.read_i32_be() {
            Ok(v) => v,
            Err(e) => {
                return Err(e);
            },
        };
        let guid = match r.read_fixed_c_string(32) {
            Ok(v) => v,
            Err(e) => {
                return Err(e);
            },
        };
        let friends_id = match r.read_u32_be() {
            Ok(v) => v,
            Err(e) => {
                return Err(e);
            },
        };
        let friends_name = match r.read_fixed_c_string(128) {
            Ok(v) => v,
            Err(e) => {
                return Err(e);
            },
        };
        let fake = match r.read_u8() {
            Ok(v) => v,
            Err(e) => {
                return Err(e);
            },
        };
        let proxy = match r.read_u8() {
            Ok(v) => v,
            Err(e) => {
                return Err(e);
            },
        };
        let crc0 = match r.read_u32_be() {
            Ok(v) => v,
            Err(e) => {
                return Err(e);
            },
        };
        let crc1 = match r.read_u32_be() {
            Ok(v) => v,
            Err(e) => {
                return Err(e);
            },
        };
        let crc2 = match r.read_u32_be() {
            Ok(v) => v,
            Err(e) => {
                return Err(e);
            },
        };
        let crc3 = match r.read_u32_be() {
            Ok(v) => v,
            Err(e) => {
                return Err(e);
            },
        };
        let files_downloaded = match r.read_u8() {
            Ok(v) => v,
            Err(e) => {
                return Err(e);
            },
        };
        let custom_files_crc = [crc0, crc1, crc2, crc3];
        let p = PlayerInfo {
            version,
            xuid,
            name,
            user_id,
            guid,
            friends_id,
            friends_name,
            fake: fake != 0,
            proxy: proxy != 0,
            custom_files_crc,
            files_downloaded,
            entity_id: entry_index,
        };
        proof {
            assert(custom_files_crc@[0] == crc0 && custom_files_crc@[1] == crc1
                && custom_files_crc@[2] == crc2 && custom_files_crc@[3] == crc3);
            assert(p@.custom_files_crc =~= spec_playerinfo(buf@, entry_index as int
            ).custom_files_crc);
            assert(p@ == spec_playerinfo(buf@, entry_index as int));
        }
        Ok(p)
    }
}

} // verus!

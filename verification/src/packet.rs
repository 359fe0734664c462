use vstd::prelude::*;
use crate::bitreader::{byte_at, bytes_seq, le_bytes_val, to_i32, BitReader};
use crate::error::DemoError;

verus! {

/// The type tag of one outer per-tick record.
#[derive(Clone, Copy, Debug, PartialEq, Eq, Structural)]
pub enum CmdType {
    SignOn,
    Packet,
    SyncTick,
    ConsoleCmd,
    UserCmd,
    DataTables,
    Stop,
    CustomData,
    StringTables,
}

/// The record type a tag byte stands for; any byte outside 1..=9 stands for
/// nothing and is fatal.
pub open spec fn cmd_type_of(b: nat) -> Option<CmdType> {
    if b == 1 {
        Some(CmdType::SignOn)
    } else if b == 2 {
        Some(CmdType::Packet)
    } else if b == 3 {
        Some(CmdType::SyncTick)
    } else if b == 4 {
        Some(CmdType::ConsoleCmd)
    } else if b == 5 {
        Some(CmdType::UserCmd)
    } else if b == 6 {
        Some(CmdType::DataTables)
    } else if b == 7 {
        Some(CmdType::Stop)
    } else if b == 8 {
        Some(CmdType::CustomData)
    } else if b == 9 {
        Some(CmdType::StringTables)
    } else {
        None
    }
}

/// The fixed prefix of every outer per-tick record: a 1-byte record type, a
/// 4-byte signed tick number, and a 1-byte player slot.
#[derive(Clone, Copy, Debug)]
pub struct PacketHeader {
    pub cmd_type: CmdType,
    pub tick: i32,
    pub player_slot: u8,
}

impl PacketHeader {
    /// Parse the 6-byte record prefix at the reader's cursor. A type byte
    /// outside the nine known records is a format error; an input too short
    /// is a truncation error.
    pub fn new(r: &mut BitReader) -> (res: Result<PacketHeader, DemoError>)
        requires
            old(r).wf(),
        ensures
            final(r).wf(),
            final(r).stream() == old(r).stream(),
            match res {
                Ok(h) => {
                    &&& old(r).pos() + 48 <= old(r).total_bits()
                    &&& cmd_type_of(byte_at(old(r).stream(), old(r).pos())) == Some(h.cmd_type)
                    &&& h.tick as int == to_i32(le_bytes_val(old(r).stream(), old(r).pos() + 8, 4))
                    &&& h.player_slot as nat == byte_at(old(r).stream(), old(r).pos() + 40)
                    &&& final(r).pos() == old(r).pos() + 48
                },
                Err(DemoError::Truncated { .. }) => old(r).pos() + 48 > old(r).total_bits(),
                Err(DemoError::Format { .. }) => old(r).pos() + 48 <= old(r).total_bits()
                    && cmd_type_of(byte_at(old(r).stream(), old(r).pos())) is None,
                Err(DemoError::SchemaMismatch { .. }) => false,
            },
    {
        let start = r.bit_pos();
        let tag = match r.read_u8() {
            Ok(v) => v,
            Err(e) => {
                return Err(e);
            },
        };
        let tick = match r.read_i32() {
            Ok(v) => v,
            Err(e) => {
                return Err(e);
            },
        };
        let player_slot = match r.read_u8() {
            Ok(v) => v,
            Err(e) => {
                return Err(e);
            },
        };
        let cmd_type = match tag {
            1 => CmdType::SignOn,
            2 => CmdType::Packet,
            3 => CmdType::SyncTick,
            4 => CmdType::ConsoleCmd,
            5 => CmdType::UserCmd,
            6 => CmdType::DataTables,
            7 => CmdType::Stop,
            8 => CmdType::CustomData,
            9 => CmdType::StringTables,
            _ => {
                return Err(DemoError::Format { bit_offset: start });
            },
        };
        Ok(PacketHeader { cmd_type, tick, player_slot })
    }
}

/// The bytes a record of each type carries before its payload length: the
/// sign-on and packet records carry two fixed camera-info blocks and two
/// sequence numbers, 160 bytes in all.
pub open spec fn record_preamble_bytes() -> int {
    160
}

/// Read past one outer record's body at the reader's cursor, handing back
/// the command payload it carries, if any. Sign-on and packet records skip
/// their camera blocks and sequence numbers, then read a 4-byte length and
/// that many payload bytes; a data-tables record skips its length-prefixed
/// block; a sync-tick or stop record carries nothing. The four record types
/// this pipeline does not support are a format error, never silently
/// skipped.
pub fn read_record_payload(r: &mut BitReader, t: CmdType) -> (res: Result<
    Option<Vec<u8>>,
    DemoError,
>)
    requires
        old(r).wf(),
    ensures
        final(r).wf(),
        final(r).stream() == old(r).stream(),
        match res {
            Ok(Some(v)) => {
                let size = le_bytes_val(old(r).stream(), old(r).pos() + 8 * record_preamble_bytes(), 4);
                &&& (t == CmdType::SignOn || t == CmdType::Packet)
                &&& old(r).pos() + 8 * (record_preamble_bytes() + 4) + 8 * size <= old(
                    r,
                ).total_bits()
                &&& v@ == bytes_seq(
                    old(r).stream(),
                    old(r).pos() + 8 * (record_preamble_bytes() + 4),
                    size,
                )
                &&& final(r).pos() == old(r).pos() + 8 * (record_preamble_bytes() + 4) + 8 * size
            },
            Ok(None) => {
                ||| ((t == CmdType::SyncTick || t == CmdType::Stop) && final(r).pos() == old(
                    r,
                ).pos())
                ||| (t == CmdType::DataTables && final(r).pos() == old(r).pos() + 32 + 8
                    * le_bytes_val(old(r).stream(), old(r).pos(), 4))
            },
            Err(DemoError::Format { .. }) => t == CmdType::ConsoleCmd || t == CmdType::UserCmd || t
                == CmdType::CustomData || t == CmdType::StringTables,
            Err(DemoError::Truncated { .. }) => {
                ||| ((t == CmdType::SignOn || t == CmdType::Packet) && (old(r).pos() + 8 * (
                record_preamble_bytes() + 4) > old(r).total_bits() || old(r).pos() + 8 * (
                record_preamble_bytes() + 4) + 8 * le_bytes_val(
                    old(r).stream(),
                    old(r).pos() + 8 * record_preamble_bytes(),
                    4,
                ) > old(r).total_bits()))
                ||| (t == CmdType::DataTables && (old(r).pos() + 32 > old(r).total_bits() || old(
                    r,
                ).pos() + 32 + 8 * le_bytes_val(old(r).stream(), old(r).pos(), 4) > old(
                    r,
                ).total_bits()))
            },
            Err(DemoError::SchemaMismatch { .. }) => false,
        },
{
    match t {
        CmdType::SyncTick => Ok(None),
        CmdType::Stop => Ok(None),
        CmdType::ConsoleCmd | CmdType::UserCmd | CmdType::CustomData | CmdType::StringTables => {
            Err(DemoError::Format { bit_offset: r.bit_pos() })
        },
        CmdType::DataTables => {
            let size = match r.read_u32() {
                Ok(v) => v,
                Err(e) => {
                    return Err(e);
                },
            };
            match r.read_u8_vec(size as usize) {
                Ok(_) => Ok(None),
                Err(e) => Err(e),
            }
        },
        CmdType::SignOn | CmdType::Packet => {
            // Two camera-info blocks and two sequence numbers, skipped.
            match r.read_u8_vec(160) {
                Ok(_) => (),
                Err(e) => {
                    return Err(e);
                },
            }
            let size = match r.read_u32() {
                Ok(v) => v,
                Err(e) => {
                    return Err(e);
                },
            };
            match r.read_u8_vec(size as usize) {
                Ok(v) => Ok(Some(v)),
                Err(e) => Err(e),
            }
        },
    }
}

} // verus!

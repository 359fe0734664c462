use vstd::prelude::*;
use crate::bitreader::{
    before_nul, bytes_seq, le_bytes_val, lossy_utf8, string_from_nilslice, to_i32, BitReader,
};
use crate::error::DemoError;

verus! {

/// The fixed-format file header: an 8-byte NUL-terminated magic, two 4-byte
/// signed versions, four 260-byte NUL-padded strings, the playback duration
/// (kept as the raw bits of its 32-bit float), and three 4-byte signed
/// counters. All integers are little-endian. Immutable once parsed.
#[derive(Clone, Debug)]
pub struct Header {
    pub magic: String,
    pub demo_protocol: i32,
    pub network_protocol: i32,
    pub server_name: String,
    pub client_name: String,
    pub map: String,
    pub directory: String,
    /// Raw IEEE-754 bits of the 4-byte playback duration in seconds; kept
    /// undecoded so that the parse loses nothing.
    pub playback_time_bits: u32,
    pub playback_ticks: i32,
    pub playback_frames: i32,
    pub signon_length: i32,
}

/// The text the magic field must decode to.
pub open spec fn magic_text() -> Seq<char> {
    "HL2DEMO"@
}

/// The demo-format version this decoder accepts.
pub open spec fn supported_protocol() -> int {
    4
}

/// The header occupies exactly this many bytes.
pub open spec fn header_len_bytes() -> int {
    1072
}

/// What each field of a well-formed header holds, in terms of the bytes at
/// bit position `pos` of the stream.
pub open spec fn header_fields_ok(h: Header, data: Seq<u8>, pos: int) -> bool {
    &&& h.magic@ == lossy_utf8(before_nul(bytes_seq(data, pos, 8)))
    &&& h.demo_protocol as int == to_i32(le_bytes_val(data, pos + 64, 4))
    &&& h.network_protocol as int == to_i32(le_bytes_val(data, pos + 96, 4))
    &&& h.server_name@ == lossy_utf8(before_nul(bytes_seq(data, pos + 128, 260)))
    &&& h.client_name@ == lossy_utf8(before_nul(bytes_seq(data, pos + 2208, 260)))
    &&& h.map@ == lossy_utf8(before_nul(bytes_seq(data, pos + 4288, 260)))
    &&& h.directory@ == lossy_utf8(before_nul(bytes_seq(data, pos + 6368, 260)))
    &&& h.playback_time_bits as nat == le_bytes_val(data, pos + 8448, 4)
    &&& h.playback_ticks as int == to_i32(le_bytes_val(data, pos + 8480, 4))
    &&& h.playback_frames as int == to_i32(le_bytes_val(data, pos + 8512, 4))
    &&& h.signon_length as int == to_i32(le_bytes_val(data, pos + 8544, 4))
}

impl Header {
    /// Parse the header at the reader's cursor. The magic must read
    /// "HL2DEMO" and the demo-format version must be 4; any other value is a
    /// format error, and an input too short for the 1072 header bytes is a
    /// truncation error.
    pub fn new(r: &mut BitReader) -> (res: Result<Header, DemoError>)
        requires
            old(r).wf(),
        ensures
            final(r).wf(),
            final(r).stream() == old(r).stream(),
            match res {
                Ok(h) => {
                    &&& old(r).pos() + 8 * header_len_bytes() <= old(r).total_bits()
                    &&& header_fields_ok(h, old(r).stream(), old(r).pos())
                    &&& h.magic@ == magic_text()
                    &&& h.demo_protocol == supported_protocol()
                    &&& final(r).pos() == old(r).pos() + 8 * header_len_bytes()
                },
                Err(DemoError::Truncated { .. }) => old(r).pos() + 8 * header_len_bytes() > old(
                    r,
                ).total_bits(),
                Err(DemoError::Format { .. }) => {
                    &&& old(r).pos() + 8 * header_len_bytes() <= old(r).total_bits()
                    &&& (lossy_utf8(before_nul(bytes_seq(old(r).stream(), old(r).pos(), 8)))
                        != magic_text() || to_i32(
                        le_bytes_val(old(r).stream(), old(r).pos() + 64, 4),
                    ) != supported_protocol())
                },
                Err(DemoError::SchemaMismatch { .. }) => false,
            },
    {
        let start = r.bit_pos();
        let magic_bytes = match r.read_u8_vec(8) {
            Ok(v) => v,
            Err(e) => {
                return Err(e);
            },
        };
        let magic = string_from_nilslice(magic_bytes.as_slice());
        let demo_protocol = match r.read_i32() {
            Ok(v) => v,
            Err(e) => {
                return Err(e);
            },
        };
        let network_protocol = match r.read_i32() {
            Ok(v) => v,
            Err(e) => {
                return Err(e);
            },
        };
        let server_name = match r.read_fixed_c_string(260) {
            Ok(v) => v,
            Err(e) => {
                return Err(e);
            },
        };
        let client_name = match r.read_fixed_c_string(260) {
            Ok(v) => v,
            Err(e) => {
                return Err(e);
            },
        };
        let map = match r.read_fixed_c_string(260) {
            Ok(v) => v,
            Err(e) => {
                return Err(e);
            },
        };
        let directory = match r.read_fixed_c_string(260) {
            Ok(v) => v,
            Err(e) => {
                return Err(e);
            },
        };
        let playback_time_bits = match r.read_u32() {
            Ok(v) => v,
            Err(e) => {
                return Err(e);
            },
        };
        let playback_ticks = match r.read_i32() {
            Ok(v) => v,
            Err(e) => {
                return Err(e);
            },
        };
        let playback_frames = match r.read_i32() {
            Ok(v) => v,
            Err(e) => {
                return Err(e);
            },
        };
        let signon_length = match r.read_i32() {
            Ok(v) => v,
            Err(e) => {
                return Err(e);
            },
        };
        let expected = String::from_str("HL2DEMO");
        if !(magic == expected) || demo_protocol != 4 {
            return Err(DemoError::Format { bit_offset: start });
        }
        Ok(
            Header {
                magic,
                demo_protocol,
                network_protocol,
                server_name,
                client_name,
                map,
                directory,
                playback_time_bits,
                playback_ticks,
                playback_frames,
                signon_length,
            },
        )
    }
}

} // verus!

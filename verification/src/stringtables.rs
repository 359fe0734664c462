use vstd::prelude::*;
use vstd::arithmetic::power2::*;
use crate::assoc::AssocMap;
use crate::bitreader::{bits_value, bytes_seq, cstr_content, format_err, stream_bit, trunc_err, BitReader};
use crate::error::DemoError;
use crate::messages::{CreateStringTableMsg, UpdateStringTableMsg};
use crate::playerinfo::{playerinfo_len_bytes, spec_playerinfo, PlayerInfo, PlayerInfoV};

verus! {

/// The history queue never holds more than this many entries.
pub open spec fn history_cap() -> int {
    32
}

/// The mathematical state of a string table: its declared shape and the
/// mutable decode state (cursor, stored entries, bounded history of recently
/// written contents, oldest first).
pub struct TableModel {
    pub max_entries: int,
    pub entry_bits: nat,
    pub cursor: int,
    pub fixed: bool,
    pub size_bits: Option<int>,
    pub entries: Map<i64, (Seq<u8>, Seq<u8>)>,
    pub history: Seq<Seq<u8>>,
}

/// What one decoded entry does to the table: fail, or step to a new state at
/// a new bit position, possibly surfacing a freshly decoded player-identity
/// record.
pub enum EntryOutcome {
    Fail(DemoError),
    Next(TableModel, int, Option<PlayerInfoV>),
}

/// What one content read yields: the entry's new content bytes and the bit
/// position after them.
pub enum ContentOutcome {
    CFail(DemoError),
    COk(Seq<u8>, int),
}

/// What one user-data read yields: the payload bytes and the bit position
/// after them.
pub enum UdOutcome {
    UFail(DemoError),
    UOk(Seq<u8>, int),
}

/// What a whole decode call yields: the new table state, the decoded records
/// keyed by their in-match user id, and the final bit position.
pub enum DecodeOutcome {
    Fail(DemoError),
    Done(TableModel, Map<i64, PlayerInfoV>, int),
}

/// Decode one entry at bit position `pos`: first the index-mode bit — set
/// means the cursor advances by one, clear means an explicit
/// `entry_bits`-wide index follows.
#[verifier::opaque]
pub open spec fn table_step(m: TableModel, data: Seq<u8>, pos: int) -> EntryOutcome {
    let total = 8 * data.len();
    if pos + 1 > total {
        EntryOutcome::Fail(trunc_err(data))
    } else {
        let sequential = stream_bit(data, pos) == 1;
        let pos1 = pos + 1;
        if sequential {
            table_step_at(m, data, pos1, m.cursor + 1)
        } else {
            if pos1 + m.entry_bits > total {
                EntryOutcome::Fail(trunc_err(data))
            } else {
                table_step_at(
                    m,
                    data,
                    pos1 + m.entry_bits,
                    bits_value(data, pos1, m.entry_bits) as int,
                )
            }
        }
    }
}

/// Continue a step once the entry index is settled: the index must lie inside
/// the declared capacity; then the content bit — set means new content
/// follows, clear means the content and user data stored at the index are
/// reused (empty values when the index holds nothing).
#[verifier::opaque]
pub open spec fn table_step_at(m: TableModel, data: Seq<u8>, pos: int, idx: int) -> EntryOutcome {
    let total = 8 * data.len();
    if !(0 <= idx < m.max_entries) {
        EntryOutcome::Fail(format_err(pos))
    } else if pos + 1 > total {
        EntryOutcome::Fail(trunc_err(data))
    } else {
        let has_content = stream_bit(data, pos) == 1;
        let pos1 = pos + 1;
        if has_content {
            match table_step_content(m, data, pos1) {
                ContentOutcome::CFail(e) => EntryOutcome::Fail(e),
                ContentOutcome::COk(content, pos2) => table_step_userdata(
                    m,
                    data,
                    pos2,
                    idx,
                    content,
                    Seq::empty(),
                ),
            }
        } else {
            let stored = if m.entries.contains_key(idx as i64) {
                m.entries[idx as i64]
            } else {
                (Seq::<u8>::empty(), Seq::<u8>::empty())
            };
            table_step_userdata(m, data, pos1, idx, stored.0, stored.1)
        }
    }
}

/// Read new content: either (after a set substring bit) a 5-bit history slot
/// whose index must lie inside the current history, a 5-bit copy length that
/// must not exceed that entry, and a literal NUL-terminated suffix appended
/// to the copied prefix; or a literal NUL-terminated string alone.
#[verifier::opaque]
pub open spec fn table_step_content(m: TableModel, data: Seq<u8>, pos: int) -> ContentOutcome {
    let total = 8 * data.len();
    if pos + 1 > total {
        ContentOutcome::CFail(trunc_err(data))
    } else {
        let substring = stream_bit(data, pos) == 1;
        let pos1 = pos + 1;
        if substring {
            if pos1 + 5 > total {
                ContentOutcome::CFail(trunc_err(data))
            } else {
                let hidx = bits_value(data, pos1, 5) as int;
                let pos2 = pos1 + 5;
                if hidx >= m.history.len() {
                    ContentOutcome::CFail(format_err(pos2))
                } else if pos2 + 5 > total {
                    ContentOutcome::CFail(trunc_err(data))
                } else {
                    let copy_len = bits_value(data, pos2, 5) as int;
                    let pos3 = pos2 + 5;
                    if copy_len > m.history[hidx].len() {
                        ContentOutcome::CFail(format_err(pos3))
                    } else {
                        match cstr_content(data, pos3) {
                            None => ContentOutcome::CFail(trunc_err(data)),
                            Some(suffix) => ContentOutcome::COk(
                                m.history[hidx].take(copy_len) + suffix,
                                pos3 + 8 * (suffix.len() + 1),
                            ),
                        }
                    }
                }
            }
        } else {
            match cstr_content(data, pos1) {
                None => ContentOutcome::CFail(trunc_err(data)),
                Some(c) => ContentOutcome::COk(c, pos1 + 8 * (c.len() + 1)),
            }
        }
    }
}

/// Finish a step once content is settled: the user-data bit — set means a
/// payload follows, which is decoded as a player-identity record and
/// surfaced; clear means the reused user data is kept. The entry is stored at
/// the index and its content appended to the bounded history.
#[verifier::opaque]
pub open spec fn table_step_userdata(
    m: TableModel,
    data: Seq<u8>,
    pos: int,
    idx: int,
    content: Seq<u8>,
    reused_ud: Seq<u8>,
) -> EntryOutcome {
    let total = 8 * data.len();
    if pos + 1 > total {
        EntryOutcome::Fail(trunc_err(data))
    } else {
        let has_ud = stream_bit(data, pos) == 1;
        let pos1 = pos + 1;
        if has_ud {
            match table_read_userdata(m, data, pos1) {
                UdOutcome::UFail(e) => EntryOutcome::Fail(e),
                UdOutcome::UOk(ud, pos2) => {
                    if ud.len() < playerinfo_len_bytes() {
                        EntryOutcome::Fail(
                            DemoError::Truncated { bit_offset: (8 * ud.len()) as usize },
                        )
                    } else {
                        EntryOutcome::Next(
                            table_store(m, idx, content, ud),
                            pos2,
                            Some(spec_playerinfo(ud, idx)),
                        )
                    }
                },
            }
        } else {
            EntryOutcome::Next(table_store(m, idx, content, reused_ud), pos1, None)
        }
    }
}

/// Read a user-data payload: for a fixed-size table, exactly the configured
/// number of bits, narrowed to a single byte which the value must fit; for a
/// variable-size table, a 14-bit byte count and that many bytes.
#[verifier::opaque]
pub open spec fn table_read_userdata(m: TableModel, data: Seq<u8>, pos: int) -> UdOutcome {
    let total = 8 * data.len();
    if m.fixed {
        match m.size_bits {
            None => UdOutcome::UFail(format_err(pos)),
            Some(n) => {
                if pos + n > total {
                    UdOutcome::UFail(trunc_err(data))
                } else {
                    let v = bits_value(data, pos, n as nat);
                    if v > 255 {
                        UdOutcome::UFail(format_err(pos + n))
                    } else {
                        UdOutcome::UOk(seq![v as u8], pos + n)
                    }
                }
            },
        }
    } else {
        if pos + 14 > total {
            UdOutcome::UFail(trunc_err(data))
        } else {
            let len = bits_value(data, pos, 14) as int;
            let pos1 = pos + 14;
            if pos1 + 8 * len > total {
                UdOutcome::UFail(trunc_err(data))
            } else {
                UdOutcome::UOk(bytes_seq(data, pos1, len as nat), pos1 + 8 * len)
            }
        }
    }
}

/// Store an entry at its index and append its content to the history,
/// evicting the oldest entry once the queue would exceed its capacity.
pub open spec fn table_store(m: TableModel, idx: int, content: Seq<u8>, ud: Seq<u8>) -> TableModel {
    let trimmed = if m.history.len() > history_cap() - 1 {
        m.history.drop_first()
    } else {
        m.history
    };
    TableModel {
        max_entries: m.max_entries,
        entry_bits: m.entry_bits,
        cursor: idx,
        fixed: m.fixed,
        size_bits: m.size_bits,
        entries: m.entries.insert(idx as i64, (content, ud)),
        history: trimmed.push(content),
    }
}

/// Decode `n` entries in order from bit position `pos`, accumulating the
/// surfaced player-identity records keyed by their in-match user id.
pub open spec fn table_decode_from(
    m: TableModel,
    data: Seq<u8>,
    pos: int,
    n: nat,
    acc: Map<i64, PlayerInfoV>,
) -> DecodeOutcome
    decreases n,
{
    if n == 0 {
        DecodeOutcome::Done(m, acc, pos)
    } else {
        match table_step(m, data, pos) {
            EntryOutcome::Fail(e) => DecodeOutcome::Fail(e),
            EntryOutcome::Next(m2, pos2, w) => table_decode_from(
                m2,
                data,
                pos2,
                (n - 1) as nat,
                match w {
                    None => acc,
                    Some(info) => acc.insert(info.user_id as i64, info),
                },
            ),
        }
    }
}

/// Decode a whole create or update payload: a leading bit set would announce
/// a dictionary encoding this decoder does not support and is a format
/// error; then `n` entries in order.
pub open spec fn table_decode(m: TableModel, data: Seq<u8>, n: nat) -> DecodeOutcome {
    if 8 * data.len() < 1 {
        DecodeOutcome::Fail(trunc_err(data))
    } else if stream_bit(data, 0) == 1 {
        DecodeOutcome::Fail(format_err(0))
    } else {
        table_decode_from(m, data, 1, n, Map::empty())
    }
}

/// Replaying the same captured bitstream through the decoder twice from the
/// same table state yields the same table state and the same records: the
/// decode is a function of its inputs alone.
pub proof fn lemma_table_decode_replay(
    m1: TableModel,
    m2: TableModel,
    data1: Seq<u8>,
    data2: Seq<u8>,
    n: nat,
)
    requires
        m1 == m2,
        data1 == data2,
    ensures
        table_decode(m1, data1, n) == table_decode(m2, data2, n),
{
}

/// A string table: its declared shape, and the decode state that create and
/// update commands advance. The decoded entry index always lies inside
/// `[0, max_entries)`; the history holds at most 32 recently written
/// contents, oldest first.
#[derive(Debug)]
pub struct StringTable {
    max_entries: i32,
    entry_bits: u8,
    entry_index: i64,
    user_data_fixed_size: bool,
    user_data_size_bits: Option<i32>,
    entries: AssocMap<(Vec<u8>, Vec<u8>)>,
    history: Vec<Vec<u8>>,
}

impl StringTable {
    /// The table as its mathematical state.
    pub closed spec fn model(&self) -> TableModel {
        TableModel {
            max_entries: self.max_entries as int,
            entry_bits: self.entry_bits as nat,
            cursor: self.entry_index as int,
            fixed: self.user_data_fixed_size,
            size_bits: match self.user_data_size_bits {
                None => None,
                Some(n) => Some(n as int),
            },
            entries: self.entries@,
            history: Seq::new(self.history@.len(), |i: int| self.history@[i]@),
        }
    }

    /// The internal invariant: distinct entry keys, a bounded history, the
    /// index width exactly wide enough for the declared capacity, a usable
    /// bit width whenever user data is fixed-size, and a cursor inside the
    /// capacity once it has left its starting value.
    pub closed spec fn wf(&self) -> bool {
        &&& self.entries.wf()
        &&& self.history@.len() <= history_cap()
        &&& self.entry_bits <= 31
        &&& self.entry_bits as nat == spec_entry_bits(self.max_entries as int)
        &&& self.user_data_fixed_size ==> match self.user_data_size_bits {
            Some(n) => 1 <= n <= 32,
            None => false,
        }
        &&& -1 <= self.entry_index
        &&& self.entry_index == -1 || self.entry_index < self.max_entries
    }

    /// The stored content and user data at one entry index, if any.
    pub fn get_entry(&self, idx: i64) -> (r: Option<&(Vec<u8>, Vec<u8>)>)
        requires
            self.wf(),
        ensures
            match r {
                Some(pair) => self.model().entries.contains_key(idx) && pair@ == self.model(
                ).entries[idx],
                None => !self.model().entries.contains_key(idx),
            },
    {
        self.entries.get(idx)
    }

    /// The decode cursor: the index of the last decoded entry, one before
    /// the first slot until an entry has been decoded.
    pub fn cursor(&self) -> (r: i64)
        ensures
            r as int == self.model().cursor,
    {
        self.entry_index
    }

    /// How many contents the history queue currently holds.
    pub fn history_len(&self) -> (r: usize)
        ensures
            r as int == self.model().history.len(),
    {
        self.history.len()
    }
}

/// How many bits an explicit entry index occupies: the ceiling of the base-2
/// logarithm of the declared capacity (zero for capacities below two).
pub open spec fn spec_entry_bits(n: int) -> nat
    decreases n,
{
    if n <= 1 {
        0
    } else {
        1 + spec_entry_bits((n + 1) / 2)
    }
}

/// The index width is exactly wide enough: `pow2` of it reaches the capacity
/// and `pow2` of one less does not.
proof fn lemma_entry_bits_char(n: int)
    requires
        n >= 2,
    ensures
        spec_entry_bits(n) >= 1,
        pow2(spec_entry_bits(n)) >= n,
        pow2((spec_entry_bits(n) - 1) as nat) < n,
    decreases n,
{
    let m = (n + 1) / 2;
    lemma2_to64();
    if m >= 2 {
        lemma_entry_bits_char(m);
        let c = spec_entry_bits(m);
        lemma_pow2_unfold((c + 1) as nat);
        assert(pow2(c + 1) == 2 * pow2(c));
        assert(2 * pow2(c) >= 2 * m) by (nonlinear_arith)
            requires
                pow2(c) >= m,
        ;
        assert(2 * m >= n);
        if c >= 1 {
            lemma_pow2_unfold(c);
            assert(pow2(c) == 2 * pow2((c - 1) as nat));
            if n % 2 == 0 {
                assert(2 * m == n);
                assert(2 * pow2((c - 1) as nat) < 2 * m) by (nonlinear_arith)
                    requires
                        pow2((c - 1) as nat) < m,
                ;
            } else {
                assert(2 * m == n + 1);
                assert(2 * pow2((c - 1) as nat) < 2 * m) by (nonlinear_arith)
                    requires
                        pow2((c - 1) as nat) < m,
                ;
                assert(pow2(c) % 2 == 0) by {
                    lemma_pow2_unfold(c);
                }
                assert(pow2(c) != n);
            }
        } else {
            assert(pow2(0) == 1 < n);
        }
    } else {
        assert(n == 2);
        assert(spec_entry_bits(2) == 1 + spec_entry_bits(1));
    }
}

/// No index width above 31 is ever needed for a capacity a 32-bit count can
/// declare.
proof fn lemma_entry_bits_le31(n: int)
    requires
        n <= 0x7FFF_FFFF,
    ensures
        spec_entry_bits(n) <= 31,
{
    if n >= 2 {
        lemma_entry_bits_char(n);
        let c = spec_entry_bits(n);
        if c > 31 {
            lemma2_to64();
            lemma2_to64_rest();
            assert(pow2((c - 1) as nat) >= pow2(31)) by {
                if c - 1 > 31 {
                    lemma_pow2_strictly_increases(31, (c - 1) as nat);
                }
            }
        }
    }
}

/// Only one width satisfies the characterization.
proof fn lemma_entry_bits_unique(n: int, b: nat)
    requires
        n >= 2,
        b >= 1,
        pow2(b) >= n,
        pow2((b - 1) as nat) < n,
    ensures
        b == spec_entry_bits(n),
{
    lemma_entry_bits_char(n);
    let c = spec_entry_bits(n);
    if b < c {
        lemma_pow2_strictly_increases(b, c);
        if b < c - 1 {
            lemma_pow2_strictly_increases(b, (c - 1) as nat);
        }
        assert(pow2(b) <= pow2((c - 1) as nat));
    } else if b > c {
        if c < b - 1 {
            lemma_pow2_strictly_increases(c, (b - 1) as nat);
        }
        assert(pow2(c) <= pow2((b - 1) as nat));
    }
}

/// Compute the index width for a declared capacity.
fn entry_bits_for(max_entries: i32) -> (r: u8)
    ensures
        r as nat == spec_entry_bits(max_entries as int),
        r <= 31,
{
    proof {
        lemma2_to64();
        lemma_entry_bits_le31(max_entries as int);
    }
    if max_entries <= 1 {
        return 0;
    }
    let m = max_entries as u32;
    let mut b: u8 = 0;
    let mut p: u64 = 1;
    while p < m as u64
        invariant
            b <= 31,
            p == pow2(b as nat),
            b > 0 ==> pow2((b - 1) as nat) < m,
            m == max_entries,
            max_entries >= 2,
        decreases 2 * (m as int) - p,
    {
        proof {
            lemma2_to64();
            lemma_pow2_unfold((b + 1) as nat);
            if b == 31 {
                assert(pow2(31) == 0x8000_0000);
                assert(false);
            }
        }
        p = p * 2;
        b = b + 1;
    }
    proof {
        lemma2_to64();
        assert(b >= 1);
        lemma_entry_bits_unique(max_entries as int, b as nat);
    }
    b
}

/// A fresh copy of a byte vector.
fn copy_bytes(v: &Vec<u8>) -> (r: Vec<u8>)
    ensures
        r@ == v@,
{
    let mut out: Vec<u8> = Vec::new();
    let mut i: usize = 0;
    while i < v.len()
        invariant
            i <= v@.len(),
            out@ == v@.take(i as int),
        decreases v@.len() - i,
    {
        proof {
            assert(out@.push(v@[i as int]) =~= v@.take(i + 1));
        }
        out.push(v[i]);
        i = i + 1;
    }
    proof {
        assert(v@.take(v@.len() as int) =~= v@);
    }
    out
}

/// The first `n` bytes of a vector, as a fresh vector.
fn take_bytes(v: &Vec<u8>, n: usize) -> (r: Vec<u8>)
    requires
        n <= v@.len(),
    ensures
        r@ == v@.take(n as int),
{
    let mut out: Vec<u8> = Vec::new();
    let mut i: usize = 0;
    while i < n
        invariant
            i <= n <= v@.len(),
            out@ == v@.take(i as int),
        decreases n - i,
    {
        proof {
            assert(out@.push(v@[i as int]) =~= v@.take(i + 1));
        }
        out.push(v[i]);
        i = i + 1;
    }
    out
}

/// Append one byte vector to another.
fn append_bytes(dst: &mut Vec<u8>, src: &Vec<u8>)
    ensures
        final(dst)@ == old(dst)@ + src@,
{
    let mut i: usize = 0;
    while i < src.len()
        invariant
            i <= src@.len(),
            dst@ == old(dst)@ + src@.take(i as int),
        decreases src@.len() - i,
    {
        proof {
            assert((old(dst)@ + src@.take(i as int)).push(src@[i as int]) =~= old(dst)@ + src@.take(
                i + 1,
            ));
        }
        dst.push(src[i]);
        i = i + 1;
    }
    proof {
        assert(old(dst)@ + src@.take(src@.len() as int) =~= old(dst)@ + src@);
    }
}

/// How many entries a signed entry count asks for.
pub open spec fn entry_count(n: i32) -> nat {
    if n > 0 {
        n as nat
    } else {
        0
    }
}

/// Decode `num_entries` entries of `data` into the table, handing back the
/// player-identity records that were (re)written, keyed by in-match user id.
/// The result and the table's new state are exactly what `table_decode` says
/// of the table's old state; on an error the table's partially advanced state
/// is kept but the whole decode is void.
fn decode_into(table: &mut StringTable, num_entries: i32, data: &[u8]) -> (res: Result<
    AssocMap<PlayerInfo>,
    DemoError,
>)
    requires
        old(table).wf(),
        data@.len() * 8 <= usize::MAX,
    ensures
        final(table).wf(),
        match res {
            Ok(players) => {
                &&& players.wf()
                &&& (table_decode(old(table).model(), data@, entry_count(num_entries)) matches
                    DecodeOutcome::Done(m2, w, p) && final(table).model() == m2 && players@ == w)
            },
            Err(e) => table_decode(old(table).model(), data@, entry_count(num_entries))
                == DecodeOutcome::Fail(e),
        },
{
    let ghost m0 = old(table).model();
    let mut r = BitReader::new(data);
    let dict = match r.read_bit() {
        Ok(b) => b,
        Err(e) => {
            return Err(e);
        },
    };
    if dict {
        return Err(DemoError::Format { bit_offset: 0 });
    }
    let mut players: AssocMap<PlayerInfo> = AssocMap::new();
    let mut i: i32 = 0;
    while i < num_entries
        invariant
            table.wf(),
            players.wf(),
            r.wf(),
            r.stream() == data@,
            data@.len() * 8 <= usize::MAX,
            m0 == old(table).model(),
            0 <= i,
            i as nat <= entry_count(num_entries),
            table_decode(m0, data@, entry_count(num_entries)) == table_decode_from(
                table.model(),
                data@,
                r.pos(),
                (entry_count(num_entries) - i) as nat,
                players@,
            ),
        decreases num_entries - i,
    {
        let ghost m_pre = table.model();
        let ghost pos_pre = r.pos();
        let ghost players_pre = players@;
        let ghost rem = (entry_count(num_entries) - i) as nat;
        match decode_one(table, &mut r, &mut players) {
            Ok(()) => {},
            Err(e) => {
                return Err(e);
            },
        }
        i = i + 1;
        proof {
            assert(table_decode_from(m_pre, data@, pos_pre, rem, players_pre) == table_decode_from(
                table.model(),
                data@,
                r.pos(),
                (rem - 1) as nat,
                players@,
            ));
        }
    }
    Ok(players)
}

/// Read the content part of an entry at the reader's cursor, exactly as
/// `table_step_content` says.
fn read_content(table: &StringTable, r: &mut BitReader) -> (res: Result<Vec<u8>, DemoError>)
    requires
        table.wf(),
        old(r).wf(),
    ensures
        final(r).wf(),
        final(r).stream() == old(r).stream(),
        match res {
            Ok(c) => table_step_content(table.model(), old(r).stream(), old(r).pos()) matches
                ContentOutcome::COk(cc, p2) && c@ == cc && final(r).pos() == p2,
            Err(e) => table_step_content(table.model(), old(r).stream(), old(r).pos())
                == ContentOutcome::CFail(e),
        },
{
    proof {
        reveal(table_step_content);
    }
    let substring = match r.read_bit() {
        Ok(b) => b,
        Err(e) => {
            return Err(e);
        },
    };
    if substring {
        let hidx = match r.read_bits_u32(5) {
            Ok(v) => v as usize,
            Err(e) => {
                return Err(e);
            },
        };
        if hidx >= table.history.len() {
            return Err(DemoError::Format { bit_offset: r.bit_pos() });
        }
        let copy_len = match r.read_bits_u32(5) {
            Ok(v) => v as usize,
            Err(e) => {
                return Err(e);
            },
        };
        if copy_len > table.history[hidx].len() {
            return Err(DemoError::Format { bit_offset: r.bit_pos() });
        }
        let suffix = match r.read_c_string() {
            Ok(v) => v,
            Err(e) => {
                return Err(e);
            },
        };
        let mut content = take_bytes(&table.history[hidx], copy_len);
        append_bytes(&mut content, &suffix);
        Ok(content)
    } else {
        match r.read_c_string() {
            Ok(v) => Ok(v),
            Err(e) => Err(e),
        }
    }
}

/// Read the user-data payload of an entry at the reader's cursor, exactly as
/// `table_read_userdata` says.
fn read_userdata(table: &StringTable, r: &mut BitReader) -> (res: Result<Vec<u8>, DemoError>)
    requires
        table.wf(),
        old(r).wf(),
    ensures
        final(r).wf(),
        final(r).stream() == old(r).stream(),
        match res {
            Ok(ud) => table_read_userdata(table.model(), old(r).stream(), old(r).pos()) matches
                UdOutcome::UOk(u, p2) && ud@ == u && final(r).pos() == p2 && ud@.len() <= 16384,
            Err(e) => table_read_userdata(table.model(), old(r).stream(), old(r).pos())
                == UdOutcome::UFail(e),
        },
{
    proof {
        reveal(table_read_userdata);
    }
    if table.user_data_fixed_size {
        let nbits = match table.user_data_size_bits {
            Some(n) => n,
            None => {
                return Err(DemoError::Format { bit_offset: r.bit_pos() });
            },
        };
        let v = match r.read_bits_u32(nbits as u8) {
            Ok(v) => v,
            Err(e) => {
                return Err(e);
            },
        };
        if v > 255 {
            return Err(DemoError::Format { bit_offset: r.bit_pos() });
        }
        let mut one: Vec<u8> = Vec::new();
        one.push(v as u8);
        proof {
            assert(one@ =~= seq![v as u8]);
        }
        Ok(one)
    } else {
        let len = match r.read_bits_u32(14) {
            Ok(v) => v as usize,
            Err(e) => {
                return Err(e);
            },
        };
        proof {
            crate::bitreader::lemma_bits_value_bound(old(r).stream(), old(r).pos(), 14);
            lemma2_to64();
        }
        match r.read_u8_vec(len) {
            Ok(v) => Ok(v),
            Err(e) => Err(e),
        }
    }
}

/// Store an entry at its index and append its content to the bounded
/// history, exactly as `table_store` says.
fn store_entry(table: &mut StringTable, idx: i64, content: Vec<u8>, ud: Vec<u8>)
    requires
        old(table).wf(),
        0 <= idx < old(table).model().max_entries,
    ensures
        final(table).wf(),
        final(table).model() == table_store(old(table).model(), idx as int, content@, ud@),
{
    let content_hist = copy_bytes(&content);
    table.entry_index = idx;
    table.entries.insert(idx, (content, ud));
    if table.history.len() > 31 {
        let ghost hist_pre = table.history@;
        table.history.remove(0);
        proof {
            assert(Seq::new(table.history@.len(), |j: int| table.history@[j]@) =~= Seq::new(
                hist_pre.len(),
                |j: int| hist_pre[j]@,
            ).drop_first());
        }
    }
    let ghost hist_mid = table.history@;
    table.history.push(content_hist);
    proof {
        assert(Seq::new(table.history@.len(), |j: int| table.history@[j]@) =~= Seq::new(
            hist_mid.len(),
            |j: int| hist_mid[j]@,
        ).push(content_hist@));
        assert(final(table).model().entries == table_store(
            old(table).model(),
            idx as int,
            content@,
            ud@,
        ).entries);
    }
}

/// Finish one entry once its index and content are settled: the user-data
/// bit and payload, the player-record decode, and the store, exactly as
/// `table_step_userdata` says.
fn finish_entry(
    table: &mut StringTable,
    r: &mut BitReader,
    players: &mut AssocMap<PlayerInfo>,
    idx: i64,
    content: Vec<u8>,
    reused_ud: Vec<u8>,
) -> (res: Result<(), DemoError>)
    requires
        old(table).wf(),
        old(players).wf(),
        old(r).wf(),
        0 <= idx < old(table).model().max_entries,
    ensures
        final(table).wf(),
        final(players).wf(),
        final(r).wf(),
        final(r).stream() == old(r).stream(),
        match res {
            Ok(()) => table_step_userdata(
                old(table).model(),
                old(r).stream(),
                old(r).pos(),
                idx as int,
                content@,
                reused_ud@,
            ) matches EntryOutcome::Next(m2, p2, w) && final(table).model() == m2 && final(r).pos()
                == p2 && final(players)@ == (match w {
                None => old(players)@,
                Some(info) => old(players)@.insert(info.user_id as i64, info),
            }),
            Err(e) => table_step_userdata(
                old(table).model(),
                old(r).stream(),
                old(r).pos(),
                idx as int,
                content@,
                reused_ud@,
            ) == EntryOutcome::Fail(e),
        },
{
    let ghost m_pre = old(table).model();
    let ghost pos_ud = old(r).pos();
    let ghost data = old(r).stream();
    let ghost content_g = content@;
    let ghost reused_g = reused_ud@;
    let has_ud = match r.read_bit() {
        Ok(b) => b,
        Err(e) => {
            proof {
                reveal(table_step_userdata);
            }
            return Err(e);
        },
    };
    let userdata: Vec<u8>;
    let ghost written: Option<PlayerInfoV>;
    if has_ud {
        let ud = match read_userdata(table, r) {
            Ok(v) => v,
            Err(e) => {
                proof {
                    reveal(table_step_userdata);
                    assert(table_step_userdata(m_pre, data, pos_ud, idx as int, content_g, reused_g)
                        == EntryOutcome::Fail(e));
                }
                return Err(e);
            },
        };
        let info = match PlayerInfo::new(idx, ud.as_slice()) {
            Ok(p) => p,
            Err(e) => {
                proof {
                    reveal(table_step_userdata);
                    assert(table_step_userdata(m_pre, data, pos_ud, idx as int, content_g, reused_g)
                        == EntryOutcome::Fail(e));
                }
                return Err(e);
            },
        };
        proof {
            written = Some(info@);
        }
        players.insert(info.user_id as i64, info);
        userdata = ud;
    } else {
        proof {
            written = None;
        }
        userdata = reused_ud;
    }
    let ghost pos_post = r.pos();
    let ghost userdata_g = userdata@;
    store_entry(table, idx, content, userdata);
    proof {
        reveal(table_step_userdata);
        assert(table_step_userdata(m_pre, data, pos_ud, idx as int, content_g, reused_g)
            == EntryOutcome::Next(table.model(), pos_post, written));
    }
    Ok(())
}

/// Decode one entry at the reader's cursor, advancing the table, the reader,
/// and the decoded-record accumulator exactly as `table_step` says.
fn decode_one(table: &mut StringTable, r: &mut BitReader, players: &mut AssocMap<PlayerInfo>) -> (res:
    Result<(), DemoError>)
    requires
        old(table).wf(),
        old(players).wf(),
        old(r).wf(),
    ensures
        final(table).wf(),
        final(players).wf(),
        final(r).wf(),
        final(r).stream() == old(r).stream(),
        match res {
            Ok(()) => table_step(old(table).model(), old(r).stream(), old(r).pos()) matches
                EntryOutcome::Next(m2, p2, w) && final(table).model() == m2 && final(r).pos() == p2
                && final(players)@ == (match w {
                None => old(players)@,
                Some(info) => old(players)@.insert(info.user_id as i64, info),
            }),
            Err(e) => table_step(old(table).model(), old(r).stream(), old(r).pos())
                == EntryOutcome::Fail(e),
        },
{
    let ghost m_pre = old(table).model();
    let ghost pos_pre = old(r).pos();
    let ghost data = old(r).stream();
    // Index-mode bit, then the entry index itself.
    let seq_bit = match r.read_bit() {
        Ok(b) => b,
        Err(e) => {
            proof {
                reveal(table_step);
            }
            return Err(e);
        },
    };
    let idx: i64;
    if seq_bit {
        idx = table.entry_index + 1;
    } else {
        let v = match r.read_bits_u32(table.entry_bits) {
            Ok(v) => v,
            Err(e) => {
                proof {
                    reveal(table_step);
                    assert(table_step(m_pre, data, pos_pre) == EntryOutcome::Fail(e));
                }
                return Err(e);
            },
        };
        idx = v as i64;
    }
    proof {
        reveal(table_step);
        assert(table_step(m_pre, data, pos_pre) == table_step_at(m_pre, data, r.pos(), idx as int));
    }
    let ghost pos_at = r.pos();
    // The decoded index must lie inside the declared capacity.
    if !(0 <= idx && idx < table.max_entries as i64) {
        let e = DemoError::Format { bit_offset: r.bit_pos() };
        proof {
            reveal(table_step_at);
            assert(table_step_at(m_pre, data, pos_at, idx as int) == EntryOutcome::Fail(e));
        }
        return Err(e);
    }
    // Content: new bytes, or reuse of what the index already holds.
    let has_content = match r.read_bit() {
        Ok(b) => b,
        Err(e) => {
            proof {
                reveal(table_step_at);
                assert(table_step_at(m_pre, data, pos_at, idx as int) == EntryOutcome::Fail(e));
            }
            return Err(e);
        },
    };
    let content: Vec<u8>;
    let mut reused_ud: Vec<u8> = Vec::new();
    if has_content {
        content = match read_content(table, r) {
            Ok(c) => c,
            Err(e) => {
                proof {
                    reveal(table_step_at);
                    assert(table_step_at(m_pre, data, pos_at, idx as int) == EntryOutcome::Fail(e));
                }
                return Err(e);
            },
        };
        proof {
            assert(reused_ud@ =~= Seq::<u8>::empty());
        }
    } else {
        match table.entries.get(idx) {
            Some(pair) => {
                content = copy_bytes(&pair.0);
                reused_ud = copy_bytes(&pair.1);
            },
            None => {
                content = Vec::new();
                proof {
                    assert(content@ =~= Seq::<u8>::empty());
                    assert(reused_ud@ =~= Seq::<u8>::empty());
                }
            },
        }
    }
    proof {
        reveal(table_step_at);
        assert(table_step_at(m_pre, data, pos_at, idx as int) == table_step_userdata(
            m_pre,
            data,
            r.pos(),
            idx as int,
            content@,
            reused_ud@,
        ));
    }
    // User data, player-record decode, and the store.
    match finish_entry(table, r, players, idx, content, reused_ud) {
        Ok(()) => Ok(()),
        Err(e) => Err(e),
    }
}

/// Whether the message names the player-identity table.
pub open spec fn is_userinfo(msg: CreateStringTableMsg) -> bool {
    msg.name matches Some(n) && n@ == "userinfo"@
}

/// Whether the message's user data is declared fixed-size.
pub open spec fn spec_fixed(msg: CreateStringTableMsg) -> bool {
    msg.user_data_fixed_size == Some(true)
}

/// The declared user-data bit width, with a zero width meaning none.
pub open spec fn spec_size_bits(msg: CreateStringTableMsg) -> Option<int> {
    match msg.user_data_size_bits {
        Some(n) => if n != 0 {
            Some(n as int)
        } else {
            None
        },
        None => None,
    }
}

/// Whether the message carries every field a table needs, with a usable bit
/// width whenever its user data is fixed-size.
pub open spec fn create_fields_ok(msg: CreateStringTableMsg) -> bool {
    &&& msg.max_entries is Some
    &&& (spec_fixed(msg) ==> (spec_size_bits(msg) matches Some(n) && 1 <= n <= 32))
    &&& msg.flags is Some
    &&& msg.string_data is Some
    &&& msg.num_entries is Some
}

/// The state a freshly declared table starts from: an empty mapping, an empty
/// history, and a cursor one before the first slot.
pub open spec fn create_model(msg: CreateStringTableMsg) -> TableModel {
    TableModel {
        max_entries: msg.max_entries->Some_0 as int,
        entry_bits: spec_entry_bits(msg.max_entries->Some_0 as int),
        cursor: -1,
        fixed: spec_fixed(msg),
        size_bits: spec_size_bits(msg),
        entries: Map::empty(),
        history: Seq::empty(),
    }
}

/// Handle a "create string table" command. A table by any name but the
/// player-identity one is ignored. For the player-identity table, the first
/// batch of entries is decoded from the message's bitstream into a fresh
/// table, exactly as `table_decode` says; a message missing a field the table
/// needs is a format error.
pub fn create_string_table(msg: CreateStringTableMsg) -> (res: Result<
    Option<(StringTable, AssocMap<PlayerInfo>)>,
    DemoError,
>)
    requires
        (msg.string_data matches Some(d) ==> d@.len() * 8 <= usize::MAX),
    ensures
        match res {
            Ok(None) => msg.name matches Some(n) && n@ != "userinfo"@,
            Ok(Some((t, players))) => {
                &&& is_userinfo(msg)
                &&& create_fields_ok(msg)
                &&& t.wf()
                &&& players.wf()
                &&& (table_decode(
                    create_model(msg),
                    msg.string_data->Some_0@,
                    entry_count(msg.num_entries->Some_0),
                ) matches DecodeOutcome::Done(m2, w, p) && t.model() == m2 && players@ == w)
            },
            Err(e) => {
                ||| (msg.name is None && e == format_err(0))
                ||| (is_userinfo(msg) && !create_fields_ok(msg) && e == format_err(0))
                ||| (is_userinfo(msg) && create_fields_ok(msg) && table_decode(
                    create_model(msg),
                    msg.string_data->Some_0@,
                    entry_count(msg.num_entries->Some_0),
                ) == DecodeOutcome::Fail(e))
            },
        },
{
    let name = match msg.name {
        Some(n) => n,
        None => {
            return Err(DemoError::Format { bit_offset: 0 });
        },
    };
    if !(name == String::from_str("userinfo")) {
        return Ok(None);
    }
    let max_entries = match msg.max_entries {
        Some(v) => v,
        None => {
            return Err(DemoError::Format { bit_offset: 0 });
        },
    };
    let user_data_fixed_size = match msg.user_data_fixed_size {
        Some(b) => b,
        None => false,
    };
    let user_data_size_bits = match msg.user_data_size_bits {
        Some(n) => if n != 0 {
            Some(n)
        } else {
            None
        },
        None => None,
    };
    if user_data_fixed_size {
        match user_data_size_bits {
            Some(n) => if !(1 <= n && n <= 32) {
                return Err(DemoError::Format { bit_offset: 0 });
            },
            None => {
                return Err(DemoError::Format { bit_offset: 0 });
            },
        }
    }
    if msg.flags.is_none() {
        return Err(DemoError::Format { bit_offset: 0 });
    }
    let string_data = match msg.string_data {
        Some(d) => d,
        None => {
            return Err(DemoError::Format { bit_offset: 0 });
        },
    };
    let num_entries = match msg.num_entries {
        Some(v) => v,
        None => {
            return Err(DemoError::Format { bit_offset: 0 });
        },
    };
    let entry_bits = entry_bits_for(max_entries);
    let mut table = StringTable {
        max_entries,
        entry_bits,
        entry_index: -1,
        user_data_fixed_size,
        user_data_size_bits,
        entries: AssocMap::new(),
        history: Vec::new(),
    };
    proof {
        assert(table.model().history =~= Seq::<Seq<u8>>::empty());
        assert(table.model() == create_model(msg));
    }
    match decode_into(&mut table, num_entries, string_data.as_slice()) {
        Ok(players) => Ok(Some((table, players))),
        Err(e) => Err(e),
    }
}

/// Handle an "update string table" command for an already created
/// player-identity table: decode the changed entries from the message's
/// bitstream into the table, exactly as `table_decode` says; a message
/// missing a field is a format error.
pub fn update_string_table(table: &mut StringTable, msg: UpdateStringTableMsg) -> (res: Result<
    AssocMap<PlayerInfo>,
    DemoError,
>)
    requires
        old(table).wf(),
        (msg.string_data matches Some(d) ==> d@.len() * 8 <= usize::MAX),
    ensures
        final(table).wf(),
        match res {
            Ok(players) => {
                &&& msg.string_data is Some
                &&& msg.num_changed_entries is Some
                &&& players.wf()
                &&& (table_decode(
                    old(table).model(),
                    msg.string_data->Some_0@,
                    entry_count(msg.num_changed_entries->Some_0),
                ) matches DecodeOutcome::Done(m2, w, p) && final(table).model() == m2 && players@
                    == w)
            },
            Err(e) => {
                ||| ((msg.string_data is None || msg.num_changed_entries is None) && e
                    == format_err(0) && final(table).model() == old(table).model())
                ||| (msg.string_data is Some && msg.num_changed_entries is Some && table_decode(
                    old(table).model(),
                    msg.string_data->Some_0@,
                    entry_count(msg.num_changed_entries->Some_0),
                ) == DecodeOutcome::Fail(e))
            },
        },
{
    let string_data = match msg.string_data {
        Some(d) => d,
        None => {
            return Err(DemoError::Format { bit_offset: 0 });
        },
    };
    let num_changed = match msg.num_changed_entries {
        Some(v) => v,
        None => {
            return Err(DemoError::Format { bit_offset: 0 });
        },
    };
    decode_into(table, num_changed, string_data.as_slice())
}

} // verus!

use vstd::prelude::*;
use vstd::arithmetic::power2::*;
use vstd::bits::low_bits_mask;
use crate::error::DemoError;

verus! {

/// The bit at absolute position `i` of a byte stream, least-significant bit
/// of each byte first: bit `i % 8` of byte `i / 8`, as 0 or 1.
pub open spec fn stream_bit(data: Seq<u8>, i: int) -> nat {
    ((data[i / 8] as nat) / pow2((i % 8) as nat)) % 2
}

/// The unsigned value of `n` consecutive stream bits starting at absolute bit
/// position `start`, least-significant bit first.
pub open spec fn bits_value(data: Seq<u8>, start: int, n: nat) -> nat
    decreases n,
{
    if n == 0 {
        0
    } else {
        stream_bit(data, start) + 2 * bits_value(data, start + 1, (n - 1) as nat)
    }
}

/// The value of the whole byte that starts at bit position `pos`.
pub open spec fn byte_at(data: Seq<u8>, pos: int) -> nat {
    bits_value(data, pos, 8)
}

/// A one-bit read is exactly the stream bit at that position.
pub proof fn lemma_bits_value_one(data: Seq<u8>, pos: int)
    ensures
        bits_value(data, pos, 1) == stream_bit(data, pos),
{
    assert(bits_value(data, pos + 1, 0) == 0);
}

/// An `n`-bit read never exceeds `pow2(n) - 1`.
pub proof fn lemma_bits_value_bound(data: Seq<u8>, start: int, n: nat)
    ensures
        bits_value(data, start, n) < pow2(n),
    decreases n,
{
    if n == 0 {
        lemma2_to64();
    } else {
        lemma_bits_value_bound(data, start + 1, (n - 1) as nat);
        lemma_pow2_unfold(n);
    }
}

/// Splitting one read of `a + b` bits into a read of `a` bits and then a read
/// of `b` bits loses nothing: the two partial values recombine, the later
/// bits shifted up by `a` places.
pub proof fn lemma_bits_value_concat(data: Seq<u8>, start: int, a: nat, b: nat)
    ensures
        bits_value(data, start, a + b) == bits_value(data, start, a) + pow2(a) * bits_value(
            data,
            start + a,
            b,
        ),
    decreases a,
{
    if a == 0 {
        lemma2_to64();
    } else {
        lemma_bits_value_concat(data, start + 1, (a - 1) as nat, b);
        lemma_pow2_unfold(a);
        assert(pow2(a) * bits_value(data, start + a, b) == 2 * (pow2((a - 1) as nat) * bits_value(
            data,
            start + a,
            b,
        ))) by (nonlinear_arith)
            requires
                pow2(a) == 2 * pow2((a - 1) as nat),
        ;
    }
}

/// The value of `k` whole bytes starting at bit position `pos`, combined
/// least-significant byte first.
pub open spec fn le_bytes_val(data: Seq<u8>, pos: int, k: nat) -> nat
    decreases k,
{
    if k == 0 {
        0
    } else {
        byte_at(data, pos) + 256 * le_bytes_val(data, pos + 8, (k - 1) as nat)
    }
}

/// The value of `k` whole bytes starting at bit position `pos`, combined
/// most-significant byte first.
pub open spec fn be_bytes_val(data: Seq<u8>, pos: int, k: nat) -> nat
    decreases k,
{
    if k == 0 {
        0
    } else {
        byte_at(data, pos) * pow2(8 * ((k - 1) as nat)) + be_bytes_val(data, pos + 8, (k - 1) as nat)
    }
}

/// The sequence of `k` whole bytes starting at bit position `pos`.
pub open spec fn bytes_seq(data: Seq<u8>, pos: int, k: nat) -> Seq<u8> {
    Seq::new(k, |i: int| byte_at(data, pos + 8 * i) as u8)
}

/// The two's-complement reading of a 32-bit unsigned value.
pub open spec fn to_i32(n: nat) -> int {
    if n < 0x8000_0000 {
        n as int
    } else {
        n - 0x1_0000_0000
    }
}

/// The two's-complement reading of a 64-bit unsigned value.
pub open spec fn to_i64(n: nat) -> int {
    if n < 0x8000_0000_0000_0000 {
        n as int
    } else {
        n - 0x1_0000_0000_0000_0000
    }
}

/// Reading `8 * k` bits in one call is reading `k` little-endian bytes.
pub proof fn lemma_bits_value_le_bytes(data: Seq<u8>, pos: int, k: nat)
    ensures
        bits_value(data, pos, 8 * k) == le_bytes_val(data, pos, k),
    decreases k,
{
    if k > 0 {
        lemma_bits_value_le_bytes(data, pos + 8, (k - 1) as nat);
        lemma_bits_value_concat(data, pos, 8, (8 * (k - 1)) as nat);
        lemma2_to64();
        assert(pow2(8) * bits_value(data, pos + 8, (8 * (k - 1)) as nat) == 256 * le_bytes_val(
            data,
            pos + 8,
            (k - 1) as nat,
        ));
    }
}

/// A big-endian value grows one byte at a time at its low end.
proof fn lemma_be_bytes_snoc(data: Seq<u8>, pos: int, k: nat)
    ensures
        be_bytes_val(data, pos, k + 1) == 256 * be_bytes_val(data, pos, k) + byte_at(
            data,
            pos + 8 * k,
        ),
    decreases k,
{
    if k == 0 {
        lemma2_to64();
    } else {
        let b0 = byte_at(data, pos);
        lemma_be_bytes_snoc(data, pos + 8, (k - 1) as nat);
        assert(be_bytes_val(data, pos + 8, k) == 256 * be_bytes_val(data, pos + 8, (k - 1) as nat)
            + byte_at(data, pos + 8 * k));
        assert(be_bytes_val(data, pos, k + 1) == b0 * pow2(8 * k) + be_bytes_val(data, pos + 8, k));
        assert(be_bytes_val(data, pos, k) == b0 * pow2((8 * (k - 1)) as nat) + be_bytes_val(
            data,
            pos + 8,
            (k - 1) as nat,
        ));
        lemma_pow2_adds(8, (8 * (k - 1)) as nat);
        lemma2_to64();
        assert(pow2(8 * k) == 256 * pow2((8 * (k - 1)) as nat));
        assert(b0 * pow2(8 * k) == 256 * (b0 * pow2((8 * (k - 1)) as nat))) by (nonlinear_arith)
            requires
                pow2(8 * k) == 256 * pow2((8 * (k - 1)) as nat),
        ;
    }
}

/// A `k`-byte big-endian value never exceeds `pow2(8 * k) - 1`.
proof fn lemma_be_bytes_bound(data: Seq<u8>, pos: int, k: nat)
    ensures
        be_bytes_val(data, pos, k) < pow2(8 * k),
    decreases k,
{
    if k == 0 {
        lemma2_to64();
    } else {
        lemma_be_bytes_snoc(data, pos, (k - 1) as nat);
        lemma_be_bytes_bound(data, pos, (k - 1) as nat);
        lemma_bits_value_bound(data, pos + 8 * (k - 1), 8);
        lemma_pow2_adds(8, (8 * (k - 1)) as nat);
        lemma2_to64();
        assert(256 * be_bytes_val(data, pos, (k - 1) as nat) + 256 <= 256 * pow2(
            (8 * (k - 1)) as nat,
        )) by (nonlinear_arith)
            requires
                be_bytes_val(data, pos, (k - 1) as nat) < pow2((8 * (k - 1)) as nat),
        ;
    }
}

/// The bytes of a NUL-terminated string starting at bit position `pos`: the
/// bytes strictly before the first zero byte, or nothing at all when the
/// stream ends before a zero byte is found.
pub open spec fn cstr_content(data: Seq<u8>, pos: int) -> Option<Seq<u8>>
    decreases 8 * data.len() - pos,
{
    if pos < 0 || pos + 8 > 8 * data.len() {
        None
    } else if byte_at(data, pos) == 0 {
        Some(Seq::empty())
    } else {
        match cstr_content(data, pos + 8) {
            None => None,
            Some(rest) => Some(seq![byte_at(data, pos) as u8] + rest),
        }
    }
}

/// Whether a variable-length integer can be read at `pos`: each byte with its
/// continuation bit set demands one more, up to `max` bytes in all; the last
/// permitted byte terminates the read whatever its continuation bit says.
pub open spec fn varint_ok(data: Seq<u8>, pos: int, max: nat) -> bool
    decreases max,
{
    if max == 0 {
        false
    } else if pos < 0 || pos + 8 > 8 * data.len() {
        false
    } else if max == 1 || byte_at(data, pos) < 128 {
        true
    } else {
        varint_ok(data, pos + 8, (max - 1) as nat)
    }
}

/// The accumulated value of a variable-length integer at `pos`: 7-bit groups,
/// least-significant group first, at most `max` groups.
pub open spec fn varint_val(data: Seq<u8>, pos: int, max: nat) -> nat
    decreases max,
{
    if max == 0 {
        0
    } else if max == 1 || byte_at(data, pos) < 128 {
        byte_at(data, pos) % 128
    } else {
        byte_at(data, pos) % 128 + 128 * varint_val(data, pos + 8, (max - 1) as nat)
    }
}

/// How many bytes the variable-length integer at `pos` occupies.
pub open spec fn varint_len(data: Seq<u8>, pos: int, max: nat) -> nat
    decreases max,
{
    if max == 0 {
        0
    } else if max == 1 || byte_at(data, pos) < 128 {
        1
    } else {
        1 + varint_len(data, pos + 8, (max - 1) as nat)
    }
}

/// Bit-granular cursor over a byte slice. Reads are least-significant-bit
/// first and may span byte boundaries freely; byte-level reads recombine any
/// pending partial bits with the following bytes, so bit-level and byte-level
/// reads interleave without caller-tracked alignment. A read that cannot
/// obtain enough bits fails with a truncation error and leaves the cursor at
/// the end of the input: bits consumed before the failure are not restored.
pub struct BitReader<'a> {
    data: &'a [u8],
    bit: usize,
}

impl<'a> BitReader<'a> {
    /// The underlying byte stream.
    pub closed spec fn stream(&self) -> Seq<u8> {
        self.data@
    }

    /// The cursor, as an absolute bit position into the stream.
    pub closed spec fn pos(&self) -> int {
        self.bit as int
    }

    /// The total number of bits the stream holds.
    pub open spec fn total_bits(&self) -> int {
        self.stream().len() * 8int
    }

    /// The cursor stays inside the stream, and the stream is small enough
    /// that bit positions fit the machine word.
    pub closed spec fn wf(&self) -> bool {
        self.bit <= self.data@.len() * 8 && self.data@.len() * 8 <= usize::MAX
    }

    pub fn new(data: &'a [u8]) -> (r: BitReader<'a>)
        requires
            data@.len() * 8 <= usize::MAX,
        ensures
            r.wf(),
            r.stream() == data@,
            r.pos() == 0,
    {
        BitReader { data, bit: 0 }
    }

    /// Read `count` bits (at most 32) as an unsigned integer,
    /// least-significant bit first.
    pub fn read_bits_u32(&mut self, count: u8) -> (r: Result<u32, DemoError>)
        requires
            old(self).wf(),
            count <= 32,
        ensures
            final(self).wf(),
            final(self).stream() == old(self).stream(),
            match r {
                Ok(v) => old(self).pos() + count <= old(self).total_bits() && v as nat
                    == bits_value(old(self).stream(), old(self).pos(), count as nat)
                    && final(self).pos() == old(self).pos() + count,
                Err(e) => old(self).pos() + count > old(self).total_bits() && (e
                    == DemoError::Truncated { bit_offset: old(self).total_bits() as usize })
                    && final(self).pos() == final(self).total_bits(),
            },
    {
        let total: usize = self.data.len() * 8;
        if (count as usize) > total - self.bit {
            self.bit = total;
            return Err(DemoError::Truncated { bit_offset: total });
        }
        let ghost gdata = self.data@;
        let ghost start = self.bit as int;
        proof {
            lemma2_to64();
        }
        let mut result: u32 = 0;
        let mut i: u8 = 0;
        while i < count
            invariant
                self.data@ == gdata,
                i <= count,
                count <= 32,
                self.bit == start + i,
                start + count <= 8 * gdata.len(),
                8 * gdata.len() <= usize::MAX,
                result as nat == bits_value(gdata, start, i as nat),
                result < pow2(i as nat),
            decreases count - i,
        {
            let byte_idx = self.bit / 8;
            let bit_idx = (self.bit % 8) as u8;
            let b = self.data[byte_idx];
            let bitval: u8 = (b >> bit_idx) & 1;
            proof {
                lemma2_to64();
                vstd::bits::lemma_u8_shr_is_div(b, bit_idx);
                vstd::bits::lemma_u8_low_bits_mask_is_mod(b >> bit_idx, 1);
                vstd::bits::lemma_low_bits_mask_values();
                assert(bitval as nat == stream_bit(gdata, start + i));
            }
            let add: u32 = (bitval as u32) << (i as u32);
            proof {
                assert(pow2(i as nat) <= pow2(31)) by {
                    if i < 31 {
                        lemma_pow2_strictly_increases(i as nat, 31);
                    }
                }
                lemma2_to64();
                assert((bitval as u32) * pow2(i as nat) <= pow2(i as nat)) by (nonlinear_arith)
                    requires
                        bitval <= 1,
                ;
                vstd::bits::lemma_u32_shl_is_mul(bitval as u32, i as u32);
                lemma_bits_value_concat(gdata, start, i as nat, 1);
                lemma_bits_value_one(gdata, start + i);
                assert(pow2((i + 1) as nat) == 2 * pow2(i as nat)) by {
                    lemma_pow2_unfold((i + 1) as nat);
                }
                assert(pow2((i + 1) as nat) <= pow2(32)) by {
                    if i + 1 < 32 {
                        lemma_pow2_strictly_increases((i + 1) as nat, 32);
                    }
                }
                assert(add as nat == (bitval as nat) * pow2(i as nat));
                assert((bitval as nat) * pow2(i as nat) == pow2(i as nat) * (bitval as nat)) by (
                nonlinear_arith);
                assert(bits_value(gdata, start, (i as nat) + 1) == bits_value(gdata, start, i as nat)
                    + pow2(i as nat) * (bitval as nat));
                assert(result + add < pow2((i as nat) + 1));
            }
            result = result + add;
            self.bit = self.bit + 1;
            i = i + 1;
        }
        Ok(result)
    }

    /// Read a single bit as a boolean.
    pub fn read_bit(&mut self) -> (r: Result<bool, DemoError>)
        requires
            old(self).wf(),
        ensures
            final(self).wf(),
            final(self).stream() == old(self).stream(),
            match r {
                Ok(v) => old(self).pos() + 1 <= old(self).total_bits() && v == (stream_bit(
                    old(self).stream(),
                    old(self).pos(),
                ) == 1) && final(self).pos() == old(self).pos() + 1,
                Err(e) => old(self).pos() + 1 > old(self).total_bits() && (e
                    == DemoError::Truncated { bit_offset: old(self).total_bits() as usize })
                    && final(self).pos() == final(self).total_bits(),
            },
    {
        match self.read_bits_u32(1) {
            Ok(v) => {
                proof {
                    lemma_bits_value_one(old(self).stream(), old(self).pos());
                    assert(stream_bit(old(self).stream(), old(self).pos()) < 2) by {
                        lemma2_to64();
                    }
                }
                Ok(v == 1)
            },
            Err(e) => Err(e),
        }
    }

    /// Hand back any still-buffered partial byte (the unread bits of the
    /// current byte, low bits first) and advance the cursor to the next byte
    /// boundary; at a boundary already, do nothing.
    pub fn flush_bits(&mut self) -> (r: Option<u8>)
        requires
            old(self).wf(),
        ensures
            final(self).wf(),
            final(self).stream() == old(self).stream(),
            match r {
                None => old(self).pos() % 8 == 0 && final(self).pos() == old(self).pos(),
                Some(v) => old(self).pos() % 8 != 0 && v as nat == bits_value(
                    old(self).stream(),
                    old(self).pos(),
                    (8 - old(self).pos() % 8) as nat,
                ) && final(self).pos() == old(self).pos() + (8 - old(self).pos() % 8),
            },
    {
        let rem = self.bit % 8;
        if rem == 0 {
            return None;
        }
        let byte_idx = self.bit / 8;
        let b = self.data[byte_idx];
        let shift = rem as u8;
        let v = b >> shift;
        proof {
            broadcast use vstd::bits::lemma_u8_shr_is_div;

            lemma_shifted_byte_is_bits(self.data@, self.bit as int);
        }
        self.bit = self.bit + (8 - rem);
        Some(v)
    }

    /// A well-formed reader's cursor lies inside its stream.
    pub proof fn lemma_wf_bounds(&self)
        requires
            self.wf(),
        ensures
            0 <= self.pos() <= self.total_bits(),
    {
    }

    /// The cursor's absolute bit position, for error reporting.
    pub fn bit_pos(&self) -> (r: usize)
        ensures
            r as int == self.pos(),
    {
        self.bit
    }

    /// Read one whole byte, recombining any pending partial bits.
    pub fn read_u8(&mut self) -> (r: Result<u8, DemoError>)
        requires
            old(self).wf(),
        ensures
            final(self).wf(),
            final(self).stream() == old(self).stream(),
            match r {
                Ok(v) => old(self).pos() + 8 <= old(self).total_bits() && v as nat == byte_at(
                    old(self).stream(),
                    old(self).pos(),
                ) && final(self).pos() == old(self).pos() + 8,
                Err(e) => old(self).pos() + 8 > old(self).total_bits() && (e
                    == DemoError::Truncated { bit_offset: old(self).total_bits() as usize })
                    && final(self).pos() == final(self).total_bits(),
            },
    {
        match self.read_bits_u32(8) {
            Ok(v) => {
                proof {
                    lemma_bits_value_bound(old(self).stream(), old(self).pos(), 8);
                    lemma2_to64();
                }
                Ok(v as u8)
            },
            Err(e) => Err(e),
        }
    }

    /// Read exactly `size` whole bytes.
    pub fn read_u8_vec(&mut self, size: usize) -> (r: Result<Vec<u8>, DemoError>)
        requires
            old(self).wf(),
        ensures
            final(self).wf(),
            final(self).stream() == old(self).stream(),
            match r {
                Ok(v) => old(self).pos() + 8 * size <= old(self).total_bits() && v@ == bytes_seq(
                    old(self).stream(),
                    old(self).pos(),
                    size as nat,
                ) && final(self).pos() == old(self).pos() + 8 * size,
                Err(e) => old(self).pos() + 8 * size > old(self).total_bits() && (e
                    == DemoError::Truncated { bit_offset: old(self).total_bits() as usize })
                    && final(self).pos() == final(self).total_bits(),
            },
    {
        let total: usize = self.data.len() * 8;
        if size > (total - self.bit) / 8 {
            self.bit = total;
            return Err(DemoError::Truncated { bit_offset: total });
        }
        let ghost gdata = self.data@;
        let ghost pos0 = self.bit as int;
        let mut out: Vec<u8> = Vec::new();
        let mut j: usize = 0;
        while j < size
            invariant
                self.wf(),
                self.stream() == gdata,
                j <= size,
                self.pos() == pos0 + 8 * j,
                pos0 + 8 * size <= 8 * gdata.len(),
                out@.len() == j,
                forall|i: int| 0 <= i < j ==> out@[i] as nat == byte_at(gdata, pos0 + 8 * i),
            decreases size - j,
        {
            let b = match self.read_u8() {
                Ok(b) => b,
                Err(e) => {
                    return Err(e);
                },
            };
            out.push(b);
            j = j + 1;
        }
        proof {
            assert(out@ =~= bytes_seq(gdata, pos0, size as nat));
        }
        Ok(out)
    }

    /// Read a 32-bit little-endian unsigned integer.
    pub fn read_u32(&mut self) -> (r: Result<u32, DemoError>)
        requires
            old(self).wf(),
        ensures
            final(self).wf(),
            final(self).stream() == old(self).stream(),
            match r {
                Ok(v) => old(self).pos() + 32 <= old(self).total_bits() && v as nat
                    == le_bytes_val(old(self).stream(), old(self).pos(), 4)
                    && final(self).pos() == old(self).pos() + 32,
                Err(e) => old(self).pos() + 32 > old(self).total_bits() && (e
                    == DemoError::Truncated { bit_offset: old(self).total_bits() as usize })
                    && final(self).pos() == final(self).total_bits(),
            },
    {
        let r = self.read_bits_u32(32);
        proof {
            lemma_bits_value_le_bytes(old(self).stream(), old(self).pos(), 4);
        }
        r
    }

    /// Read a 32-bit little-endian signed integer (two's complement).
    pub fn read_i32(&mut self) -> (r: Result<i32, DemoError>)
        requires
            old(self).wf(),
        ensures
            final(self).wf(),
            final(self).stream() == old(self).stream(),
            match r {
                Ok(v) => old(self).pos() + 32 <= old(self).total_bits() && v as int == to_i32(
                    le_bytes_val(old(self).stream(), old(self).pos(), 4),
                ) && final(self).pos() == old(self).pos() + 32,
                Err(e) => old(self).pos() + 32 > old(self).total_bits() && (e
                    == DemoError::Truncated { bit_offset: old(self).total_bits() as usize })
                    && final(self).pos() == final(self).total_bits(),
            },
    {
        match self.read_u32() {
            Ok(v) => Ok(u32_as_signed(v)),
            Err(e) => Err(e),
        }
    }

    /// Read `count` (at most 8) whole bytes as a big-endian unsigned integer.
    fn read_be_bytes(&mut self, count: u8) -> (r: Result<u64, DemoError>)
        requires
            old(self).wf(),
            1 <= count <= 8,
        ensures
            final(self).wf(),
            final(self).stream() == old(self).stream(),
            match r {
                Ok(v) => old(self).pos() + 8 * count <= old(self).total_bits() && v as nat
                    == be_bytes_val(old(self).stream(), old(self).pos(), count as nat)
                    && final(self).pos() == old(self).pos() + 8 * count,
                Err(e) => old(self).pos() + 8 * count > old(self).total_bits() && (e
                    == DemoError::Truncated { bit_offset: old(self).total_bits() as usize })
                    && final(self).pos() == final(self).total_bits(),
            },
    {
        let total: usize = self.data.len() * 8;
        if (count as usize) * 8 > total - self.bit {
            self.bit = total;
            return Err(DemoError::Truncated { bit_offset: total });
        }
        let ghost gdata = self.data@;
        let ghost pos0 = self.bit as int;
        proof {
            lemma2_to64();
        }
        let mut v: u64 = 0;
        let mut j: u8 = 0;
        while j < count
            invariant
                self.wf(),
                self.stream() == gdata,
                j <= count <= 8,
                self.pos() == pos0 + 8 * j,
                pos0 + 8 * count <= 8 * gdata.len(),
                v as nat == be_bytes_val(gdata, pos0, j as nat),
                v < pow2((8 * j) as nat),
            decreases count - j,
        {
            let b = match self.read_u8() {
                Ok(b) => b,
                Err(e) => {
                    return Err(e);
                },
            };
            proof {
                lemma_be_bytes_snoc(gdata, pos0, j as nat);
                assert(pow2((8 * (j + 1)) as nat) == 256 * pow2((8 * j) as nat)) by {
                    lemma_pow2_adds(8, (8 * j) as nat);
                    lemma2_to64();
                }
                assert(256 * (v as nat) + (b as nat) < 256 * pow2((8 * j) as nat)) by (
                nonlinear_arith)
                    requires
                        v < pow2((8 * j) as nat),
                        b < 256,
                ;
                assert(pow2((8 * (j + 1)) as nat) <= pow2(64)) by {
                    if 8 * (j + 1) < 64 {
                        lemma_pow2_strictly_increases((8 * (j + 1)) as nat, 64);
                    }
                }
                lemma2_to64_rest();
            }
            v = v * 256 + (b as u64);
            j = j + 1;
        }
        Ok(v)
    }

    /// Read a 32-bit big-endian unsigned integer.
    pub fn read_u32_be(&mut self) -> (r: Result<u32, DemoError>)
        requires
            old(self).wf(),
        ensures
            final(self).wf(),
            final(self).stream() == old(self).stream(),
            match r {
                Ok(v) => old(self).pos() + 32 <= old(self).total_bits() && v as nat
                    == be_bytes_val(old(self).stream(), old(self).pos(), 4)
                    && final(self).pos() == old(self).pos() + 32,
                Err(e) => old(self).pos() + 32 > old(self).total_bits() && (e
                    == DemoError::Truncated { bit_offset: old(self).total_bits() as usize })
                    && final(self).pos() == final(self).total_bits(),
            },
    {
        match self.read_be_bytes(4) {
            Ok(v) => {
                proof {
                    lemma_be_bytes_bound(old(self).stream(), old(self).pos(), 4);
                    lemma2_to64();
                }
                Ok(v as u32)
            },
            Err(e) => Err(e),
        }
    }

    /// Read a 32-bit big-endian signed integer (two's complement).
    pub fn read_i32_be(&mut self) -> (r: Result<i32, DemoError>)
        requires
            old(self).wf(),
        ensures
            final(self).wf(),
            final(self).stream() == old(self).stream(),
            match r {
                Ok(v) => old(self).pos() + 32 <= old(self).total_bits() && v as int == to_i32(
                    be_bytes_val(old(self).stream(), old(self).pos(), 4),
                ) && final(self).pos() == old(self).pos() + 32,
                Err(e) => old(self).pos() + 32 > old(self).total_bits() && (e
                    == DemoError::Truncated { bit_offset: old(self).total_bits() as usize })
                    && final(self).pos() == final(self).total_bits(),
            },
    {
        match self.read_u32_be() {
            Ok(v) => Ok(u32_as_signed(v)),
            Err(e) => Err(e),
        }
    }

    /// Read a 64-bit big-endian unsigned integer.
    pub fn read_u64_be(&mut self) -> (r: Result<u64, DemoError>)
        requires
            old(self).wf(),
        ensures
            final(self).wf(),
            final(self).stream() == old(self).stream(),
            match r {
                Ok(v) => old(self).pos() + 64 <= old(self).total_bits() && v as nat
                    == be_bytes_val(old(self).stream(), old(self).pos(), 8)
                    && final(self).pos() == old(self).pos() + 64,
                Err(e) => old(self).pos() + 64 > old(self).total_bits() && (e
                    == DemoError::Truncated { bit_offset: old(self).total_bits() as usize })
                    && final(self).pos() == final(self).total_bits(),
            },
    {
        self.read_be_bytes(8)
    }

    /// Read a variable-length unsigned integer: 7-bit groups, least
    /// significant group first, the high bit of each byte a continuation
    /// flag. At most 5 bytes are consumed; if the 5th byte still has its
    /// continuation bit set, the accumulated value is returned as it stands.
    /// The accumulated value is truncated to 32 bits.
    pub fn read_var_u32(&mut self) -> (r: Result<u32, DemoError>)
        requires
            old(self).wf(),
        ensures
            final(self).wf(),
            final(self).stream() == old(self).stream(),
            match r {
                Ok(v) => varint_ok(old(self).stream(), old(self).pos(), 5) && v as nat
                    == varint_val(old(self).stream(), old(self).pos(), 5) % pow2(32)
                    && final(self).pos() == old(self).pos() + 8 * varint_len(
                    old(self).stream(),
                    old(self).pos(),
                    5,
                ),
                Err(e) => !varint_ok(old(self).stream(), old(self).pos(), 5) && (e
                    == DemoError::Truncated { bit_offset: old(self).total_bits() as usize })
                    && final(self).pos() == final(self).total_bits(),
            },
    {
        let ghost gdata = self.stream();
        let ghost pos0 = self.pos();
        proof {
            lemma2_to64();
        }
        let mut res: u64 = 0;
        let mut g: u8 = 0;
        loop
            invariant
                self.wf(),
                self.stream() == gdata,
                gdata == old(self).stream(),
                pos0 == old(self).pos(),
                g <= 4,
                self.pos() == pos0 + 8 * g,
                0 <= pos0,
                res < pow2((7 * g) as nat),
                varint_ok(gdata, pos0, 5) == varint_ok(gdata, pos0 + 8 * g, (5 - g) as nat),
                varint_ok(gdata, pos0, 5) ==> varint_val(gdata, pos0, 5) == res + pow2(
                    (7 * g) as nat,
                ) * varint_val(gdata, pos0 + 8 * g, (5 - g) as nat),
                varint_ok(gdata, pos0, 5) ==> varint_len(gdata, pos0, 5) == g + varint_len(
                    gdata,
                    pos0 + 8 * g,
                    (5 - g) as nat,
                ),
            decreases 5 - g,
        {
            let ghost cur = self.pos();
            let num = match self.read_u8() {
                Ok(b) => b,
                Err(e) => {
                    proof {
                        assert(!varint_ok(gdata, cur, (5 - g) as nat));
                    }
                    return Err(e);
                },
            };
            proof {
                lemma2_to64();
                lemma2_to64_rest();
                assert(pow2((7 * g) as nat) <= pow2(28)) by {
                    if 7 * g < 28 {
                        lemma_pow2_strictly_increases((7 * g) as nat, 28);
                    }
                }
                assert((num % 128) as nat * pow2((7 * g) as nat) <= 127 * pow2(28)) by (
                nonlinear_arith)
                    requires
                        pow2((7 * g) as nat) <= pow2(28),
                        num % 128 < 128,
                ;
                vstd::bits::lemma_u64_shl_is_mul((num % 128) as u64, (7 * g) as u64);
            }
            let add: u64 = ((num % 128) as u64) << ((7 * (g as u64)) as u64);
            if num < 128 || g == 4 {
                proof {
                    assert(varint_val(gdata, cur, (5 - g) as nat) == (num % 128) as nat);
                    assert(varint_len(gdata, cur, (5 - g) as nat) == 1);
                    assert(varint_ok(gdata, cur, (5 - g) as nat));
                    assert((res + add) as nat == varint_val(gdata, pos0, 5)) by {
                        assert(pow2((7 * g) as nat) * ((num % 128) as nat) == ((num % 128) as nat)
                            * pow2((7 * g) as nat)) by (nonlinear_arith);
                    }
                    assert(pow2(32) == 0x1_0000_0000);
                }
                let out: u64 = (res + add) % 0x1_0000_0000;
                return Ok(out as u32);
            }
            proof {
                let m = (5 - g) as nat;
                assert(varint_ok(gdata, cur, m) == varint_ok(gdata, cur + 8, (m - 1) as nat));
                assert(varint_val(gdata, cur, m) == (num % 128) as nat + 128 * varint_val(
                    gdata,
                    cur + 8,
                    (m - 1) as nat,
                ));
                assert(varint_len(gdata, cur, m) == 1 + varint_len(gdata, cur + 8, (m - 1) as nat));
                lemma_pow2_adds((7 * g) as nat, 7);
                assert(pow2((7 * (g + 1)) as nat) == pow2((7 * g) as nat) * 128);
                assert(pow2((7 * g) as nat) * ((num % 128) as nat + 128 * varint_val(
                    gdata,
                    cur + 8,
                    (m - 1) as nat,
                )) == pow2((7 * g) as nat) * ((num % 128) as nat) + (pow2((7 * g) as nat) * 128)
                    * varint_val(gdata, cur + 8, (m - 1) as nat)) by (nonlinear_arith);
                assert(pow2((7 * g) as nat) * ((num % 128) as nat) == ((num % 128) as nat) * pow2(
                    (7 * g) as nat,
                )) by (nonlinear_arith);
                assert(res + add < pow2((7 * (g + 1)) as nat)) by (nonlinear_arith)
                    requires
                        res < pow2((7 * g) as nat),
                        add == ((num % 128) as nat) * pow2((7 * g) as nat),
                        num % 128 < 128,
                        pow2((7 * (g + 1)) as nat) == pow2((7 * g) as nat) * 128,
                ;
            }
            res = res + add;
            g = g + 1;
        }
    }

    /// Read a NUL-terminated string: bytes up to but not including the first
    /// zero byte, which is consumed; nothing past it is read.
    pub fn read_c_string(&mut self) -> (r: Result<Vec<u8>, DemoError>)
        requires
            old(self).wf(),
        ensures
            final(self).wf(),
            final(self).stream() == old(self).stream(),
            match r {
                Ok(v) => cstr_content(old(self).stream(), old(self).pos()) == Some(v@)
                    && final(self).pos() == old(self).pos() + 8 * (v@.len() + 1),
                Err(e) => cstr_content(old(self).stream(), old(self).pos()) is None && (e
                    == DemoError::Truncated { bit_offset: old(self).total_bits() as usize })
                    && final(self).pos() == final(self).total_bits(),
            },
    {
        let ghost gdata = self.stream();
        let ghost pos0 = self.pos();
        let mut out: Vec<u8> = Vec::new();
        loop
            invariant
                self.wf(),
                self.stream() == gdata,
                gdata == old(self).stream(),
                pos0 == old(self).pos(),
                0 <= pos0,
                self.pos() == pos0 + 8 * out@.len(),
                match cstr_content(gdata, self.pos()) {
                    None => cstr_content(gdata, pos0) is None,
                    Some(rest) => cstr_content(gdata, pos0) == Some(out@ + rest),
                },
            decreases self.total_bits() - self.pos(),
        {
            let ghost cur = self.pos();
            let b = match self.read_u8() {
                Ok(b) => b,
                Err(e) => {
                    proof {
                        assert(cstr_content(gdata, cur) is None);
                    }
                    return Err(e);
                },
            };
            if b == 0 {
                proof {
                    assert(cstr_content(gdata, cur) == Some(Seq::<u8>::empty()));
                    assert(out@ + Seq::<u8>::empty() =~= out@);
                }
                return Ok(out);
            }
            proof {
                match cstr_content(gdata, cur + 8) {
                    None => {},
                    Some(rest) => {
                        assert(cstr_content(gdata, cur) == Some(seq![b] + rest));
                        assert(out@ + (seq![b] + rest) =~= (out@ + seq![b]) + rest);
                        assert(out@.push(b) =~= out@ + seq![b]);
                    },
                }
            }
            out.push(b);
        }
    }

    /// Read exactly `size` bytes and keep what stands before the first zero
    /// byte, lossily decoded as text; the rest is NUL padding and discarded.
    pub fn read_fixed_c_string(&mut self, size: usize) -> (r: Result<String, DemoError>)
        requires
            old(self).wf(),
        ensures
            final(self).wf(),
            final(self).stream() == old(self).stream(),
            match r {
                Ok(s) => old(self).pos() + 8 * size <= old(self).total_bits() && s@ == lossy_utf8(
                    before_nul(bytes_seq(old(self).stream(), old(self).pos(), size as nat)),
                ) && final(self).pos() == old(self).pos() + 8 * size,
                Err(e) => old(self).pos() + 8 * size > old(self).total_bits() && (e
                    == DemoError::Truncated { bit_offset: old(self).total_bits() as usize })
                    && final(self).pos() == final(self).total_bits(),
            },
    {
        let buf = match self.read_u8_vec(size) {
            Ok(v) => v,
            Err(e) => {
                return Err(e);
            },
        };
        Ok(string_from_nilslice(buf.as_slice()))
    }

    /// Read a 64-bit big-endian signed integer (two's complement).
    pub fn read_i64_be(&mut self) -> (r: Result<i64, DemoError>)
        requires
            old(self).wf(),
        ensures
            final(self).wf(),
            final(self).stream() == old(self).stream(),
            match r {
                Ok(v) => old(self).pos() + 64 <= old(self).total_bits() && v as int == to_i64(
                    be_bytes_val(old(self).stream(), old(self).pos(), 8),
                ) && final(self).pos() == old(self).pos() + 64,
                Err(e) => old(self).pos() + 64 > old(self).total_bits() && (e
                    == DemoError::Truncated { bit_offset: old(self).total_bits() as usize })
                    && final(self).pos() == final(self).total_bits(),
            },
    {
        match self.read_be_bytes(8) {
            Ok(v) => Ok(u64_as_signed(v)),
            Err(e) => Err(e),
        }
    }
}

/// The truncation error a read past the end of `data` raises.
pub open spec fn trunc_err(data: Seq<u8>) -> DemoError {
    DemoError::Truncated { bit_offset: (8 * data.len()) as usize }
}

/// The format error raised at bit position `pos`.
pub open spec fn format_err(pos: int) -> DemoError {
    DemoError::Format { bit_offset: pos as usize }
}

/// The bytes of `s` strictly before its first zero byte (all of `s` when no
/// byte is zero).
pub open spec fn before_nul(s: Seq<u8>) -> Seq<u8>
    decreases s.len(),
{
    if s.len() == 0 {
        Seq::empty()
    } else if s[0] == 0 {
        Seq::empty()
    } else {
        seq![s[0]] + before_nul(s.subrange(1, s.len() as int))
    }
}

/// When the first `i` bytes are nonzero and byte `i` (if any) is zero, the
/// prefix before the first NUL is exactly the first `i` bytes.
proof fn lemma_before_nul_take(s: Seq<u8>, i: int)
    requires
        0 <= i <= s.len(),
        forall|j: int| 0 <= j < i ==> s[j] != 0,
        i == s.len() || s[i] == 0,
    ensures
        before_nul(s) == s.take(i),
    decreases i,
{
    if s.len() == 0 {
        assert(s.take(0) =~= Seq::<u8>::empty());
    } else if i == 0 {
        assert(s.take(0) =~= Seq::<u8>::empty());
    } else {
        let t = s.subrange(1, s.len() as int);
        lemma_before_nul_take(t, i - 1);
        assert(seq![s[0]] + t.take(i - 1) =~= s.take(i));
    }
}

/// The text a trusted lossy decode yields for a given byte sequence; invalid
/// encoding is replaced, so the result depends on the bytes alone.
pub uninterp spec fn lossy_utf8(bytes: Seq<u8>) -> Seq<char>;

/// Relies on String::from_utf8_lossy: the decoded text is a function of the
/// bytes alone, and no bytes yield no text.
#[verifier::external_body]
pub(crate) fn lossy_string(bytes: &[u8]) -> (r: String)
    ensures
        r@ == lossy_utf8(bytes@),
        bytes@.len() == 0 ==> r@.len() == 0,
{
    String::from_utf8_lossy(bytes).to_string()
}

/// Decode the bytes before the first zero byte of `s` as text, lossily.
pub fn string_from_nilslice(s: &[u8]) -> (r: String)
    ensures
        r@ == lossy_utf8(before_nul(s@)),
{
    let mut prefix: Vec<u8> = Vec::new();
    let mut i: usize = 0;
    loop
        invariant
            i <= s@.len(),
            prefix@ == s@.take(i as int),
            forall|j: int| 0 <= j < i ==> s@[j] != 0,
        ensures
            i <= s@.len(),
            prefix@ == s@.take(i as int),
            forall|j: int| 0 <= j < i ==> s@[j] != 0,
            i == s@.len() || s@[i as int] == 0,
        decreases s@.len() - i,
    {
        if i == s.len() {
            break ;
        }
        let b = s[i];
        if b == 0 {
            break ;
        }
        proof {
            assert(prefix@.push(b) =~= s@.take(i + 1));
        }
        prefix.push(b);
        i = i + 1;
    }
    proof {
        lemma_before_nul_take(s@, i as int);
    }
    lossy_string(prefix.as_slice())
}

/// Reinterpret a 32-bit unsigned value as two's-complement signed.
fn u32_as_signed(v: u32) -> (r: i32)
    ensures
        r as int == to_i32(v as nat),
{
    if v <= 0x7FFF_FFFF {
        v as i32
    } else {
        -((0xFFFF_FFFFu32 - v) as i32) - 1
    }
}

/// Reinterpret a 64-bit unsigned value as two's-complement signed.
fn u64_as_signed(v: u64) -> (r: i64)
    ensures
        r as int == to_i64(v as nat),
{
    if v <= 0x7FFF_FFFF_FFFF_FFFF {
        v as i64
    } else {
        -((0xFFFF_FFFF_FFFF_FFFFu64 - v) as i64) - 1
    }
}

/// The unread bits of the byte under an unaligned cursor, shifted down to the
/// low end, are exactly a `(8 - pos % 8)`-bit read at that cursor.
proof fn lemma_shifted_byte_is_bits(data: Seq<u8>, pos: int)
    requires
        0 <= pos,
        pos % 8 != 0,
        pos / 8 < data.len(),
    ensures
        (data[pos / 8] as nat) / pow2((pos % 8) as nat) == bits_value(
            data,
            pos,
            (8 - pos % 8) as nat,
        ),
{
    lemma_div_chain(data[pos / 8] as nat, (pos % 8) as nat, (8 - pos % 8) as nat, data, pos);
}

/// Helper: peeling bits one at a time from `b / pow2(k)` agrees with
/// `bits_value` as long as the positions stay inside one byte.
proof fn lemma_div_chain(b: nat, k: nat, n: nat, data: Seq<u8>, pos: int)
    requires
        0 <= pos,
        k == pos % 8,
        k + n == 8,
        n >= 1,
        pos / 8 < data.len(),
        b == data[pos / 8] as nat,
    ensures
        b / pow2(k) == bits_value(data, pos, n),
    decreases n,
{
    lemma2_to64();
    assert(b < 256);
    assert(stream_bit(data, pos) == (b / pow2(k)) % 2);
    if n == 1 {
        lemma_bits_value_one(data, pos);
        assert(k == 7);
        assert(b / pow2(7) < 2) by {
            assert(pow2(7) == 128);
        }
        assert((b / pow2(7)) % 2 == b / pow2(7));
    } else {
        assert((pos + 1) % 8 == k + 1 && (pos + 1) / 8 == pos / 8) by {
            assert(pos == 8 * (pos / 8) + k);
        }
        lemma_div_chain(b, k + 1, (n - 1) as nat, data, pos + 1);
        assert(b / pow2(k + 1) == (b / pow2(k)) / 2) by {
            lemma_pow2_adds(k, 1);
            assert(pow2(1) == 2);
            vstd::arithmetic::div_mod::lemma_div_denominator(b as int, pow2(k) as int, 2);
            lemma_pow2_pos(k);
        }
        assert(b / pow2(k) == (b / pow2(k)) % 2 + 2 * ((b / pow2(k)) / 2)) by {
            vstd::arithmetic::div_mod::lemma_fundamental_div_mod(b as int / pow2(k) as int, 2);
        }
    }
}

} // verus!

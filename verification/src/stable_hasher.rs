use vstd::prelude::*;
use vstd::bytes::{spec_u32_to_le_bytes, spec_u64_to_le_bytes, u32_to_le_bytes, u64_to_le_bytes};
use vstd::utf8::encode_utf8;
use crate::header::Header;
use crate::player::{Player, PlayerV};

verus! {

/// One step of the stable hash: rotate the state left by one bit, then mix
/// one byte in by exclusive or.
pub open spec fn hash_step(s: u64, b: u8) -> u64 {
    (((s % 0x8000_0000_0000_0000) * 2 + s / 0x8000_0000_0000_0000) as u64) ^ (b as u64)
}

/// The state after mixing a whole byte sequence in, left to right.
pub open spec fn hash_bytes(s: u64, bytes: Seq<u8>) -> u64
    decreases bytes.len(),
{
    if bytes.len() == 0 {
        s
    } else {
        hash_step(hash_bytes(s, bytes.drop_last()), bytes.last())
    }
}

/// Mixing a concatenation is mixing the parts in order.
pub proof fn lemma_hash_bytes_append(s: u64, a: Seq<u8>, b: Seq<u8>)
    ensures
        hash_bytes(s, a + b) == hash_bytes(hash_bytes(s, a), b),
    decreases b.len(),
{
    if b.len() == 0 {
        assert(a + b =~= a);
    } else {
        lemma_hash_bytes_append(s, a, b.drop_last());
        assert((a + b).drop_last() =~= a + b.drop_last());
        assert((a + b).last() == b.last());
    }
}

/// A hasher whose result depends on its input bytes alone, never on a
/// per-process seed, so that one match hashes to one value on every run.
pub struct StableHasher {
    state: u64,
}

impl StableHasher {
    /// The accumulated state.
    pub closed spec fn state_spec(&self) -> u64 {
        self.state
    }

    pub fn new() -> (r: StableHasher)
        ensures
            r.state_spec() == 0,
    {
        StableHasher { state: 0 }
    }

    /// Mix a byte sequence into the state, left to right.
    pub fn write(&mut self, bytes: &[u8])
        ensures
            final(self).state_spec() == hash_bytes(old(self).state_spec(), bytes@),
    {
        let ghost s0 = self.state;
        let mut i: usize = 0;
        proof {
            assert(bytes@.take(0) =~= Seq::<u8>::empty());
        }
        while i < bytes.len()
            invariant
                i <= bytes@.len(),
                self.state == hash_bytes(s0, bytes@.take(i as int)),
            decreases bytes@.len() - i,
        {
            let b = bytes[i];
            proof {
                assert(bytes@.take(i + 1).drop_last() =~= bytes@.take(i as int));
                assert(bytes@.take(i + 1).last() == b);
            }
            let top: u64 = self.state / 0x8000_0000_0000_0000;
            let rot: u64 = (self.state % 0x8000_0000_0000_0000) * 2 + top;
            self.state = rot ^ (b as u64);
            i = i + 1;
        }
        proof {
            assert(bytes@.take(bytes@.len() as int) =~= bytes@);
        }
    }

    /// The accumulated hash.
    pub fn finish(&self) -> (r: u64)
        ensures
            r == self.state_spec(),
    {
        self.state
    }
}

/// The two's-complement 64-bit image of a signed value.
pub open spec fn u64_of_i64(x: int) -> u64 {
    if x >= 0 {
        x as u64
    } else {
        (x + 0x1_0000_0000_0000_0000) as u64
    }
}

/// The two's-complement 32-bit image of a signed value.
pub open spec fn u32_of_i32(x: int) -> u32 {
    if x >= 0 {
        x as u32
    } else {
        (x + 0x1_0000_0000) as u32
    }
}

/// The bytes one roster feeds the dedup hash: each player's stable identity,
/// in roster order.
pub open spec fn roster_feed(ps: Seq<PlayerV>) -> Seq<u8>
    decreases ps.len(),
{
    if ps.len() == 0 {
        Seq::empty()
    } else {
        roster_feed(ps.drop_last()) + spec_u64_to_le_bytes(u64_of_i64(ps.last().info.xuid))
    }
}

/// The byte stream the dedup hash digests: the header's identity fields as
/// UTF-8 with a terminator each, the playback tick count, then each roster's
/// length and its players' stable identities in order.
pub open spec fn match_feed(
    server: Seq<char>,
    client: Seq<char>,
    map: Seq<char>,
    ticks: int,
    winners: Seq<PlayerV>,
    losers: Seq<PlayerV>,
) -> Seq<u8> {
    encode_utf8(server) + seq![0u8] + encode_utf8(client) + seq![0u8] + encode_utf8(map) + seq![0u8]
        + spec_u32_to_le_bytes(u32_of_i32(ticks)) + spec_u64_to_le_bytes(winners.len() as u64)
        + roster_feed(winners) + spec_u64_to_le_bytes(losers.len() as u64) + roster_feed(losers)
}

/// The stable dedup hash of one match: a function of the header's identity
/// fields, the tick count, and the two ordered rosters, the same on every
/// run.
pub open spec fn spec_match_hash(
    server: Seq<char>,
    client: Seq<char>,
    map: Seq<char>,
    ticks: int,
    winners: Seq<PlayerV>,
    losers: Seq<PlayerV>,
) -> u64 {
    hash_bytes(0, match_feed(server, client, map, ticks, winners, losers))
}

/// Feed one roster into a hasher.
fn write_roster(h: &mut StableHasher, ps: &Vec<Player>)
    ensures
        final(h).state_spec() == hash_bytes(
            old(h).state_spec(),
            roster_feed(crate::parse_game::views_of(ps@)),
        ),
{
    let ghost vs = crate::parse_game::views_of(ps@);
    let mut i: usize = 0;
    proof {
        assert(vs.take(0) =~= Seq::<PlayerV>::empty());
    }
    while i < ps.len()
        invariant
            i <= ps@.len(),
            vs == crate::parse_game::views_of(ps@),
            h.state_spec() == hash_bytes(old(h).state_spec(), roster_feed(vs.take(i as int))),
        decreases ps@.len() - i,
    {
        let x = u64_of_i64_exec(ps[i].info.xuid);
        let bytes = u64_to_le_bytes(x);
        proof {
            assert(vs.take(i + 1).drop_last() =~= vs.take(i as int));
            assert(vs.take(i + 1).last() == vs[i as int]);
            lemma_hash_bytes_append(
                old(h).state_spec(),
                roster_feed(vs.take(i as int)),
                spec_u64_to_le_bytes(u64_of_i64(vs[i as int].info.xuid)),
            );
        }
        h.write(bytes.as_slice());
        i = i + 1;
    }
    proof {
        assert(vs.take(ps@.len() as int) =~= vs);
    }
}

/// The two's-complement 64-bit image, computed.
fn u64_of_i64_exec(v: i64) -> (r: u64)
    ensures
        r == u64_of_i64(v as int),
{
    if v >= 0 {
        v as u64
    } else {
        let m = (-(v + 1)) as u64;
        0xFFFF_FFFF_FFFF_FFFFu64 - m
    }
}

/// The two's-complement 32-bit image, computed.
fn u32_of_i32_exec(v: i32) -> (r: u32)
    ensures
        r == u32_of_i32(v as int),
{
    if v >= 0 {
        v as u32
    } else {
        let m = (-(v + 1)) as u32;
        0xFFFF_FFFFu32 - m
    }
}

/// The stable dedup hash of one match, exactly as `spec_match_hash` says of
/// the header's identity fields and the two ordered rosters.
pub fn match_hash(header: &Header, winners: &Vec<Player>, losers: &Vec<Player>) -> (r: u64)
    ensures
        r == spec_match_hash(
            header.server_name@,
            header.client_name@,
            header.map@,
            header.playback_ticks as int,
            crate::parse_game::views_of(winners@),
            crate::parse_game::views_of(losers@),
        ),
{
    let ghost vw = crate::parse_game::views_of(winners@);
    let ghost vl = crate::parse_game::views_of(losers@);
    let ghost feed = match_feed(
        header.server_name@,
        header.client_name@,
        header.map@,
        header.playback_ticks as int,
        vw,
        vl,
    );
    let mut h = StableHasher::new();
    let zero: Vec<u8> = {
        let mut z: Vec<u8> = Vec::new();
        z.push(0u8);
        proof {
            assert(z@ =~= seq![0u8]);
        }
        z
    };
    h.write(header.server_name.as_str().as_bytes());
    h.write(zero.as_slice());
    h.write(header.client_name.as_str().as_bytes());
    h.write(zero.as_slice());
    h.write(header.map.as_str().as_bytes());
    h.write(zero.as_slice());
    let ticks = u32_to_le_bytes(u32_of_i32_exec(header.playback_ticks));
    h.write(ticks.as_slice());
    let wl = u64_to_le_bytes(winners.len() as u64);
    h.write(wl.as_slice());
    write_roster(&mut h, winners);
    let ll = u64_to_le_bytes(losers.len() as u64);
    h.write(ll.as_slice());
    write_roster(&mut h, losers);
    proof {
        let s = header.server_name@;
        let c = header.client_name@;
        let m = header.map@;
        let t = header.playback_ticks as int;
        let p0 = encode_utf8(s);
        let p1 = p0 + seq![0u8];
        let p2 = p1 + encode_utf8(c);
        let p3 = p2 + seq![0u8];
        let p4 = p3 + encode_utf8(m);
        let p5 = p4 + seq![0u8];
        let p6 = p5 + spec_u32_to_le_bytes(u32_of_i32(t));
        let p7 = p6 + spec_u64_to_le_bytes(vw.len() as u64);
        let p8 = p7 + roster_feed(vw);
        let p9 = p8 + spec_u64_to_le_bytes(vl.len() as u64);
        let p10 = p9 + roster_feed(vl);
        lemma_hash_bytes_append(0, p0, seq![0u8]);
        lemma_hash_bytes_append(0, p1, encode_utf8(c));
        lemma_hash_bytes_append(0, p2, seq![0u8]);
        lemma_hash_bytes_append(0, p3, encode_utf8(m));
        lemma_hash_bytes_append(0, p4, seq![0u8]);
        lemma_hash_bytes_append(0, p5, spec_u32_to_le_bytes(u32_of_i32(t)));
        lemma_hash_bytes_append(0, p6, spec_u64_to_le_bytes(vw.len() as u64));
        lemma_hash_bytes_append(0, p7, roster_feed(vw));
        lemma_hash_bytes_append(0, p8, spec_u64_to_le_bytes(vl.len() as u64));
        lemma_hash_bytes_append(0, p9, roster_feed(vl));
        assert(feed =~= p10);
    }
    h.finish()
}

} // verus!

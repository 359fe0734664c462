use vstd::prelude::*;
use vstd::arithmetic::power2::pow2;
use crate::bitreader::{bytes_seq, trunc_err, varint_len, varint_ok, varint_val, BitReader};
use crate::error::DemoError;

verus! {

/// The recognized command ids of a packet's payload.
#[derive(Clone, Copy, Debug, PartialEq, Eq, Structural)]
pub enum CmdId {
    CreateStringTable,
    UpdateStringTable,
    UserMessage,
    GameEvent,
    GameEventList,
}

/// The command a numeric message id stands for; every other id is skipped.
pub open spec fn cmd_id_of(id: nat) -> Option<CmdId> {
    if id == 12 {
        Some(CmdId::CreateStringTable)
    } else if id == 13 {
        Some(CmdId::UpdateStringTable)
    } else if id == 23 {
        Some(CmdId::UserMessage)
    } else if id == 25 {
        Some(CmdId::GameEvent)
    } else if id == 30 {
        Some(CmdId::GameEventList)
    } else {
        None
    }
}

/// What looking for the next recognized command at bit position `pos` yields:
/// a clean end of the payload, a truncated frame, or a recognized frame with
/// its body's position and byte length and the position after it.
pub enum FrameStep {
    End,
    Short,
    Frame(nat, int, nat, int),
}

/// The framing walk: read a variable-length message id — hitting the end of
/// the payload there is the normal end; read a variable-length byte length
/// and that many body bytes — hitting the end there is a truncation; a
/// recognized id yields its frame, any other id is skipped and the walk goes
/// on after its body.
pub open spec fn next_frame(data: Seq<u8>, pos: int) -> FrameStep
    decreases 8 * data.len() - pos,
    via next_frame_decreases
{
    if pos < 0 || !varint_ok(data, pos, 5) {
        FrameStep::End
    } else {
        let id = varint_val(data, pos, 5) % pow2(32);
        let pos2 = pos + 8 * varint_len(data, pos, 5);
        if !varint_ok(data, pos2, 5) {
            FrameStep::Short
        } else {
            let size = (varint_val(data, pos2, 5) % pow2(32)) as int;
            let pos3 = pos2 + 8 * varint_len(data, pos2, 5);
            if pos3 + 8 * size > 8 * data.len() {
                FrameStep::Short
            } else if cmd_id_of(id) is Some {
                FrameStep::Frame(id, pos3, size as nat, pos3 + 8 * size)
            } else {
                next_frame(data, pos3 + 8 * size)
            }
        }
    }
}

#[via_fn]
proof fn next_frame_decreases(data: Seq<u8>, pos: int) {
    vstd::arithmetic::power2::lemma_pow2_pos(32);
    if !(pos < 0 || !varint_ok(data, pos, 5)) {
        lemma_varint_ok_len(data, pos, 5);
        let pos2 = pos + 8 * varint_len(data, pos, 5);
        if varint_ok(data, pos2, 5) {
            lemma_varint_ok_len(data, pos2, 5);
        }
    }
}

/// A readable variable-length integer occupies at least one byte, and no more
/// than the stream holds.
proof fn lemma_varint_ok_len(data: Seq<u8>, pos: int, max: nat)
    requires
        varint_ok(data, pos, max),
    ensures
        1 <= varint_len(data, pos, max) <= max,
        pos + 8 * varint_len(data, pos, max) <= 8 * data.len(),
    decreases max,
{
    if !(max == 1 || byte_at_lt128(data, pos)) {
        lemma_varint_ok_len(data, pos + 8, (max - 1) as nat);
    }
}

/// Whether the byte at `pos` terminates a variable-length integer.
spec fn byte_at_lt128(data: Seq<u8>, pos: int) -> bool {
    crate::bitreader::byte_at(data, pos) < 128
}

/// One recognized command frame: which command it is, and its undecoded body
/// for the schema-keyed decoder.
#[derive(Clone, Debug)]
pub struct CmdFrame {
    pub id: CmdId,
    pub data: Vec<u8>,
}

/// A payload's recognized commands, framed but not yet schema-decoded. An
/// external schema-keyed decoder turns a frame's body into the typed message
/// its id announces.
#[derive(Clone, Debug)]
pub enum Cmd {
    CreateStringTable(crate::messages::CreateStringTableMsg),
    UpdateStringTable(crate::messages::UpdateStringTableMsg),
    UserMessage(crate::messages::UserMessageMsg),
    GameEvent(crate::messages::GameEventMsg),
    GameEventList(crate::messages::GameEventListMsg),
}

impl Cmd {
    /// Frame the next recognized command at the reader's cursor, skipping
    /// unrecognized ids, exactly as `next_frame` says: `None` at the payload's
    /// clean end, a truncation error on a frame the payload cannot hold.
    pub fn parse(r: &mut BitReader) -> (res: Result<Option<CmdFrame>, DemoError>)
        requires
            old(r).wf(),
        ensures
            final(r).wf(),
            final(r).stream() == old(r).stream(),
            match res {
                Ok(None) => next_frame(old(r).stream(), old(r).pos()) == FrameStep::End,
                Ok(Some(f)) => next_frame(old(r).stream(), old(r).pos()) matches FrameStep::Frame(
                    id,
                    bp,
                    sz,
                    np,
                ) && cmd_id_of(id) == Some(f.id) && f.data@ == bytes_seq(old(r).stream(), bp, sz)
                    && final(r).pos() == np,
                Err(e) => next_frame(old(r).stream(), old(r).pos()) == FrameStep::Short && e
                    == trunc_err(old(r).stream()),
            },
    {
        let ghost data = old(r).stream();
        let ghost pos0 = old(r).pos();
        proof {
            old(r).lemma_wf_bounds();
        }
        loop
            invariant
                r.wf(),
                r.stream() == data,
                data == old(r).stream(),
                pos0 == old(r).pos(),
                0 <= r.pos() <= r.total_bits(),
                next_frame(data, pos0) == next_frame(data, r.pos()),
            decreases r.total_bits() - r.pos(),
        {
            let ghost pos_iter = r.pos();
            let id = match r.read_var_u32() {
                Ok(v) => v,
                Err(_) => {
                    return Ok(None);
                },
            };
            let size = match r.read_var_u32() {
                Ok(v) => v,
                Err(e) => {
                    return Err(e);
                },
            };
            let body = match r.read_u8_vec(size as usize) {
                Ok(v) => v,
                Err(e) => {
                    return Err(e);
                },
            };
            let cid = match id {
                12u32 => Some(CmdId::CreateStringTable),
                13u32 => Some(CmdId::UpdateStringTable),
                23u32 => Some(CmdId::UserMessage),
                25u32 => Some(CmdId::GameEvent),
                30u32 => Some(CmdId::GameEventList),
                _ => None,
            };
            match cid {
                Some(c) => {
                    return Ok(Some(CmdFrame { id: c, data: body }));
                },
                None => {
                    proof {
                        r.lemma_wf_bounds();
                        assert(next_frame(data, pos_iter) == next_frame(data, r.pos()));
                    }
                },
            }
        }
    }
}

} // verus!

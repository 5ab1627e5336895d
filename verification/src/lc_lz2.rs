//! The simple command-stream decoder: five commands, with the
//! increment-fill as its third and the two highest opcodes left undefined.

use vstd::prelude::*;
use crate::lc_lz_shared::{
    DcErr, DcResult, LzVariant, decode_from, parse_command_head,
    direct_copy, byte_fill, word_fill, repeat,
};

verus! {

/// Emits `len` bytes counting up from the next stream byte, wrapping at
/// 256; fails without writing when the stream is dry.
pub fn inc_fill(buf: &[u8], targ: &mut Vec<u8>, idx: usize, len: u16) -> (r: DcResult<usize>)
    requires
        idx <= buf@.len(),
    ensures
        idx < buf@.len() ==> {
            &&& r matches Ok(ni) && ni == idx + 1
            &&& final(targ)@ == old(targ)@ + Seq::new(
                len as nat,
                |k: int| ((buf@[idx as int] + k) % 256) as u8,
            )
        },
        idx >= buf@.len() ==> {
            &&& r == Err::<usize, DcErr>(DcErr::LcLzPrematureTermination)
            &&& final(targ)@ == old(targ)@
        },
{
    if idx >= buf.len() {
        return Err(DcErr::LcLzPrematureTermination);
    }
    let mut value = buf[idx];
    let uslen = len as usize;
    let mut k: usize = 0;
    while k < uslen
        invariant
            k <= uslen,
            value == ((buf@[idx as int] + k) % 256) as u8,
            targ@ == old(targ)@ + Seq::new(
                k as nat,
                |q: int| ((buf@[idx as int] + q) % 256) as u8,
            ),
        decreases uslen - k,
    {
        targ.push(value);
        value = if value == 255 {
            0
        } else {
            value + 1
        };
        proof {
            assert(targ@ =~= old(targ)@ + Seq::new(
                (k + 1) as nat,
                |q: int| ((buf@[idx as int] + q) % 256) as u8,
            ));
        }
        k += 1;
    }
    proof {
        assert(targ@ =~= old(targ)@ + Seq::new(
            len as nat,
            |q: int| ((buf@[idx as int] + q) % 256) as u8,
        ));
    }
    Ok(idx + 1)
}

/// Decodes a whole stream under the simple variant, with a starting
/// capacity hint for the output buffer.
pub fn decomp_with_hint(buf: &[u8], size_hint: usize) -> (r: DcResult<Vec<u8>>)
    ensures
        ({
            let d = decode_from(buf@, 0, Seq::<u8>::empty(), LzVariant::Two);
            &&& (r matches Ok(v) ==> d == Ok::<Seq<u8>, DcErr>(v@))
            &&& (r matches Err(e) ==> d == Err::<Seq<u8>, DcErr>(e))
        }),
{
    let mut input_idx: usize = 0;
    let mut targ: Vec<u8> = Vec::with_capacity(size_hint);
    loop
        invariant
            input_idx <= buf@.len(),
            decode_from(buf@, 0, Seq::<u8>::empty(), LzVariant::Two)
                == decode_from(buf@, input_idx as int, targ@, LzVariant::Two),
        decreases buf@.len() - input_idx,
    {
        match parse_command_head(buf, input_idx) {
            Err(e) => {
                return Err(e);
            },
            Ok(None) => {
                if targ.len() > 0xffff {
                    return Err(DcErr::LcLzOverlongOutput);
                }
                return Ok(targ);
            },
            Ok(Some((cmd, len))) => {
                let hsize: usize = if buf[input_idx] >> 5 == 7 {
                    2
                } else {
                    1
                };
                let j = input_idx + hsize;
                let step = if cmd == 0 {
                    direct_copy(buf, &mut targ, j, len)
                } else if cmd == 1 {
                    byte_fill(buf, &mut targ, j, len)
                } else if cmd == 2 {
                    word_fill(buf, &mut targ, j, len)
                } else if cmd == 3 {
                    inc_fill(buf, &mut targ, j, len)
                } else if cmd == 4 {
                    repeat(buf, &mut targ, j, len)
                } else {
                    Err(DcErr::LcLzUndefinedLz2Command)
                };
                match step {
                    Ok(ni) => {
                        input_idx = ni;
                    },
                    Err(e) => {
                        return Err(e);
                    },
                }
            },
        }
    }
}

/// Decodes a whole stream under the simple variant.
pub fn decomp(buf: &[u8]) -> (r: DcResult<Vec<u8>>)
    ensures
        ({
            let d = decode_from(buf@, 0, Seq::<u8>::empty(), LzVariant::Two);
            &&& (r matches Ok(v) ==> d == Ok::<Seq<u8>, DcErr>(v@))
            &&& (r matches Err(e) ==> d == Err::<Seq<u8>, DcErr>(e))
        }),
{
    decomp_with_hint(buf, 4 * 1024)
}

} // verus!

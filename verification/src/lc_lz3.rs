//! The richer command-stream decoder: zero-fill in place of the
//! increment-fill, and two extra back-reference commands — one reversing
//! the bits of each copied byte, one reading backward.

use vstd::prelude::*;
use crate::lc_lz_shared::{
    DcErr, DcResult, LzVariant, decode_from, parse_command_head, rev_swap, back_copy_rev,
    direct_copy, byte_fill, word_fill, repeat,
};

verus! {

/// Emits `len` zero bytes; consumes no stream bytes.
pub fn zero_fill(buf: &[u8], targ: &mut Vec<u8>, idx: usize, len: u16) -> (r: DcResult<usize>)
    ensures
        r == Ok::<usize, DcErr>(idx),
        final(targ)@ == old(targ)@ + Seq::new(len as nat, |k: int| 0u8),
{
    let uslen = len as usize;
    let mut k: usize = 0;
    while k < uslen
        invariant
            k <= uslen,
            targ@ == old(targ)@ + Seq::new(k as nat, |q: int| 0u8),
        decreases uslen - k,
    {
        targ.push(0);
        proof {
            assert(targ@ =~= old(targ)@ + Seq::new((k + 1) as nat, |q: int| 0u8));
        }
        k += 1;
    }
    proof {
        assert(targ@ =~= old(targ)@ + Seq::new(len as nat, |q: int| 0u8));
    }
    Ok(idx)
}

/// A back-reference copy that bit-reverses and swaps each copied byte's
/// four-bit groups, overlapping like the plain back-reference.
pub fn repeat_bit_reversed(buf: &[u8], targ: &mut Vec<u8>, idx: usize, len: u16) -> (r: DcResult<usize>)
    requires
        idx <= buf@.len(),
    ensures
        idx + 2 > buf@.len() ==> {
            &&& r == Err::<usize, DcErr>(DcErr::LcLzPrematureTermination)
            &&& final(targ)@ == old(targ)@
        },
        idx + 2 <= buf@.len() ==> {
            let ofs = (buf@[idx as int] as usize) | ((buf@[idx + 1] as usize) << 1);
            if ofs >= old(targ)@.len() {
                &&& r == Err::<usize, DcErr>(DcErr::LcLzOutOfRangeCopy)
                &&& final(targ)@ == old(targ)@
            } else {
                &&& r matches Ok(ni) && ni == idx + 2
                &&& final(targ)@ == back_copy_rev(old(targ)@, ofs as int, len as int)
            }
        },
{
    if buf.len() - idx < 2 {
        return Err(DcErr::LcLzPrematureTermination);
    }
    let ofs = buf[idx] as usize | ((buf[idx + 1] as usize) << 1);
    if ofs >= targ.len() {
        return Err(DcErr::LcLzOutOfRangeCopy);
    }
    let uslen = len as usize;
    let mut k: usize = 0;
    while k < uslen
        invariant
            k <= uslen,
            uslen == len,
            ofs < old(targ)@.len(),
            targ@.len() == old(targ)@.len() + k,
            back_copy_rev(old(targ)@, ofs as int, len as int)
                == back_copy_rev(targ@, ofs + k, len - k),
        decreases uslen - k,
    {
        // Reading the live length pins the view's length into range.
        let _cur = targ.len();
        let ghost prev = targ@;
        let b = targ[ofs + k];
        let ln = b & 0xf;
        let hn = b >> 4;
        let rln = ((ln & 1) << 3) | ((ln & 2) << 1) | ((ln & 4) >> 1) | ((ln & 8) >> 3);
        let rhn = ((hn & 1) << 3) | ((hn & 2) << 1) | ((hn & 4) >> 1) | ((hn & 8) >> 3);
        let rb = rhn | (rln << 4);
        targ.push(rb);
        proof {
            assert(rb == rev_swap(prev[ofs + k]));
            assert(back_copy_rev(prev, ofs + k, len - k)
                == back_copy_rev(prev.push(rev_swap(prev[ofs + k])), ofs + k + 1, len - (k + 1)));
        }
        k += 1;
    }
    Ok(idx + 2)
}

/// A back-reference copy read backward: copies the bytes at the offset
/// and downward. Fails when the offset is at or past the output's end, or
/// when the copy would read before the output's start.
pub fn repeat_backward(buf: &[u8], targ: &mut Vec<u8>, idx: usize, len: u16) -> (r: DcResult<usize>)
    requires
        idx <= buf@.len(),
    ensures
        idx + 2 > buf@.len() ==> {
            &&& r == Err::<usize, DcErr>(DcErr::LcLzPrematureTermination)
            &&& final(targ)@ == old(targ)@
        },
        idx + 2 <= buf@.len() ==> {
            let ofs = (buf@[idx as int] as usize) | ((buf@[idx + 1] as usize) << 1);
            if ofs >= old(targ)@.len() || len > ofs {
                &&& r == Err::<usize, DcErr>(DcErr::LcLzOutOfRangeCopy)
                &&& final(targ)@ == old(targ)@
            } else {
                &&& r matches Ok(ni) && ni == idx + 2
                &&& final(targ)@ == old(targ)@ + Seq::new(
                    len as nat,
                    |k: int| old(targ)@[ofs - k],
                )
            }
        },
{
    if buf.len() - idx < 2 {
        return Err(DcErr::LcLzPrematureTermination);
    }
    let ofs = buf[idx] as usize | ((buf[idx + 1] as usize) << 1);
    if ofs >= targ.len() {
        return Err(DcErr::LcLzOutOfRangeCopy);
    }
    if len as usize > ofs {
        return Err(DcErr::LcLzOutOfRangeCopy);
    }
    let uslen = len as usize;
    let mut k: usize = 0;
    while k < uslen
        invariant
            k <= uslen,
            uslen <= ofs,
            ofs < old(targ)@.len(),
            targ@.len() == old(targ)@.len() + k,
            forall|j: int| 0 <= j < old(targ)@.len() ==> targ@[j] == old(targ)@[j],
            targ@ == old(targ)@ + Seq::new(k as nat, |q: int| old(targ)@[ofs - q]),
        decreases uslen - k,
    {
        let b = targ[ofs - k];
        targ.push(b);
        proof {
            assert(targ@ =~= old(targ)@ + Seq::new((k + 1) as nat, |q: int| old(targ)@[ofs - q]));
        }
        k += 1;
    }
    proof {
        assert(targ@ =~= old(targ)@ + Seq::new(len as nat, |q: int| old(targ)@[ofs - q]));
    }
    Ok(idx + 2)
}

/// Decodes a whole stream under the richer variant, with a starting
/// capacity hint for the output buffer.
pub fn decomp_with_hint(buf: &[u8], size_hint: usize) -> (r: DcResult<Vec<u8>>)
    ensures
        ({
            let d = decode_from(buf@, 0, Seq::<u8>::empty(), LzVariant::Three);
            &&& (r matches Ok(v) ==> d == Ok::<Seq<u8>, DcErr>(v@))
            &&& (r matches Err(e) ==> d == Err::<Seq<u8>, DcErr>(e))
        }),
{
    let mut input_idx: usize = 0;
    let mut targ: Vec<u8> = Vec::with_capacity(size_hint);
    loop
        invariant
            input_idx <= buf@.len(),
            decode_from(buf@, 0, Seq::<u8>::empty(), LzVariant::Three)
                == decode_from(buf@, input_idx as int, targ@, LzVariant::Three),
        decreases buf@.len() - input_idx,
    {
        match parse_command_head(buf, input_idx) {
            Err(e) => {
                return Err(e);
            },
            Ok(None) => {
                if targ.len() > 0xffff {
                    return Err(DcErr::LcLzOverlongOutput);
                }
                return Ok(targ);
            },
            Ok(Some((cmd, len))) => {
                let hsize: usize = if buf[input_idx] >> 5 == 7 {
                    2
                } else {
                    1
                };
                let j = input_idx + hsize;
                let step = if cmd == 0 {
                    direct_copy(buf, &mut targ, j, len)
                } else if cmd == 1 {
                    byte_fill(buf, &mut targ, j, len)
                } else if cmd == 2 {
                    word_fill(buf, &mut targ, j, len)
                } else if cmd == 3 {
                    zero_fill(buf, &mut targ, j, len)
                } else if cmd == 4 {
                    repeat(buf, &mut targ, j, len)
                } else if cmd == 5 {
                    repeat_bit_reversed(buf, &mut targ, j, len)
                } else {
                    repeat_backward(buf, &mut targ, j, len)
                };
                match step {
                    Ok(ni) => {
                        input_idx = ni;
                    },
                    Err(e) => {
                        return Err(e);
                    },
                }
            },
        }
    }
}

/// Decodes a whole stream under the richer variant.
pub fn decomp(buf: &[u8]) -> (r: DcResult<Vec<u8>>)
    ensures
        ({
            let d = decode_from(buf@, 0, Seq::<u8>::empty(), LzVariant::Three);
            &&& (r matches Ok(v) ==> d == Ok::<Seq<u8>, DcErr>(v@))
            &&& (r matches Err(e) ==> d == Err::<Seq<u8>, DcErr>(e))
        }),
{
    decomp_with_hint(buf, 4 * 1024)
}

} // verus!

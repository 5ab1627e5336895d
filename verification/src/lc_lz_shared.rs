//! The command-dispatch core shared by the two command-stream decoders:
//! head parsing and the commands whose meaning both variants share, with
//! the mathematical model of a whole decoding run.
//!
//! A command head is one byte — three opcode bits over five length bits —
//! unless the opcode bits are all set, in which case a second byte follows
//! and the opcode moves down to bits four through two of the first byte.
//! The byte 0xff at a head position ends the stream.

use vstd::prelude::*;

verus! {

/// Why a stream failed to decode.
#[derive(Clone, Copy, Debug, PartialEq, Eq, Structural)]
pub enum DcErr {
    /// The stream ended before a required byte or head was available.
    LcLzPrematureTermination,
    /// A long head carried the all-set opcode a second time.
    LcLzInvalidCommandHeader,
    /// A back-reference started at or past the output written so far,
    /// or a backward copy would read before the output's start.
    LcLzOutOfRangeCopy,
    /// An opcode the simple variant leaves undefined.
    LcLzUndefinedLz2Command,
    /// The decoded output exceeded 65535 bytes.
    LcLzOverlongOutput,
}

pub type DcResult<V> = Result<V, DcErr>;

/// Which of the two sibling decoders is running.
#[derive(Clone, Copy, Debug, PartialEq, Eq, Structural)]
pub enum LzVariant {
    Two,
    Three,
}

/// What stands at a head position: the stream's end, a command with its
/// opcode, emitted length, and head size in bytes, or a failure.
pub enum Head {
    End,
    Cmd { op: int, len: int, size: int },
    Fail(DcErr),
}

/// Reads the command head at position `i`.
pub open spec fn parse_head(b: Seq<u8>, i: int) -> Head {
    if i < 0 || i >= b.len() {
        Head::Fail(DcErr::LcLzPrematureTermination)
    } else if b[i] == 0xffu8 {
        Head::End
    } else if b[i] >> 5 != 7 {
        Head::Cmd { op: (b[i] >> 5) as int, len: (b[i] & 0x1f) as int + 1, size: 1 }
    } else if i + 1 >= b.len() {
        Head::Fail(DcErr::LcLzPrematureTermination)
    } else if (b[i] >> 2) & 7 == 7 {
        Head::Fail(DcErr::LcLzInvalidCommandHeader)
    } else {
        Head::Cmd {
            op: ((b[i] >> 2) & 7) as int,
            len: ((b[i] & 2) as int) * 256 + b[i + 1] as int + 1,
            size: 2,
        }
    }
}

/// The reversal of a four-bit group.
pub open spec fn rev4(n: u8) -> u8 {
    ((n & 1) << 3) | ((n & 2) << 1) | ((n & 4) >> 1) | ((n & 8) >> 3)
}

/// A byte with its two four-bit groups swapped and each reversed.
pub open spec fn rev_swap(b: u8) -> u8 {
    rev4(b >> 4) | (rev4(b & 0xf) << 4)
}

/// A forward overlapping copy: `len` bytes appended one at a time, each
/// read from position `ofs` onward of the output as it grows.
pub open spec fn back_copy(out: Seq<u8>, ofs: int, len: int) -> Seq<u8>
    decreases len,
{
    if len <= 0 {
        out
    } else {
        back_copy(out.push(out[ofs]), ofs + 1, len - 1)
    }
}

/// The same overlapping copy with every appended byte passed through
/// `rev_swap`.
pub open spec fn back_copy_rev(out: Seq<u8>, ofs: int, len: int) -> Seq<u8>
    decreases len,
{
    if len <= 0 {
        out
    } else {
        back_copy_rev(out.push(rev_swap(out[ofs])), ofs + 1, len - 1)
    }
}

/// The whole decoding run from position `i` with output `out` written so
/// far: reads a head, applies the command it names, and continues until
/// the stream's end byte, a failure, or the stream running dry.
pub open spec fn decode_from(b: Seq<u8>, i: int, out: Seq<u8>, v: LzVariant) -> Result<Seq<u8>, DcErr>
    decreases b.len() - i,
{
    match parse_head(b, i) {
        Head::Fail(e) => Err(e),
        Head::End => if out.len() > 0xffff {
            Err(DcErr::LcLzOverlongOutput)
        } else {
            Ok(out)
        },
        Head::Cmd { op, len, size } => {
            let j = i + size;
            if op == 0 {
                if j + len > b.len() {
                    Err(DcErr::LcLzPrematureTermination)
                } else {
                    decode_from(b, j + len, out + b.subrange(j, j + len), v)
                }
            } else if op == 1 {
                if j >= b.len() {
                    Err(DcErr::LcLzPrematureTermination)
                } else {
                    decode_from(b, j + 1, out + Seq::new(len as nat, |k: int| b[j]), v)
                }
            } else if op == 2 {
                if j + 2 > b.len() {
                    Err(DcErr::LcLzPrematureTermination)
                } else {
                    decode_from(
                        b,
                        j + 2,
                        out + Seq::new(len as nat, |k: int| if k % 2 == 0 { b[j] } else { b[j + 1] }),
                        v,
                    )
                }
            } else if op == 3 {
                match v {
                    LzVariant::Two => if j >= b.len() {
                        Err(DcErr::LcLzPrematureTermination)
                    } else {
                        decode_from(
                            b,
                            j + 1,
                            out + Seq::new(len as nat, |k: int| ((b[j] + k) % 256) as u8),
                            v,
                        )
                    },
                    LzVariant::Three => decode_from(
                        b,
                        j,
                        out + Seq::new(len as nat, |k: int| 0u8),
                        v,
                    ),
                }
            } else if op == 4 || (op == 5 && v is Three) || (op == 6 && v is Three) {
                if j + 2 > b.len() {
                    Err(DcErr::LcLzPrematureTermination)
                } else {
                    let ofs = (b[j] as usize) | ((b[j + 1] as usize) << 1);
                    if ofs >= out.len() {
                        Err(DcErr::LcLzOutOfRangeCopy)
                    } else if op == 4 {
                        decode_from(b, j + 2, back_copy(out, ofs as int, len), v)
                    } else if op == 5 {
                        decode_from(b, j + 2, back_copy_rev(out, ofs as int, len), v)
                    } else if len > ofs {
                        Err(DcErr::LcLzOutOfRangeCopy)
                    } else {
                        decode_from(b, j + 2, out + Seq::new(len as nat, |k: int| out[ofs - k]), v)
                    }
                }
            } else {
                Err(DcErr::LcLzUndefinedLz2Command)
            }
        },
    }
}

/// Reads the command head at position `idx`: the end marker, a pair of
/// opcode and emitted length, or the failure the head earns.
pub fn parse_command_head(buf: &[u8], idx: usize) -> (r: DcResult<Option<(u8, u16)>>)
    requires
        idx <= buf@.len(),
    ensures
        ({
            let h = parse_head(buf@, idx as int);
            match h {
                Head::End => r == Ok::<Option<(u8, u16)>, DcErr>(None),
                Head::Fail(e) => r == Err::<Option<(u8, u16)>, DcErr>(e),
                Head::Cmd { op, len, size } => {
                    &&& r matches Ok(s) && s matches Some(p) && p.0 == op && p.1 == len
                    &&& size == (if buf@[idx as int] >> 5 == 7 { 2int } else { 1int })
                    &&& 0 <= op <= 6
                    &&& 1 <= len <= 0x300
                    &&& idx + size <= buf@.len()
                },
            }
        }),
{
    if idx >= buf.len() {
        return Err(DcErr::LcLzPrematureTermination);
    }
    let b0 = buf[idx];
    if b0 == 0xff {
        return Ok(None);
    }
    let cmd = b0 >> 5;
    if cmd != 7 {
        proof {
            assert(b0 >> 5 != 7 ==> b0 >> 5 <= 6 && (b0 & 0x1f) < 32) by (bit_vector);
        }
        return Ok(Some((cmd, (b0 as u16 & 0x1f) + 1)));
    }
    if idx + 1 < buf.len() {
        let cmd2 = (b0 >> 2) & 0x7;
        let b1 = buf[idx + 1];
        if cmd2 == 7 {
            return Err(DcErr::LcLzInvalidCommandHeader);
        }
        let len2 = ((b0 as u16 & 0x2) << 8) | b1 as u16;
        proof {
            assert(((b0 as u16 & 0x2) << 8) | b1 as u16 == ((b0 & 2) as u16) * 256 + b1 as u16)
                by (bit_vector);
            assert((b0 >> 2) & 0x7 != 7 ==> (b0 >> 2) & 0x7 <= 6) by (bit_vector);
            assert(((b0 & 2) as u16) * 256 + b1 as u16 <= 0x2ff) by (bit_vector);
        }
        Ok(Some((cmd2, len2 + 1)))
    } else {
        Err(DcErr::LcLzPrematureTermination)
    }
}

/// How much of the stream is left from position `idx`.
pub fn remaining_len(buf: &[u8], idx: usize) -> (r: usize)
    requires
        idx < buf@.len(),
    ensures
        r == buf@.len() - idx,
{
    buf.len() - idx
}

/// Copies the next `len` stream bytes to the output unchanged; fails
/// without writing when fewer remain.
pub fn direct_copy(buf: &[u8], targ: &mut Vec<u8>, idx: usize, len: u16) -> (r: DcResult<usize>)
    requires
        idx <= buf@.len(),
    ensures
        idx + len <= buf@.len() ==> {
            &&& r matches Ok(ni) && ni == idx + len
            &&& final(targ)@ == old(targ)@ + buf@.subrange(idx as int, idx + len)
        },
        idx + len > buf@.len() ==> {
            &&& r == Err::<usize, DcErr>(DcErr::LcLzPrematureTermination)
            &&& final(targ)@ == old(targ)@
        },
{
    let uslen = len as usize;
    if uslen > buf.len() - idx {
        return Err(DcErr::LcLzPrematureTermination);
    }
    let n = buf.len();
    let mut k: usize = 0;
    while k < uslen
        invariant
            n == buf@.len(),
            idx + uslen <= buf@.len(),
            k <= uslen,
            targ@ == old(targ)@ + buf@.subrange(idx as int, idx + k),
        decreases uslen - k,
    {
        targ.push(buf[idx + k]);
        proof {
            assert(targ@ =~= old(targ)@ + buf@.subrange(idx as int, idx + k + 1));
        }
        k += 1;
    }
    Ok(idx + uslen)
}

/// Emits `len` copies of the next stream byte; fails without writing when
/// the stream is dry.
pub fn byte_fill(buf: &[u8], targ: &mut Vec<u8>, idx: usize, len: u16) -> (r: DcResult<usize>)
    requires
        idx <= buf@.len(),
    ensures
        idx < buf@.len() ==> {
            &&& r matches Ok(ni) && ni == idx + 1
            &&& final(targ)@ == old(targ)@ + Seq::new(len as nat, |k: int| buf@[idx as int])
        },
        idx >= buf@.len() ==> {
            &&& r == Err::<usize, DcErr>(DcErr::LcLzPrematureTermination)
            &&& final(targ)@ == old(targ)@
        },
{
    if idx >= buf.len() {
        return Err(DcErr::LcLzPrematureTermination);
    }
    let b = buf[idx];
    let uslen = len as usize;
    let mut k: usize = 0;
    while k < uslen
        invariant
            b == buf@[idx as int],
            k <= uslen,
            targ@ == old(targ)@ + Seq::new(k as nat, |q: int| buf@[idx as int]),
        decreases uslen - k,
    {
        targ.push(b);
        proof {
            assert(targ@ =~= old(targ)@ + Seq::new((k + 1) as nat, |q: int| buf@[idx as int]));
        }
        k += 1;
    }
    proof {
        assert(targ@ =~= old(targ)@ + Seq::new(len as nat, |q: int| buf@[idx as int]));
    }
    Ok(idx + 1)
}

/// Emits `len` bytes alternating between the next two stream bytes; fails
/// without writing when fewer than two remain.
pub fn word_fill(buf: &[u8], targ: &mut Vec<u8>, idx: usize, len: u16) -> (r: DcResult<usize>)
    requires
        idx <= buf@.len(),
    ensures
        idx + 2 <= buf@.len() ==> {
            &&& r matches Ok(ni) && ni == idx + 2
            &&& final(targ)@ == old(targ)@ + Seq::new(
                len as nat,
                |k: int| if k % 2 == 0 { buf@[idx as int] } else { buf@[idx + 1] },
            )
        },
        idx + 2 > buf@.len() ==> {
            &&& r == Err::<usize, DcErr>(DcErr::LcLzPrematureTermination)
            &&& final(targ)@ == old(targ)@
        },
{
    if buf.len() - idx < 2 {
        return Err(DcErr::LcLzPrematureTermination);
    }
    let lo = buf[idx];
    let hi = buf[idx + 1];
    let uslen = len as usize;
    let mut k: usize = 0;
    let mut lo_hi: usize = 0;
    while k < uslen
        invariant
            lo == buf@[idx as int],
            hi == buf@[idx + 1],
            k <= uslen,
            lo_hi == k % 2,
            targ@ == old(targ)@ + Seq::new(
                k as nat,
                |q: int| if q % 2 == 0 { buf@[idx as int] } else { buf@[idx + 1] },
            ),
        decreases uslen - k,
    {
        if lo_hi == 0 {
            targ.push(lo);
        } else {
            targ.push(hi);
        }
        lo_hi ^= 1;
        proof {
            assert(k % 2 == 0 || k % 2 == 1);
            assert(0usize ^ 1 == 1 && 1usize ^ 1 == 0) by (bit_vector);
            assert(targ@ =~= old(targ)@ + Seq::new(
                (k + 1) as nat,
                |q: int| if q % 2 == 0 { buf@[idx as int] } else { buf@[idx + 1] },
            ));
        }
        k += 1;
    }
    proof {
        assert(targ@ =~= old(targ)@ + Seq::new(
            len as nat,
            |q: int| if q % 2 == 0 { buf@[idx as int] } else { buf@[idx + 1] },
        ));
    }
    Ok(idx + 2)
}

/// A back-reference copy: reads a two-byte odd-packed offset, then copies
/// `len` bytes forward from that offset of the output itself, the copy
/// overlapping the bytes it appends. Fails without writing when the
/// offset bytes are missing or the offset is at or past the output's end.
pub fn repeat(buf: &[u8], targ: &mut Vec<u8>, idx: usize, len: u16) -> (r: DcResult<usize>)
    requires
        idx <= buf@.len(),
    ensures
        idx + 2 > buf@.len() ==> {
            &&& r == Err::<usize, DcErr>(DcErr::LcLzPrematureTermination)
            &&& final(targ)@ == old(targ)@
        },
        idx + 2 <= buf@.len() ==> {
            let ofs = (buf@[idx as int] as usize) | ((buf@[idx + 1] as usize) << 1);
            if ofs >= old(targ)@.len() {
                &&& r == Err::<usize, DcErr>(DcErr::LcLzOutOfRangeCopy)
                &&& final(targ)@ == old(targ)@
            } else {
                &&& r matches Ok(ni) && ni == idx + 2
                &&& final(targ)@ == back_copy(old(targ)@, ofs as int, len as int)
            }
        },
{
    if buf.len() - idx < 2 {
        return Err(DcErr::LcLzPrematureTermination);
    }
    let ofs = buf[idx] as usize | ((buf[idx + 1] as usize) << 1);
    if ofs >= targ.len() {
        return Err(DcErr::LcLzOutOfRangeCopy);
    }
    let uslen = len as usize;
    let mut k: usize = 0;
    while k < uslen
        invariant
            k <= uslen,
            uslen == len,
            ofs < old(targ)@.len(),
            targ@.len() == old(targ)@.len() + k,
            back_copy(old(targ)@, ofs as int, len as int)
                == back_copy(targ@, ofs + k, len - k),
        decreases uslen - k,
    {
        // Reading the live length pins the view's length into range.
        let _cur = targ.len();
        let ghost prev = targ@;
        let b = targ[ofs + k];
        targ.push(b);
        proof {
            assert(back_copy(prev, ofs + k, len - k)
                == back_copy(prev.push(prev[ofs + k]), ofs + k + 1, len - (k + 1)));
        }
        k += 1;
    }
    Ok(idx + 2)
}

/// A run of `back_copy` keeps the bytes already in the output and only
/// appends, so the output never shrinks.
pub proof fn lemma_back_copy_grows(out: Seq<u8>, ofs: int, len: int)
    requires
        0 <= ofs < out.len(),
        0 <= len,
    ensures
        back_copy(out, ofs, len).len() == out.len() + len,
        forall|j: int| 0 <= j < out.len() ==> back_copy(out, ofs, len)[j] == out[j],
    decreases len,
{
    if len <= 0 {
    } else {
        let out2 = out.push(out[ofs]);
        lemma_back_copy_grows(out2, ofs + 1, len - 1);
        assert(forall|j: int| 0 <= j < out.len() ==> out2[j] == out[j]);
    }
}

/// As `lemma_back_copy_grows`, for the reversing copy.
pub proof fn lemma_back_copy_rev_grows(out: Seq<u8>, ofs: int, len: int)
    requires
        0 <= ofs < out.len(),
        0 <= len,
    ensures
        back_copy_rev(out, ofs, len).len() == out.len() + len,
        forall|j: int| 0 <= j < out.len() ==> back_copy_rev(out, ofs, len)[j] == out[j],
    decreases len,
{
    if len <= 0 {
    } else {
        let out2 = out.push(rev_swap(out[ofs]));
        lemma_back_copy_rev_grows(out2, ofs + 1, len - 1);
        assert(forall|j: int| 0 <= j < out.len() ==> out2[j] == out[j]);
    }
}

} // verus!

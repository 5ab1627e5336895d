//! The tag-based free-space allocator: scans a cartridge image for room
//! between self-verifying occupancy tags, writes new tagged records, and
//! clears them again.
//!
//! A tag is eight bytes: the magic `STAR`, the payload length minus one as
//! a little-endian word, and that word's bitwise complement. A record laid
//! down for a level additionally carries the marker `CLNP` as its first
//! four payload bytes.

use vstd::prelude::*;
use vstd::pervasive::VecAdditionalExecFns;
use crate::address::{Address, Mapper};

verus! {

/// Whether a valid tag begins at position `i`: the magic matches and the
/// stored length word is the complement of its check word.
pub open spec fn tag_at(img: Seq<u8>, i: int) -> bool {
    &&& 0 <= i
    &&& i + 8 <= img.len()
    &&& img[i] == 0x53u8
    &&& img[i + 1] == 0x54u8
    &&& img[i + 2] == 0x41u8
    &&& img[i + 3] == 0x52u8
    &&& img[i + 4] == !img[i + 6]
    &&& img[i + 5] == !img[i + 7]
}

/// The whole extent of the record whose tag begins at `i`: the eight tag
/// bytes plus the declared payload (stored as length minus one).
pub open spec fn tag_skip(img: Seq<u8>, i: int) -> int {
    (img[i + 4] as int) + 256 * (img[i + 5] as int) + 9
}

/// The eight tag bytes written for a payload of length `len`.
pub open spec fn tag_bytes(len: int) -> Seq<u8> {
    let lo = ((len - 1) % 256) as u8;
    let hi = (((len - 1) / 256) % 256) as u8;
    seq![0x53u8, 0x54u8, 0x41u8, 0x52u8, lo, hi, !lo, !hi]
}

/// The little-endian word at position `i`.
pub fn read_u16(buf: &[u8], i: usize) -> (r: u16)
    requires
        i + 2 <= buf@.len(),
    ensures
        r == buf@[i as int] + 256 * buf@[i + 1],
{
    let r = (buf[i] as u16) | ((buf[i + 1] as u16) << 8);
    proof {
        let (a, b) = (buf@[i as int], buf@[i + 1]);
        assert((a as u16) | ((b as u16) << 8) == a + 256 * b) by (bit_vector);
    }
    r
}

/// Checks for a tag at position `i` and reports the whole extent of its
/// record, tag included, for the scanner to skip.
pub fn rats_len(buf: &[u8], i: usize) -> (r: Option<usize>)
    requires
        i <= buf@.len(),
    ensures
        r is Some <==> tag_at(buf@, i as int),
        r matches Some(s) ==> s == tag_skip(buf@, i as int),
{
    if buf.len() - i < 8 {
        return None;
    }
    if buf[i] != 0x53 || buf[i + 1] != 0x54 || buf[i + 2] != 0x41 || buf[i + 3] != 0x52 {
        return None;
    }
    if buf[i + 4] != !buf[i + 6] || buf[i + 5] != !buf[i + 7] {
        return None;
    }
    let stored = read_u16(buf, i + 4);
    Some(stored as usize + 8 + 1)
}

/// The scanner's course from position `i` with `free` free bytes already
/// counted behind it: skip whole records, count free bytes, reset the count
/// at each 0x8000-byte bank boundary, and stop at the first position where
/// `len` free bytes end at an allocation start whose low bits under `filt`
/// are clear.
pub open spec fn scan_from(img: Seq<u8>, i: int, free: int, len: int, filt: usize) -> Option<int>
    decreases img.len() - i
{
    if i >= img.len() {
        None
    } else if tag_at(img, i) {
        if i + tag_skip(img, i) >= img.len() {
            None
        } else {
            scan_from(img, i + tag_skip(img, i), 0, len, filt)
        }
    } else if free + 1 >= len && ((i + 1 - len) as usize) & filt == 0 {
        Some(i + 1 - len)
    } else if (i + 1) % 0x8000 == 0 {
        scan_from(img, i + 1, 0, len, filt)
    } else {
        scan_from(img, i + 1, free + 1, len, filt)
    }
}

/// What the scanner promises of a hit: the region starts on the requested
/// alignment, lies whole within the image, and no valid tag begins at any
/// of its positions.
pub proof fn lemma_scan_props(img: Seq<u8>, i: int, free: int, len: int, filt: usize)
    requires
        0 <= free <= i,
        0 <= len,
        forall|j: int| i - free <= j < i ==> !tag_at(img, j),
    ensures
        scan_from(img, i, free, len, filt) matches Some(s) ==> {
            &&& 0 <= s
            &&& s + len <= img.len()
            &&& (s as usize) & filt == 0
            &&& forall|j: int| s <= j < s + len ==> !tag_at(img, j)
        },
    decreases img.len() - i
{
    if i >= img.len() {
    } else if tag_at(img, i) {
        if i + tag_skip(img, i) >= img.len() {
        } else {
            lemma_scan_props(img, i + tag_skip(img, i), 0, len, filt);
        }
    } else if free + 1 >= len && ((i + 1 - len) as usize) & filt == 0 {
        let s = i + 1 - len;
        assert(0 <= s && s + len <= img.len());
        assert(forall|j: int| s <= j < s + len ==> !tag_at(img, j));
    } else if (i + 1) % 0x8000 == 0 {
        lemma_scan_props(img, i + 1, 0, len, filt);
    } else {
        lemma_scan_props(img, i + 1, free + 1, len, filt);
    }
}

/// Scans the image from the end of the reserved header region for `len`
/// free bytes starting on a `1 << align` boundary, skipping every tagged
/// record and never letting a run cross a 0x8000-byte bank boundary.
/// Returns the start of the run; no valid tag begins inside the run.
pub fn find_aligned(rombytes: &[u8], len: usize, align: u8) -> (r: Option<Address>)
    requires
        len <= 0x8000,
        align < 17,
    ensures
        ({
            let filt = ((1usize << (align as usize)) - 1) as usize;
            let res = scan_from(rombytes@, 0x8_0000, 0, len as int, filt);
            &&& (r is Some <==> (res matches Some(s) && s < 0x40_0000))
            &&& r matches Some(a) ==> {
                &&& res == Some(a.spec_pc() as int)
                &&& a.spec_map() == Mapper::Lorom
                &&& a.wf()
                &&& a.spec_pc() & filt == 0
                &&& a.spec_pc() >= 0x8_0000
                &&& a.spec_pc() + len <= rombytes@.len()
                &&& forall|j: int| a.spec_pc() <= j < a.spec_pc() + len ==> !tag_at(rombytes@, j)
            }
        }),
{
    let begin: usize = 0x10 * 0x8000;
    proof {
        assert(align < 17 ==> (1usize << (align as usize)) >= 1) by (bit_vector);
    }
    let filt: usize = (1usize << (align as usize)) - 1;

    let mut i = begin;
    let mut free: usize = 0;

    loop
        invariant
            begin == 0x8_0000,
            begin <= i,
            free <= i,
            begin <= i - free,
            len <= 0x8000,
            filt == ((1usize << (align as usize)) - 1) as usize,
            forall|j: int| i - free <= j < i ==> !tag_at(rombytes@, j),
            scan_from(rombytes@, begin as int, 0, len as int, filt)
                == scan_from(rombytes@, i as int, free as int, len as int, filt),
            i <= rombytes@.len() || rombytes@.len() < begin,
        decreases rombytes@.len() - i,
    {
        if i >= rombytes.len() {
            return None;
        }
        if let Some(size) = rats_len(rombytes, i) {
            if size >= rombytes.len() - i {
                return None;
            }
            i += size;
            free = 0;
        } else {
            free += 1;
            let start = i + 1 - len;
            if free >= len && start & filt == 0 {
                proof {
                    lemma_scan_props(rombytes@, i as int, (free - 1) as int, len as int, filt);
                }
                return Address::new_from_pc(start, Mapper::Lorom);
            }
            i += 1;
            if i % 0x8000 == 0 {
                free = 0;
            }
        }
    }
}

/// Scans for `len` free bytes with no alignment demand.
pub fn find_free(rombytes: &[u8], len: usize) -> (r: Option<Address>)
    requires
        len <= 0x8000,
    ensures
        ({
            let res = scan_from(rombytes@, 0x8_0000, 0, len as int, 0);
            &&& (r is Some <==> (res matches Some(s) && s < 0x40_0000))
            &&& r matches Some(a) ==> {
                &&& res == Some(a.spec_pc() as int)
                &&& a.spec_map() == Mapper::Lorom
                &&& a.wf()
                &&& a.spec_pc() >= 0x8_0000
                &&& a.spec_pc() + len <= rombytes@.len()
                &&& forall|j: int| a.spec_pc() <= j < a.spec_pc() + len ==> !tag_at(rombytes@, j)
            }
        }),
{
    proof {
        assert(((1usize << 0usize) - 1) as usize == 0) by (bit_vector);
    }
    find_aligned(rombytes, len, 0)
}

/// Appends a tagged record: the magic, the payload length minus one, its
/// complement, then the payload itself.
pub fn insert(buf: &mut Vec<u8>, data: &[u8])
    requires
        1 <= data@.len() <= 0x1_0000,
    ensures
        final(buf)@ == old(buf)@ + tag_bytes(data@.len() as int) + data@,
{
    let stored = data.len() - 1;
    let lo: u8 = (stored % 256) as u8;
    let hi: u8 = ((stored / 256) % 256) as u8;
    buf.push(0x53);
    buf.push(0x54);
    buf.push(0x41);
    buf.push(0x52);
    buf.push(lo);
    buf.push(hi);
    buf.push(!lo);
    buf.push(!hi);
    buf.extend_from_slice(data);
    proof {
        assert(buf@ =~= old(buf)@ + tag_bytes(data@.len() as int) + data@);
    }
}

/// Overwrites `image[ofs + k]` for each byte of `data`, leaving the rest
/// of the image as it was.
fn write_at(image: &mut Vec<u8>, ofs: usize, data: &[u8])
    requires
        ofs + data@.len() <= old(image)@.len(),
    ensures
        final(image)@.len() == old(image)@.len(),
        final(image)@.subrange(ofs as int, ofs + data@.len()) == data@,
        forall|j: int| 0 <= j < final(image)@.len() && !(ofs <= j < ofs + data@.len())
            ==> final(image)@[j] == old(image)@[j],
{
    let total = image.len();
    let mut k: usize = 0;
    while k < data.len()
        invariant
            ofs + data@.len() <= image@.len(),
            image@.len() == old(image)@.len(),
            image@.len() == total,
            k <= data@.len(),
            forall|j: int| 0 <= j < k ==> image@[ofs + j] == data@[j],
            forall|j: int| 0 <= j < image@.len() && !(ofs <= j < ofs + k)
                ==> image@[j] == old(image)@[j],
        decreases data@.len() - k,
    {
        image.set(ofs + k, data[k]);
        k += 1;
    }
    proof {
        assert(image@.subrange(ofs as int, ofs + data@.len()) =~= data@);
    }
}

/// Finds room for the payload and its tag, writes the tagged record there
/// in place, and returns the address of the record's payload (eight bytes
/// past the tag).
pub fn insert_free(rombytes: &mut Vec<u8>, data: &[u8]) -> (r: Option<Address>)
    requires
        1 <= data@.len(),
        data@.len() + 8 <= 0x8000,
    ensures
        ({
            let res = scan_from(old(rombytes)@, 0x8_0000, 0, data@.len() as int + 8, 0);
            &&& (r is Some <==> (res matches Some(s) && s + 8 < 0x40_0000))
            &&& r is None ==> final(rombytes)@ == old(rombytes)@
            &&& r matches Some(a) ==> {
                let s = a.spec_pc() - 8;
                &&& res == Some(s)
                &&& s >= 0x8_0000
                &&& a.spec_map() == Mapper::Lorom
                &&& s + 8 + data@.len() <= final(rombytes)@.len()
                &&& final(rombytes)@.len() == old(rombytes)@.len()
                &&& final(rombytes)@.subrange(s, s + 8) == tag_bytes(data@.len() as int)
                &&& final(rombytes)@.subrange(s + 8, s + 8 + data@.len()) == data@
                &&& forall|j: int| 0 <= j < final(rombytes)@.len() && !(s <= j < s + 8 + data@.len())
                    ==> final(rombytes)@[j] == old(rombytes)@[j]
                &&& tag_at(final(rombytes)@, s)
                &&& tag_skip(final(rombytes)@, s) == data@.len() + 8
            }
        }),
{
    let block = data.len() + 8;
    let found = find_free(rombytes.as_slice(), block);
    if let Some(a) = found {
        let ofs = a.pc_ofs();
        match Address::new_from_pc(ofs + 8, Mapper::Lorom) {
            Some(p) => {
                let mut record: Vec<u8> = Vec::new();
                insert(&mut record, data);
                proof {
                    assert(record@ =~= tag_bytes(data@.len() as int) + data@);
                }
                write_at(rombytes, ofs, record.as_slice());
                proof {
                    let n = data@.len() as int;
                    let img = rombytes@;
                    let whole = img.subrange(ofs as int, ofs as int + 8 + n);
                    assert(img.subrange(ofs as int, ofs as int + 8) =~= whole.subrange(0, 8));
                    assert(img.subrange(ofs as int + 8, ofs as int + 8 + n) =~= whole.subrange(8, 8 + n));
                    assert(whole.subrange(0, 8) =~= tag_bytes(n));
                    assert(whole.subrange(8, 8 + n) =~= data@);
                    lemma_tag_bytes_valid(img, ofs as int, n);
                }
                Some(p)
            },
            None => None,
        }
    } else {
        None
    }
}

/// Freshly written tag bytes at `t` verify, and declare a record of the
/// payload's length plus the eight tag bytes.
pub proof fn lemma_tag_bytes_valid(img: Seq<u8>, t: int, n: int)
    requires
        1 <= n <= 0x1_0000,
        0 <= t,
        t + 8 <= img.len(),
        img.subrange(t, t + 8) == tag_bytes(n),
    ensures
        tag_at(img, t),
        tag_skip(img, t) == n + 8,
{
    let tb = tag_bytes(n);
    assert(img[t] == img.subrange(t, t + 8)[0]);
    assert(img[t + 1] == img.subrange(t, t + 8)[1]);
    assert(img[t + 2] == img.subrange(t, t + 8)[2]);
    assert(img[t + 3] == img.subrange(t, t + 8)[3]);
    assert(img[t + 4] == img.subrange(t, t + 8)[4]);
    assert(img[t + 5] == img.subrange(t, t + 8)[5]);
    assert(img[t + 6] == img.subrange(t, t + 8)[6]);
    assert(img[t + 7] == img.subrange(t, t + 8)[7]);
    let lo = ((n - 1) % 256) as u8;
    let hi = (((n - 1) / 256) % 256) as u8;
    assert(lo == !(!lo) && hi == !(!hi)) by (bit_vector);
    assert((n - 1) % 256 + 256 * (((n - 1) / 256) % 256) == n - 1) by (nonlinear_arith)
        requires 1 <= n <= 0x1_0000;
}

/// Corrupting any single byte of a valid tag invalidates it.
pub proof fn lemma_tag_corruption(img1: Seq<u8>, img2: Seq<u8>, t: int, k: int)
    requires
        tag_at(img1, t),
        img1.len() == img2.len(),
        t <= k < t + 8,
        img2[k] != img1[k],
        forall|j: int| 0 <= j < img1.len() && j != k ==> img2[j] == img1[j],
    ensures
        !tag_at(img2, t),
{
    assert(forall|a: u8, b: u8| a != b ==> !a != !b) by (bit_vector);
}

/// Whether position `ptr` points at the payload of a cleared-block record:
/// a valid tag twelve bytes back, and the marker `CLNP` in the four bytes
/// just before `ptr`.
pub open spec fn clnp_record_at(img: Seq<u8>, ptr: int) -> bool {
    &&& 12 <= ptr <= img.len()
    &&& tag_at(img, ptr - 12)
    &&& img[ptr - 4] == 0x43u8
    &&& img[ptr - 3] == 0x4cu8
    &&& img[ptr - 2] == 0x4eu8
    &&& img[ptr - 1] == 0x50u8
}

/// The image after the record at tag position `t` is cleared: every byte
/// of the record's extent zeroed (clipped to the image), the rest kept.
pub open spec fn cleared(img: Seq<u8>, t: int, extent: int) -> Seq<u8> {
    Seq::new(img.len(), |j: int| if t <= j < t + extent { 0u8 } else { img[j] })
}

/// Removes the record whose payload (past its `CLNP` marker) starts at
/// `ptr`: verifies the tag twelve bytes back, zeroes the record's whole
/// declared extent, and reports the tag position and that extent. Fails,
/// leaving the image untouched, exactly when no such record is there.
pub fn remove(rombytes: &mut Vec<u8>, ptr: usize) -> (r: Option<(usize, usize)>)
    ensures
        r is Some <==> clnp_record_at(old(rombytes)@, ptr as int),
        r is None ==> final(rombytes)@ == old(rombytes)@,
        r matches Some((t, extent)) ==> {
            &&& t == ptr - 12
            &&& extent == tag_skip(old(rombytes)@, t as int)
            &&& final(rombytes)@ == cleared(old(rombytes)@, t as int, extent as int)
        },
{
    if ptr < 12 || ptr > rombytes.len() {
        return None;
    }
    let t = ptr - 12;
    let tag_ok = match rats_len(rombytes.as_slice(), t) {
        Some(_) => true,
        None => false,
    };
    if !tag_ok
        || rombytes[ptr - 4] != 0x43
        || rombytes[ptr - 3] != 0x4c
        || rombytes[ptr - 2] != 0x4e
        || rombytes[ptr - 1] != 0x50
    {
        return None;
    }
    let stored = read_u16(rombytes.as_slice(), t + 4);
    let extent = stored as usize + 9;
    let end = if extent >= rombytes.len() - t {
        rombytes.len()
    } else {
        t + extent
    };
    let mut j = t;
    while j < end
        invariant
            t <= j <= end,
            end <= rombytes@.len(),
            end <= t + extent,
            rombytes@.len() == old(rombytes)@.len(),
            forall|k: int| 0 <= k < rombytes@.len() && !(t <= k < j) ==> rombytes@[k] == old(rombytes)@[k],
            forall|k: int| t <= k < j ==> rombytes@[k] == 0u8,
        decreases end - j,
    {
        rombytes.set(j, 0);
        j += 1;
    }
    proof {
        assert(rombytes@ =~= cleared(old(rombytes)@, t as int, extent as int));
    }
    Some((t, extent))
}

/// The record that `insert_free` lays down is exactly what `remove` looks
/// for, provided the payload itself opens with the `CLNP` marker: a
/// removal at the address four past the payload start is then owed
/// success, and frees the payload's length plus the eight tag bytes.
pub proof fn lemma_insert_remove_round_trip(img: Seq<u8>, s: int, data: Seq<u8>)
    requires
        0 <= s,
        s + 8 + data.len() <= img.len(),
        4 <= data.len() <= 0x1_0000,
        img.subrange(s, s + 8) == tag_bytes(data.len() as int),
        img.subrange(s + 8, s + 8 + data.len()) == data,
        data[0] == 0x43u8,
        data[1] == 0x4cu8,
        data[2] == 0x4eu8,
        data[3] == 0x50u8,
    ensures
        clnp_record_at(img, s + 12),
        tag_skip(img, s) == data.len() + 8,
{
    lemma_tag_bytes_valid(img, s, data.len() as int);
    let pay = img.subrange(s + 8, s + 8 + data.len());
    assert(img[s + 8] == pay[0]);
    assert(img[s + 9] == pay[1]);
    assert(img[s + 10] == pay[2]);
    assert(img[s + 11] == pay[3]);
}

} // verus!

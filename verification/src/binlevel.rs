//! The binary level serializer: deduplicates the screens, run-length
//! encodes the tile planes, and lays the whole level record out section
//! by section at a caller-chosen base address.

use vstd::prelude::*;
use crate::level::{
    Level, ScreenDex, ScreenView, LevelHeader, Palette, dex_wf, dex_screens, cat_after,
    spec_tile_bytes, spec_dex_bytes, spec_pal_words_bytes, count_primary, count_secondary,
};
use crate::rle::{Run, spec_runs, make_runs, lemma_runs_count};
use crate::spr::{SpritePlacement, spec_spr_bytes};
use crate::entrance::{EntrancePlacement, place_le, spec_exit_bytes};

verus! {

/// A failure reading a level record back. No operation of this module
/// produces one yet; the variant stands for the error channel alone.
#[derive(Clone, Copy, Debug, PartialEq, Eq, Structural)]
pub enum DecodeError {
    Malformed,
}

/// A failure writing a level record. A sound level always serializes,
/// so no operation of this module produces one; the variant stands for
/// the error channel alone.
#[derive(Clone, Copy, Debug, PartialEq, Eq, Structural)]
pub enum EncodeError {
    Unwritable,
}

/// A three-byte little-endian pointer.
pub open spec fn spec_long(v: u32) -> Seq<u8> {
    seq![v as u8, (v >> 8) as u8, (v >> 16) as u8]
}

/// Appends a three-byte little-endian pointer.
pub fn write_long(dest: &mut Vec<u8>, v: u32)
    ensures
        final(dest)@ == old(dest)@ + spec_long(v),
{
    dest.push(v as u8);
    dest.push((v >> 8) as u8);
    dest.push((v >> 16) as u8);
    proof {
        assert(dest@ =~= old(dest)@ + spec_long(v));
    }
}

/// Runs encoded three bytes each: length low, length high, value.
pub open spec fn spec_run_bytes(rs: Seq<Run>) -> Seq<u8>
    decreases rs.len(),
{
    if rs.len() == 0 {
        Seq::empty()
    } else {
        spec_run_bytes(rs.drop_last()) + seq![
            (rs.last().length % 256) as u8,
            ((rs.last().length / 256) % 256) as u8,
            rs.last().val,
        ]
    }
}

proof fn lemma_run_bytes_len(rs: Seq<Run>)
    ensures
        spec_run_bytes(rs).len() == 3 * rs.len(),
    decreases rs.len(),
{
    if rs.len() > 0 {
        lemma_run_bytes_len(rs.drop_last());
    }
}

proof fn lemma_run_bytes_step(rs: Seq<Run>, i: int)
    requires
        0 <= i < rs.len(),
    ensures
        spec_run_bytes(rs.subrange(0, i + 1))
            == spec_run_bytes(rs.subrange(0, i)) + seq![
                (rs[i].length % 256) as u8,
                ((rs[i].length / 256) % 256) as u8,
                rs[i].val,
            ],
{
    let cur = rs.subrange(0, i + 1);
    assert(cur.drop_last() =~= rs.subrange(0, i));
    assert(cur.last() == rs[i]);
}

/// The tile section: every run of the planar tile stream, then the
/// zero-length sentinel.
pub open spec fn spec_rle_section(tiles: Seq<u8>) -> Seq<u8> {
    spec_run_bytes(spec_runs(tiles, 0)) + seq![0u8, 0u8]
}

/// Appends the run-length-encoded tile stream of the catalogue, with its
/// terminating sentinel.
pub fn write_screens(dest: &mut Vec<u8>, dex: &ScreenDex)
    requires
        dex_wf(*dex),
    ensures
        final(dest)@ == old(dest)@ + spec_rle_section(
            spec_tile_bytes(dex_screens(*dex), dex_screens(*dex).len() as int),
        ),
{
    let tb = dex.tile_bytes();
    let runs = make_runs(&tb);
    let n = runs.len();
    let mut k: usize = 0;
    while k < n
        invariant
            k <= n,
            n == runs@.len(),
            runs@ == spec_runs(tb@, 0),
            dest@ == old(dest)@ + spec_run_bytes(runs@.subrange(0, k as int)),
        decreases n - k,
    {
        let r = runs[k];
        dest.push((r.length % 256) as u8);
        dest.push(((r.length / 256) % 256) as u8);
        dest.push(r.val);
        proof {
            lemma_run_bytes_step(runs@, k as int);
            assert(dest@ =~= old(dest)@ + spec_run_bytes(runs@.subrange(0, k + 1)));
        }
        k += 1;
    }
    dest.push(0);
    dest.push(0);
    proof {
        assert(runs@.subrange(0, n as int) =~= runs@);
        assert(dest@ =~= old(dest)@ + spec_rle_section(tb@));
    }
}

/// Appends the screen-index table.
pub fn write_dex(dest: &mut Vec<u8>, dex: &ScreenDex)
    ensures
        final(dest)@ == old(dest)@ + spec_dex_bytes(dex.dex@, dex.filter@),
{
    let bytes = dex.dex_bytes();
    let n = bytes.len();
    let mut k: usize = 0;
    while k < n
        invariant
            k <= n,
            n == bytes@.len(),
            bytes@ == spec_dex_bytes(dex.dex@, dex.filter@),
            dest@ == old(dest)@ + bytes@.subrange(0, k as int),
        decreases n - k,
    {
        dest.push(bytes[k]);
        proof {
            assert(dest@ =~= old(dest)@ + bytes@.subrange(0, k + 1));
        }
        k += 1;
    }
    proof {
        assert(bytes@.subrange(0, n as int) =~= bytes@);
    }
}

/// The sub-stream terminator: a sprite record no sprite can produce.
pub open spec fn spec_terminator() -> Seq<u8> {
    seq![0x80u8, 0u8, 0u8, 0u8]
}

/// The serialized records of the first `k` sprites, in order.
pub open spec fn spec_sub_stream(sp: Seq<SpritePlacement>, k: int) -> Seq<u8>
    decreases k,
{
    if k <= 0 {
        Seq::empty()
    } else {
        spec_sub_stream(sp, k - 1) + spec_spr_bytes(sp[k - 1])
    }
}

/// The concatenated sub-streams of the first `k` catalogue screens: an
/// initial terminator (the empty sub-stream every spriteless screen
/// points at), then each sprite-bearing screen's records and terminator.
pub open spec fn spec_spr_bin(ss: Seq<ScreenView>, k: int) -> Seq<u8>
    decreases k,
{
    if k <= 0 {
        spec_terminator()
    } else {
        let pre = spec_spr_bin(ss, k - 1);
        if ss[k - 1].sprites.len() == 0 {
            pre
        } else {
            pre + spec_sub_stream(ss[k - 1].sprites, ss[k - 1].sprites.len() as int)
                + spec_terminator()
        }
    }
}

/// How many sprites the first `k` catalogue screens carry.
pub open spec fn spec_spr_count(ss: Seq<ScreenView>, k: int) -> int
    decreases k,
{
    if k <= 0 {
        0
    } else {
        spec_spr_count(ss, k - 1) + ss[k - 1].sprites.len()
    }
}

/// The offset-table entries of the first `k` catalogue screens: a zero
/// pair for a spriteless screen, else the sub-stream offset in records
/// doubled and the running sprite index.
pub open spec fn spec_spr_ofs(ss: Seq<ScreenView>, k: int) -> Seq<u8>
    decreases k,
{
    if k <= 0 {
        Seq::empty()
    } else {
        let pre = spec_spr_ofs(ss, k - 1);
        if ss[k - 1].sprites.len() == 0 {
            pre + seq![0u8, 0u8]
        } else {
            pre + seq![
                ((2 * (spec_spr_bin(ss, k - 1).len() / 4)) % 256) as u8,
                (spec_spr_count(ss, k - 1) % 256) as u8,
            ]
        }
    }
}

/// The whole sprite block: one reserved byte, the offset table padded to
/// 0x100 bytes, then the concatenated sub-streams.
pub open spec fn spec_sprite_block(ss: Seq<ScreenView>) -> Seq<u8> {
    let table = spec_spr_ofs(ss, ss.len() as int);
    let padded = if table.len() >= 0x100 {
        table.subrange(0, 0x100)
    } else {
        table + Seq::new((0x100 - table.len()) as nat, |i: int| 0u8)
    };
    seq![0u8] + padded + spec_spr_bin(ss, ss.len() as int)
}

proof fn lemma_spr_bytes_len(s: SpritePlacement)
    ensures
        spec_spr_bytes(s).len() == 4 || spec_spr_bytes(s).len() == 8,
{
}

proof fn lemma_sub_stream_len(sp: Seq<SpritePlacement>, k: int)
    requires
        0 <= k,
    ensures
        spec_sub_stream(sp, k).len() <= 8 * k,
    decreases k,
{
    if k > 0 {
        lemma_sub_stream_len(sp, k - 1);
        lemma_spr_bytes_len(sp[k - 1]);
    }
}

proof fn lemma_spr_count_nonneg(ss: Seq<ScreenView>, k: int)
    requires
        0 <= k,
    ensures
        spec_spr_count(ss, k) >= 0,
        forall|k2: int| 0 <= k2 <= k ==> spec_spr_count(ss, k2) <= spec_spr_count(ss, k),
    decreases k,
{
    if k > 0 {
        lemma_spr_count_nonneg(ss, k - 1);
    }
}

proof fn lemma_spr_bin_len(ss: Seq<ScreenView>, k: int)
    requires
        0 <= k,
    ensures
        spec_spr_bin(ss, k).len() <= 4 + 4 * k + 8 * spec_spr_count(ss, k),
        spec_spr_bin(ss, k).len() >= 4,
    decreases k,
{
    if k > 0 {
        lemma_spr_bin_len(ss, k - 1);
        lemma_sub_stream_len(ss[k - 1].sprites, ss[k - 1].sprites.len() as int);
        lemma_spr_count_nonneg(ss, k);
    }
}

proof fn lemma_spr_ofs_len(ss: Seq<ScreenView>, k: int)
    requires
        0 <= k,
    ensures
        spec_spr_ofs(ss, k).len() == 2 * k,
    decreases k,
{
    if k > 0 {
        lemma_spr_ofs_len(ss, k - 1);
    }
}

/// Appends the sprite block of the catalogue.
pub fn write_sprites(dest: &mut Vec<u8>, dex: &ScreenDex)
    requires
        dex_wf(*dex),
    ensures
        final(dest)@ == old(dest)@ + spec_sprite_block(dex_screens(*dex)),
{
    let ghost ss = dex_screens(*dex);
    let mut spriteofs: Vec<u8> = Vec::new();
    let mut spritebin: Vec<u8> = Vec::new();
    spritebin.push(0x80);
    spritebin.push(0);
    spritebin.push(0);
    spritebin.push(0);
    proof {
        assert(spritebin@ =~= spec_terminator());
    }
    let mut spriteind: usize = 0;
    let n = dex.screens.len();
    let mut k: usize = 0;
    while k < n
        invariant
            k <= n,
            n == ss.len(),
            ss == dex_screens(*dex),
            dex_wf(*dex),
            spriteofs@ == spec_spr_ofs(ss, k as int),
            spritebin@ == spec_spr_bin(ss, k as int),
            spriteind == spec_spr_count(ss, k as int) % 256,
        decreases n - k,
    {
        let scr = &dex.screens[k];
        proof {
            assert(scr@ == ss[k as int]);
            lemma_spr_count_nonneg(ss, k as int);
        }
        if scr.sprite_count() == 0 {
            spriteofs.push(0);
            spriteofs.push(0);
            proof {
                assert(spriteofs@ =~= spec_spr_ofs(ss, k + 1));
                assert(spritebin@ =~= spec_spr_bin(ss, k + 1));
            }
        } else {
            let ghost bin_before = spritebin@;
            let ghost cnt_before = spec_spr_count(ss, k as int);
            spriteofs.push((2usize * (spritebin.len() / 4) % 256) as u8);
            spriteofs.push(spriteind as u8);
            let m = scr.sprite_count();
            let mut t: usize = 0;
            while t < m
                invariant
                    t <= m,
                    m == scr@.sprites.len(),
                    scr@ == ss[k as int],
                    0 <= k < ss.len(),
                    spritebin@ == bin_before + spec_sub_stream(ss[k as int].sprites, t as int),
                    cnt_before == spec_spr_count(ss, k as int),
                    cnt_before >= 0,
                    spriteind == (cnt_before + t) % 256,
                decreases m - t,
            {
                let sp = *scr.sprite_at(t);
                let bytes = sp.to_bytes();
                let bn = bytes.len();
                let mut q: usize = 0;
                while q < bn
                    invariant
                        q <= bn,
                        bn == bytes@.len(),
                        spritebin@ == bin_before + spec_sub_stream(ss[k as int].sprites, t as int)
                            + bytes@.subrange(0, q as int),
                    decreases bn - q,
                {
                    spritebin.push(bytes[q]);
                    proof {
                        assert(spritebin@ =~= bin_before
                            + spec_sub_stream(ss[k as int].sprites, t as int)
                            + bytes@.subrange(0, q + 1));
                    }
                    q += 1;
                }
                proof {
                    assert(bytes@.subrange(0, bn as int) =~= bytes@);
                    assert(spritebin@ =~= bin_before + spec_sub_stream(ss[k as int].sprites, t + 1));
                }
                spriteind = if spriteind == 255 {
                    0
                } else {
                    spriteind + 1
                };
                t += 1;
            }
            spritebin.push(0x80);
            spritebin.push(0);
            spritebin.push(0);
            spritebin.push(0);
            proof {
                assert(spritebin@ =~= spec_spr_bin(ss, k + 1));
                assert(spriteofs@ =~= spec_spr_ofs(ss, k + 1));
            }
        }
        k += 1;
    }
    // Pad the offset table to its fixed 0x100 bytes.
    proof {
        lemma_spr_ofs_len(ss, n as int);
    }
    let ghost table = spriteofs@;
    let mut p = spriteofs.len();
    while p < 0x100
        invariant
            table == spec_spr_ofs(ss, n as int),
            table.len() <= 0x100,
            p <= 0x100,
            p == spriteofs@.len(),
            table.len() <= p,
            spriteofs@ == table + Seq::new((p - table.len()) as nat, |i: int| 0u8),
        decreases 0x100 - p,
    {
        spriteofs.push(0);
        proof {
            assert(spriteofs@ =~= table + Seq::new((p + 1 - table.len()) as nat, |i: int| 0u8));
        }
        p += 1;
    }
    dest.push(0);
    let ghost mid = dest@;
    let on = spriteofs.len();
    let mut a: usize = 0;
    while a < on
        invariant
            a <= on,
            on == spriteofs@.len(),
            dest@ == mid + spriteofs@.subrange(0, a as int),
        decreases on - a,
    {
        dest.push(spriteofs[a]);
        proof {
            assert(dest@ =~= mid + spriteofs@.subrange(0, a + 1));
        }
        a += 1;
    }
    let ghost mid2 = dest@;
    let bn2 = spritebin.len();
    let mut c: usize = 0;
    while c < bn2
        invariant
            c <= bn2,
            bn2 == spritebin@.len(),
            dest@ == mid2 + spritebin@.subrange(0, c as int),
        decreases bn2 - c,
    {
        dest.push(spritebin[c]);
        proof {
            assert(dest@ =~= mid2 + spritebin@.subrange(0, c + 1));
        }
        c += 1;
    }
    proof {
        assert(spriteofs@.subrange(0, on as int) =~= spriteofs@);
        assert(spritebin@.subrange(0, bn2 as int) =~= spritebin@);
        let padded = if table.len() >= 0x100 {
            table.subrange(0, 0x100)
        } else {
            table + Seq::new((0x100 - table.len()) as nat, |i: int| 0u8)
        };
        assert(spriteofs@ =~= padded);
        assert(dest@ =~= old(dest)@ + spec_sprite_block(ss));
    }
}

/// The palette section: the custom palette's packed colors, or nothing
/// for a shared palette.
pub open spec fn spec_pal_section(h: LevelHeader) -> Seq<u8> {
    match h.palette {
        Palette::Custom(p) => spec_pal_words_bytes(p.words@),
        Palette::Shared(_) => Seq::empty(),
    }
}

/// Appends the custom palette, when the header carries one.
pub fn write_pal(dest: &mut Vec<u8>, level: &Level)
    ensures
        final(dest)@ == old(dest)@ + spec_pal_section(level.spec_header()),
{
    match level.header().palette {
        Palette::Custom(ref pal) => {
            let bytes = pal.to_binary_snes();
            let n = bytes.len();
            let mut k: usize = 0;
            while k < n
                invariant
                    k <= n,
                    n == bytes@.len(),
                    dest@ == old(dest)@ + bytes@.subrange(0, k as int),
                decreases n - k,
            {
                dest.push(bytes[k]);
                proof {
                    assert(dest@ =~= old(dest)@ + bytes@.subrange(0, k + 1));
                }
                k += 1;
            }
            proof {
                assert(bytes@.subrange(0, n as int) =~= bytes@);
            }
        },
        Palette::Shared(_) => {},
    }
}

/// The six-byte bit-packed entrance record.
pub open spec fn spec_entrance_record_full(
    lvlnum: u16, x: u16, y: u16, anim: u8, bgofs: u16, scroll: u8, three: u8, intro: bool,
    wet: bool, slip: bool,
) -> Seq<u8> {
    seq![
        lvlnum as u8,
        ((lvlnum >> 8) as u8) | (anim << 1) | ((x << 4) as u8),
        ((x >> 4) as u8) | ((bgofs << 5) as u8),
        (((bgofs >> 3) as u8) & 0xf) | ((y << 4) as u8),
        ((y >> 4) as u8) | ((if intro { 1u8 } else { 0u8 }) << 5) | (three << 6),
        scroll | (((bgofs >> 3) as u8) & 0x30) | ((if wet { 1u8 } else { 0u8 }) << 6)
            | ((if slip { 1u8 } else { 0u8 }) << 7),
    ]
}

/// Appends one bit-packed entrance record.
pub fn write_entrance(
    dest: &mut Vec<u8>, lvlnum: u16, x: u16, y: u16, anim: u8, bgofs: u16, scroll: u8,
    three: u8, intro: bool, wet: bool, slip: bool,
)
    ensures
        final(dest)@ == old(dest)@ + spec_entrance_record_full(
            lvlnum, x, y, anim, bgofs, scroll, three, intro, wet, slip,
        ),
{
    dest.push(lvlnum as u8);
    dest.push(((lvlnum >> 8) as u8) | (anim << 1) | ((x << 4) as u8));
    dest.push(((x >> 4) as u8) | ((bgofs << 5) as u8));
    dest.push((((bgofs >> 3) as u8) & 0xf) | ((y << 4) as u8));
    dest.push(((y >> 4) as u8) | ((if intro { 1u8 } else { 0u8 }) << 5) | (three << 6));
    dest.push(
        scroll | (((bgofs >> 3) as u8) & 0x30) | ((if wet { 1u8 } else { 0u8 }) << 6)
            | ((if slip { 1u8 } else { 0u8 }) << 7),
    );
    proof {
        assert(dest@ =~= old(dest)@ + spec_entrance_record_full(
            lvlnum, x, y, anim, bgofs, scroll, three, intro, wet, slip,
        ));
    }
}

/// The record the encoder writes for a placed entrance: background
/// offset and scroll fixed at zero, the "three" field at three, no intro.
pub open spec fn spec_entrance_record(e: EntrancePlacement) -> Seq<u8> {
    spec_entrance_record_full(e.id.levelnum, e.pos_x, e.pos_y, e.anim, 0, 0, 3, false, e.water, e.slippery)
}

/// The records of the first `k` entrances, in order.
pub open spec fn spec_entrance_records(es: Seq<EntrancePlacement>, k: int) -> Seq<u8>
    decreases k,
{
    if k <= 0 {
        Seq::empty()
    } else {
        spec_entrance_records(es, k - 1) + spec_entrance_record(es[k - 1])
    }
}

/// Where a placement lands in a sorted table: before the first entry it
/// precedes, after every equal one.
pub open spec fn insert_sorted(s: Seq<EntrancePlacement>, x: EntrancePlacement) -> Seq<EntrancePlacement>
    decreases s.len(),
{
    if s.len() == 0 {
        seq![x]
    } else if place_le(x, s[0]) && !place_le(s[0], x) {
        seq![x] + s
    } else {
        seq![s[0]] + insert_sorted(s.drop_first(), x)
    }
}

/// The entrance table sorted for serialization: primary before
/// secondary, then by the numeric fields, by repeated insertion.
pub open spec fn insort(s: Seq<EntrancePlacement>) -> Seq<EntrancePlacement>
    decreases s.len(),
{
    if s.len() == 0 {
        Seq::empty()
    } else {
        insert_sorted(insort(s.drop_last()), s.last())
    }
}

proof fn lemma_insert_sorted_len(s: Seq<EntrancePlacement>, x: EntrancePlacement)
    ensures
        insert_sorted(s, x).len() == s.len() + 1,
    decreases s.len(),
{
    if s.len() > 0 && !(place_le(x, s[0]) && !place_le(s[0], x)) {
        lemma_insert_sorted_len(s.drop_first(), x);
    }
}

/// Sorting neither adds nor loses entries.
pub proof fn lemma_insort_len(s: Seq<EntrancePlacement>)
    ensures
        insort(s).len() == s.len(),
    decreases s.len(),
{
    if s.len() > 0 {
        lemma_insort_len(s.drop_last());
        lemma_insert_sorted_len(insort(s.drop_last()), s.last());
    }
}

/// An insertion point found by scanning — everything before it strictly
/// precedes the new entry — splits the sorted insertion exactly there.
proof fn lemma_insert_sorted_at(s: Seq<EntrancePlacement>, x: EntrancePlacement, j: int)
    requires
        0 <= j <= s.len(),
        forall|t: int| 0 <= t < j ==> !(place_le(x, #[trigger] s[t]) && !place_le(s[t], x)),
        j < s.len() ==> place_le(x, s[j]) && !place_le(s[j], x),
    ensures
        insert_sorted(s, x) == s.subrange(0, j) + seq![x] + s.subrange(j, s.len() as int),
    decreases j,
{
    if s.len() == 0 {
        assert(insert_sorted(s, x) =~= s.subrange(0, j) + seq![x] + s.subrange(j, s.len() as int));
    } else if j == 0 {
        if place_le(x, s[0]) && !place_le(s[0], x) {
            assert(insert_sorted(s, x) =~= s.subrange(0, 0) + seq![x] + s.subrange(0, s.len() as int));
        } else {
            assert(false);
        }
    } else {
        let rest = s.drop_first();
        assert forall|t: int| 0 <= t < j - 1
            implies !(place_le(x, #[trigger] rest[t]) && !place_le(rest[t], x)) by {
            assert(rest[t] == s[t + 1]);
        }
        if j - 1 < rest.len() {
            assert(rest[j - 1] == s[j]);
        }
        lemma_insert_sorted_at(rest, x, j - 1);
        assert(insert_sorted(s, x)
            =~= s.subrange(0, j) + seq![x] + s.subrange(j, s.len() as int));
    }
}

/// Inserts a placement into a sorted table at its position.
fn insert_place_sorted(v: &mut Vec<EntrancePlacement>, x: EntrancePlacement)
    ensures
        final(v)@ == insert_sorted(old(v)@, x),
{
    let n = v.len();
    let mut j: usize = 0;
    while j < n && !(x.le(&v[j]) && !v[j].le(&x))
        invariant
            j <= n,
            n == v@.len(),
            forall|t: int| 0 <= t < j ==> !(place_le(x, #[trigger] v@[t]) && !place_le(v@[t], x)),
        decreases n - j,
    {
        j += 1;
    }
    proof {
        lemma_insert_sorted_at(v@, x, j as int);
    }
    v.insert(j, x);
    proof {
        assert(v@ =~= old(v)@.subrange(0, j as int) + seq![x]
            + old(v)@.subrange(j as int, old(v)@.len() as int));
    }
}

/// The entrance section: the primary count, then every record in sorted
/// order.
pub open spec fn spec_entrance_section(es: Seq<EntrancePlacement>) -> Seq<u8> {
    let sorted = insort(es);
    seq![(count_primary(sorted, sorted.len() as int) % 256) as u8]
        + spec_entrance_records(sorted, sorted.len() as int)
}

/// Appends the entrance table: a count of the primary entrances, then
/// each entrance's six-byte record, sorted primary-first.
pub fn write_entrances(dest: &mut Vec<u8>, level: &Level)
    ensures
        final(dest)@ == old(dest)@ + spec_entrance_section(level.spec_entrances()),
{
    let ens = level.entrances();
    let n = ens.len();
    let mut sorted: Vec<EntrancePlacement> = Vec::new();
    let mut k: usize = 0;
    while k < n
        invariant
            k <= n,
            n == ens@.len(),
            ens@ == level.spec_entrances(),
            sorted@ == insort(ens@.subrange(0, k as int)),
        decreases n - k,
    {
        insert_place_sorted(&mut sorted, ens[k]);
        proof {
            let cur = ens@.subrange(0, k + 1);
            assert(cur.drop_last() =~= ens@.subrange(0, k as int));
            assert(cur.last() == ens@[k as int]);
        }
        k += 1;
    }
    proof {
        assert(ens@.subrange(0, n as int) =~= ens@);
    }
    let sn = sorted.len();
    let mut primaries: usize = 0;
    let mut c: usize = 0;
    while c < sn
        invariant
            c <= sn,
            sn == sorted@.len(),
            primaries == count_primary(sorted@, c as int),
            primaries <= c,
        decreases sn - c,
    {
        if !sorted[c].id.secondary {
            primaries += 1;
        }
        c += 1;
    }
    dest.push((primaries % 256) as u8);
    let ghost mid = dest@;
    let mut w: usize = 0;
    while w < sn
        invariant
            w <= sn,
            sn == sorted@.len(),
            dest@ == mid + spec_entrance_records(sorted@, w as int),
        decreases sn - w,
    {
        let e = sorted[w];
        write_entrance(dest, e.id.levelnum, e.pos_x, e.pos_y, e.anim, 0, 0, 3, false, e.water, e.slippery);
        w += 1;
    }
    proof {
        assert(dest@ =~= old(dest)@ + spec_entrance_section(level.spec_entrances()));
    }
}

/// The exit records of the first `k` catalogue screens.
pub open spec fn spec_exit_records(ss: Seq<ScreenView>, k: int) -> Seq<u8>
    decreases k,
{
    if k <= 0 {
        Seq::empty()
    } else {
        spec_exit_records(ss, k - 1) + spec_exit_bytes(ss[k - 1].exit)
    }
}

/// Appends the exit table: one three-byte record per catalogue screen,
/// in catalogue order.
pub fn write_exits(dest: &mut Vec<u8>, dex: &ScreenDex)
    ensures
        final(dest)@ == old(dest)@ + spec_exit_records(dex_screens(*dex), dex_screens(*dex).len() as int),
{
    let ghost ss = dex_screens(*dex);
    let n = dex.screens.len();
    let mut k: usize = 0;
    while k < n
        invariant
            k <= n,
            n == ss.len(),
            ss == dex_screens(*dex),
            dest@ == old(dest)@ + spec_exit_records(ss, k as int),
        decreases n - k,
    {
        let b = dex.screens[k].exit_id().to_bytes();
        dest.push(b[0]);
        dest.push(b[1]);
        dest.push(b[2]);
        proof {
            assert(dest@ =~= old(dest)@ + spec_exit_records(ss, k + 1));
        }
        k += 1;
    }
}

/// The seventeen-byte header record.
pub open spec fn spec_header_bytes(h: LevelHeader, dex_addr: u32, pal_addr: u32, entrance_addr: u32, exit_addr: u32) -> Seq<u8> {
    spec_long(dex_addr) + spec_long(exit_addr) + seq![
        32u8,
        32u8,
        (h.l3_img << 5) | h.mode,
    ] + (match h.palette {
        Palette::Shared(p) => seq![0u8, p.sp | (p.sky << 3), p.bg | (p.fg << 3)],
        Palette::Custom(_) => spec_long(pal_addr | 1),
    }) + seq![
        h.audio_track,
        (h.tileset_sp << 4) | h.tileset_fg,
        (h.time << 4) | ((if h.l3_prio { 1u8 } else { 0u8 }) << 3) | h.scroll,
    ] + spec_long(entrance_addr)
}

/// Appends the header record.
pub fn write_header(dest: &mut Vec<u8>, level: &Level, dex_addr: u32, pal_addr: u32, entrance_addr: u32, exit_addr: u32)
    ensures
        final(dest)@ == old(dest)@ + spec_header_bytes(
            level.spec_header(), dex_addr, pal_addr, entrance_addr, exit_addr,
        ),
{
    let h = level.header();
    write_long(dest, dex_addr);
    write_long(dest, exit_addr);
    dest.push(32);
    dest.push(32);
    dest.push((h.l3_img << 5) | h.mode);
    match h.palette {
        Palette::Shared(p) => {
            dest.push(0);
            dest.push(p.sp | (p.sky << 3));
            dest.push(p.bg | (p.fg << 3));
        },
        Palette::Custom(_) => {
            write_long(dest, pal_addr | 1);
        },
    }
    dest.push(h.audio_track);
    dest.push((h.tileset_sp << 4) | h.tileset_fg);
    dest.push((h.time << 4) | ((if h.l3_prio { 1u8 } else { 0u8 }) << 3) | h.scroll);
    write_long(dest, entrance_addr);
    proof {
        assert(dest@ =~= old(dest)@ + spec_header_bytes(
            level.spec_header(), dex_addr, pal_addr, entrance_addr, exit_addr,
        ));
    }
}

/// Each screen contributes exactly its 512 planar bytes.
pub proof fn lemma_tile_bytes_len(ss: Seq<ScreenView>, k: int)
    requires
        0 <= k,
    ensures
        spec_tile_bytes(ss, k).len() == 512 * k,
    decreases k,
{
    if k > 0 {
        lemma_tile_bytes_len(ss, k - 1);
    }
}

proof fn lemma_pal_words_bytes_len(words: Seq<u16>)
    ensures
        spec_pal_words_bytes(words).len() == 2 * words.len(),
    decreases words.len(),
{
    if words.len() > 0 {
        lemma_pal_words_bytes_len(words.drop_last());
    }
}

proof fn lemma_entrance_records_len(es: Seq<EntrancePlacement>, k: int)
    requires
        0 <= k,
    ensures
        spec_entrance_records(es, k).len() == 6 * k,
    decreases k,
{
    if k > 0 {
        lemma_entrance_records_len(es, k - 1);
    }
}

proof fn lemma_exit_records_len(ss: Seq<ScreenView>, k: int)
    requires
        0 <= k,
    ensures
        spec_exit_records(ss, k).len() == 3 * k,
    decreases k,
{
    if k > 0 {
        lemma_exit_records_len(ss, k - 1);
    }
}

/// Every entrance is either primary or secondary.
pub proof fn lemma_counts_split(es: Seq<EntrancePlacement>, k: int)
    requires
        0 <= k,
    ensures
        count_primary(es, k) + count_secondary(es, k) == k,
        count_primary(es, k) >= 0,
        count_secondary(es, k) >= 0,
    decreases k,
{
    if k > 0 {
        lemma_counts_split(es, k - 1);
    }
}

/// The sprite count only reads the screens it is over.
proof fn lemma_spr_count_prefix(s1: Seq<ScreenView>, s2: Seq<ScreenView>, k: int)
    requires
        0 <= k,
        k <= s1.len(),
        k <= s2.len(),
        forall|i: int| 0 <= i < k ==> s1[i] == s2[i],
    ensures
        spec_spr_count(s1, k) == spec_spr_count(s2, k),
    decreases k,
{
    if k > 0 {
        lemma_spr_count_prefix(s1, s2, k - 1);
    }
}

/// The catalogue never carries more sprites than the screens it was
/// built from: deduplication keeps at most one copy of each.
pub proof fn lemma_cat_sprite_count(input: Seq<ScreenView>, k: int)
    requires
        0 <= k <= input.len(),
    ensures
        spec_spr_count(cat_after(input, k), cat_after(input, k).len() as int)
            <= spec_spr_count(input, k),
    decreases k,
{
    if k > 0 {
        lemma_cat_sprite_count(input, k - 1);
        let c = cat_after(input, k - 1);
        let c2 = cat_after(input, k);
        match crate::level::first_match(c, input[k - 1], 0) {
            Some(_) => {
                lemma_spr_count_nonneg(input, k);
                assert(spec_spr_count(input, k - 1) <= spec_spr_count(input, k));
            },
            None => {
                lemma_spr_count_prefix(c2, c, c.len() as int);
                assert(c2[c.len() as int] == input[k - 1]);
                assert(spec_spr_count(c2, c2.len() as int)
                    == spec_spr_count(c, c.len() as int) + input[k - 1].sprites.len());
            },
        }
    }
}

/// The catalogue a level deduplicates to.
pub open spec fn spec_cat(level: Level) -> Seq<ScreenView> {
    cat_after(level.all_screens(), level.all_screens().len() as int)
}

/// The index table, one byte per grid position.
pub open spec fn spec_dex_seq(input: Seq<ScreenView>) -> Seq<u8> {
    Seq::new(input.len(), |t: int| crate::level::dex_value(input, t) as u8)
}

/// The whole serialized level body laid down at `base`: the two backfilled
/// forward pointers and two unused bytes, the run-length-encoded tile
/// stream, the screen-index table, the sprite block, a zero byte when the
/// palette would start on an odd address, the optional custom palette,
/// the entrance table, the exit table, and the header record.
#[verifier::opaque]
pub open spec fn spec_level_body(level: Level, base: u32) -> Seq<u8> {
    let cat = spec_cat(level);
    let rle = spec_rle_section(spec_tile_bytes(cat, cat.len() as int));
    let dexb = spec_dex_bytes(spec_dex_seq(level.all_screens()), level.spec_sf());
    let sprb = spec_sprite_block(cat);
    let dex_off = 8 + rle.len();
    let spr_off = dex_off + dexb.len();
    let after_spr = spr_off + sprb.len();
    let pad: Seq<u8> = if (base + after_spr) % 2 == 1 {
        seq![0u8]
    } else {
        Seq::empty()
    };
    let palb = spec_pal_section(level.spec_header());
    let pal_off = after_spr + pad.len();
    let entb = spec_entrance_section(level.spec_entrances());
    let ent_off = pal_off + palb.len();
    let exitb = spec_exit_records(cat, cat.len() as int);
    let exit_off = ent_off + entb.len();
    let hdr_off = exit_off + exitb.len();
    let hdrb = spec_header_bytes(
        level.spec_header(),
        (base + dex_off) as u32,
        (base + pal_off) as u32,
        (base + ent_off) as u32,
        (base + exit_off) as u32,
    );
    spec_long((base + spr_off) as u32) + spec_long((base + hdr_off) as u32) + seq![0u8, 0u8]
        + rle + dexb + sprb + pad + palb + entb + exitb + hdrb
}

/// Putting the serialized sections after the backfilled pointers is
/// exactly the body the specification lays out.
proof fn lemma_body_assembly(
    level: Level, base: u32, rest: Seq<u8>,
    rleS: Seq<u8>, dexbS: Seq<u8>, sprbS: Seq<u8>, padS: Seq<u8>, palbS: Seq<u8>,
    entbS: Seq<u8>, exitbS: Seq<u8>, hdrbS: Seq<u8>,
)
    requires
        rleS == spec_rle_section(spec_tile_bytes(spec_cat(level), spec_cat(level).len() as int)),
        dexbS == spec_dex_bytes(spec_dex_seq(level.all_screens()), level.spec_sf()),
        sprbS == spec_sprite_block(spec_cat(level)),
        padS == (if (base + (8 + rleS.len() + dexbS.len() + sprbS.len())) % 2 == 1 {
            seq![0u8]
        } else {
            Seq::<u8>::empty()
        }),
        palbS == spec_pal_section(level.spec_header()),
        entbS == spec_entrance_section(level.spec_entrances()),
        exitbS == spec_exit_records(spec_cat(level), spec_cat(level).len() as int),
        hdrbS == spec_header_bytes(
            level.spec_header(),
            (base + (8 + rleS.len())) as u32,
            (base + (8 + rleS.len() + dexbS.len() + sprbS.len() + padS.len())) as u32,
            (base + (8 + rleS.len() + dexbS.len() + sprbS.len() + padS.len() + palbS.len())) as u32,
            (base + (8 + rleS.len() + dexbS.len() + sprbS.len() + padS.len() + palbS.len() + entbS.len())) as u32,
        ),
        rest == rleS + dexbS + sprbS + padS + palbS + entbS + exitbS + hdrbS,
    ensures
        spec_level_body(level, base)
            == spec_long((base + (8 + rleS.len() + dexbS.len())) as u32)
                + spec_long((base + (8 + rest.len() - hdrbS.len())) as u32)
                + seq![0u8, 0u8] + rest,
        spec_level_body(level, base).len() == 8 + rest.len(),
{
    reveal(spec_level_body);
    assert(spec_level_body(level, base)
        =~= spec_long((base + (8 + rleS.len() + dexbS.len())) as u32)
            + spec_long((base + (8 + rest.len() - hdrbS.len())) as u32)
            + seq![0u8, 0u8] + rest);
}

/// Serializes the whole level and appends it to the output, every
/// section immediately after the one before it, and returns the body's
/// total length. The caller vouches that the level's deduplicated
/// catalogue fits its 128 entries and that the screens carry no more
/// sprites than the block's one-byte running index can count. A level
/// meeting those bounds always serializes: the error channel is never
/// used.
#[verifier::rlimit(100)]
#[verifier::spinoff_prover]
pub fn write_level_body(dest: &mut Vec<u8>, level: &Level, base_addr: u32) -> (r: Result<u32, EncodeError>)
    requires
        level.wf(),
        cat_after(level.all_screens(), level.all_screens().len() as int).len() <= 128,
        spec_spr_count(level.all_screens(), level.all_screens().len() as int) <= 0xff,
    ensures
        r matches Ok(len) && len == spec_level_body(*level, base_addr).len(),
        final(dest)@ == old(dest)@ + spec_level_body(*level, base_addr),
{
    let ghost input = level.all_screens();
    let ghost cat = cat_after(input, input.len() as int);
    proof {
        level.lemma_screens_shape();
    }
    let sd = ScreenDex::from_level(level);
    proof {
        assert(dex_screens(sd) == cat);
        assert(sd.dex@ =~= spec_dex_seq(input));
    }
    let mut rest: Vec<u8> = Vec::new();

    write_screens(&mut rest, &sd);
    let rle_len = rest.len();
    proof {
        lemma_tile_bytes_len(cat, cat.len() as int);
        lemma_runs_count(spec_tile_bytes(cat, cat.len() as int), 0);
        lemma_run_bytes_len(spec_runs(spec_tile_bytes(cat, cat.len() as int), 0));
        assert(rle_len <= 3 * 512 * 128 + 2);
    }

    write_dex(&mut rest, &sd);
    let spr_off_in_rest = rest.len();

    write_sprites(&mut rest, &sd);
    let after_spr_in_rest = rest.len();
    proof {
        lemma_spr_ofs_len(cat, cat.len() as int);
        lemma_spr_bin_len(cat, cat.len() as int);
        lemma_cat_sprite_count(input, input.len() as int);
        assert(after_spr_in_rest <= 0x40000);
    }

    let base64 = base_addr as u64;
    if (base64 + 8 + after_spr_in_rest as u64) % 2 == 1 {
        rest.push(0);
    }
    let pal_off_in_rest = rest.len();

    write_pal(&mut rest, level);
    let ent_off_in_rest = rest.len();
    proof {
        match level.spec_header().palette {
            Palette::Custom(p) => {
                lemma_pal_words_bytes_len(p.words@);
            },
            Palette::Shared(_) => {},
        }
        assert(ent_off_in_rest <= 0x41000);
    }

    write_entrances(&mut rest, level);
    let exit_off_in_rest = rest.len();
    proof {
        let es = level.spec_entrances();
        let sorted = insort(es);
        lemma_insort_len(es);
        lemma_counts_split(es, es.len() as int);
        lemma_entrance_records_len(sorted, sorted.len() as int);
        assert(es.len() <= 34);
        assert(exit_off_in_rest <= 0x42000);
    }

    write_exits(&mut rest, &sd);
    let hdr_off_in_rest = rest.len();
    proof {
        lemma_exit_records_len(cat, cat.len() as int);
        assert(hdr_off_in_rest <= 0x43000);
    }

    let dex_addr = #[verifier::truncate] ((base64 + 8 + rle_len as u64) as u32);
    let pal_addr = #[verifier::truncate] ((base64 + 8 + pal_off_in_rest as u64) as u32);
    let ent_addr = #[verifier::truncate] ((base64 + 8 + ent_off_in_rest as u64) as u32);
    let exit_addr = #[verifier::truncate] ((base64 + 8 + exit_off_in_rest as u64) as u32);
    write_header(&mut rest, level, dex_addr, pal_addr, ent_addr, exit_addr);
    let end_in_rest = rest.len();
    proof {
        assert(end_in_rest <= 0x44000);
    }

    let spr_ptr = #[verifier::truncate] ((base64 + 8 + spr_off_in_rest as u64) as u32);
    let hdr_ptr = #[verifier::truncate] ((base64 + 8 + hdr_off_in_rest as u64) as u32);
    proof {
        let rleS = spec_rle_section(spec_tile_bytes(cat, cat.len() as int));
        let dexbS = spec_dex_bytes(spec_dex_seq(input), level.spec_sf());
        let sprbS = spec_sprite_block(cat);
        let padS: Seq<u8> = if (base_addr + (8 + rleS.len() + dexbS.len() + sprbS.len())) % 2 == 1 {
            seq![0u8]
        } else {
            Seq::<u8>::empty()
        };
        let palbS = spec_pal_section(level.spec_header());
        let entbS = spec_entrance_section(level.spec_entrances());
        let exitbS = spec_exit_records(cat, cat.len() as int);
        let hdrbS = spec_header_bytes(
            level.spec_header(),
            (base_addr + (8 + rle_len)) as u32,
            (base_addr + (8 + pal_off_in_rest)) as u32,
            (base_addr + (8 + ent_off_in_rest)) as u32,
            (base_addr + (8 + exit_off_in_rest)) as u32,
        );
        assert(rle_len == rleS.len());
        assert(spr_off_in_rest == rleS.len() + dexbS.len());
        assert(after_spr_in_rest == rleS.len() + dexbS.len() + sprbS.len());
        assert(pal_off_in_rest == after_spr_in_rest + padS.len());
        assert(ent_off_in_rest == pal_off_in_rest + palbS.len());
        assert(exit_off_in_rest == ent_off_in_rest + entbS.len());
        assert(hdr_off_in_rest == exit_off_in_rest + exitbS.len());
        assert(rest@ =~= rleS + dexbS + sprbS + padS + palbS + entbS + exitbS + hdrbS);
        lemma_body_assembly(*level, base_addr, rest@,
            rleS, dexbS, sprbS, padS, palbS, entbS, exitbS, hdrbS);
        assert(spr_ptr == (base_addr + (8 + spr_off_in_rest)) as u32) by (bit_vector)
            requires spr_ptr == ((base_addr as u64 + 8 + spr_off_in_rest as u64) as u32)
                && spr_off_in_rest <= 0x44000u64;
        assert(hdr_ptr == (base_addr + (8 + hdr_off_in_rest)) as u32) by (bit_vector)
            requires hdr_ptr == ((base_addr as u64 + 8 + hdr_off_in_rest as u64) as u32)
                && hdr_off_in_rest <= 0x44000u64;
    }
    write_long(dest, spr_ptr);
    write_long(dest, hdr_ptr);
    dest.push(0);
    dest.push(0);
    let total = 8 + end_in_rest;
    let mut q: usize = 0;
    let ghost mid = dest@;
    proof {
        assert(mid =~= old(dest)@ + spec_long(spr_ptr) + spec_long(hdr_ptr) + seq![0u8, 0u8]);
    }
    let rn = rest.len();
    while q < rn
        invariant
            q <= rn,
            rn == rest@.len(),
            dest@ == mid + rest@.subrange(0, q as int),
        decreases rn - q,
    {
        dest.push(rest[q]);
        proof {
            assert(dest@ =~= mid + rest@.subrange(0, q + 1));
        }
        q += 1;
    }
    proof {
        assert(rest@.subrange(0, rn as int) =~= rest@);
        assert(dest@ =~= old(dest)@ + spec_level_body(*level, base_addr));
    }
    Ok(total as u32)
}

} // verus!

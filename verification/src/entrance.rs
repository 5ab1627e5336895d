//! Entrance identifiers and placements. An identifier names one entrance
//! of one level — primary or secondary, with a small per-level sub-id —
//! and orders entrance tables: primary before secondary, then by the
//! numeric fields.

use vstd::prelude::*;
use vstd::string::StringSliceAdditionalSpecFns;

verus! {

/// An entrance identifier: the secondary flag, the level number, and the
/// sub-id inside that level.
#[derive(Clone, Copy, Debug, PartialEq, Eq)]
pub struct EntranceId {
    pub secondary: bool,
    pub levelnum: u16,
    pub sub_id: u8,
}

/// What every constructed identifier satisfies: the level number below
/// 0x200 and the sub-id inside its range.
pub open spec fn id_wf(id: EntranceId) -> bool {
    &&& id.levelnum < 0x200
    &&& id.sub_id <= 0x20
    &&& !id.secondary ==> id.sub_id <= 0x10
}

/// The identifier the constructors build from raw parts, when they accept
/// the parts at all.
pub open spec fn spec_id_from_parts(levelnum: u16, sub_id: u8, secondary: bool) -> Option<EntranceId> {
    if levelnum >= 0x200 {
        None
    } else if !secondary && sub_id > 0x10 {
        None
    } else if sub_id > 0x20 {
        None
    } else {
        Some(EntranceId { levelnum, sub_id, secondary })
    }
}

/// The value of one hexadecimal digit, or a negative number for any
/// other byte.
pub open spec fn hex_digit_val(c: u8) -> int {
    if 0x30 <= c <= 0x39 {
        c - 0x30
    } else if 0x61 <= c <= 0x66 {
        c - 0x61 + 10
    } else if 0x41 <= c <= 0x46 {
        c - 0x41 + 10
    } else {
        -1
    }
}

/// Whether the range `[from, to)` of the bytes is a nonempty run of
/// hexadecimal digits.
pub open spec fn is_hex_range(bs: Seq<u8>, from: int, to: int) -> bool {
    &&& 0 <= from < to <= bs.len()
    &&& forall|i: int| from <= i < to ==> hex_digit_val(#[trigger] bs[i]) >= 0
}

/// The number the hexadecimal digits in `[from, to)` spell.
pub open spec fn hex_value(bs: Seq<u8>, from: int, to: int) -> int
    decreases to - from,
{
    if to <= from {
        0
    } else {
        hex_value(bs, from, to - 1) * 16 + hex_digit_val(bs[to - 1])
    }
}

/// The first position at or past `from` where byte `c` stands.
pub open spec fn find_byte(bs: Seq<u8>, c: u8, from: int) -> Option<int>
    decreases bs.len() - from,
{
    if from < 0 || from >= bs.len() {
        None
    } else if bs[from] == c {
        Some(from)
    } else {
        find_byte(bs, c, from + 1)
    }
}

/// The identifier spelled by a fragment — a kind letter `m` or `s`
/// followed by a hexadecimal sub-id — in `[from, len)` of the bytes.
pub open spec fn spec_id_from_fragment(num: u16, bs: Seq<u8>, from: int) -> Option<EntranceId> {
    if num > 0x200 {
        None
    } else if bs.len() - from < 2 {
        None
    } else if bs[from] != 0x6du8 && bs[from] != 0x73u8 {
        None
    } else if !is_hex_range(bs, from + 1, bs.len() as int) || hex_value(bs, from + 1, bs.len() as int) > 0xff {
        None
    } else {
        spec_id_from_parts(
            num,
            hex_value(bs, from + 1, bs.len() as int) as u8,
            bs[from] == 0x73u8,
        )
    }
}

/// The identifier spelled by a whole entrance name: a hexadecimal level
/// number, the separator `#`, and a fragment.
pub open spec fn spec_id_from_name(bs: Seq<u8>) -> Option<EntranceId> {
    match find_byte(bs, 0x23u8, 0) {
        None => None,
        Some(p) => if !is_hex_range(bs, 0, p) || hex_value(bs, 0, p) > 0xffff {
            None
        } else {
            spec_id_from_fragment(hex_value(bs, 0, p) as u16, bs, p + 1)
        },
    }
}

proof fn lemma_hex_value_nonneg(bs: Seq<u8>, from: int, to: int)
    requires
        forall|i: int| from <= i < to ==> hex_digit_val(#[trigger] bs[i]) >= 0,
    ensures
        hex_value(bs, from, to) >= 0,
    decreases to - from,
{
    if to > from {
        lemma_hex_value_nonneg(bs, from, to - 1);
    }
}

/// Reads the hexadecimal digits in `[from, to)`; reports the value, or
/// nothing when the range is empty, a byte is no digit, or the value
/// does not fit below `cap`.
fn parse_hex(bs: &[u8], from: usize, to: usize, cap: u32) -> (r: Option<u32>)
    requires
        from <= to <= bs@.len(),
        cap <= 0xffff,
    ensures
        r is Some <==> is_hex_range(bs@, from as int, to as int)
            && hex_value(bs@, from as int, to as int) <= cap,
        r matches Some(v) ==> v == hex_value(bs@, from as int, to as int),
{
    if from >= to {
        return None;
    }
    let mut acc: u32 = 0;
    let mut i = from;
    while i < to
        invariant
            from <= i <= to <= bs@.len(),
            is_hex_range(bs@, from as int, i as int) || i == from,
            forall|j: int| from <= j < i ==> hex_digit_val(#[trigger] bs@[j]) >= 0,
            cap <= 0xffff,
            acc == (if hex_value(bs@, from as int, i as int) <= 0x1_0000 {
                hex_value(bs@, from as int, i as int)
            } else {
                0x1_0001int
            }),
        decreases to - i,
    {
        let c = bs[i];
        let d: u32 = if 0x30 <= c && c <= 0x39 {
            (c - 0x30) as u32
        } else if 0x61 <= c && c <= 0x66 {
            (c - 0x61) as u32 + 10
        } else if 0x41 <= c && c <= 0x46 {
            (c - 0x41) as u32 + 10
        } else {
            proof {
                lemma_hex_value_nonneg(bs@, from as int, i as int);
            }
            return None;
        };
        acc = acc * 16 + d;
        if acc > 0x1_0000 {
            acc = 0x1_0001;
        }
        i += 1;
    }
    proof {
        lemma_hex_value_nonneg(bs@, from as int, to as int);
    }
    if acc <= cap {
        Some(acc)
    } else {
        proof {
            if hex_value(bs@, from as int, to as int) <= cap {
                assert(acc == hex_value(bs@, from as int, to as int));
            }
        }
        None
    }
}

impl EntranceId {
    /// The primary entrance zero of a level.
    pub fn main(levelnum: u16) -> (r: Option<EntranceId>)
        ensures
            r is Some <==> levelnum < 0x200,
            r matches Some(id) ==> id.levelnum == levelnum && id.sub_id == 0 && !id.secondary
                && id_wf(id),
    {
        if levelnum < 0x200 {
            Some(EntranceId { levelnum, sub_id: 0, secondary: false })
        } else {
            None
        }
    }

    /// Builds an identifier from raw parts, rejecting a level number or
    /// sub-id outside its range.
    pub fn from_parts(levelnum: u16, sub_id: u8, secondary: bool) -> (r: Option<EntranceId>)
        ensures
            r == spec_id_from_parts(levelnum, sub_id, secondary),
            r matches Some(id) ==> id_wf(id),
    {
        if levelnum >= 0x200 {
            None
        } else if !secondary && sub_id > 0x10 {
            None
        } else if sub_id > 0x20 {
            None
        } else {
            Some(EntranceId { levelnum, sub_id, secondary })
        }
    }

    /// Reads an identifier from a name of the form
    /// `{level number, hex}#{m or s}{sub-id, hex}`.
    pub fn from_name(name: &str) -> (r: Option<EntranceId>)
        ensures
            r == spec_id_from_name(name.spec_bytes()),
            r matches Some(id) ==> id_wf(id),
    {
        let bs = name.as_bytes();
        let n = bs.len();
        let mut p: usize = 0;
        loop
            invariant
                p <= n,
                n == bs@.len(),
                bs@ == name.spec_bytes(),
                find_byte(bs@, 0x23u8, 0) == find_byte(bs@, 0x23u8, p as int),
            ensures
                p < n,
                find_byte(bs@, 0x23u8, 0) == Some(p as int),
            decreases n - p,
        {
            if p >= n {
                return None;
            }
            if bs[p] == 0x23 {
                break;
            }
            p += 1;
        }
        let lvl = match parse_hex(bs, 0, p, 0xffff) {
            Some(v) => v as u16,
            None => {
                return None;
            },
        };
        Self::id_from_fragment_bytes(lvl, bs, p + 1)
    }

    /// Reads an identifier from a level number and a fragment string of
    /// the form `{m or s}{sub-id, hex}`.
    pub fn from_num_and_fragment(num: u16, fragment: &str) -> (r: Option<EntranceId>)
        ensures
            r == spec_id_from_fragment(num, fragment.spec_bytes(), 0),
            r matches Some(id) ==> id_wf(id),
    {
        Self::id_from_fragment_bytes(num, fragment.as_bytes(), 0)
    }

    /// The fragment reader shared by the name parsers.
    fn id_from_fragment_bytes(num: u16, bs: &[u8], from: usize) -> (r: Option<EntranceId>)
        ensures
            r == spec_id_from_fragment(num, bs@, from as int),
            r matches Some(id) ==> id_wf(id),
    {
        if num > 0x200 {
            return None;
        }
        if from >= bs.len() || bs.len() - from < 2 {
            return None;
        }
        let kind = bs[from];
        let secondary = if kind == 0x6d {
            false
        } else if kind == 0x73 {
            true
        } else {
            return None;
        };
        let sub_id = match parse_hex(bs, from + 1, bs.len(), 0xff) {
            Some(v) => v as u8,
            None => {
                return None;
            },
        };
        Self::from_parts(num, sub_id, secondary)
    }

    /// The identifier's three-byte exit record: the level number
    /// little-endian, then the sub-id with the secondary flag in bit 7.
    pub fn to_bytes(&self) -> (r: [u8; 3])
        ensures
            r@ == spec_exit_bytes(*self),
    {
        let r = [
            self.levelnum as u8,
            (self.levelnum >> 8) as u8,
            self.sub_id | (if self.secondary { 0x80u8 } else { 0u8 }),
        ];
        proof {
            assert(r@ =~= spec_exit_bytes(*self));
        }
        r
    }
}

/// The three exit-record bytes of an identifier.
pub open spec fn spec_exit_bytes(id: EntranceId) -> Seq<u8> {
    seq![
        id.levelnum as u8,
        (id.levelnum >> 8) as u8,
        id.sub_id | (if id.secondary { 0x80u8 } else { 0u8 }),
    ]
}

impl Default for EntranceId {
    /// The primary entrance zero of level zero.
    fn default() -> (r: EntranceId)
        ensures
            !r.secondary && r.levelnum == 0 && r.sub_id == 0 && id_wf(r),
    {
        EntranceId { secondary: false, levelnum: 0, sub_id: 0 }
    }
}

/// A placed entrance: its identifier, tile position, animation, and the
/// water and slipperiness flags.
#[derive(Clone, Copy, Debug, PartialEq, Eq)]
pub struct EntrancePlacement {
    pub id: EntranceId,
    pub pos_y: u16,
    pub pos_x: u16,
    pub anim: u8,
    pub water: bool,
    pub slippery: bool,
}

/// The order entrance tables are serialized in: primary before secondary,
/// then by level number, sub-id, and the remaining fields.
pub open spec fn place_le(a: EntrancePlacement, b: EntrancePlacement) -> bool {
    if a.id.secondary != b.id.secondary {
        !a.id.secondary
    } else if a.id.levelnum != b.id.levelnum {
        a.id.levelnum < b.id.levelnum
    } else if a.id.sub_id != b.id.sub_id {
        a.id.sub_id < b.id.sub_id
    } else if a.pos_y != b.pos_y {
        a.pos_y < b.pos_y
    } else if a.pos_x != b.pos_x {
        a.pos_x < b.pos_x
    } else if a.anim != b.anim {
        a.anim < b.anim
    } else if a.water != b.water {
        !a.water
    } else if a.slippery != b.slippery {
        !a.slippery
    } else {
        true
    }
}

impl EntrancePlacement {
    pub fn new(id: EntranceId, pos_x: u16, pos_y: u16, anim: u8, slippery: bool, water: bool) -> (r: EntrancePlacement)
        ensures
            r.id == id && r.pos_x == pos_x && r.pos_y == pos_y && r.anim == anim
                && r.slippery == slippery && r.water == water,
    {
        EntrancePlacement { id, pos_x, pos_y, anim, slippery, water }
    }

    /// Builds a placement from raw identifier parts; fails as the
    /// identifier constructor does.
    pub fn from_parts(levelnum: u16, sub_id: u8, secondary: bool, pos_x: u16, pos_y: u16, anim: u8, slippery: bool, water: bool) -> (r: Option<EntrancePlacement>)
        ensures
            r is Some <==> spec_id_from_parts(levelnum, sub_id, secondary) is Some,
            r matches Some(p) ==> {
                &&& Some(p.id) == spec_id_from_parts(levelnum, sub_id, secondary)
                &&& p.pos_x == pos_x && p.pos_y == pos_y && p.anim == anim
                &&& p.slippery == slippery && p.water == water
                &&& id_wf(p.id)
            },
    {
        if let Some(id) = EntranceId::from_parts(levelnum, sub_id, secondary) {
            Some(EntrancePlacement { id, pos_x, pos_y, anim, slippery, water })
        } else {
            None
        }
    }

    /// Builds a placement from an entrance name; fails as the name parser
    /// does.
    pub fn from_name(name: &str, pos_x: u16, pos_y: u16, anim: u8, slippery: bool, water: bool) -> (r: Option<EntrancePlacement>)
        ensures
            r is Some <==> spec_id_from_name(name.spec_bytes()) is Some,
            r matches Some(p) ==> {
                &&& Some(p.id) == spec_id_from_name(name.spec_bytes())
                &&& p.pos_x == pos_x && p.pos_y == pos_y && p.anim == anim
                &&& p.slippery == slippery && p.water == water
                &&& id_wf(p.id)
            },
    {
        if let Some(id) = EntranceId::from_name(name) {
            Some(EntrancePlacement { id, pos_x, pos_y, anim, slippery, water })
        } else {
            None
        }
    }

    /// Builds a placement from a level number and fragment; fails as the
    /// fragment reader does.
    pub fn from_num_and_fragment(levelnum: u16, fragment: &str, pos_x: u16, pos_y: u16, anim: u8, slippery: bool, water: bool) -> (r: Option<EntrancePlacement>)
        ensures
            r is Some <==> spec_id_from_fragment(levelnum, fragment.spec_bytes(), 0) is Some,
            r matches Some(p) ==> {
                &&& Some(p.id) == spec_id_from_fragment(levelnum, fragment.spec_bytes(), 0)
                &&& p.pos_x == pos_x && p.pos_y == pos_y && p.anim == anim
                &&& p.slippery == slippery && p.water == water
                &&& id_wf(p.id)
            },
    {
        if let Some(id) = EntranceId::from_num_and_fragment(levelnum, fragment) {
            Some(EntrancePlacement { id, pos_x, pos_y, anim, slippery, water })
        } else {
            None
        }
    }

    /// Whether this placement stands at or before the other in the
    /// serialization order.
    pub fn le(&self, other: &EntrancePlacement) -> (r: bool)
        ensures
            r == place_le(*self, *other),
    {
        if self.id.secondary != other.id.secondary {
            !self.id.secondary
        } else if self.id.levelnum != other.id.levelnum {
            self.id.levelnum < other.id.levelnum
        } else if self.id.sub_id != other.id.sub_id {
            self.id.sub_id < other.id.sub_id
        } else if self.pos_y != other.pos_y {
            self.pos_y < other.pos_y
        } else if self.pos_x != other.pos_x {
            self.pos_x < other.pos_x
        } else if self.anim != other.anim {
            self.anim < other.anim
        } else if self.water != other.water {
            !self.water
        } else if self.slippery != other.slippery {
            !self.slippery
        } else {
            true
        }
    }
}

} // verus!

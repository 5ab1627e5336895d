//! Sprite placements and the ordered set a screen keeps them in.
//!
//! The ordering — screen row first, then screen column, then position
//! inside the screen column-first, then the remaining fields — is the
//! exact iteration order used when sprite sub-streams are serialized.

use vstd::prelude::*;

verus! {

/// A sprite on the map: its kind, tile position, extension bit, and up to
/// four extension bytes.
#[derive(Clone, Copy, Debug)]
pub struct SpritePlacement {
    pub id: u16,
    pub pos_x: u16,
    pub pos_y: u16,
    pub xbit: bool,
    pub xbytes: [u8; 4],
}

/// The strict total order on sprite placements: by containing screen
/// (row-major), then in-screen position (column-major), then the
/// remaining fields.
pub open spec fn spr_le(a: SpritePlacement, b: SpritePlacement) -> bool {
    if a.pos_y / 16 != b.pos_y / 16 {
        a.pos_y / 16 < b.pos_y / 16
    } else if a.pos_x / 16 != b.pos_x / 16 {
        a.pos_x / 16 < b.pos_x / 16
    } else if a.pos_x % 16 != b.pos_x % 16 {
        a.pos_x % 16 < b.pos_x % 16
    } else if a.pos_y % 16 != b.pos_y % 16 {
        a.pos_y % 16 < b.pos_y % 16
    } else if a.id != b.id {
        a.id < b.id
    } else if a.xbit != b.xbit {
        !a.xbit
    } else if a.xbytes@[0] != b.xbytes@[0] {
        a.xbytes@[0] < b.xbytes@[0]
    } else if a.xbytes@[1] != b.xbytes@[1] {
        a.xbytes@[1] < b.xbytes@[1]
    } else if a.xbytes@[2] != b.xbytes@[2] {
        a.xbytes@[2] < b.xbytes@[2]
    } else {
        a.xbytes@[3] <= b.xbytes@[3]
    }
}

/// Two placements equal under the order's tie-break are equal outright.
pub open spec fn spr_eq(a: SpritePlacement, b: SpritePlacement) -> bool {
    &&& a.id == b.id
    &&& a.pos_x == b.pos_x
    &&& a.pos_y == b.pos_y
    &&& a.xbit == b.xbit
    &&& a.xbytes@[0] == b.xbytes@[0]
    &&& a.xbytes@[1] == b.xbytes@[1]
    &&& a.xbytes@[2] == b.xbytes@[2]
    &&& a.xbytes@[3] == b.xbytes@[3]
}

/// The serialized record for one sprite: four bytes, or eight when any of
/// the three trailing extension bytes is set.
pub open spec fn spec_spr_bytes(s: SpritePlacement) -> Seq<u8> {
    let long = s.xbytes@[1] != 0 || s.xbytes@[2] != 0 || s.xbytes@[3] != 0;
    let head = seq![
        ((s.id >> 5) & 0x18) as u8 | (if long { 2u8 } else { 0u8 }) | (if s.xbit { 4u8 } else { 0u8 }),
        (s.id & 0xff) as u8,
        ((s.pos_y as u8) << 4) | (s.xbytes@[0] & 0xf),
        ((s.pos_x as u8) << 4) | (s.xbytes@[0] >> 4),
    ];
    if long {
        head + seq![s.xbytes@[1], s.xbytes@[2], s.xbytes@[3], 0u8]
    } else {
        head
    }
}

impl SpritePlacement {
    pub fn new(id: u16, pos_x: u16, pos_y: u16, xbit: bool, xbytes: [u8; 4]) -> (r: SpritePlacement)
        ensures
            r.id == id,
            r.pos_x == pos_x,
            r.pos_y == pos_y,
            r.xbit == xbit,
            r.xbytes@ == xbytes@,
    {
        SpritePlacement { id, pos_x, pos_y, xbit, xbytes }
    }

    /// The screen column the sprite stands in.
    pub fn scr_x(&self) -> (r: usize)
        ensures
            r == self.pos_x / 16,
    {
        (self.pos_x as usize) / 16
    }

    /// The screen row the sprite stands in.
    pub fn scr_y(&self) -> (r: usize)
        ensures
            r == self.pos_y / 16,
    {
        (self.pos_y as usize) / 16
    }

    /// The sprite's column inside its screen.
    pub fn local_ofs_x(&self) -> (r: usize)
        ensures
            r == self.pos_x % 16,
    {
        (self.pos_x as usize) % 16
    }

    /// The sprite's row inside its screen.
    pub fn local_ofs_y(&self) -> (r: usize)
        ensures
            r == self.pos_y % 16,
    {
        (self.pos_y as usize) % 16
    }

    /// Serializes the sprite into its four- or eight-byte record.
    pub fn to_bytes(&self) -> (r: Vec<u8>)
        ensures
            r@ == spec_spr_bytes(*self),
    {
        let long = self.xbytes[1] != 0 || self.xbytes[2] != 0 || self.xbytes[3] != 0;
        let mut out: Vec<u8> = Vec::new();
        out.push(
            ((self.id >> 5) & 0x18) as u8 | (if long { 2u8 } else { 0u8 }) | (if self.xbit { 4u8 } else { 0u8 }),
        );
        out.push((self.id & 0xff) as u8);
        out.push(((self.pos_y as u8) << 4) | (self.xbytes[0] & 0xf));
        out.push(((self.pos_x as u8) << 4) | (self.xbytes[0] >> 4));
        if long {
            out.push(self.xbytes[1]);
            out.push(self.xbytes[2]);
            out.push(self.xbytes[3]);
            out.push(0);
        }
        proof {
            assert(out@ =~= spec_spr_bytes(*self));
        }
        out
    }

    /// Whether the two placements hold the same fields.
    pub fn same_as(&self, other: &SpritePlacement) -> (r: bool)
        ensures
            r == spr_eq(*self, *other),
    {
        let xb_eq = self.xbytes[0] == other.xbytes[0] && self.xbytes[1] == other.xbytes[1]
            && self.xbytes[2] == other.xbytes[2] && self.xbytes[3] == other.xbytes[3];
        self.id == other.id && self.pos_x == other.pos_x && self.pos_y == other.pos_y
            && self.xbit == other.xbit && xb_eq
    }

    /// Whether this placement stands at or before the other in the
    /// serialization order.
    pub fn le(&self, other: &SpritePlacement) -> (r: bool)
        ensures
            r == spr_le(*self, *other),
    {
        if self.pos_y / 16 != other.pos_y / 16 {
            self.pos_y / 16 < other.pos_y / 16
        } else if self.pos_x / 16 != other.pos_x / 16 {
            self.pos_x / 16 < other.pos_x / 16
        } else if self.pos_x % 16 != other.pos_x % 16 {
            self.pos_x % 16 < other.pos_x % 16
        } else if self.pos_y % 16 != other.pos_y % 16 {
            self.pos_y % 16 < other.pos_y % 16
        } else if self.id != other.id {
            self.id < other.id
        } else if self.xbit != other.xbit {
            !self.xbit
        } else if self.xbytes[0] != other.xbytes[0] {
            self.xbytes[0] < other.xbytes[0]
        } else if self.xbytes[1] != other.xbytes[1] {
            self.xbytes[1] < other.xbytes[1]
        } else if self.xbytes[2] != other.xbytes[2] {
            self.xbytes[2] < other.xbytes[2]
        } else {
            self.xbytes[3] <= other.xbytes[3]
        }
    }
}

/// Whether a sequence of placements is strictly sorted by the
/// serialization order.
pub open spec fn spr_sorted(s: Seq<SpritePlacement>) -> bool {
    forall|i: int, j: int| 0 <= i < j < s.len()
        ==> spr_le(#[trigger] s[i], #[trigger] s[j]) && !spr_eq(s[i], s[j])
}

/// Whether a placement equal to `x` stands in the sequence.
pub open spec fn spr_in(s: Seq<SpritePlacement>, x: SpritePlacement) -> bool {
    exists|i: int| 0 <= i < s.len() && spr_eq(#[trigger] s[i], x)
}

/// A set of sprite placements kept strictly sorted in the serialization
/// order, so that walking it is walking the sub-stream order.
#[derive(Debug)]
pub struct SprSet {
    items: Vec<SpritePlacement>,
}

impl SprSet {
    /// The placements in serialization order.
    pub closed spec fn view(&self) -> Seq<SpritePlacement> {
        self.items@
    }

    /// The set never holds two placements that compare equal, and keeps
    /// them sorted.
    pub open spec fn wf(&self) -> bool {
        spr_sorted(self@)
    }

    pub fn new() -> (r: SprSet)
        ensures
            r@ == Seq::<SpritePlacement>::empty(),
            r.wf(),
    {
        SprSet { items: Vec::new() }
    }

    pub fn len(&self) -> (r: usize)
        ensures
            r == self@.len(),
    {
        self.items.len()
    }

    /// The placement at the given position of the order.
    pub fn index(&self, i: usize) -> (r: &SpritePlacement)
        requires
            i < self@.len(),
        ensures
            *r == self@[i as int],
    {
        &self.items[i]
    }

    /// Appends a placement known to come strictly after everything the
    /// set holds.
    pub fn push_greatest(&mut self, x: SpritePlacement)
        requires
            old(self).wf(),
            forall|j: int| 0 <= j < old(self)@.len()
                ==> spr_le(#[trigger] old(self)@[j], x) && !spr_eq(old(self)@[j], x),
        ensures
            final(self)@ == old(self)@.push(x),
            final(self).wf(),
    {
        self.items.push(x);
    }

    /// Adds a placement, keeping the order; a placement already present
    /// leaves the set as it was.
    pub fn insert(&mut self, x: SpritePlacement)
        requires
            old(self).wf(),
        ensures
            final(self).wf(),
            forall|y: SpritePlacement| spr_in(final(self)@, y) <==> spr_in(old(self)@, y) || spr_eq(y, x),
            spr_in(old(self)@, x) ==> final(self)@ == old(self)@,
            !spr_in(old(self)@, x) ==> final(self)@.len() == old(self)@.len() + 1
                && spr_in(final(self)@, x),
    {
        let mut i: usize = 0;
        let n = self.items.len();
        while i < n
            invariant
                n == self@.len(),
                i <= n,
                old(self)@ == self@,
                spr_sorted(self@),
                forall|j: int| 0 <= j < i ==> spr_le(#[trigger] self@[j], x) && !spr_eq(self@[j], x),
            decreases n - i,
        {
            let cur = self.items[i];
            if cur.same_as(&x) {
                proof {
                    assert(spr_in(self@, x));
                }
                return;
            }
            if x.le(&cur) {
                proof {
                    lemma_spr_total(x, cur);
                    assert(!spr_in(self@, x)) by {
                        assert(forall|j: int| i <= j < self@.len()
                            ==> spr_le(cur, #[trigger] self@[j]) || j == i);
                        assert forall|j: int| 0 <= j < self@.len() implies !spr_eq(self@[j], x) by {
                            if j < i {
                            } else if j == i {
                            } else {
                                lemma_spr_chain(x, cur, self@[j]);
                            }
                        }
                    }
                }
                self.items.insert(i, x);
                proof {
                    let fin = self@;
                    let prev = old(self)@;
                    assert(forall|j: int| 0 <= j < i ==> fin[j] == prev[j]);
                    assert(fin[i as int] == x);
                    assert(forall|j: int| i < j < fin.len() ==> fin[j] == prev[j - 1]);
                    assert forall|p: int, q: int| 0 <= p < q < fin.len()
                        implies spr_le(#[trigger] fin[p], #[trigger] fin[q]) && !spr_eq(fin[p], fin[q]) by {
                        if q == i {
                        } else if p == i {
                            if i < q {
                                lemma_spr_chain2(x, prev[i as int], prev[q - 1]);
                            }
                        } else if p < i && q > i {
                            lemma_spr_chain3(prev[p], x, prev[q - 1]);
                        }
                    }
                    assert forall|y: SpritePlacement|
                        spr_in(fin, y) <==> spr_in(prev, y) || spr_eq(y, x) by {
                        if spr_in(fin, y) {
                            let w = choose|w: int| 0 <= w < fin.len() && spr_eq(fin[w], y);
                            if w < i {
                                assert(spr_eq(prev[w], y));
                            } else if w == i {
                                lemma_spr_eq_sym(x, y);
                            } else {
                                assert(spr_eq(prev[w - 1], y));
                            }
                        }
                        if spr_in(prev, y) {
                            let w = choose|w: int| 0 <= w < prev.len() && spr_eq(prev[w], y);
                            if w < i {
                                assert(spr_eq(fin[w], y));
                            } else {
                                assert(spr_eq(fin[w + 1], y));
                            }
                        }
                        if spr_eq(y, x) {
                            lemma_spr_eq_sym(y, x);
                            assert(spr_eq(fin[i as int], y));
                        }
                    }
                }
                return;
            }
            proof {
                lemma_spr_total(x, cur);
            }
            i += 1;
        }
        proof {
            assert(!spr_in(self@, x));
        }
        self.items.push(x);
        proof {
            let fin = self@;
            let prev = old(self)@;
            assert(fin[prev.len() as int] == x);
            assert forall|p: int, q: int| 0 <= p < q < fin.len()
                implies spr_le(#[trigger] fin[p], #[trigger] fin[q]) && !spr_eq(fin[p], fin[q]) by {
                if q == prev.len() {
                    assert(spr_le(prev[p], x) && !spr_eq(prev[p], x));
                }
            }
            assert forall|y: SpritePlacement|
                spr_in(fin, y) <==> spr_in(prev, y) || spr_eq(y, x) by {
                if spr_in(fin, y) {
                    let w = choose|w: int| 0 <= w < fin.len() && spr_eq(fin[w], y);
                    if w < prev.len() {
                        assert(spr_eq(prev[w], y));
                    } else {
                        lemma_spr_eq_sym(x, y);
                    }
                }
                if spr_in(prev, y) {
                    let w = choose|w: int| 0 <= w < prev.len() && spr_eq(prev[w], y);
                    assert(spr_eq(fin[w], y));
                }
                if spr_eq(y, x) {
                    lemma_spr_eq_sym(y, x);
                    assert(spr_eq(fin[prev.len() as int], y));
                }
            }
        }
    }
}

/// The order is total: of any two placements, one stands at or before
/// the other.
pub proof fn lemma_spr_total(a: SpritePlacement, b: SpritePlacement)
    ensures
        spr_le(a, b) || spr_le(b, a),
        !spr_le(a, b) ==> spr_le(b, a) && !spr_eq(b, a),
        spr_le(a, b) && spr_le(b, a) ==> spr_eq(a, b),
{
}

/// Equality under the order's tie-break is symmetric.
pub proof fn lemma_spr_eq_sym(a: SpritePlacement, b: SpritePlacement)
    ensures
        spr_eq(a, b) == spr_eq(b, a),
{
}

proof fn lemma_spr_chain(x: SpritePlacement, b: SpritePlacement, c: SpritePlacement)
    requires
        spr_le(x, b),
        !spr_eq(x, b),
        spr_le(b, c),
    ensures
        !spr_eq(c, x),
{
}

proof fn lemma_spr_chain2(x: SpritePlacement, b: SpritePlacement, c: SpritePlacement)
    requires
        spr_le(x, b),
        !spr_eq(x, b),
        spr_le(b, c) || spr_eq(b, c),
    ensures
        spr_le(x, c),
        !spr_eq(x, c),
{
}

proof fn lemma_spr_chain3(a: SpritePlacement, x: SpritePlacement, c: SpritePlacement)
    requires
        spr_le(a, x),
        !spr_eq(a, x),
        spr_le(x, c),
        !spr_eq(x, c),
    ensures
        spr_le(a, c),
        !spr_eq(a, c),
{
}

} // verus!

//! The cartridge's level-pointer table: reading and writing the per-level
//! record pointers, removing a level's record, and an optional per-level
//! version-stamp table kept behind a fixed pointer slot.

use vstd::prelude::*;
use vstd::pervasive::VecAdditionalExecFns;
use crate::address::{Address, Mapper, AddressError, bank_valid, fold_to_pc};
use crate::rats::{self, clnp_record_at, tag_skip, cleared, scan_from};

verus! {

/// Where the table keeps the pointer for a level: three bytes at a fixed
/// bank address.
pub open spec fn spec_level_ptr_ofs(level: u16) -> usize {
    fold_to_pc((0x5_e000 + 3 * level) as usize, Mapper::Lorom)
}

/// The flat offset of a level's pointer slot.
pub fn get_level_ptr_ofs(level: u16) -> (r: Address)
    requires
        level < 0x200,
    ensures
        r.spec_pc() == spec_level_ptr_ofs(level),
        r.spec_map() == Mapper::Lorom,
        r.wf(),
{
    let addr: usize = 0x5_e000 + level as usize * 3;
    proof {
        let a = addr;
        assert(a == 0x5_e000 + 3 * (level as usize) && level < 0x200 ==> {
            &&& !(0x7e_0000 <= a < 0x80_0000)
            &&& a & 0x8000 != 0
            &&& !(0x70_0000 <= a < 0x80_0000)
        }) by (bit_vector);
    }
    let r = Address::new_from_snes(addr, Mapper::Lorom);
    match r {
        Ok(a) => a,
        Err(_) => {
            // Unreachable: the slot addresses all carry the ROM-select bit.
            proof {
                assert(false);
            }
            Address::new_from_snes(0x8000, Mapper::Lorom).unwrap()
        },
    }
}

/// The three little-endian pointer bytes at `i`, assembled.
pub open spec fn spec_ptr_at(img: Seq<u8>, i: int) -> usize {
    (img[i] + 256 * img[i + 1] + 65536 * img[i + 2]) as usize
}

/// Reads a level's record pointer and validates it as a bank address.
pub fn get_level_ptr(rombytes: &Vec<u8>, level: u16) -> (r: Result<Address, AddressError>)
    requires
        level < 0x200,
        spec_level_ptr_ofs(level) + 3 <= rombytes@.len(),
    ensures
        ({
            let ofs = spec_ptr_at(rombytes@, spec_level_ptr_ofs(level) as int);
            if bank_valid(ofs, Mapper::Lorom) {
                r matches Ok(a) && a.spec_pc() == fold_to_pc(ofs, Mapper::Lorom)
                    && a.spec_map() == Mapper::Lorom && a.wf()
            } else {
                r == Err::<Address, AddressError>(AddressError::OutOfRange)
            }
        }),
{
    let ptr_ofs = get_level_ptr_ofs(level).pc_ofs();
    let lo = rombytes[ptr_ofs];
    let hi = rombytes[ptr_ofs + 1];
    let bk = rombytes[ptr_ofs + 2];
    let ofs = lo as usize | ((hi as usize) << 8) | ((bk as usize) << 16);
    proof {
        assert(lo as usize | ((hi as usize) << 8) | ((bk as usize) << 16)
            == lo + 256 * hi + 65536 * bk) by (bit_vector);
    }
    Address::new_from_snes(ofs, Mapper::Lorom)
}

/// Writes a level's record pointer as three little-endian bytes.
pub fn set_level_ptr(rombytes: &mut Vec<u8>, level: u16, value: u32)
    requires
        level < 0x200,
        spec_level_ptr_ofs(level) + 3 <= old(rombytes)@.len(),
    ensures
        final(rombytes)@.len() == old(rombytes)@.len(),
        ({
            let p = spec_level_ptr_ofs(level) as int;
            &&& final(rombytes)@[p] == value as u8
            &&& final(rombytes)@[p + 1] == (value >> 8) as u8
            &&& final(rombytes)@[p + 2] == (value >> 16) as u8
            &&& forall|j: int| 0 <= j < final(rombytes)@.len() && !(p <= j < p + 3)
                ==> final(rombytes)@[j] == old(rombytes)@[j]
        }),
{
    let ptr_ofs = get_level_ptr_ofs(level).pc_ofs();
    rombytes.set(ptr_ofs, value as u8);
    rombytes.set(ptr_ofs + 1, (value >> 8) as u8);
    rombytes.set(ptr_ofs + 2, (value >> 16) as u8);
}

/// Whether a cleared-block record header stands at position `i`: a valid
/// tag followed by the `CLNP` marker.
pub fn is_rats_clnp(bytes: &Vec<u8>, i: usize) -> (r: bool)
    requires
        i + 12 <= bytes@.len(),
    ensures
        r == clnp_record_at(bytes@, i + 12),
{
    // Reading the live length pins the view's length into range.
    let _n = bytes.len();
    let tag_ok = match rats::rats_len(bytes.as_slice(), i) {
        Some(_) => true,
        None => false,
    };
    tag_ok
        && bytes[i + 8] == 0x43
        && bytes[i + 9] == 0x4c
        && bytes[i + 10] == 0x4e
        && bytes[i + 11] == 0x50
}

/// Removes a level's record: follows the level pointer, verifies the tag
/// and marker twelve bytes before it, zeroes the record's whole extent,
/// and clears the pointer slot. Fails, leaving the image untouched, when
/// the pointer or the record is not sound.
pub fn rm_level(rombytes: &mut Vec<u8>, level: u16) -> (r: Option<(Address, usize)>)
    requires
        level < 0x200,
        spec_level_ptr_ofs(level) + 3 <= old(rombytes)@.len(),
    ensures
        ({
            let ofs = spec_ptr_at(old(rombytes)@, spec_level_ptr_ofs(level) as int);
            r is Some <==> bank_valid(ofs, Mapper::Lorom)
                && clnp_record_at(old(rombytes)@, fold_to_pc(ofs, Mapper::Lorom) as int)
        }),
        r is None ==> final(rombytes)@ == old(rombytes)@,
        r matches Some((a, extent)) ==> {
            let ofs = spec_ptr_at(old(rombytes)@, spec_level_ptr_ofs(level) as int);
            let start = fold_to_pc(ofs, Mapper::Lorom) as int;
            &&& bank_valid(ofs, Mapper::Lorom)
            &&& clnp_record_at(old(rombytes)@, start)
            &&& a.spec_pc() == start - 12
            &&& a.spec_map() == Mapper::Lorom
            &&& extent == tag_skip(old(rombytes)@, start - 12)
            &&& ({
                let zeroed = cleared(old(rombytes)@, start - 12, extent as int);
                let p = spec_level_ptr_ofs(level) as int;
                &&& final(rombytes)@.len() == old(rombytes)@.len()
                &&& final(rombytes)@[p] == 0u8
                &&& final(rombytes)@[p + 1] == 0u8
                &&& final(rombytes)@[p + 2] == 0u8
                &&& forall|j: int| 0 <= j < final(rombytes)@.len() && !(p <= j < p + 3)
                    ==> final(rombytes)@[j] == zeroed[j]
            })
        },
{
    let ptr = match get_level_ptr(rombytes, level) {
        Ok(a) => a,
        Err(_) => {
            return None;
        },
    };
    let start = ptr.pc_ofs();
    let tag_start = match Address::new_from_pc(if start >= 12 { start - 12 } else { 0 }, Mapper::Lorom) {
        Some(a) => a,
        None => {
            // Unreachable: the folded pointer lies under the simple
            // mode's ceiling, so twelve less does too.
            proof {
                assert(false);
            }
            return None;
        },
    };
    match rats::remove(rombytes, start) {
        Some((_, extent)) => {
            proof {
                assert(clnp_record_at(old(rombytes)@, start as int));
                assert(start >= 12);
                assert(tag_start.spec_pc() == start - 12);
                assert(rombytes@ == cleared(old(rombytes)@, start - 12, extent as int));
            }
            set_level_ptr(rombytes, level, 0);
            proof {
                assert((0u32 >> 8) as u8 == 0 && (0u32 >> 16) as u8 == 0) by (bit_vector);
            }
            Some((tag_start, extent))
        },
        None => None,
    }
}

/// The fixed slot holding the pointer to the version-stamp table.
pub open spec fn version_ptr_loc() -> int {
    0x7f080
}

/// Where the version-stamp table lies, read from its pointer slot: the
/// all-set pointer means no table, and an invalid bank address is
/// treated the same way.
pub open spec fn spec_version_table(img: Seq<u8>) -> Option<int> {
    let ofs = spec_ptr_at(img, version_ptr_loc());
    if ofs == 0xff_ffff || !bank_valid(ofs, Mapper::Lorom) {
        None
    } else {
        Some(fold_to_pc(ofs, Mapper::Lorom) as int)
    }
}

/// Reads the pointer to the version-stamp table, if one has been set.
pub fn get_version_table_ptr(rombytes: &Vec<u8>) -> (r: Option<Address>)
    requires
        0x7f083 <= rombytes@.len(),
    ensures
        r is Some <==> spec_version_table(rombytes@) is Some,
        r matches Some(a) ==> {
            &&& Some(a.spec_pc() as int) == spec_version_table(rombytes@)
            &&& a.spec_map() == Mapper::Lorom
            &&& a.wf()
        },
{
    let lo = rombytes[0x7f080];
    let hi = rombytes[0x7f081];
    let bk = rombytes[0x7f082];
    let ofs = lo as usize | ((hi as usize) << 8) | ((bk as usize) << 16);
    proof {
        assert(lo as usize | ((hi as usize) << 8) | ((bk as usize) << 16)
            == lo + 256 * hi + 65536 * bk) by (bit_vector);
    }
    if ofs == 0xff_ffff {
        return None;
    }
    match Address::new_from_snes(ofs, Mapper::Lorom) {
        Ok(a) => Some(a),
        Err(_) => None,
    }
}

/// Reads a level's three version-stamp bytes; a missing table, or one
/// too short for the level, reads as all zeroes.
pub fn get_version(rombytes: &Vec<u8>, lvlnum: u16) -> (r: (u8, u8, u8))
    requires
        0x7f083 <= rombytes@.len(),
    ensures
        ({
            match spec_version_table(rombytes@) {
                None => r == (0u8, 0u8, 0u8),
                Some(t) => {
                    let p = t + 3 * lvlnum;
                    if p + 3 <= rombytes@.len() {
                        r == (rombytes@[p], rombytes@[p + 1], rombytes@[p + 2])
                    } else {
                        r == (0u8, 0u8, 0u8)
                    }
                },
            }
        }),
{
    match get_version_table_ptr(rombytes) {
        None => (0, 0, 0),
        Some(a) => {
            let t = a.pc_ofs();
            let p = t + 3 * lvlnum as usize;
            if p + 3 <= rombytes.len() {
                (rombytes[p], rombytes[p + 1], rombytes[p + 2])
            } else {
                (0, 0, 0)
            }
        },
    }
}

/// Lays down a fresh, all-zero version-stamp table as a tagged record
/// and points the table slot at it. Fails, leaving the image unchanged,
/// when no free run can hold the table.
pub fn init_version_table(rombytes: &mut Vec<u8>) -> (r: Option<Address>)
    requires
        0x7f083 <= old(rombytes)@.len(),
    ensures
        r is Some <==> (scan_from(old(rombytes)@, 0x8_0000, 0, 1544, 0) matches Some(s)
            && s + 8 < 0x40_0000),
        r is None ==> final(rombytes)@ == old(rombytes)@,
        r matches Some(a) ==> {
            let s = a.spec_pc() - 8;
            &&& a.spec_map() == Mapper::Lorom
            &&& s + 8 + 1536 <= final(rombytes)@.len()
            &&& final(rombytes)@.len() == old(rombytes)@.len()
            &&& forall|j: int| s + 8 <= j < s + 8 + 1536 ==> final(rombytes)@[j] == 0u8
            &&& crate::rats::tag_at(final(rombytes)@, s)
        },
{
    let mut table: Vec<u8> = Vec::new();
    let mut i: usize = 0;
    while i < 1536
        invariant
            i <= 1536,
            table@.len() == i,
            forall|j: int| 0 <= j < i ==> table@[j] == 0u8,
        decreases 1536 - i,
    {
        table.push(0);
        i += 1;
    }
    let a = match rats::insert_free(rombytes, table.as_slice()) {
        Some(a) => a,
        None => {
            return None;
        },
    };
    let snes = match a.snes_ofs() {
        Some(v) => v,
        None => {
            proof {
                assert(false);
            }
            return None;
        },
    };
    proof {
        let s = a.spec_pc() - 8;
        assert forall|j: int| s + 8 <= j < s + 8 + 1536
            implies rombytes@[j] == 0u8 by {
            assert(rombytes@[j] == rombytes@.subrange(s + 8, s + 8 + 1536)[j - s - 8]);
        }
    }
    rombytes.set(0x7f080, snes as u8);
    rombytes.set(0x7f081, (snes >> 8) as u8);
    rombytes.set(0x7f082, (snes >> 16) as u8);
    proof {
        let s = a.spec_pc() - 8;
        // The pointer slot lies inside the reserved header region, below
        // everything the scanner hands out.
        assert(s >= 0x8_0000);
    }
    Some(a)
}

/// Stamps a level's slot of an existing version-stamp table with the
/// current version. Fails, leaving the image unchanged, when no table
/// has been set up or it is too short for the level.
pub fn set_version(rombytes: &mut Vec<u8>, lvlnum: u16) -> (r: bool)
    requires
        0x7f083 <= old(rombytes)@.len(),
    ensures
        !r ==> final(rombytes)@ == old(rombytes)@,
        r ==> ({
            match spec_version_table(old(rombytes)@) {
                None => false,
                Some(t) => {
                    let p = t + 3 * lvlnum;
                    &&& p + 3 <= old(rombytes)@.len()
                    &&& final(rombytes)@.len() == old(rombytes)@.len()
                    &&& final(rombytes)@[p] == 0u8
                    &&& final(rombytes)@[p + 1] == 1u8
                    &&& final(rombytes)@[p + 2] == 0u8
                    &&& forall|j: int| 0 <= j < final(rombytes)@.len() && !(p <= j < p + 3)
                        ==> final(rombytes)@[j] == old(rombytes)@[j]
                },
            }
        }),
        r <==> (spec_version_table(old(rombytes)@) matches Some(t)
            && t + 3 * lvlnum + 3 <= old(rombytes)@.len()),
{
    let a = match get_version_table_ptr(rombytes) {
        Some(a) => a,
        None => {
            return false;
        },
    };
    let t = a.pc_ofs();
    let p = t + 3 * lvlnum as usize;
    if p + 3 > rombytes.len() {
        return false;
    }
    rombytes.set(p, 0);
    rombytes.set(p + 1, 1);
    rombytes.set(p + 2, 0);
    true
}

} // verus!

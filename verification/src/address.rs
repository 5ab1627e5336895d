//! Translation between flat file offsets ("PC offsets") and the console's
//! bank addresses, under the platform's several mapping modes.

use vstd::prelude::*;

verus! {

/// A mapping mode: one of the fixed schemes the platform uses to fold a
/// bank address down to a flat offset into the cartridge image. The two
/// enhancement-chip modes carry a four-entry region identification array.
#[derive(Clone, Copy, Debug, PartialEq, Eq)]
pub enum Mapper {
    Lorom,
    Hirom,
    Exlorom,
    Exhirom,
    Sfxrom,
    Sa1rom([u8; 4]),
    Sddrom([u8; 4]),
}

/// Why a bank address could not be turned into an `Address`.
#[derive(Clone, Copy, Debug, PartialEq, Eq, Structural)]
pub enum AddressError {
    /// The bank address does not point into ROM under this mapping mode.
    OutOfRange,
    /// The mapping mode has no supported bank-address fold.
    Unsupported,
}

/// The lowest flat offset that a mapping mode cannot address.
pub open spec fn pc_ceiling(map: Mapper) -> usize {
    match map {
        Mapper::Lorom => 0x40_0000,
        Mapper::Hirom => 0x40_0000,
        Mapper::Exlorom => 0x80_0000,
        Mapper::Exhirom => 0x80_0000,
        Mapper::Sfxrom => 0x20_0000,
        Mapper::Sa1rom(_) => 0x80_0000,
        Mapper::Sddrom(_) => 0x80_0000,
    }
}

/// Whether the mode carries the four-entry region identification array
/// of an enhancement chip.
pub open spec fn is_chip(map: Mapper) -> bool {
    match map {
        Mapper::Sa1rom(_) => true,
        Mapper::Sddrom(_) => true,
        _ => false,
    }
}

/// Whether translation between bank addresses and flat offsets is defined
/// for the mode.
pub open spec fn bank_supported(map: Mapper) -> bool {
    match map {
        Mapper::Lorom => true,
        Mapper::Hirom => true,
        Mapper::Exlorom => true,
        Mapper::Exhirom => true,
        _ => false,
    }
}

/// Whether a bank address points into ROM under the mode: outside the
/// work-RAM mirror window, and with the mode's ROM-select bit pattern.
/// Only meaningful for modes where `bank_supported` holds.
pub open spec fn bank_valid(ofs: usize, map: Mapper) -> bool {
    &&& !(0x7e_0000 <= ofs < 0x80_0000)
    &&& match map {
        Mapper::Lorom | Mapper::Exlorom => ofs & 0x8000 != 0 && !(0x70_0000 <= ofs < 0x80_0000),
        Mapper::Hirom | Mapper::Exhirom => ofs & 0x40_0000 != 0 || ofs & 0x8000 != 0,
        _ => false,
    }
}

/// The mode's fold from a bank address down to a flat offset.
pub open spec fn fold_to_pc(ofs: usize, map: Mapper) -> usize {
    match map {
        Mapper::Lorom => (ofs & 0x7f_0000) >> 1 | ofs & 0x7fff,
        Mapper::Exlorom => (ofs & 0xff_0000) >> 1 | ofs & 0x7fff,
        Mapper::Hirom => ofs & 0x3f_ffff,
        Mapper::Exhirom => (ofs & 0x80_0000) >> 1 | ofs & 0x3f_ffff,
        _ => 0,
    }
}

/// The bank address chosen for a flat offset: a right inverse of
/// `fold_to_pc` that lands on a valid ROM address wherever one exists.
pub open spec fn unfold_to_bank(pc: usize, map: Mapper) -> u32 {
    let pc32 = pc as u32;
    match map {
        Mapper::Lorom => (pc32 & 0x3f_8000) << 1 | pc32 & 0x7fff | 0x80_8000,
        Mapper::Exlorom => (pc32 & 0x7f_8000) << 1 | pc32 & 0x7fff | 0x8000,
        Mapper::Hirom => pc32 | 0xc0_0000,
        Mapper::Exhirom => if pc32 & 0x40_0000 != 0 {
            0xc0_0000 | (pc32 & 0x3f_ffff)
        } else if pc32 < 0x3e_0000 {
            pc32 | 0x40_0000
        } else {
            pc32
        },
        _ => 0,
    }
}

/// A flat file offset paired with the mapping mode it was validated
/// against. The offset is always below the mode's ceiling.
#[derive(Clone, Copy, Debug, PartialEq, Eq)]
pub struct Address {
    pc: usize,
    map: Mapper,
}

impl Address {
    /// The flat offset this address stands for.
    pub closed spec fn spec_pc(&self) -> usize {
        self.pc
    }

    /// The mapping mode this address was validated against.
    pub closed spec fn spec_map(&self) -> Mapper {
        self.map
    }

    /// Every address built by this module keeps its offset under the
    /// mode's ceiling.
    pub open spec fn wf(&self) -> bool {
        self.spec_pc() < pc_ceiling(self.spec_map())
    }

    /// Validates a flat offset against a mode's ceiling.
    pub fn new_from_pc(pc: usize, map: Mapper) -> (r: Option<Address>)
        ensures
            r is Some <==> pc < pc_ceiling(map),
            r matches Some(a) ==> a.spec_pc() == pc && a.spec_map() == map && a.wf(),
    {
        let limit: usize = match map {
            Mapper::Lorom => 0x40_0000,
            Mapper::Hirom => 0x40_0000,
            Mapper::Exlorom => 0x80_0000,
            Mapper::Exhirom => 0x80_0000,
            Mapper::Sfxrom => 0x20_0000,
            Mapper::Sa1rom(_) => 0x80_0000,
            Mapper::Sddrom(_) => 0x80_0000,
        };
        if pc < limit {
            Some(Address { pc, map })
        } else {
            None
        }
    }

    /// Validates a bank address and folds it down to a flat offset.
    /// Rejects the work-RAM mirror window and addresses without the mode's
    /// ROM-select bits; modes without a fold fail as unsupported.
    pub fn new_from_snes(ofs: usize, map: Mapper) -> (r: Result<Address, AddressError>)
        ensures
            !bank_supported(map) && !(0x7e_0000 <= ofs < 0x80_0000) ==> r == Err::<Address, AddressError>(AddressError::Unsupported),
            bank_supported(map) || (0x7e_0000 <= ofs < 0x80_0000) ==> {
                if bank_valid(ofs, map) {
                    r matches Ok(a) && a.spec_pc() == fold_to_pc(ofs, map) && a.spec_map() == map && a.wf()
                } else {
                    r == Err::<Address, AddressError>(AddressError::OutOfRange)
                }
            },
    {
        if 0x7e_0000 <= ofs && ofs < 0x80_0000 {
            return Err(AddressError::OutOfRange);
        }
        let in_range = match map {
            Mapper::Lorom | Mapper::Exlorom => ofs & 0x8000 != 0 && !(0x70_0000 <= ofs && ofs < 0x80_0000),
            Mapper::Hirom | Mapper::Exhirom => ofs & 0x40_0000 != 0 || ofs & 0x8000 != 0,
            _ => {
                return Err(AddressError::Unsupported);
            },
        };
        if !in_range {
            return Err(AddressError::OutOfRange);
        }
        let pc: usize = match map {
            Mapper::Lorom => (ofs & 0x7f_0000) >> 1 | ofs & 0x7fff,
            Mapper::Exlorom => (ofs & 0xff_0000) >> 1 | ofs & 0x7fff,
            Mapper::Hirom => ofs & 0x3f_ffff,
            Mapper::Exhirom => (ofs & 0x80_0000) >> 1 | ofs & 0x3f_ffff,
            _ => 0,
        };
        proof {
            lemma_fold_in_range(ofs, map);
        }
        Ok(Address { pc, map })
    }

    /// Assembles a 3-byte little-endian bank address and validates it.
    pub fn new_from_snes_bytes(bytes: &[u8], mapper: Mapper) -> (r: Result<Address, AddressError>)
        requires
            bytes@.len() >= 3,
        ensures
            ({
                let ofs = bytes@[0] as usize | (bytes@[1] as usize) << 8 | (bytes@[2] as usize) << 16;
                &&& !bank_supported(mapper) && !(0x7e_0000 <= ofs < 0x80_0000) ==> r == Err::<Address, AddressError>(AddressError::Unsupported)
                &&& bank_supported(mapper) || (0x7e_0000 <= ofs < 0x80_0000) ==> {
                    if bank_valid(ofs, mapper) {
                        r matches Ok(a) && a.spec_pc() == fold_to_pc(ofs, mapper) && a.spec_map() == mapper && a.wf()
                    } else {
                        r == Err::<Address, AddressError>(AddressError::OutOfRange)
                    }
                }
            }),
    {
        let lo = bytes[0] as usize;
        let hi = bytes[1] as usize;
        let bk = bytes[2] as usize;
        Self::new_from_snes(lo | (hi << 8) | (bk << 16), mapper)
    }

    /// The flat offset, always available.
    pub fn pc_ofs(&self) -> (r: usize)
        ensures
            r == self.spec_pc(),
    {
        self.pc
    }

    /// The flat offset, under its other customary name.
    pub fn pc_addr(&self) -> (r: usize)
        ensures
            r == self.spec_pc(),
    {
        self.pc
    }

    /// The bank address for this offset, for modes with a fold;
    /// `None` exactly for the modes without one.
    pub fn snes_ofs(&self) -> (r: Option<u32>)
        ensures
            r is Some <==> bank_supported(self.spec_map()),
            r matches Some(v) ==> v == unfold_to_bank(self.spec_pc(), self.spec_map()),
    {
        let pc32 = self.pc as u32;
        match self.map {
            Mapper::Lorom => Some((pc32 & 0x3f_8000) << 1 | pc32 & 0x7fff | 0x80_8000),
            Mapper::Exlorom => Some((pc32 & 0x7f_8000) << 1 | pc32 & 0x7fff | 0x8000),
            Mapper::Hirom => Some(pc32 | 0xc0_0000),
            Mapper::Exhirom => {
                if pc32 & 0x40_0000 != 0 {
                    Some(0xc0_0000 | (pc32 & 0x3f_ffff))
                } else if pc32 < 0x3e_0000 {
                    Some(pc32 | 0x40_0000)
                } else {
                    Some(pc32)
                }
            },
            _ => None,
        }
    }

    /// The 1 MiB window the offset falls in, for the enhancement-chip
    /// modes; `None` for every other mode.
    pub fn segment(&self) -> (r: Option<u8>)
        requires
            self.wf(),
        ensures
            r is Some <==> is_chip(self.spec_map()),
            r matches Some(s) ==> s == self.spec_pc() / 0x10_0000,
    {
        match self.map {
            Mapper::Sa1rom(_) | Mapper::Sddrom(_) => Some((self.pc / 0x10_0000) as u8),
            _ => None,
        }
    }
}

impl Mapper {
    /// The bank address where an enhancement-chip region begins.
    /// Callers must hand a chip mode and a region number below four.
    pub fn region_base(&self, n: u8) -> (r: u32)
        requires
            is_chip(*self),
            n < 4,
        ensures
            r == 0xc0_0000 + n * 0x10_0000,
    {
        match *self {
            Mapper::Sa1rom(_) | Mapper::Sddrom(_) => 0xc0_0000 + n as u32 * 0x10_0000,
            _ => 0,
        }
    }
}

/// The fold of any bank address stays under the mode's ceiling.
proof fn lemma_fold_in_range(ofs: usize, map: Mapper)
    requires
        bank_supported(map),
    ensures
        fold_to_pc(ofs, map) < pc_ceiling(map),
{
    match map {
        Mapper::Lorom => {
            assert((ofs & 0x7f_0000) >> 1 | ofs & 0x7fff < 0x40_0000) by (bit_vector);
        },
        Mapper::Exlorom => {
            assert((ofs & 0xff_0000) >> 1 | ofs & 0x7fff < 0x80_0000) by (bit_vector);
        },
        Mapper::Hirom => {
            assert(ofs & 0x3f_ffff < 0x40_0000) by (bit_vector);
        },
        Mapper::Exhirom => {
            assert((ofs & 0x80_0000) >> 1 | ofs & 0x3f_ffff < 0x80_0000) by (bit_vector);
        },
        _ => {},
    }
}

/// Folding the chosen bank address back down returns the offset it was
/// made from, and the chosen address is a valid ROM address. This holds
/// for every in-range offset of every mode with a fold, except the two
/// corners where no valid bank address exists at all: the extended simple
/// mode's top half-megabyte, and the extended 64K mode's window just under
/// four megabytes when bit 15 of the offset is clear.
pub proof fn lemma_bank_round_trip(pc: usize, map: Mapper)
    requires
        bank_supported(map),
        pc < pc_ceiling(map),
        map is Exlorom ==> !(0x38_0000 <= pc < 0x40_0000),
        map is Exhirom ==> !(0x3e_0000 <= pc < 0x40_0000 && pc & 0x8000 == 0),
    ensures
        bank_valid(unfold_to_bank(pc, map) as usize, map),
        fold_to_pc(unfold_to_bank(pc, map) as usize, map) == pc,
{
    let pc32 = pc as u32;
    match map {
        Mapper::Lorom => {
            let au = ((pc32 & 0x3f_8000) << 1 | pc32 & 0x7fff | 0x80_8000) as usize;
            assert(pc32 == pc as u32 && pc < 0x40_0000
                && au == ((pc32 & 0x3f_8000) << 1 | pc32 & 0x7fff | 0x80_8000) as usize ==> {
                &&& !(0x7e_0000 <= au < 0x80_0000)
                &&& au & 0x8000 != 0
                &&& !(0x70_0000 <= au < 0x80_0000)
                &&& (au & 0x7f_0000) >> 1 | au & 0x7fff == pc
            }) by (bit_vector);
        },
        Mapper::Exlorom => {
            let au = ((pc32 & 0x7f_8000) << 1 | pc32 & 0x7fff | 0x8000) as usize;
            assert(pc32 == pc as u32 && pc < 0x80_0000 && !(0x38_0000 <= pc < 0x40_0000)
                && au == ((pc32 & 0x7f_8000) << 1 | pc32 & 0x7fff | 0x8000) as usize ==> {
                &&& !(0x7e_0000 <= au < 0x80_0000)
                &&& au & 0x8000 != 0
                &&& !(0x70_0000 <= au < 0x80_0000)
                &&& (au & 0xff_0000) >> 1 | au & 0x7fff == pc
            }) by (bit_vector);
        },
        Mapper::Hirom => {
            let au = (pc32 | 0xc0_0000) as usize;
            assert(pc32 == pc as u32 && pc < 0x40_0000 && au == (pc32 | 0xc0_0000) as usize ==> {
                &&& !(0x7e_0000 <= au < 0x80_0000)
                &&& au & 0x40_0000 != 0
                &&& au & 0x3f_ffff == pc
            }) by (bit_vector);
        },
        Mapper::Exhirom => {
            let au = (if pc32 & 0x40_0000 != 0 {
                0xc0_0000 | (pc32 & 0x3f_ffff)
            } else if pc32 < 0x3e_0000 {
                pc32 | 0x40_0000
            } else {
                pc32
            }) as usize;
            assert(pc32 == pc as u32 && pc < 0x80_0000 && !(0x3e_0000 <= pc < 0x40_0000 && pc & 0x8000 == 0)
                && au == (if pc32 & 0x40_0000 != 0 {
                    0xc0_0000 | (pc32 & 0x3f_ffff)
                } else if pc32 < 0x3e_0000 {
                    pc32 | 0x40_0000
                } else {
                    pc32
                }) as usize ==> {
                &&& !(0x7e_0000 <= au < 0x80_0000)
                &&& (au & 0x40_0000 != 0 || au & 0x8000 != 0)
                &&& (au & 0x80_0000) >> 1 | au & 0x3f_ffff == pc
            }) by (bit_vector);
        },
        _ => {},
    }
}

} // verus!

//! The four-level page walk that turns a guest-virtual address into a
//! guest-physical one.

use crate::phys::{backed, qword_at, PageMap, PhysMem, Unbacked};
use vstd::prelude::*;

verus! {

/// Bits 12 to 51 of a table entry: the address of the next table or of the
/// page.
pub const ADDR_MASK: u64 = 0x000f_ffff_ffff_f000;

/// Bit 0 of an entry: the entry is in use.
pub const PRESENT: u64 = 0x1;

/// Bit 7 of an entry: the entry maps a large page instead of naming a table.
pub const LARGE: u64 = 0x80;

/// Guest-physical addresses are below this bound.
pub const PHYS_LIMIT: u64 = 0x10_0000_0000_0000;

/// The tables of a walk, from the root down.
#[derive(Clone, Copy, Debug, PartialEq, Eq, Structural)]
pub enum Level {
    Pml4,
    Pdpt,
    Pd,
    Pt,
}

/// Why a walk found no mapping.
#[derive(Clone, Copy, Debug, PartialEq, Eq, Structural)]
pub enum PageFault {
    /// The entry at this level is not in use.
    NotPresent(Level),
    /// The entry at this level has a bit set that must be clear.
    Reserved(Level),
}

/// How a translation can fail.
#[derive(Clone, Copy, Debug, PartialEq, Eq, Structural)]
pub enum VirtError {
    /// The guest's tables do not map the address.
    Fault(PageFault),
    /// A table that the walk had to read lies in a page that nothing backs.
    Unbacked(Unbacked),
}

impl Level {
    /// Position in an address of the lowest bit that selects this level's
    /// entry.
    pub open spec fn spec_shift(self) -> u64 {
        match self {
            Level::Pml4 => 39,
            Level::Pdpt => 30,
            Level::Pd => 21,
            Level::Pt => 12,
        }
    }

    #[verifier::when_used_as_spec(spec_shift)]
    pub fn shift(self) -> (s: u64)
        ensures
            s == self.spec_shift(),
    {
        match self {
            Level::Pml4 => 39,
            Level::Pdpt => 30,
            Level::Pd => 21,
            Level::Pt => 12,
        }
    }

    /// Bits of an address that an entry of this level leaves to the address
    /// inside the page it maps.
    pub open spec fn spec_offset_mask(self) -> u64 {
        match self {
            Level::Pml4 => 0x7f_ffff_ffff,
            Level::Pdpt => 0x3fff_ffff,
            Level::Pd => 0x1f_ffff,
            Level::Pt => 0xfff,
        }
    }

    #[verifier::when_used_as_spec(spec_offset_mask)]
    pub fn offset_mask(self) -> (m: u64)
        ensures
            m == self.spec_offset_mask(),
    {
        match self {
            Level::Pml4 => 0x7f_ffff_ffff,
            Level::Pdpt => 0x3fff_ffff,
            Level::Pd => 0x1f_ffff,
            Level::Pt => 0xfff,
        }
    }

    /// The level below, if there is one.
    pub open spec fn spec_next(self) -> Option<Level> {
        match self {
            Level::Pml4 => Some(Level::Pdpt),
            Level::Pdpt => Some(Level::Pd),
            Level::Pd => Some(Level::Pt),
            Level::Pt => None,
        }
    }

    #[verifier::when_used_as_spec(spec_next)]
    pub fn next(self) -> (n: Option<Level>)
        ensures
            n == self.spec_next(),
    {
        match self {
            Level::Pml4 => Some(Level::Pdpt),
            Level::Pdpt => Some(Level::Pd),
            Level::Pd => Some(Level::Pt),
            Level::Pt => None,
        }
    }

    /// Levels still to walk below this one.
    pub open spec fn depth(self) -> nat {
        match self {
            Level::Pml4 => 3,
            Level::Pdpt => 2,
            Level::Pd => 1,
            Level::Pt => 0,
        }
    }
}

/// Guest-physical address of the entry that `gva` selects in the table at
/// `table`.
pub open spec fn entry_addr(table: u64, level: Level, gva: u64) -> u64 {
    ((table & ADDR_MASK) + 8 * ((gva >> level.spec_shift()) & 0x1ff)) as u64
}

/// An entry is in use.
pub open spec fn is_present(entry: u64) -> bool {
    entry & PRESENT != 0
}

/// An entry ends the walk: the last level always does, one above it where it
/// maps a large page.
pub open spec fn is_leaf(entry: u64, level: Level) -> bool {
    level == Level::Pt || entry & LARGE != 0
}

/// A leaf entry is malformed: the root has no large pages, and a large page
/// starts at a multiple of its size (bit 12 apart, which is no address bit
/// there).
pub open spec fn is_reserved(entry: u64, level: Level) -> bool {
    match level {
        Level::Pml4 => true,
        Level::Pdpt => entry & 0x3fff_e000 != 0,
        Level::Pd => entry & 0x1f_e000 != 0,
        Level::Pt => false,
    }
}

/// The address that a well-formed leaf entry gives `gva`.
pub open spec fn leaf_addr(entry: u64, level: Level, gva: u64) -> u64 {
    (((entry & ADDR_MASK) & !level.spec_offset_mask()) + (gva & level.spec_offset_mask())) as u64
}

/// The walk from the table at `table`, which is of level `level`, on.
pub open spec fn walk_from(m: PhysMem, table: u64, level: Level, gva: u64) -> Result<
    u64,
    VirtError,
>
    decreases level.depth(),
{
    let at = entry_addr(table, level, gva);
    if !backed(m, at) {
        Err(VirtError::Unbacked(Unbacked { gpa: at }))
    } else {
        let entry = qword_at(m, at);
        if !is_present(entry) {
            Err(VirtError::Fault(PageFault::NotPresent(level)))
        } else if is_leaf(entry, level) {
            if is_reserved(entry, level) {
                Err(VirtError::Fault(PageFault::Reserved(level)))
            } else {
                Ok(leaf_addr(entry, level, gva))
            }
        } else {
            walk_from(m, entry, level.spec_next()->0, gva)
        }
    }
}

/// What the tables rooted at `cr3` make of `gva`: the guest-physical address
/// it maps to, or why there is none. The walk is made for the host, which may
/// read and write whatever is mapped: the bits by which an entry restricts the
/// guest's own accesses are not consulted.
pub open spec fn translate(m: PhysMem, cr3: u64, gva: u64) -> Result<u64, VirtError> {
    walk_from(m, cr3, Level::Pml4, gva)
}

/// A table's address and an index into it give an aligned entry address
/// below the limit of physical memory.
proof fn lemma_entry_addr(table: u64, slot: u64)
    by (bit_vector)
    ensures
        (table & ADDR_MASK) <= ADDR_MASK,
        (table & ADDR_MASK) % 8 == 0,
        (slot & 0x1ff) <= 0x1ff,
{
}

/// A leaf's frame and the offset inside it do not overlap, and their sum is
/// below the limit of physical memory.
proof fn lemma_leaf_addr(entry: u64, mask: u64, gva: u64)
    by (bit_vector)
    requires
        mask == 0x3fff_ffff || mask == 0x1f_ffff || mask == 0xfff,
    ensures
        ((entry & ADDR_MASK) & !mask) + (gva & mask) < PHYS_LIMIT,
{
}

/// A walk ends below the limit of physical memory.
proof fn lemma_walk_bound(m: PhysMem, table: u64, level: Level, gva: u64)
    ensures
        walk_from(m, table, level, gva) matches Ok(gpa) ==> gpa < PHYS_LIMIT,
    decreases level.depth(),
{
    let at = entry_addr(table, level, gva);
    if backed(m, at) {
        let entry = qword_at(m, at);
        if is_present(entry) {
            if is_leaf(entry, level) {
                if !is_reserved(entry, level) {
                    lemma_leaf_addr(entry, level.spec_offset_mask(), gva);
                }
            } else {
                lemma_walk_bound(m, entry, level.spec_next()->0, gva);
            }
        }
    }
}

/// Every address that a translation gives is below the limit of physical
/// memory.
pub proof fn lemma_translate_bound(m: PhysMem, cr3: u64, gva: u64)
    ensures
        translate(m, cr3, gva) matches Ok(gpa) ==> gpa < PHYS_LIMIT,
{
    lemma_walk_bound(m, cr3, Level::Pml4, gva);
}

/// Whether a leaf entry of this level is malformed.
fn reserved(entry: u64, level: Level) -> (b: bool)
    ensures
        b == is_reserved(entry, level),
{
    match level {
        Level::Pml4 => true,
        Level::Pdpt => entry & 0x3fff_e000 != 0,
        Level::Pd => entry & 0x1f_e000 != 0,
        Level::Pt => false,
    }
}

/// Walks the tables rooted at `cr3` for `gva`, reading them from `mem` as it
/// stands.
pub fn walk(mem: &PageMap, cr3: u64, gva: u64) -> (r: Result<u64, VirtError>)
    ensures
        r == translate(mem@, cr3, gva),
        r matches Ok(gpa) ==> gpa < PHYS_LIMIT,
{
    let mut table: u64 = cr3;
    let mut level: Level = Level::Pml4;
    loop
        invariant
            translate(mem@, cr3, gva) == walk_from(mem@, table, level, gva),
        decreases level.depth(),
    {
        let slot: u64 = gva >> level.shift();
        proof {
            lemma_entry_addr(table, slot);
        }
        let at: u64 = (table & ADDR_MASK) + 8 * (slot & 0x1ff);
        let entry: u64 = match mem.qword(at) {
            None => {
                return Err(VirtError::Unbacked(Unbacked { gpa: at }));
            },
            Some(e) => e,
        };
        if entry & PRESENT == 0 {
            return Err(VirtError::Fault(PageFault::NotPresent(level)));
        }
        let below = level.next();
        if entry & LARGE == 0 && below.is_some() {
            table = entry;
            level = below.unwrap();
        } else {
            if reserved(entry, level) {
                return Err(VirtError::Fault(PageFault::Reserved(level)));
            }
            let mask: u64 = level.offset_mask();
            proof {
                lemma_leaf_addr(entry, mask, gva);
            }
            return Ok(((entry & ADDR_MASK) & !mask) + (gva & mask));
        }
    }
}

} // verus!

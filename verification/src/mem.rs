//! Guest memory with lazy mapping: a page map, the handler that is asked for
//! a page when an access misses, and the accesses that fault through it.

use crate::paging::{translate, walk, VirtError, PHYS_LIMIT};
use crate::phys::{
    addr_at, backed, first_unbacked, frame_ok, host_addr, lemma_addr_at_same_page,
    lemma_addr_at_step, page_index, page_offset, read_span, span_backed, write_span, Frame,
    HostPage, PageMap, PhysMem, Unbacked, PAGE_SIZE,
};
use crate::virt::{
    span_error, virt_probe, virt_read, virt_read_span, virt_span_ok, virt_write, virt_write_span,
};
use vstd::prelude::*;

verus! {

/// What the host installs to map pages on demand. It is handed the page map
/// and the address that missed, and is expected to map the page that holds
/// the address; whether it did is looked up afterwards.
pub trait MissingPage {
    /// Whether the handler undertakes to map the page that holds `gpa` when
    /// it is asked for it. A handler undertakes nothing unless it says so.
    open spec fn resolves(&self, gpa: u64) -> bool {
        false
    }

    fn missing_page(&mut self, pages: &mut PageMap, gpa: u64)
        ensures
            old(self).resolves(gpa) ==> backed(final(pages)@, gpa),
    ;
}

/// The handler of a memory that maps nothing on demand.
pub struct NoHandler;

impl MissingPage for NoHandler {
    fn missing_page(&mut self, pages: &mut PageMap, gpa: u64)
        ensures
            *final(pages) == *old(pages),
    {
    }
}

/// A handler that holds pages of the guest in store and maps each of them
/// when it is first missed.
pub struct BackingStore {
    pub store: PageMap,
}

impl MissingPage for BackingStore {
    open spec fn resolves(&self, gpa: u64) -> bool {
        backed(self.store@, gpa)
    }

    fn missing_page(&mut self, pages: &mut PageMap, gpa: u64)
        ensures
            backed(old(self).store@, gpa) ==> final(pages)@ == old(pages)@.insert(
                page_index(gpa),
                old(self).store@[page_index(gpa)],
            ) && final(self).store@ == old(self).store@.remove(page_index(gpa)),
            !backed(old(self).store@, gpa) ==> final(pages)@ == old(pages)@ && final(self).store@
                == old(self).store@,
    {
        if let Some(page) = self.store.remove(gpa) {
            pages.insert(gpa, page);
        }
    }
}

/// Guest memory: the page map, the one handler for misses, and the number of
/// times a handler has been asked for a page.
pub struct Memory<H: MissingPage> {
    pub pages: PageMap,
    pub handler: Option<H>,
    pub faults: u64,
}

/// The count of faults after one more; it stays at the largest number once
/// it is reached.
pub open spec fn one_more(faults: u64) -> u64 {
    if faults < u64::MAX {
        (faults + 1) as u64
    } else {
        faults
    }
}

/// What an access makes of the handler. Where something that the access needs
/// is `missing` and a handler is installed, the handler has been asked, once
/// or more often. Where nothing is missing, or there is nobody to ask, the
/// memory is left as it was.
pub open spec fn settled<H: MissingPage>(
    before: Memory<H>,
    after: Memory<H>,
    missing: bool,
) -> bool {
    if missing && before.handler is Some {
        after.faults >= one_more(before.faults)
    } else {
        after == before
    }
}

/// Nothing but the pages has changed, and they hold `stored`.
pub open spec fn stored_only<H: MissingPage>(
    before: Memory<H>,
    after: Memory<H>,
    stored: PhysMem,
) -> bool {
    after.pages@ == stored && after.handler == before.handler && after.faults == before.faults
}

/// The first of the `len` bytes from `gva` on that cannot be reached fails
/// for want of a backing page, which a handler could supply.
pub open spec fn span_fails_unbacked(m: PhysMem, cr3: u64, gva: u64, len: nat) -> bool {
    !virt_span_ok(m, cr3, gva, len) && span_error(m, cr3, gva, len) is Unbacked
}

/// The byte at `gva` cannot be reached for want of a backing page, of a
/// table or of its own.
pub open spec fn wants_page(m: PhysMem, cr3: u64, gva: u64) -> bool {
    crate::virt::resolve(m, cr3, gva) matches Err(VirtError::Unbacked(_))
}

/// A range that can be reached up to its `at`-th byte fails for want of a
/// backing page just when that byte does.
proof fn lemma_first_ask(m: PhysMem, cr3: u64, gva: u64, len: nat, at: int)
    requires
        0 <= at < len,
        virt_span_ok(m, cr3, gva, at as nat),
    ensures
        wants_page(m, cr3, addr_at(gva, at)) ==> span_fails_unbacked(m, cr3, gva, len),
        crate::virt::resolve(m, cr3, addr_at(gva, at)) is Err && !wants_page(
            m,
            cr3,
            addr_at(gva, at),
        ) ==> !span_fails_unbacked(m, cr3, gva, len),
{
    if crate::virt::resolve(m, cr3, addr_at(gva, at)) is Err {
        crate::virt::lemma_span_fails_at(m, cr3, gva, len, at);
    }
}

/// The reason why the `len` bytes from `gva` on cannot all be reached, if
/// there is one.
pub open spec fn span_failure(m: PhysMem, cr3: u64, gva: u64, len: nat) -> Option<VirtError> {
    if virt_span_ok(m, cr3, gva, len) {
        None
    } else {
        Some(span_error(m, cr3, gva, len))
    }
}

impl<H: MissingPage> Memory<H> {
    /// An empty memory without a handler.
    pub fn new() -> (mem: Self)
        ensures
            mem.pages@ == Map::<u64, Frame>::empty(),
            mem.handler is None,
            mem.faults == 0,
    {
        Memory { pages: PageMap::new(), handler: None, faults: 0 }
    }

    /// Hands `gpa` to the handler, if one is installed, and counts the fault.
    /// Without a handler nothing happens.
    pub fn fault(&mut self, gpa: u64) -> (asked: bool)
        ensures
            asked == old(self).handler is Some,
            !asked ==> *final(self) == *old(self),
            asked ==> final(self).faults == one_more(old(self).faults),
            final(self).handler is Some == old(self).handler is Some,
            old(self).handler matches Some(h) && h.resolves(gpa) ==> backed(
                final(self).pages@,
                gpa,
            ),
    {
        match &mut self.handler {
            Some(h) => {
                h.missing_page(&mut self.pages, gpa);
                if self.faults < u64::MAX {
                    self.faults = self.faults + 1;
                }
                true
            },
            None => false,
        }
    }

    /// Goes through the `len` bytes from `gpa` on and asks the handler for
    /// each page that is found missing, once, until a page stays missing.
    /// Then it looks for the first byte that is not backed.
    fn back_span(&mut self, gpa: u64, len: usize) -> (r: Option<Unbacked>)
        ensures
            settled(*old(self), *final(self), !span_backed(old(self).pages@, gpa, len as nat)),
            match r {
                None => span_backed(final(self).pages@, gpa, len as nat),
                Some(e) => !span_backed(final(self).pages@, gpa, len as nat) && e.gpa == addr_at(
                    gpa,
                    first_unbacked(final(self).pages@, gpa, len as nat),
                ),
            },
    {
        let mut done: usize = 0;
        let mut cur: u64 = gpa;
        let mut asked: bool = false;
        let mut stuck: bool = false;
        while done < len && !stuck
            invariant
                done <= len,
                cur == addr_at(gpa, done as int),
                !asked ==> *self == *old(self) && span_backed(self.pages@, gpa, done as nat),
                self.handler is Some == old(self).handler is Some,
                stuck && !asked ==> old(self).handler is None,
                asked ==> settled(*old(self), *self, true) && !span_backed(
                    old(self).pages@,
                    gpa,
                    len as nat,
                ) && old(self).handler is Some,
            decreases len - done + (if stuck { 0int } else { 1int }),
        {
            let n: usize = crate::phys::chunk_len(cur, len - done);
            if self.pages.contains(cur) {
                proof {
                    if !asked {
                        assert forall|i: int| 0 <= i < done + n implies backed(
                            self.pages@,
                            #[trigger] addr_at(gpa, i),
                        ) by {
                            if i >= done {
                                lemma_addr_at_step(gpa, done as int, i - done);
                                lemma_addr_at_same_page(cur, i - done);
                            }
                        }
                    }
                    lemma_addr_at_step(gpa, done as int, n as int);
                }
                cur = crate::phys::advance(cur, n);
                done += n;
            } else {
                proof {
                    if !asked {
                        assert(!backed(old(self).pages@, addr_at(gpa, done as int)));
                    }
                }
                if self.fault(cur) {
                    asked = true;
                    if self.pages.contains(cur) {
                        proof {
                            lemma_addr_at_step(gpa, done as int, n as int);
                        }
                        cur = crate::phys::advance(cur, n);
                        done += n;
                    } else {
                        stuck = true;
                    }
                } else {
                    stuck = true;
                }
            }
        }
        self.pages.probe(gpa, len)
    }

    /// Brings in what a walk for `gva` needs: as long as the walk stops at a
    /// table that lies in a missing page, the handler is asked for that page,
    /// and at the end for the page that the address lies in. No page is asked
    /// for twice in a row. Tells whether the handler was asked.
    fn reach_page(&mut self, cr3: u64, gva: u64) -> (asked: bool)
        ensures
            asked == (old(self).handler is Some && wants_page(old(self).pages@, cr3, gva)),
            asked ==> final(self).faults >= one_more(old(self).faults),
            !asked ==> *final(self) == *old(self),
            final(self).handler is Some == old(self).handler is Some,
    {
        let mut asked: bool = false;
        let mut last: u64 = 0;
        let mut tries: usize = 5;
        while tries > 0
            invariant
                asked ==> old(self).handler is Some && wants_page(old(self).pages@, cr3, gva)
                    && self.faults >= one_more(old(self).faults),
                !asked ==> *self == *old(self) && tries == 5,
                self.handler is Some == old(self).handler is Some,
            decreases tries,
        {
            let missing: u64 = match walk(&self.pages, cr3, gva) {
                Err(VirtError::Unbacked(e)) => e.gpa,
                Err(VirtError::Fault(_)) => {
                    return asked;
                },
                Ok(gpa) => {
                    if self.pages.contains(gpa) {
                        return asked;
                    }
                    gpa
                },
            };
            if asked && missing == last {
                return asked;
            }
            if !self.fault(missing) {
                return asked;
            }
            asked = true;
            last = missing;
            tries -= 1;
        }
        asked
    }

    /// Goes through the `len` bytes from `gva` on and brings in, page by
    /// page, what a walk for them needs, until a page is met that cannot be
    /// reached. Then it looks for the first byte that still cannot be
    /// reached.
    fn reach_span(&mut self, cr3: u64, gva: u64, len: usize) -> (r: Option<VirtError>)
        ensures
            settled(
                *old(self),
                *final(self),
                span_fails_unbacked(old(self).pages@, cr3, gva, len as nat),
            ),
            r == span_failure(final(self).pages@, cr3, gva, len as nat),
    {
        let mut done: usize = 0;
        let mut cur: u64 = gva;
        let mut asked: bool = false;
        let mut stuck: bool = false;
        while done < len && !stuck
            invariant
                done <= len,
                cur == addr_at(gva, done as int),
                self.handler is Some == old(self).handler is Some,
                !asked ==> *self == *old(self) && virt_span_ok(
                    self.pages@,
                    cr3,
                    gva,
                    done as nat,
                ),
                stuck && !asked ==> !(span_fails_unbacked(old(self).pages@, cr3, gva, len as nat)
                    && old(self).handler is Some),
                asked ==> self.faults >= one_more(old(self).faults) && span_fails_unbacked(
                    old(self).pages@,
                    cr3,
                    gva,
                    len as nat,
                ) && old(self).handler is Some,
            decreases len - done + (if stuck { 0int } else { 1int }),
        {
            let n: usize = crate::phys::chunk_len(cur, len - done);
            let ghost before = self.pages@;
            let came = self.reach_page(cr3, cur);
            proof {
                if !asked {
                    lemma_first_ask(before, cr3, gva, len as nat, done as int);
                }
            }
            asked = asked || came;
            let reached: bool = match walk(&self.pages, cr3, cur) {
                Ok(gpa) => {
                    let there = self.pages.contains(gpa);
                    proof {
                        if there && !asked {
                            crate::virt::lemma_span_grows(
                                self.pages@,
                                cr3,
                                gva,
                                done as int,
                                cur,
                                n as int,
                                gpa,
                            );
                        }
                    }
                    there
                },
                Err(_) => false,
            };
            if reached {
                proof {
                    lemma_addr_at_step(gva, done as int, n as int);
                }
                cur = crate::phys::advance(cur, n);
                done += n;
            } else {
                stuck = true;
            }
        }
        virt_probe(&self.pages, cr3, gva, len)
    }

    /// Walks the tables rooted at `cr3` for `gva`, asking the handler for each
    /// table that lies in a missing page. The result is that of a walk of the
    /// memory as the handler left it: the address, or the reason why the
    /// tables give none.
    pub fn virt_translate_checked(&mut self, cr3: u64, gva: u64) -> (r: Result<u64, VirtError>)
        ensures
            settled(
                *old(self),
                *final(self),
                translate(old(self).pages@, cr3, gva) matches Err(VirtError::Unbacked(_)),
            ),
            r == translate(final(self).pages@, cr3, gva),
            r matches Ok(gpa) ==> gpa < PHYS_LIMIT,
    {
        let mut budget: usize = 4;
        let mut asked: bool = false;
        let mut last: u64 = 0;
        loop
            invariant
                !asked ==> *self == *old(self) && budget > 0,
                asked ==> settled(*old(self), *self, true) && (translate(
                    old(self).pages@,
                    cr3,
                    gva,
                ) matches Err(VirtError::Unbacked(_))) && old(self).handler is Some,
            decreases budget,
        {
            let found = walk(&self.pages, cr3, gva);
            match found {
                Err(VirtError::Unbacked(e)) => {
                    if budget == 0 || (asked && last == e.gpa) {
                        return found;
                    }
                    if !self.fault(e.gpa) {
                        return found;
                    }
                    asked = true;
                    last = e.gpa;
                    budget -= 1;
                },
                _ => {
                    return found;
                },
            }
        }
    }

    /// Reads `len` bytes from `gva` on through the tables rooted at `cr3`,
    /// asking the handler for each page that is missing. The bytes are those
    /// of the memory as the handler left it; where a byte cannot be reached,
    /// the reason is reported and nothing is read.
    pub fn virt_read_slice_checked(&mut self, cr3: u64, gva: u64, len: usize) -> (r: Result<
        Vec<u8>,
        VirtError,
    >)
        ensures
            settled(
                *old(self),
                *final(self),
                span_fails_unbacked(old(self).pages@, cr3, gva, len as nat),
            ),
            match r {
                Ok(v) => virt_span_ok(final(self).pages@, cr3, gva, len as nat) && v@
                    == virt_read_span(final(self).pages@, cr3, gva, len as nat),
                Err(e) => span_failure(final(self).pages@, cr3, gva, len as nat) == Some(e),
            },
    {
        if let Some(e) = self.reach_span(cr3, gva, len) {
            return Err(e);
        }
        virt_read(&self.pages, cr3, gva, len)
    }

    /// Stores `data` from `gva` on through the tables rooted at `cr3`, asking
    /// the handler for each page that is missing. Every address is translated
    /// before the first byte is stored, by the memory as the handler left it;
    /// where a byte cannot be reached, the reason is reported and nothing is
    /// stored.
    pub fn virt_write_checked(&mut self, cr3: u64, gva: u64, data: &[u8]) -> (r: Result<
        (),
        VirtError,
    >)
        ensures
            virt_span_ok(old(self).pages@, cr3, gva, data@.len()) ==> r is Ok && stored_only(
                *old(self),
                *final(self),
                virt_write_span(old(self).pages@, cr3, gva, data@),
            ),
            !virt_span_ok(old(self).pages@, cr3, gva, data@.len()) ==> settled(
                *old(self),
                *final(self),
                span_fails_unbacked(old(self).pages@, cr3, gva, data@.len()),
            ),
            match r {
                Ok(_) => exists|left: PhysMem|
                    virt_span_ok(left, cr3, gva, data@.len()) && final(self).pages@
                        == #[trigger] virt_write_span(left, cr3, gva, data@),
                Err(e) => span_failure(final(self).pages@, cr3, gva, data@.len()) == Some(e),
            },
    {
        if let Some(e) = self.reach_span(cr3, gva, data.len()) {
            return Err(e);
        }
        let ghost left = self.pages@;
        let stored = virt_write(&mut self.pages, cr3, gva, data);
        assert(self.pages@ == virt_write_span(left, cr3, gva, data@));
        stored
    }
}

/// What `bochscpu_mem_virt_translate` returns for an address that the tables
/// do not map. No guest-physical address is that large.
pub const BOCHSCPU_MEM_UNMAPPED: u64 = 0xffff_ffff_ffff_ffff;

/// Maps the page that holds `gpa` to the host buffer `page`. A page mapped
/// there before is replaced.
pub fn bochscpu_mem_page_insert<H: MissingPage>(mem: &mut Memory<H>, gpa: u64, page: HostPage)
    ensures
        final(mem).pages@ == old(mem).pages@.insert(page_index(gpa), page@),
        final(mem).handler == old(mem).handler,
        final(mem).faults == old(mem).faults,
{
    mem.pages.insert(gpa, page);
}

/// Unmaps the page that holds `gpa` and hands its buffer back to the host.
/// Where no page is mapped nothing changes.
pub fn bochscpu_mem_page_remove<H: MissingPage>(mem: &mut Memory<H>, gpa: u64) -> (r: Option<
    HostPage,
>)
    ensures
        final(mem).pages@ == old(mem).pages@.remove(page_index(gpa)),
        final(mem).handler == old(mem).handler,
        final(mem).faults == old(mem).faults,
        match r {
            Some(p) => backed(old(mem).pages@, gpa) && p@ == old(mem).pages@[page_index(gpa)],
            None => !backed(old(mem).pages@, gpa),
        },
{
    mem.pages.remove(gpa)
}

/// Installs the handler that is asked for a page when an access misses. There
/// is one handler at a time: the one that was installed before is handed
/// back.
pub fn bochscpu_mem_missing_page<H: MissingPage>(mem: &mut Memory<H>, handler: H) -> (prior:
    Option<H>)
    ensures
        final(mem).handler == Some(handler),
        prior == old(mem).handler,
        final(mem).pages == old(mem).pages,
        final(mem).faults == old(mem).faults,
{
    let mut slot: Option<H> = Some(handler);
    std::mem::swap(&mut mem.handler, &mut slot);
    slot
}

/// Host address for `gpa`. Where the page is mapped nothing else happens.
/// Where it is not, the handler is asked once and the page is looked up
/// again; an address that no page backs after that is reported, for the
/// caller to give up on. A handler that maps the page it is asked for makes
/// the call succeed.
pub fn bochscpu_mem_phy_translate<H: MissingPage>(mem: &mut Memory<H>, gpa: u64) -> (r: Result<
    u64,
    Unbacked,
>)
    ensures
        settled(*old(mem), *final(mem), !backed(old(mem).pages@, gpa)),
        !backed(old(mem).pages@, gpa) && old(mem).handler is Some ==> final(mem).faults
            == one_more(old(mem).faults),
        r == (if backed(final(mem).pages@, gpa) {
            Ok::<u64, Unbacked>(host_addr(final(mem).pages@, gpa))
        } else {
            Err::<u64, Unbacked>(Unbacked { gpa })
        }),
        old(mem).handler matches Some(h) && h.resolves(gpa) ==> r is Ok,
{
    if let Some(hva) = mem.pages.lookup(gpa) {
        return Ok(hva);
    }
    mem.fault(gpa);
    match mem.pages.lookup(gpa) {
        Some(hva) => Ok(hva),
        None => Err(Unbacked { gpa }),
    }
}

/// The address that a translation found, or the sentinel where it found
/// none.
pub open spec fn spec_gpa_or_unmapped(found: Option<u64>) -> u64 {
    match found {
        Some(gpa) => gpa,
        None => BOCHSCPU_MEM_UNMAPPED,
    }
}

#[verifier::when_used_as_spec(spec_gpa_or_unmapped)]
pub fn gpa_or_unmapped(found: Option<u64>) -> (code: u64)
    ensures
        code == spec_gpa_or_unmapped(found),
{
    match found {
        Some(gpa) => gpa,
        None => BOCHSCPU_MEM_UNMAPPED,
    }
}

/// How a translation is handed across the boundary: the address, or the
/// sentinel where the tables do not map one. A table that nothing backs is
/// not the guest's fault and is reported apart.
pub open spec fn spec_translation_code(found: Result<u64, VirtError>) -> Result<u64, Unbacked> {
    match found {
        Ok(gpa) => Ok(spec_gpa_or_unmapped(Some(gpa))),
        Err(VirtError::Fault(_)) => Ok(spec_gpa_or_unmapped(None)),
        Err(VirtError::Unbacked(e)) => Err(e),
    }
}

#[verifier::when_used_as_spec(spec_translation_code)]
pub fn translation_code(found: Result<u64, VirtError>) -> (r: Result<u64, Unbacked>)
    ensures
        r == spec_translation_code(found),
{
    match found {
        Ok(gpa) => Ok(gpa_or_unmapped(Some(gpa))),
        Err(VirtError::Fault(_)) => Ok(gpa_or_unmapped(None)),
        Err(VirtError::Unbacked(e)) => Err(e),
    }
}

/// Guest-physical address of `gva` under the tables rooted at `cr3`, or the
/// sentinel where they map none. The tables are walked as
/// `virt_translate_checked` walks them.
pub fn bochscpu_mem_virt_translate<H: MissingPage>(mem: &mut Memory<H>, cr3: u64, gva: u64) -> (r:
    Result<u64, Unbacked>)
    ensures
        settled(
            *old(mem),
            *final(mem),
            translate(old(mem).pages@, cr3, gva) matches Err(VirtError::Unbacked(_)),
        ),
        r == translation_code(translate(final(mem).pages@, cr3, gva)),
        r == Ok::<u64, Unbacked>(BOCHSCPU_MEM_UNMAPPED) <==> translate(
            final(mem).pages@,
            cr3,
            gva,
        ) matches Err(VirtError::Fault(_)),
{
    translation_code(mem.virt_translate_checked(cr3, gva))
}

/// Fills `buf` with the bytes from `gpa` on, asking the handler for each page
/// that is missing. The bytes are those of the memory as the handler left
/// it. Where a page stays missing, its first byte is reported and `buf` is
/// left as it was.
pub fn bochscpu_mem_phy_read<H: MissingPage>(
    mem: &mut Memory<H>,
    gpa: u64,
    buf: &mut Vec<u8>,
) -> (r: Result<(), Unbacked>)
    ensures
        settled(*old(mem), *final(mem), !span_backed(old(mem).pages@, gpa, old(buf)@.len())),
        match r {
            Ok(_) => span_backed(final(mem).pages@, gpa, old(buf)@.len()) && final(buf)@
                == read_span(final(mem).pages@, gpa, old(buf)@.len()),
            Err(e) => !span_backed(final(mem).pages@, gpa, old(buf)@.len()) && e.gpa == addr_at(
                gpa,
                first_unbacked(final(mem).pages@, gpa, old(buf)@.len()),
            ) && final(buf)@ == old(buf)@,
        },
{
    if let Some(e) = mem.back_span(gpa, buf.len()) {
        return Err(e);
    }
    match mem.pages.read(gpa, buf.len()) {
        Ok(bytes) => {
            *buf = bytes;
            Ok(())
        },
        Err(e) => Err(e),
    }
}

/// Stores `data` from `gpa` on, asking the handler for each page that is
/// missing before the first byte is stored. Where a page stays missing, its
/// first byte is reported and nothing is stored.
pub fn bochscpu_mem_phy_write<H: MissingPage>(mem: &mut Memory<H>, gpa: u64, data: &[u8]) -> (r:
    Result<(), Unbacked>)
    ensures
        span_backed(old(mem).pages@, gpa, data@.len()) ==> r is Ok && stored_only(
            *old(mem),
            *final(mem),
            write_span(old(mem).pages@, gpa, data@),
        ),
        !span_backed(old(mem).pages@, gpa, data@.len()) ==> settled(*old(mem), *final(mem), true),
        match r {
            Ok(_) => exists|left: PhysMem|
                span_backed(left, gpa, data@.len()) && final(mem).pages@ == #[trigger] write_span(
                    left,
                    gpa,
                    data@,
                ),
            Err(e) => !span_backed(final(mem).pages@, gpa, data@.len()) && e.gpa == addr_at(
                gpa,
                first_unbacked(final(mem).pages@, gpa, data@.len()),
            ),
        },
{
    if let Some(e) = mem.back_span(gpa, data.len()) {
        return Err(e);
    }
    let ghost left = mem.pages@;
    let stored = mem.pages.write(gpa, data);
    assert(mem.pages@ == write_span(left, gpa, data@));
    stored
}

/// The number that stands for the outcome of a virtual access: zero for
/// success, minus one where the tables do not map a byte.
pub open spec fn spec_access_status(done: bool) -> i32 {
    if done {
        0i32
    } else {
        -1i32
    }
}

#[verifier::when_used_as_spec(spec_access_status)]
pub fn access_status(done: bool) -> (code: i32)
    ensures
        code == spec_access_status(done),
{
    if done {
        0
    } else {
        -1
    }
}

/// How the outcome of a virtual access is handed across the boundary: its
/// status, unless a page that nothing backs was in the way, which is not
/// the guest's fault and is reported apart.
pub open spec fn spec_access_code(failed: Option<VirtError>) -> Result<i32, Unbacked> {
    match failed {
        None => Ok(spec_access_status(true)),
        Some(VirtError::Fault(_)) => Ok(spec_access_status(false)),
        Some(VirtError::Unbacked(e)) => Err(e),
    }
}

#[verifier::when_used_as_spec(spec_access_code)]
pub fn access_code(failed: Option<VirtError>) -> (r: Result<i32, Unbacked>)
    ensures
        r == spec_access_code(failed),
{
    match failed {
        None => Ok(access_status(true)),
        Some(VirtError::Fault(_)) => Ok(access_status(false)),
        Some(VirtError::Unbacked(e)) => Err(e),
    }
}

/// Stores `data` from `gva` on through the tables rooted at `cr3`, as
/// `virt_write_checked` does. Returns zero when every byte was stored and a
/// number other than zero when the tables do not map the range, in which case
/// nothing was stored.
pub fn bochscpu_mem_virt_write<H: MissingPage>(
    mem: &mut Memory<H>,
    cr3: u64,
    gva: u64,
    data: &[u8],
) -> (r: Result<i32, Unbacked>)
    ensures
        virt_span_ok(old(mem).pages@, cr3, gva, data@.len()) ==> r == Ok::<i32, Unbacked>(0)
            && stored_only(
            *old(mem),
            *final(mem),
            virt_write_span(old(mem).pages@, cr3, gva, data@),
        ),
        !virt_span_ok(old(mem).pages@, cr3, gva, data@.len()) ==> settled(
            *old(mem),
            *final(mem),
            span_fails_unbacked(old(mem).pages@, cr3, gva, data@.len()),
        ),
        r == Ok::<i32, Unbacked>(0) ==> exists|left: PhysMem|
            virt_span_ok(left, cr3, gva, data@.len()) && final(mem).pages@
                == #[trigger] virt_write_span(left, cr3, gva, data@),
        r != Ok::<i32, Unbacked>(0) ==> r == access_code(
            span_failure(final(mem).pages@, cr3, gva, data@.len()),
        ),
{
    match mem.virt_write_checked(cr3, gva, data) {
        Ok(_) => access_code(None),
        Err(e) => access_code(Some(e)),
    }
}

/// Fills `buf` with the bytes from `gva` on, read through the tables rooted
/// at `cr3` as `virt_read_slice_checked` reads them. Returns zero when every
/// byte was read and a number other than zero when the tables do not map the
/// range, in which case `buf` is left as it was.
pub fn bochscpu_mem_virt_read<H: MissingPage>(
    mem: &mut Memory<H>,
    cr3: u64,
    gva: u64,
    buf: &mut Vec<u8>,
) -> (r: Result<i32, Unbacked>)
    ensures
        settled(
            *old(mem),
            *final(mem),
            span_fails_unbacked(old(mem).pages@, cr3, gva, old(buf)@.len()),
        ),
        r == access_code(span_failure(final(mem).pages@, cr3, gva, old(buf)@.len())),
        final(buf)@ == (if r == Ok::<i32, Unbacked>(0) {
            virt_read_span(final(mem).pages@, cr3, gva, old(buf)@.len())
        } else {
            old(buf)@
        }),
{
    match mem.virt_read_slice_checked(cr3, gva, buf.len()) {
        Ok(bytes) => {
            *buf = bytes;
            access_code(None)
        },
        Err(e) => access_code(Some(e)),
    }
}

/// A page that was inserted is found again: the address that stands for
/// `gpa` lies in the buffer that was inserted for its page, at `gpa`'s offset.
pub proof fn lemma_insert_then_translate(m: PhysMem, gpa: u64, buf: Frame)
    requires
        frame_ok(buf),
    ensures
        backed(m.insert(page_index(gpa), buf), gpa),
        host_addr(m.insert(page_index(gpa), buf), gpa) == buf.hva + page_offset(gpa),
        buf.hva <= host_addr(m.insert(page_index(gpa), buf), gpa) < buf.hva + PAGE_SIZE,
{
}

/// A page that was removed is missed: the next access to `gpa` finds no page
/// and goes to the handler.
pub proof fn lemma_remove_then_miss(m: PhysMem, gpa: u64)
    ensures
        !backed(m.remove(page_index(gpa)), gpa),
{
}

/// The sentinel is no address: whatever the tables hold, a translation that
/// succeeds gives an address below the limit of physical memory, and so never
/// the sentinel.
pub proof fn lemma_unmapped_is_no_address(m: PhysMem, cr3: u64, gva: u64)
    ensures
        translate(m, cr3, gva) matches Ok(gpa) ==> gpa < PHYS_LIMIT && gpa
            != BOCHSCPU_MEM_UNMAPPED,
        translation_code(translate(m, cr3, gva)) == Ok::<u64, Unbacked>(BOCHSCPU_MEM_UNMAPPED)
            <==> translate(m, cr3, gva) matches Err(VirtError::Fault(_)),
{
    crate::paging::lemma_translate_bound(m, cr3, gva);
}

} // verus!

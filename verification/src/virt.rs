//! Guest-virtual memory: byte ranges reached through the page tables.

use crate::paging::{
    entry_addr, is_leaf, is_present, is_reserved, leaf_addr, translate, walk, walk_from, Level,
    VirtError, ADDR_MASK, PHYS_LIMIT,
};
use crate::phys::{
    addr_at, backed, byte_at, lemma_addr_at_same_page, lemma_addr_at_step, mem_ok, page_index,
    page_offset, qword_at, write_span, PageMap, PhysMem, Unbacked, PAGE_SIZE,
};
use vstd::prelude::*;

verus! {

/// Two addresses of one page select the same entry at every level.
proof fn lemma_same_slot(va: u64, k: u64, shift: u64)
    by (bit_vector)
    requires
        (va & 0xfff) + k < 0x1000,
        shift == 39 || shift == 30 || shift == 21 || shift == 12,
    ensures
        (((va + k) as u64) >> shift) & 0x1ff == (va >> shift) & 0x1ff,
{
}

/// The low twelve bits of an address are its offset in its page.
proof fn lemma_low_bits(va: u64)
    by (bit_vector)
    ensures
        va & 0xfff == va % 0x1000,
{
}

/// Inside one page, a leaf moves the address on by as much as it was moved.
proof fn lemma_same_leaf(entry: u64, va: u64, k: u64, mask: u64)
    by (bit_vector)
    requires
        (va & 0xfff) + k < 0x1000,
        mask == 0x3fff_ffff || mask == 0x1f_ffff || mask == 0xfff,
    ensures
        ((va + k) as u64) & mask == (va & mask) + k,
        ((((entry & ADDR_MASK) & !mask) + (va & mask)) as u64) & 0xfff == va & 0xfff,
        ((entry & ADDR_MASK) & !mask) + (va & mask) + k < PHYS_LIMIT,
{
}

/// A walk distinguishes addresses of one page by their offset alone.
proof fn lemma_walk_same_page(m: PhysMem, table: u64, level: Level, va: u64, k: u64)
    requires
        page_offset(va) + k < PAGE_SIZE,
    ensures
        walk_from(m, table, level, (va + k) as u64) == (match walk_from(m, table, level, va) {
            Ok(gpa) => Ok((gpa + k) as u64),
            Err(e) => Err(e),
        }),
        walk_from(m, table, level, va) matches Ok(gpa) ==> page_offset(gpa) == page_offset(va)
            && gpa + k < PHYS_LIMIT,
    decreases level.depth(),
{
    lemma_low_bits(va);
    lemma_same_slot(va, k, level.spec_shift());
    let at = entry_addr(table, level, va);
    assert(entry_addr(table, level, (va + k) as u64) == at);
    if backed(m, at) {
        let entry = qword_at(m, at);
        if is_present(entry) {
            if is_leaf(entry, level) {
                if !is_reserved(entry, level) {
                    let mask = level.spec_offset_mask();
                    lemma_same_leaf(entry, va, k, mask);
                    lemma_low_bits(leaf_addr(entry, level, va));
                }
            } else {
                lemma_walk_same_page(m, entry, level.spec_next()->0, va, k);
            }
        }
    }
}

/// Addresses of one page translate alike: to one page, at their own
/// offsets, or not at all, for one reason.
pub proof fn lemma_translate_same_page(m: PhysMem, cr3: u64, va: u64, k: u64)
    requires
        page_offset(va) + k < PAGE_SIZE,
    ensures
        translate(m, cr3, (va + k) as u64) == (match translate(m, cr3, va) {
            Ok(gpa) => Ok((gpa + k) as u64),
            Err(e) => Err(e),
        }),
        translate(m, cr3, va) matches Ok(gpa) ==> page_offset(gpa) == page_offset(va) && gpa + k
            < PHYS_LIMIT,
{
    lemma_walk_same_page(m, cr3, Level::Pml4, va, k);
}

/// Where the byte at `va` lies in physical memory, or why it cannot be
/// reached: the tables do not map it, or nothing backs a table or the byte's
/// own page.
pub open spec fn resolve(m: PhysMem, cr3: u64, va: u64) -> Result<u64, VirtError> {
    match translate(m, cr3, va) {
        Ok(gpa) => if backed(m, gpa) {
            Ok(gpa)
        } else {
            Err(VirtError::Unbacked(Unbacked { gpa }))
        },
        Err(e) => Err(e),
    }
}

/// Each of the `len` bytes from `gva` on can be reached.
pub open spec fn virt_span_ok(m: PhysMem, cr3: u64, gva: u64, len: nat) -> bool {
    forall|i: int| 0 <= i < len ==> (#[trigger] resolve(m, cr3, addr_at(gva, i))) is Ok
}

/// Index of the first byte from `gva` on that cannot be reached.
pub open spec fn first_unreached(m: PhysMem, cr3: u64, gva: u64, len: nat) -> int
    recommends
        !virt_span_ok(m, cr3, gva, len),
{
    choose|i: int|
        0 <= i < len && (#[trigger] resolve(m, cr3, addr_at(gva, i))) is Err && forall|j: int|
            0 <= j < i ==> (#[trigger] resolve(m, cr3, addr_at(gva, j))) is Ok
}

/// Why the first unreachable byte from `gva` on cannot be reached.
pub open spec fn span_error(m: PhysMem, cr3: u64, gva: u64, len: nat) -> VirtError
    recommends
        !virt_span_ok(m, cr3, gva, len),
{
    resolve(m, cr3, addr_at(gva, first_unreached(m, cr3, gva, len)))->Err_0
}

/// The `len` bytes that the guest sees from `gva` on.
pub open spec fn virt_read_span(m: PhysMem, cr3: u64, gva: u64, len: nat) -> Seq<u8>
    recommends
        virt_span_ok(m, cr3, gva, len),
{
    Seq::new(len, |i: int| byte_at(m, resolve(m, cr3, addr_at(gva, i))->Ok_0))
}

/// The chunk of `n` bytes at `cur`, the `done`-th address from `gva`, lies in
/// one page; where that page is mapped to the backed page of `gpa`, each byte
/// of the chunk is reached at its own offset there.
proof fn lemma_chunk_reached(m: PhysMem, cr3: u64, gva: u64, done: int, cur: u64, n: int, gpa: u64)
    requires
        0 <= done,
        0 <= n,
        cur == addr_at(gva, done),
        page_offset(cur) + n <= PAGE_SIZE,
        translate(m, cr3, cur) == Ok::<u64, VirtError>(gpa),
        backed(m, gpa),
    ensures
        page_offset(gpa) == page_offset(cur),
        forall|k: int|
            0 <= k < n ==> #[trigger] resolve(m, cr3, addr_at(gva, done + k)) == Ok::<
                u64,
                VirtError,
            >((gpa + k) as u64) && addr_at(gpa, k) == gpa + k,
{
    lemma_translate_same_page(m, cr3, cur, 0);
    assert forall|k: int| 0 <= k < n implies #[trigger] resolve(m, cr3, addr_at(gva, done + k))
        == Ok::<u64, VirtError>((gpa + k) as u64) && addr_at(gpa, k) == gpa + k by {
        lemma_addr_at_step(gva, done, k);
        lemma_addr_at_same_page(cur, k);
        lemma_translate_same_page(m, cr3, cur, k as u64);
        lemma_addr_at_same_page(gpa, k);
    }
}

/// A range that can be reached as far as the chunk at `cur` can be reached
/// behind it, where the chunk's page is mapped to a backed page.
pub(crate) proof fn lemma_span_grows(
    m: PhysMem,
    cr3: u64,
    gva: u64,
    done: int,
    cur: u64,
    n: int,
    gpa: u64,
)
    requires
        0 <= done,
        0 <= n,
        cur == addr_at(gva, done),
        page_offset(cur) + n <= PAGE_SIZE,
        translate(m, cr3, cur) == Ok::<u64, VirtError>(gpa),
        backed(m, gpa),
        virt_span_ok(m, cr3, gva, done as nat),
    ensures
        virt_span_ok(m, cr3, gva, (done + n) as nat),
{
    lemma_chunk_reached(m, cr3, gva, done, cur, n, gpa);
    assert forall|i: int| 0 <= i < done + n implies (#[trigger] resolve(
        m,
        cr3,
        addr_at(gva, i),
    )) is Ok by {
        if i >= done {
            assert(resolve(m, cr3, addr_at(gva, done + (i - done))) is Ok);
        }
    }
}

/// A range that can be reached up to a byte that cannot fails at that byte,
/// for the reason for which that byte cannot be reached.
pub(crate) proof fn lemma_span_fails_at(m: PhysMem, cr3: u64, gva: u64, len: nat, at: int)
    requires
        0 <= at < len,
        virt_span_ok(m, cr3, gva, at as nat),
        resolve(m, cr3, addr_at(gva, at)) is Err,
    ensures
        !virt_span_ok(m, cr3, gva, len),
        span_error(m, cr3, gva, len) == resolve(m, cr3, addr_at(gva, at))->Err_0,
{
}

/// What has been read of a range grows by the bytes of the next chunk, read
/// from the page that the chunk is mapped to.
proof fn lemma_read_grows(
    m: PhysMem,
    cr3: u64,
    gva: u64,
    done: int,
    cur: u64,
    n: int,
    gpa: u64,
    out: Seq<u8>,
    bytes: Seq<u8>,
)
    requires
        0 <= done,
        0 < n,
        cur == addr_at(gva, done),
        page_offset(cur) + n <= PAGE_SIZE,
        translate(m, cr3, cur) == Ok::<u64, VirtError>(gpa),
        crate::phys::span_backed(m, gpa, n as nat),
        virt_span_ok(m, cr3, gva, done as nat),
        out == virt_read_span(m, cr3, gva, done as nat),
        bytes == crate::phys::read_span(m, gpa, n as nat),
    ensures
        virt_span_ok(m, cr3, gva, (done + n) as nat),
        out + bytes == virt_read_span(m, cr3, gva, (done + n) as nat),
{
    assert(backed(m, addr_at(gpa, 0)));
    lemma_chunk_reached(m, cr3, gva, done, cur, n, gpa);
    lemma_span_grows(m, cr3, gva, done, cur, n, gpa);
    let grown = virt_read_span(m, cr3, gva, (done + n) as nat);
    assert forall|i: int| 0 <= i < done + n implies (out + bytes)[i] == grown[i] by {
        if i >= done {
            let k = i - done;
            assert(resolve(m, cr3, addr_at(gva, done + k)) == Ok::<u64, VirtError>(
                (gpa + k) as u64,
            ));
            assert(bytes[k] == byte_at(m, addr_at(gpa, k)));
        }
    }
    assert(out + bytes =~= grown);
}

/// Reads `len` bytes from `gva` on through the tables rooted at `cr3`, from
/// `mem` as it stands.
pub fn virt_read(mem: &PageMap, cr3: u64, gva: u64, len: usize) -> (r: Result<Vec<u8>, VirtError>)
    ensures
        match r {
            Ok(v) => virt_span_ok(mem@, cr3, gva, len as nat) && v@ == virt_read_span(
                mem@,
                cr3,
                gva,
                len as nat,
            ),
            Err(e) => !virt_span_ok(mem@, cr3, gva, len as nat) && e == span_error(
                mem@,
                cr3,
                gva,
                len as nat,
            ),
        },
{
    let mut out: Vec<u8> = Vec::new();
    let mut done: usize = 0;
    let mut cur: u64 = gva;
    while done < len
        invariant
            done <= len,
            cur == addr_at(gva, done as int),
            virt_span_ok(mem@, cr3, gva, done as nat),
            out@ == virt_read_span(mem@, cr3, gva, done as nat),
        decreases len - done,
    {
        let n: usize = crate::phys::chunk_len(cur, len - done);
        let gpa: u64 = match walk(mem, cr3, cur) {
            Err(e) => {
                proof {
                    lemma_span_fails_at(mem@, cr3, gva, len as nat, done as int);
                }
                return Err(e);
            },
            Ok(gpa) => gpa,
        };
        proof {
            lemma_translate_same_page(mem@, cr3, cur, 0);
        }
        let bytes: Vec<u8> = match mem.read(gpa, n) {
            Err(u) => {
                proof {
                    crate::phys::lemma_unbacked_in_page(mem@, gpa, n as nat);
                    lemma_span_fails_at(mem@, cr3, gva, len as nat, done as int);
                }
                return Err(VirtError::Unbacked(u));
            },
            Ok(b) => b,
        };
        proof {
            lemma_read_grows(mem@, cr3, gva, done as int, cur, n as int, gpa, out@, bytes@);
            lemma_addr_at_step(gva, done as int, n as int);
        }
        out.extend_from_slice(bytes.as_slice());
        cur = crate::phys::advance(cur, n);
        done += n;
    }
    Ok(out)
}

/// The memory after the bytes of `data` have been stored one after the other,
/// the `i`-th where `tables` puts the `i`-th address from `gva` on. Where two
/// addresses share a place, the later byte stays.
pub open spec fn scatter(tables: PhysMem, m: PhysMem, cr3: u64, gva: u64, data: Seq<u8>) -> PhysMem
    recommends
        virt_span_ok(tables, cr3, gva, data.len()),
    decreases data.len(),
{
    if data.len() == 0 {
        m
    } else {
        write_span(
            scatter(tables, m, cr3, gva, data.drop_last()),
            resolve(tables, cr3, addr_at(gva, data.len() - 1))->Ok_0,
            seq![data.last()],
        )
    }
}

/// The memory after `data` has been stored from `gva` on. Every address is
/// translated by the tables as they were before the first byte was stored.
pub open spec fn virt_write_span(m: PhysMem, cr3: u64, gva: u64, data: Seq<u8>) -> PhysMem
    recommends
        virt_span_ok(m, cr3, gva, data.len()),
{
    scatter(m, m, cr3, gva, data)
}

/// Storing nothing changes nothing.
proof fn lemma_write_nothing(m: PhysMem, gpa: u64)
    ensures
        write_span(m, gpa, Seq::<u8>::empty()) == m,
{
    let w = write_span(m, gpa, Seq::<u8>::empty());
    assert(w.dom() =~= m.dom());
    assert forall|pn: u64| #[trigger] m.contains_key(pn) implies w[pn] == m[pn] by {
        assert(w[pn].bytes =~= m[pn].bytes);
    }
    assert(w =~= m);
}

/// Storing a run of bytes and then one more behind it is storing the longer
/// run, as long as the run stays inside its page.
proof fn lemma_write_push(m: PhysMem, gpa: u64, run: Seq<u8>, b: u8)
    requires
        page_offset(gpa) + run.len() < PAGE_SIZE,
    ensures
        write_span(write_span(m, gpa, run), (gpa + run.len()) as u64, seq![b]) == write_span(
            m,
            gpa,
            run.push(b),
        ),
{
    let one = write_span(m, gpa, run);
    let two = write_span(one, (gpa + run.len()) as u64, seq![b]);
    let all = write_span(m, gpa, run.push(b));
    assert(two.dom() =~= all.dom());
    assert forall|pn: u64| #[trigger] two.contains_key(pn) implies two[pn] == all[pn] by {
        assert forall|o: int| 0 <= o < all[pn].bytes.len() implies two[pn].bytes[o]
            == all[pn].bytes[o] by {
            if pn <= crate::phys::MAX_PAGE_INDEX && o < PAGE_SIZE {
                crate::phys::lemma_chunk_cover(gpa, gpa, 0, (run.len() + 1) as int, pn, o);
                crate::phys::lemma_chunk_cover(
                    (gpa + run.len()) as u64,
                    (gpa + run.len()) as u64,
                    0,
                    1,
                    pn,
                    o,
                );
            }
        }
        assert(two[pn].bytes =~= all[pn].bytes);
    }
    assert(two =~= all);
}

/// Storing a chunk that the tables put in one page, byte after byte, is one
/// store of the chunk at the place of its first byte.
proof fn lemma_scatter_chunk(
    tables: PhysMem,
    m: PhysMem,
    cr3: u64,
    gva: u64,
    data: Seq<u8>,
    at: int,
    n: int,
    gpa: u64,
)
    requires
        0 <= at,
        0 <= n,
        at + n <= data.len(),
        page_offset(gpa) + n <= PAGE_SIZE,
        forall|k: int|
            0 <= k < n ==> #[trigger] resolve(tables, cr3, addr_at(gva, at + k)) == Ok::<
                u64,
                VirtError,
            >((gpa + k) as u64),
    ensures
        write_span(scatter(tables, m, cr3, gva, data.take(at)), gpa, data.subrange(at, at + n))
            == scatter(tables, m, cr3, gva, data.take(at + n)),
    decreases n,
{
    let before = scatter(tables, m, cr3, gva, data.take(at));
    if n == 0 {
        assert(data.subrange(at, at + n) =~= Seq::<u8>::empty());
        lemma_write_nothing(before, gpa);
    } else {
        let run = data.subrange(at, at + n - 1);
        let b = data[at + n - 1];
        lemma_scatter_chunk(tables, m, cr3, gva, data, at, n - 1, gpa);
        lemma_write_push(before, gpa, run, b);
        assert(data.subrange(at, at + n) =~= run.push(b));
        assert(data.take(at + n).drop_last() =~= data.take(at + n - 1));
        assert(resolve(tables, cr3, addr_at(gva, at + (n - 1))) == Ok::<u64, VirtError>(
            (gpa + (n - 1)) as u64,
        ));
    }
}

/// A stretch of a virtual range that lies in one page: where it starts in
/// the range, where in physical memory, and how long it is.
struct Chunk {
    at: usize,
    gpa: u64,
    len: usize,
}

/// The stretch stays inside one backed page, and `m`'s tables put each of its
/// bytes there.
spec fn chunk_ok(m: PhysMem, cr3: u64, gva: u64, c: Chunk) -> bool {
    &&& page_offset(c.gpa) + c.len <= PAGE_SIZE
    &&& backed(m, c.gpa)
    &&& forall|k: int|
        0 <= k < c.len ==> #[trigger] resolve(m, cr3, addr_at(gva, c.at + k)) == Ok::<
            u64,
            VirtError,
        >((c.gpa + k) as u64)
}

/// The stretches follow one another without a gap and cover the first `upto`
/// bytes of the range.
spec fn plan_ok(m: PhysMem, cr3: u64, gva: u64, plan: Seq<Chunk>, upto: int) -> bool {
    &&& forall|j: int| 0 <= j < plan.len() ==> chunk_ok(m, cr3, gva, #[trigger] plan[j])
    &&& forall|j: int|
        0 <= j < plan.len() ==> (#[trigger] plan[j]).at + plan[j].len == plan_mark(
            plan,
            upto,
            j + 1,
        )
    &&& plan_mark(plan, upto, 0) == 0
}

/// Where the `j`-th stretch starts; behind the last one, the end of what is
/// covered.
spec fn plan_mark(plan: Seq<Chunk>, upto: int, j: int) -> int {
    if 0 <= j < plan.len() {
        plan[j].at as int
    } else {
        upto
    }
}

/// No stretch of a plan ends behind what the plan covers.
proof fn lemma_plan_marks(m: PhysMem, cr3: u64, gva: u64, plan: Seq<Chunk>, upto: int, j: int)
    requires
        plan_ok(m, cr3, gva, plan, upto),
        0 <= j <= plan.len(),
    ensures
        0 <= plan_mark(plan, upto, j) <= upto,
    decreases plan.len() - j,
{
    if j < plan.len() {
        assert(plan[j].at + plan[j].len == plan_mark(plan, upto, j + 1));
        lemma_plan_marks(m, cr3, gva, plan, upto, j + 1);
    } else {
        assert(plan_mark(plan, upto, 0) == 0);
        if plan.len() > 0 {
            assert(plan[plan.len() - 1].at + plan[plan.len() - 1].len == plan_mark(
                plan,
                upto,
                plan.len() as int,
            ));
        }
    }
}

/// Cuts the `len` bytes from `gva` on into stretches of one page each and
/// finds where each lies, or why the first byte that cannot be reached cannot.
fn virt_plan(mem: &PageMap, cr3: u64, gva: u64, len: usize) -> (r: Result<Vec<Chunk>, VirtError>)
    ensures
        match r {
            Ok(plan) => virt_span_ok(mem@, cr3, gva, len as nat) && plan_ok(
                mem@,
                cr3,
                gva,
                plan@,
                len as int,
            ),
            Err(e) => !virt_span_ok(mem@, cr3, gva, len as nat) && e == span_error(
                mem@,
                cr3,
                gva,
                len as nat,
            ),
        },
{
    let mut plan: Vec<Chunk> = Vec::new();
    let mut done: usize = 0;
    let mut cur: u64 = gva;
    while done < len
        invariant
            done <= len,
            cur == addr_at(gva, done as int),
            virt_span_ok(mem@, cr3, gva, done as nat),
            plan_ok(mem@, cr3, gva, plan@, done as int),
        decreases len - done,
    {
        let n: usize = crate::phys::chunk_len(cur, len - done);
        let gpa: u64 = match walk(mem, cr3, cur) {
            Err(e) => {
                proof {
                    lemma_span_fails_at(mem@, cr3, gva, len as nat, done as int);
                }
                return Err(e);
            },
            Ok(gpa) => gpa,
        };
        if !mem.contains(gpa) {
            proof {
                lemma_span_fails_at(mem@, cr3, gva, len as nat, done as int);
            }
            return Err(VirtError::Unbacked(Unbacked { gpa }));
        }
        let ghost prior = plan@;
        plan.push(Chunk { at: done, gpa, len: n });
        proof {
            lemma_chunk_reached(mem@, cr3, gva, done as int, cur, n as int, gpa);
            lemma_span_grows(mem@, cr3, gva, done as int, cur, n as int, gpa);
            assert forall|j: int| 0 <= j < plan@.len() implies chunk_ok(
                mem@,
                cr3,
                gva,
                #[trigger] plan@[j],
            ) && plan@[j].at + plan@[j].len == plan_mark(plan@, done + n, j + 1) by {
                if j < prior.len() {
                    assert(plan@[j] == prior[j]);
                    assert(prior[j].at + prior[j].len == plan_mark(prior, done as int, j + 1));
                }
            }
            assert(plan_mark(prior, done as int, 0) == 0);
            lemma_addr_at_step(gva, done as int, n as int);
        }
        cur = crate::phys::advance(cur, n);
        done += n;
    }
    Ok(plan)
}

/// Looks for the first of the `len` bytes from `gva` on that cannot be
/// reached, and says why it cannot.
pub fn virt_probe(mem: &PageMap, cr3: u64, gva: u64, len: usize) -> (r: Option<VirtError>)
    ensures
        match r {
            None => virt_span_ok(mem@, cr3, gva, len as nat),
            Some(e) => !virt_span_ok(mem@, cr3, gva, len as nat) && e == span_error(
                mem@,
                cr3,
                gva,
                len as nat,
            ),
        },
{
    match virt_plan(mem, cr3, gva, len) {
        Ok(_) => None,
        Err(e) => Some(e),
    }
}

/// Stores `data` from `gva` on through the tables rooted at `cr3`. Every
/// address is translated before the first byte is stored; where one cannot
/// be reached, nothing is stored.
pub fn virt_write(mem: &mut PageMap, cr3: u64, gva: u64, data: &[u8]) -> (r: Result<(), VirtError>)
    ensures
        match r {
            Ok(_) => virt_span_ok(old(mem)@, cr3, gva, data@.len()) && final(mem)@
                == virt_write_span(old(mem)@, cr3, gva, data@),
            Err(e) => !virt_span_ok(old(mem)@, cr3, gva, data@.len()) && e == span_error(
                old(mem)@,
                cr3,
                gva,
                data@.len(),
            ) && final(mem)@ == old(mem)@,
        },
{
    let len: usize = data.len();
    let plan: Vec<Chunk> = match virt_plan(mem, cr3, gva, len) {
        Err(e) => {
            return Err(e);
        },
        Ok(plan) => plan,
    };
    let ghost orig = mem@;
    let mut j: usize = 0;
    assert(data@.take(0) =~= Seq::<u8>::empty());
    while j < plan.len()
        invariant
            j <= plan@.len(),
            len == data@.len(),
            plan_ok(orig, cr3, gva, plan@, len as int),
            mem@.dom() == orig.dom(),
            mem@ == scatter(
                orig,
                orig,
                cr3,
                gva,
                data@.take(plan_mark(plan@, len as int, j as int)),
            ),
        decreases plan@.len() - j,
    {
        let at: usize = plan[j].at;
        let n: usize = plan[j].len;
        let gpa: u64 = plan[j].gpa;
        proof {
            assert(chunk_ok(orig, cr3, gva, plan@[j as int]));
            assert(plan@[j as int].at + plan@[j as int].len == plan_mark(
                plan@,
                len as int,
                j + 1,
            ));
            lemma_plan_marks(orig, cr3, gva, plan@, len as int, j + 1);
            assert forall|k: int| 0 <= k < n implies backed(mem@, #[trigger] addr_at(gpa, k)) by {
                lemma_addr_at_same_page(gpa, k);
            }
            lemma_scatter_chunk(orig, orig, cr3, gva, data@, at as int, n as int, gpa);
        }
        let chunk = vstd::slice::slice_subrange(data, at, at + n);
        let stored = mem.write(gpa, chunk);
        assert(stored is Ok);
        assert(mem@.dom() =~= orig.dom());
        j += 1;
    }
    assert(data@.take(len as int) =~= data@);
    Ok(())
}

/// Storing one byte changes the byte at its address and no other, and leaves
/// every page mapped where it was.
proof fn lemma_write_one(m: PhysMem, gpa: u64, b: u8, other: u64)
    requires
        mem_ok(m),
        backed(m, other),
    ensures
        mem_ok(write_span(m, gpa, seq![b])),
        write_span(m, gpa, seq![b]).dom() == m.dom(),
        byte_at(write_span(m, gpa, seq![b]), other) == (if other == gpa {
            b
        } else {
            byte_at(m, other)
        }),
{
    let w = write_span(m, gpa, seq![b]);
    assert(w.dom() =~= m.dom());
    crate::phys::lemma_chunk_cover(gpa, gpa, 0, 1, page_index(other), page_offset(other) as int);
}

/// Scattered bytes land in the pages that were mapped before, which stay as
/// long as they were.
proof fn lemma_scatter_keeps_pages(tables: PhysMem, m: PhysMem, cr3: u64, gva: u64, data: Seq<u8>)
    requires
        mem_ok(m),
    ensures
        mem_ok(scatter(tables, m, cr3, gva, data)),
        scatter(tables, m, cr3, gva, data).dom() == m.dom(),
    decreases data.len(),
{
    if data.len() > 0 {
        lemma_scatter_keeps_pages(tables, m, cr3, gva, data.drop_last());
        let prior = scatter(tables, m, cr3, gva, data.drop_last());
        let at = resolve(tables, cr3, addr_at(gva, data.len() - 1))->Ok_0;
        assert(write_span(prior, at, seq![data.last()]).dom() =~= prior.dom());
    }
}

/// After a scatter, the place of the `i`-th address holds the `i`-th byte,
/// unless a later byte that differs from it was put in the same place.
proof fn lemma_scatter_byte(
    tables: PhysMem,
    m: PhysMem,
    cr3: u64,
    gva: u64,
    data: Seq<u8>,
    i: int,
)
    requires
        mem_ok(m),
        0 <= i < data.len(),
        forall|k: int|
            0 <= k < data.len() ==> (#[trigger] resolve(tables, cr3, addr_at(gva, k))) is Ok
                && backed(m, resolve(tables, cr3, addr_at(gva, k))->Ok_0),
        forall|k: int|
            i < k < data.len() && #[trigger] resolve(tables, cr3, addr_at(gva, k)) == resolve(
                tables,
                cr3,
                addr_at(gva, i),
            ) ==> data[k] == data[i],
    ensures
        byte_at(
            scatter(tables, m, cr3, gva, data),
            resolve(tables, cr3, addr_at(gva, i))->Ok_0,
        ) == data[i],
    decreases data.len(),
{
    let last = data.len() - 1;
    let prior = scatter(tables, m, cr3, gva, data.drop_last());
    let at = resolve(tables, cr3, addr_at(gva, last))->Ok_0;
    let mine = resolve(tables, cr3, addr_at(gva, i))->Ok_0;
    lemma_scatter_keeps_pages(tables, m, cr3, gva, data.drop_last());
    assert(resolve(tables, cr3, addr_at(gva, i)) is Ok);
    assert(resolve(tables, cr3, addr_at(gva, last)) is Ok);
    lemma_write_one(prior, at, data.last(), mine);
    if i < last && mine != at {
        lemma_scatter_byte(tables, m, cr3, gva, data.drop_last(), i);
    }
}

/// Bytes stored through the tables are the bytes read back through them:
/// `data` stored from `gva` on and then read from there comes back unchanged.
/// This holds where the store leaves the translation of the range as it was,
/// and where no two bytes that differ were put in one place (two virtual pages
/// may share a physical one).
pub proof fn lemma_write_then_read(m: PhysMem, cr3: u64, gva: u64, data: Seq<u8>)
    requires
        mem_ok(m),
        virt_span_ok(m, cr3, gva, data.len()),
        forall|i: int|
            0 <= i < data.len() ==> #[trigger] resolve(
                virt_write_span(m, cr3, gva, data),
                cr3,
                addr_at(gva, i),
            ) == resolve(m, cr3, addr_at(gva, i)),
        forall|i: int, j: int|
            0 <= i < j < data.len() && #[trigger] resolve(m, cr3, addr_at(gva, i))
                == #[trigger] resolve(m, cr3, addr_at(gva, j)) ==> data[i] == data[j],
    ensures
        virt_span_ok(virt_write_span(m, cr3, gva, data), cr3, gva, data.len()),
        virt_read_span(virt_write_span(m, cr3, gva, data), cr3, gva, data.len()) == data,
{
    let after = virt_write_span(m, cr3, gva, data);
    assert forall|i: int| 0 <= i < data.len() implies (#[trigger] resolve(
        after,
        cr3,
        addr_at(gva, i),
    )) is Ok && byte_at(after, resolve(after, cr3, addr_at(gva, i))->Ok_0) == data[i] by {
        assert(resolve(m, cr3, addr_at(gva, i)) is Ok);
        assert forall|k: int| 0 <= k < data.len() implies (#[trigger] resolve(
            m,
            cr3,
            addr_at(gva, k),
        )) is Ok && backed(m, resolve(m, cr3, addr_at(gva, k))->Ok_0) by {}
        lemma_scatter_byte(m, m, cr3, gva, data, i);
    }
    assert(virt_read_span(after, cr3, gva, data.len()) =~= data);
}

/// The walk for `gva` that starts at the table at `table` reads the entry at
/// `at`.
pub open spec fn walk_reads(m: PhysMem, table: u64, level: Level, gva: u64, at: u64) -> bool
    decreases level.depth(),
{
    let here = entry_addr(table, level, gva);
    here == at || (backed(m, here) && is_present(qword_at(m, here)) && !is_leaf(
        qword_at(m, here),
        level,
    ) && walk_reads(m, qword_at(m, here), level.spec_next()->0, gva, at))
}

/// The byte at `target` belongs to an entry that a walk for one of the `len`
/// addresses from `gva` on reads.
pub open spec fn in_tables(m: PhysMem, cr3: u64, gva: u64, len: nat, target: u64) -> bool {
    exists|i: int, at: u64|
        0 <= i < len && #[trigger] walk_reads(m, cr3, Level::Pml4, addr_at(gva, i), at) && at
            <= target < at + 8
}

/// Two memories hold the same entry at `at`, or both hold none.
spec fn same_entry(a: PhysMem, b: PhysMem, at: u64) -> bool {
    backed(a, at) == backed(b, at) && (backed(a, at) ==> qword_at(a, at) == qword_at(b, at))
}

/// A walk sees of a memory only the entries that it reads.
proof fn lemma_walk_stable(a: PhysMem, b: PhysMem, table: u64, level: Level, gva: u64)
    requires
        forall|at: u64| #[trigger] walk_reads(a, table, level, gva, at) ==> same_entry(a, b, at),
    ensures
        walk_from(b, table, level, gva) == walk_from(a, table, level, gva),
    decreases level.depth(),
{
    let here = entry_addr(table, level, gva);
    assert(walk_reads(a, table, level, gva, here));
    if backed(a, here) {
        let entry = qword_at(a, here);
        if is_present(entry) && !is_leaf(entry, level) {
            assert forall|at: u64| #[trigger]
                walk_reads(a, entry, level.spec_next()->0, gva, at) implies same_entry(
                a,
                b,
                at,
            ) by {
                assert(walk_reads(a, table, level, gva, at));
            }
            lemma_walk_stable(a, b, entry, level.spec_next()->0, gva);
        }
    }
}

/// Every entry that a walk reads lies at a multiple of eight.
proof fn lemma_walk_reads_aligned(m: PhysMem, table: u64, level: Level, gva: u64, at: u64)
    requires
        walk_reads(m, table, level, gva, at),
    ensures
        at % 8 == 0,
    decreases level.depth(),
{
    let here = entry_addr(table, level, gva);
    if here == at {
        lemma_entry_aligned(table, gva >> level.spec_shift());
    } else {
        lemma_walk_reads_aligned(m, qword_at(m, here), level.spec_next()->0, gva, at);
    }
}

/// A table's address has its low twelve bits clear, and an index has nine
/// bits: the entry lies at a multiple of eight.
proof fn lemma_entry_aligned(table: u64, slot: u64)
    by (bit_vector)
    ensures
        ((table & ADDR_MASK) + 8 * (slot & 0x1ff)) % 8 == 0,
        (table & ADDR_MASK) + 8 * (slot & 0x1ff) < PHYS_LIMIT,
{
}

/// Two memories that map the same pages and hold the same eight bytes at
/// `at` hold the same entry there.
proof fn lemma_same_bytes_same_entry(a: PhysMem, b: PhysMem, at: u64)
    requires
        at % 8 == 0,
        a.dom() == b.dom(),
        mem_ok(a),
        mem_ok(b),
        forall|k: int|
            0 <= k < 8 && backed(a, at) ==> byte_at(b, #[trigger] addr_at(at, k)) == byte_at(
                a,
                addr_at(at, k),
            ),
    ensures
        same_entry(a, b, at),
{
    if backed(a, at) {
        let pn = page_index(at);
        let off = page_offset(at) as int;
        assert(a.contains_key(pn) && b.contains_key(pn));
        let x = a[pn].bytes.subrange(off, off + 8);
        let y = b[pn].bytes.subrange(off, off + 8);
        assert forall|k: int| 0 <= k < 8 implies x[k] == y[k] by {
            lemma_addr_at_same_page(at, k);
            assert(byte_at(b, addr_at(at, k)) == byte_at(a, addr_at(at, k)));
        }
        assert(x =~= y);
    }
}

/// A scatter changes only the bytes at the places that it stores to.
proof fn lemma_scatter_elsewhere(
    tables: PhysMem,
    m: PhysMem,
    cr3: u64,
    gva: u64,
    data: Seq<u8>,
    other: u64,
)
    requires
        mem_ok(m),
        backed(m, other),
        virt_span_ok(tables, cr3, gva, data.len()),
        forall|k: int|
            0 <= k < data.len() ==> #[trigger] resolve(tables, cr3, addr_at(gva, k)) != Ok::<
                u64,
                VirtError,
            >(other),
    ensures
        byte_at(scatter(tables, m, cr3, gva, data), other) == byte_at(m, other),
    decreases data.len(),
{
    if data.len() > 0 {
        let last = data.len() - 1;
        let prior = scatter(tables, m, cr3, gva, data.drop_last());
        let at = resolve(tables, cr3, addr_at(gva, last))->Ok_0;
        assert(resolve(tables, cr3, addr_at(gva, last)) is Ok);
        assert(resolve(tables, cr3, addr_at(gva, last)) != Ok::<u64, VirtError>(other));
        assert(virt_span_ok(tables, cr3, gva, data.drop_last().len()));
        lemma_scatter_keeps_pages(tables, m, cr3, gva, data.drop_last());
        lemma_scatter_elsewhere(tables, m, cr3, gva, data.drop_last(), other);
        lemma_write_one(prior, at, data.last(), other);
    }
}

/// A store that leaves the tables alone leaves the mapping as it was: where
/// none of the bytes stored from `gva` on lands in an entry that a walk for
/// the range reads, every address of the range is reached after the store
/// where it was reached before.
pub proof fn lemma_store_beside_tables(m: PhysMem, cr3: u64, gva: u64, data: Seq<u8>)
    requires
        mem_ok(m),
        virt_span_ok(m, cr3, gva, data.len()),
        forall|j: int|
            0 <= j < data.len() ==> !in_tables(
                m,
                cr3,
                gva,
                data.len(),
                (#[trigger] resolve(m, cr3, addr_at(gva, j)))->Ok_0,
            ),
    ensures
        forall|i: int|
            0 <= i < data.len() ==> #[trigger] resolve(
                virt_write_span(m, cr3, gva, data),
                cr3,
                addr_at(gva, i),
            ) == resolve(m, cr3, addr_at(gva, i)),
{
    let after = virt_write_span(m, cr3, gva, data);
    lemma_scatter_keeps_pages(m, m, cr3, gva, data);
    assert forall|i: int| 0 <= i < data.len() implies #[trigger] resolve(
        after,
        cr3,
        addr_at(gva, i),
    ) == resolve(m, cr3, addr_at(gva, i)) by {
        let va = addr_at(gva, i);
        assert forall|at: u64| #[trigger]
            walk_reads(m, cr3, Level::Pml4, va, at) implies same_entry(m, after, at) by {
            lemma_walk_reads_aligned(m, cr3, Level::Pml4, va, at);
            assert forall|n: int| 0 <= n < 8 && backed(m, at) implies byte_at(
                after,
                #[trigger] addr_at(at, n),
            ) == byte_at(m, addr_at(at, n)) by {
                lemma_addr_at_same_page(at, n);
                let t = addr_at(at, n);
                assert forall|k: int| 0 <= k < data.len() implies #[trigger] resolve(
                    m,
                    cr3,
                    addr_at(gva, k),
                ) != Ok::<u64, VirtError>(t) by {
                    assert(resolve(m, cr3, addr_at(gva, k)) is Ok);
                    if resolve(m, cr3, addr_at(gva, k)) == Ok::<u64, VirtError>(t) {
                        assert(in_tables(m, cr3, gva, data.len(), t));
                    }
                }
                lemma_scatter_elsewhere(m, m, cr3, gva, data, t);
            }
            lemma_same_bytes_same_entry(m, after, at);
        }
        lemma_walk_stable(m, after, cr3, Level::Pml4, va);
        assert(translate(after, cr3, va) == translate(m, cr3, va));
        assert(resolve(m, cr3, va) is Ok);
    }
}

/// Bytes stored beside the tables are read back: where none of the bytes
/// stored from `gva` on lands in an entry that a walk for the range reads,
/// and no two bytes that differ land in one place, the bytes read from `gva`
/// on after the store are `data`.
pub proof fn lemma_write_then_read_beside_tables(m: PhysMem, cr3: u64, gva: u64, data: Seq<u8>)
    requires
        mem_ok(m),
        virt_span_ok(m, cr3, gva, data.len()),
        forall|j: int|
            0 <= j < data.len() ==> !in_tables(
                m,
                cr3,
                gva,
                data.len(),
                (#[trigger] resolve(m, cr3, addr_at(gva, j)))->Ok_0,
            ),
        forall|i: int, j: int|
            0 <= i < j < data.len() && #[trigger] resolve(m, cr3, addr_at(gva, i))
                == #[trigger] resolve(m, cr3, addr_at(gva, j)) ==> data[i] == data[j],
    ensures
        virt_span_ok(virt_write_span(m, cr3, gva, data), cr3, gva, data.len()),
        virt_read_span(virt_write_span(m, cr3, gva, data), cr3, gva, data.len()) == data,
{
    lemma_store_beside_tables(m, cr3, gva, data);
    lemma_write_then_read(m, cr3, gva, data);
}

} // verus!

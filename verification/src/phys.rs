//! Guest-physical memory: a sparse map from page number to host buffer.

use std::collections::HashMap;
use vstd::prelude::*;

verus! {

broadcast use vstd::std_specs::hash::group_hash_axioms;

/// Bytes in one page.
pub const PAGE_SIZE: u64 = 4096;

/// Number of the page that holds `gpa`.
pub open spec fn page_index(gpa: u64) -> u64 {
    gpa / PAGE_SIZE
}

/// Position of `gpa` inside its page.
pub open spec fn page_offset(gpa: u64) -> u64 {
    gpa % PAGE_SIZE
}

/// The address `i` bytes after `base`; addresses wrap at the end of the
/// 64-bit space.
pub open spec fn addr_at(base: u64, i: int) -> u64 {
    ((base + i) % 0x1_0000_0000_0000_0000) as u64
}

/// Distance in bytes from `base` up to `a`, wrapping like `addr_at`: `a` is
/// the address that many bytes after `base`.
pub open spec fn addr_dist(base: u64, a: u64) -> int {
    (a - base) % 0x1_0000_0000_0000_0000
}

/// The address of byte `o` of page `pn`.
pub open spec fn addr_in_page(pn: u64, o: int) -> u64
    recommends
        pn <= MAX_PAGE_INDEX,
        0 <= o < PAGE_SIZE,
{
    (pn * PAGE_SIZE + o) as u64
}

/// What the map knows of one host buffer: where the host keeps it and what it
/// holds.
pub struct Frame {
    pub hva: u64,
    pub bytes: Seq<u8>,
}

/// Contents of guest-physical memory, by page number.
pub type PhysMem = Map<u64, Frame>;

pub open spec fn frame_ok(f: Frame) -> bool {
    &&& f.bytes.len() == PAGE_SIZE
    &&& f.hva + PAGE_SIZE - 1 <= u64::MAX
}

/// Every mapped buffer is one page long and lies inside the host's address
/// space.
pub open spec fn mem_ok(m: PhysMem) -> bool {
    forall|pn: u64| #[trigger] m.contains_key(pn) ==> frame_ok(m[pn])
}

/// The page holding `gpa` is mapped.
pub open spec fn backed(m: PhysMem, gpa: u64) -> bool {
    m.contains_key(page_index(gpa))
}

/// Host address that stands for `gpa`.
pub open spec fn host_addr(m: PhysMem, gpa: u64) -> u64
    recommends
        backed(m, gpa),
{
    (m[page_index(gpa)].hva + page_offset(gpa)) as u64
}

/// The byte stored at `gpa`.
pub open spec fn byte_at(m: PhysMem, gpa: u64) -> u8
    recommends
        backed(m, gpa),
{
    m[page_index(gpa)].bytes[page_offset(gpa) as int]
}

/// Every byte of the `len` bytes from `gpa` on lies in a mapped page.
pub open spec fn span_backed(m: PhysMem, gpa: u64, len: nat) -> bool {
    forall|i: int| 0 <= i < len ==> backed(m, #[trigger] addr_at(gpa, i))
}

/// Index of the first byte from `gpa` on whose page is not mapped.
pub open spec fn first_unbacked(m: PhysMem, gpa: u64, len: nat) -> int
    recommends
        !span_backed(m, gpa, len),
{
    choose|i: int|
        0 <= i < len && !backed(m, #[trigger] addr_at(gpa, i)) && forall|j: int|
            0 <= j < i ==> backed(m, #[trigger] addr_at(gpa, j))
}

/// The eight bytes at `gpa`, read as a little-endian number. `gpa` is a
/// multiple of eight, so they lie in one page.
pub open spec fn qword_at(m: PhysMem, gpa: u64) -> u64
    recommends
        backed(m, gpa),
        gpa % 8 == 0,
{
    vstd::bytes::spec_u64_from_le_bytes(
        m[page_index(gpa)].bytes.subrange(page_offset(gpa) as int, page_offset(gpa) + 8),
    )
}

/// The `len` bytes stored from `gpa` on.
pub open spec fn read_span(m: PhysMem, gpa: u64, len: nat) -> Seq<u8>
    recommends
        span_backed(m, gpa, len),
{
    Seq::new(len, |i: int| byte_at(m, addr_at(gpa, i)))
}

/// Largest page number that an address can have.
pub const MAX_PAGE_INDEX: u64 = 0xf_ffff_ffff_ffff;

/// Byte `o` of page `pn` once `data` has been stored from `gpa` on, where it
/// held `prior` before: the byte of `data` that belongs at its address, if
/// `data` reaches that far.
pub open spec fn stored_byte(prior: u8, gpa: u64, data: Seq<u8>, pn: u64, o: int) -> u8 {
    if pn <= MAX_PAGE_INDEX && 0 <= o < PAGE_SIZE && addr_dist(gpa, addr_in_page(pn, o))
        < data.len() {
        data[addr_dist(gpa, addr_in_page(pn, o))]
    } else {
        prior
    }
}

/// The memory after `data` has been stored from `gpa` on. The same pages are
/// mapped, at the same host addresses.
pub open spec fn write_span(m: PhysMem, gpa: u64, data: Seq<u8>) -> PhysMem {
    Map::new(
        |pn: u64| m.contains_key(pn),
        |pn: u64|
            Frame {
                hva: m[pn].hva,
                bytes: Seq::new(
                    m[pn].bytes.len(),
                    |o: int| stored_byte(m[pn].bytes[o], gpa, data, pn, o),
                ),
            },
    )
}

/// A page's bytes after `src` has been copied in at offset `off`.
pub open spec fn patch(bytes: Seq<u8>, off: int, src: Seq<u8>) -> Seq<u8> {
    Seq::new(
        bytes.len(),
        |o: int|
            if off <= o < off + src.len() {
                src[o - off]
            } else {
                bytes[o]
            },
    )
}

/// Stepping `k` bytes on from the `i`-th address is stepping `i + k` bytes.
pub(crate) proof fn lemma_addr_at_step(base: u64, i: int, k: int)
    requires
        0 <= i,
        0 <= k,
    ensures
        addr_at(addr_at(base, i), k) == addr_at(base, i + k),
{
}

/// Inside one page, stepping on changes the offset only.
pub(crate) proof fn lemma_addr_at_same_page(a: u64, k: int)
    requires
        0 <= k,
        page_offset(a) + k < PAGE_SIZE,
    ensures
        addr_at(a, k) == a + k,
        page_index(addr_at(a, k)) == page_index(a),
        page_offset(addr_at(a, k)) == page_offset(a) + k,
{
}

/// A range inside one page is backed as a whole or not at all: where it is
/// not, its first byte is the first that is not backed.
pub(crate) proof fn lemma_unbacked_in_page(m: PhysMem, gpa: u64, n: nat)
    requires
        page_offset(gpa) + n <= PAGE_SIZE,
        !span_backed(m, gpa, n),
    ensures
        !backed(m, gpa),
        addr_at(gpa, first_unbacked(m, gpa, n)) == gpa,
{
    if backed(m, gpa) {
        assert forall|k: int| 0 <= k < n implies backed(m, #[trigger] addr_at(gpa, k)) by {
            lemma_addr_at_same_page(gpa, k);
        }
    }
    assert(addr_at(gpa, 0) == gpa);
    let first = first_unbacked(m, gpa, n);
    assert(0 <= first < n && !backed(m, addr_at(gpa, first)) && forall|j: int|
        0 <= j < first ==> backed(m, #[trigger] addr_at(gpa, j)));
    if first > 0 {
        assert(backed(m, addr_at(gpa, 0)));
    }
}

/// Which bytes of memory the chunk of `n` bytes at `cur`, the `done`-th
/// address from `gpa`, covers: those of its own page from its offset on, and
/// each at the distance from `gpa` that its place in the chunk gives.
pub(crate) proof fn lemma_chunk_cover(gpa: u64, cur: u64, done: int, n: int, pn: u64, o: int)
    requires
        0 <= done,
        0 <= n,
        done + n < 0x1_0000_0000_0000_0000,
        cur == addr_at(gpa, done),
        page_offset(cur) + n <= PAGE_SIZE,
        0 <= o < PAGE_SIZE,
        pn <= MAX_PAGE_INDEX,
    ensures
        ({
            let d = addr_dist(gpa, addr_in_page(pn, o));
            &&& 0 <= d < 0x1_0000_0000_0000_0000
            &&& (done <= d < done + n) <==> (pn == page_index(cur) && page_offset(cur) <= o
                < page_offset(cur) + n)
            &&& (done <= d < done + n) ==> d == done + o - page_offset(cur)
        }),
{
}

/// What is stored is what is read: after `data` has been stored from `gpa`
/// on, the bytes from `gpa` on are `data`, and every byte that `data` does not
/// reach is what it was. `data` is no longer than the address space.
pub proof fn lemma_store_then_read(m: PhysMem, gpa: u64, data: Seq<u8>)
    requires
        mem_ok(m),
        span_backed(m, gpa, data.len()),
        data.len() <= 0x1_0000_0000_0000_0000,
    ensures
        mem_ok(write_span(m, gpa, data)),
        write_span(m, gpa, data).dom() == m.dom(),
        span_backed(write_span(m, gpa, data), gpa, data.len()),
        read_span(write_span(m, gpa, data), gpa, data.len()) == data,
        forall|a: u64|
            backed(m, a) && addr_dist(gpa, a) >= data.len() ==> #[trigger] byte_at(
                write_span(m, gpa, data),
                a,
            ) == byte_at(m, a),
{
    let after = write_span(m, gpa, data);
    assert(after.dom() =~= m.dom());
    assert forall|i: int| 0 <= i < data.len() implies backed(after, #[trigger] addr_at(gpa, i))
        && byte_at(after, addr_at(gpa, i)) == data[i] by {
        assert(backed(m, addr_at(gpa, i)));
    }
    assert(read_span(after, gpa, data.len()) =~= data);
}

/// A guest-physical address whose page nothing backs.
#[derive(Clone, Copy, Debug, PartialEq, Eq, Structural)]
pub struct Unbacked {
    pub gpa: u64,
}

/// A page-sized host buffer lent to the guest.
pub struct HostPage {
    hva: u64,
    data: Vec<u8>,
}

impl View for HostPage {
    type V = Frame;

    closed spec fn view(&self) -> Frame {
        Frame { hva: self.hva, bytes: self.data@ }
    }
}

impl HostPage {
    #[verifier::type_invariant]
    spec fn inv(self) -> bool {
        frame_ok(self@)
    }

    /// Wraps the buffer that the host keeps at `hva`. Fails unless `data` is
    /// exactly one page and the buffer ends inside the address space.
    pub fn new(hva: u64, data: Vec<u8>) -> (r: Option<HostPage>)
        ensures
            r is Some <==> frame_ok(Frame { hva, bytes: data@ }),
            r is Some ==> r->0@ == (Frame { hva, bytes: data@ }),
    {
        if data.len() == 4096 && hva <= u64::MAX - 4095 {
            Some(HostPage { hva, data })
        } else {
            None
        }
    }

    /// A page of zero bytes at `hva`.
    pub fn zeroed(hva: u64) -> (r: Option<HostPage>)
        ensures
            r is Some <==> hva + PAGE_SIZE - 1 <= u64::MAX,
            r is Some ==> r->0@ == (Frame { hva, bytes: Seq::new(PAGE_SIZE as nat, |i: int| 0u8) }),
    {
        if hva > u64::MAX - 4095 {
            return None;
        }
        let mut data: Vec<u8> = Vec::new();
        let mut i: usize = 0;
        while i < 4096
            invariant
                i <= 4096,
                data@ == Seq::new(i as nat, |k: int| 0u8),
            decreases 4096 - i,
        {
            data.push(0u8);
            i += 1;
        }
        Some(HostPage { hva, data })
    }

    /// Host address of the first byte.
    pub fn hva(&self) -> (a: u64)
        ensures
            a == self@.hva,
            frame_ok(self@),
    {
        proof {
            use_type_invariant(self);
        }
        self.hva
    }

    /// Copies `src` into the page from offset `off` on.
    pub(crate) fn store(&mut self, off: usize, src: &[u8])
        requires
            off + src@.len() <= PAGE_SIZE,
        ensures
            final(self)@.hva == old(self)@.hva,
            final(self)@.bytes == patch(old(self)@.bytes, off as int, src@),
    {
        proof {
            use_type_invariant(&*self);
        }
        let n: usize = src.len();
        let mut k: usize = 0;
        while k < n
            invariant
                k <= n,
                n == src@.len(),
                off + n <= PAGE_SIZE,
                self.hva == old(self).hva,
                self.hva + PAGE_SIZE - 1 <= u64::MAX,
                self.data@.len() == PAGE_SIZE,
                self.data@ == patch(old(self).data@, off as int, src@.take(k as int)),
            decreases n - k,
        {
            let b: u8 = src[k];
            self.data[off + k] = b;
            k += 1;
        }
        assert(src@.take(n as int) == src@);
    }

    /// The page's contents.
    pub fn bytes(&self) -> (b: &Vec<u8>)
        ensures
            b@ == self@.bytes,
            frame_ok(self@),
    {
        proof {
            use_type_invariant(self);
        }
        &self.data
    }
}

/// Bytes from `cur` to the end of its page, or `left` if that is less.
pub(crate) fn chunk_len(cur: u64, left: usize) -> (n: usize)
    ensures
        n <= left,
        page_offset(cur) + n <= PAGE_SIZE,
        left > 0 ==> n > 0,
        n < left ==> page_offset(cur) + n == PAGE_SIZE,
{
    let room: u64 = PAGE_SIZE - cur % PAGE_SIZE;
    if (left as u64) < room {
        left
    } else {
        room as usize
    }
}

/// The address `n` bytes after `cur`.
pub(crate) fn advance(cur: u64, n: usize) -> (a: u64)
    ensures
        a == addr_at(cur, n as int),
{
    let step: u64 = n as u64;
    if step <= u64::MAX - cur {
        cur + step
    } else {
        step - (u64::MAX - cur) - 1
    }
}

/// The sparse physical memory of the guest. One map serves every CPU.
pub struct PageMap {
    pages: HashMap<u64, HostPage>,
}

impl View for PageMap {
    type V = PhysMem;

    closed spec fn view(&self) -> PhysMem {
        self.pages@.map_values(|p: HostPage| p@)
    }
}

impl PageMap {
    #[verifier::type_invariant]
    spec fn inv(self) -> bool {
        mem_ok(self@)
    }

    /// Takes the table out, leaving an empty one, so that it can be changed
    /// and put back whole.
    fn take_pages(&mut self) -> (pages: HashMap<u64, HostPage>)
        ensures
            pages@.map_values(|p: HostPage| p@) == old(self)@,
            mem_ok(old(self)@),
    {
        proof {
            use_type_invariant(&*self);
        }
        let mut held = PageMap::new();
        std::mem::swap(self, &mut held);
        let PageMap { pages } = held;
        pages
    }

    /// A memory with no page mapped.
    pub fn new() -> (m: PageMap)
        ensures
            m@ == Map::<u64, Frame>::empty(),
            mem_ok(m@),
    {
        let m = PageMap { pages: HashMap::new() };
        assert(m@ =~= Map::<u64, Frame>::empty());
        m
    }

    /// Maps the page that holds `gpa` to `page`. A page already mapped there
    /// is replaced.
    pub fn insert(&mut self, gpa: u64, page: HostPage)
        ensures
            final(self)@ == old(self)@.insert(page_index(gpa), page@),
            mem_ok(final(self)@),
    {
        proof {
            use_type_invariant(&page);
        }
        let mut pages = self.take_pages();
        pages.insert(gpa / PAGE_SIZE, page);
        assert(pages@.map_values(|p: HostPage| p@) =~= old(self)@.insert(page_index(gpa), page@));
        *self = PageMap { pages };
    }

    /// Unmaps the page that holds `gpa` and hands its buffer back. Nothing
    /// changes where no page is mapped.
    pub fn remove(&mut self, gpa: u64) -> (r: Option<HostPage>)
        ensures
            final(self)@ == old(self)@.remove(page_index(gpa)),
            mem_ok(final(self)@),
            match r {
                Some(p) => backed(old(self)@, gpa) && p@ == old(self)@[page_index(gpa)],
                None => !backed(old(self)@, gpa),
            },
    {
        let key: u64 = gpa / PAGE_SIZE;
        let mut pages = self.take_pages();
        let r = pages.remove(&key);
        assert(pages@.map_values(|p: HostPage| p@) =~= old(self)@.remove(page_index(gpa)));
        *self = PageMap { pages };
        r
    }

    /// Whether the page that holds `gpa` is mapped.
    pub fn contains(&self, gpa: u64) -> (b: bool)
        ensures
            b == backed(self@, gpa),
            mem_ok(self@),
    {
        proof {
            use_type_invariant(self);
        }
        let key: u64 = gpa / PAGE_SIZE;
        self.pages.contains_key(&key)
    }

    /// Reads `len` bytes from `gpa` on. Fails at the first byte whose page is
    /// not mapped.
    pub fn read(&self, gpa: u64, len: usize) -> (r: Result<Vec<u8>, Unbacked>)
        ensures
            mem_ok(self@),
            match r {
                Ok(v) => span_backed(self@, gpa, len as nat) && v@ == read_span(
                    self@,
                    gpa,
                    len as nat,
                ),
                Err(e) => !span_backed(self@, gpa, len as nat) && e.gpa == addr_at(
                    gpa,
                    first_unbacked(self@, gpa, len as nat),
                ),
            },
    {
        proof {
            use_type_invariant(self);
        }
        let mut out: Vec<u8> = Vec::new();
        let mut done: usize = 0;
        let mut cur: u64 = gpa;
        while done < len
            invariant
                done <= len,
                cur == addr_at(gpa, done as int),
                span_backed(self@, gpa, done as nat),
                out@ == read_span(self@, gpa, done as nat),
                mem_ok(self@),
            decreases len - done,
        {
            let n: usize = chunk_len(cur, len - done);
            let off: usize = (cur % PAGE_SIZE) as usize;
            let key: u64 = cur / PAGE_SIZE;
            match self.pages.get(&key) {
                None => {
                    assert(!backed(self@, addr_at(gpa, done as int)));
                    return Err(Unbacked { gpa: cur });
                },
                Some(p) => {
                    proof {
                        use_type_invariant(p);
                    }
                    let chunk = vstd::slice::slice_subrange(p.data.as_slice(), off, off + n);
                    out.extend_from_slice(chunk);
                    proof {
                        assert forall|i: int| 0 <= i < done + n implies backed(
                            self@,
                            #[trigger] addr_at(gpa, i),
                        ) && (out@[i] == byte_at(self@, addr_at(gpa, i))) by {
                            if i >= done {
                                lemma_addr_at_step(gpa, done as int, i - done);
                                lemma_addr_at_same_page(cur, i - done);
                            }
                        }
                        assert(out@ =~= read_span(self@, gpa, (done + n) as nat));
                    }
                },
            }
            cur = advance(cur, n);
            proof {
                lemma_addr_at_step(gpa, done as int, n as int);
            }
            done += n;
        }
        Ok(out)
    }

    /// The little-endian number in the eight bytes at `gpa`, if their page is
    /// mapped.
    pub(crate) fn qword(&self, gpa: u64) -> (r: Option<u64>)
        requires
            gpa % 8 == 0,
        ensures
            r == (if backed(self@, gpa) {
                Some(qword_at(self@, gpa))
            } else {
                None
            }),
    {
        let key: u64 = gpa / PAGE_SIZE;
        let off: usize = (gpa % PAGE_SIZE) as usize;
        match self.pages.get(&key) {
            None => None,
            Some(p) => {
                proof {
                    use_type_invariant(p);
                }
                let raw = vstd::slice::slice_subrange(p.data.as_slice(), off, off + 8);
                Some(vstd::bytes::u64_from_le_bytes(raw))
            },
        }
    }

    /// Looks for the first of the `len` bytes from `gpa` on whose page is not
    /// mapped.
    pub fn probe(&self, gpa: u64, len: usize) -> (r: Option<Unbacked>)
        ensures
            mem_ok(self@),
            match r {
                None => span_backed(self@, gpa, len as nat),
                Some(e) => !span_backed(self@, gpa, len as nat) && e.gpa == addr_at(
                    gpa,
                    first_unbacked(self@, gpa, len as nat),
                ),
            },
    {
        proof {
            use_type_invariant(self);
        }
        let mut done: usize = 0;
        let mut cur: u64 = gpa;
        while done < len
            invariant
                done <= len,
                cur == addr_at(gpa, done as int),
                span_backed(self@, gpa, done as nat),
                mem_ok(self@),
            decreases len - done,
        {
            let n: usize = chunk_len(cur, len - done);
            let key: u64 = cur / PAGE_SIZE;
            if !self.pages.contains_key(&key) {
                assert(!backed(self@, addr_at(gpa, done as int)));
                return Some(Unbacked { gpa: cur });
            }
            proof {
                assert forall|i: int| 0 <= i < done + n implies backed(
                    self@,
                    #[trigger] addr_at(gpa, i),
                ) by {
                    if i >= done {
                        lemma_addr_at_step(gpa, done as int, i - done);
                        lemma_addr_at_same_page(cur, i - done);
                    }
                }
                lemma_addr_at_step(gpa, done as int, n as int);
            }
            cur = advance(cur, n);
            done += n;
        }
        None
    }

    /// Stores `data` from `gpa` on. Where a byte's page is not mapped nothing
    /// is stored at all and the first such byte is reported.
    pub fn write(&mut self, gpa: u64, data: &[u8]) -> (r: Result<(), Unbacked>)
        ensures
            mem_ok(final(self)@),
            match r {
                Ok(_) => span_backed(old(self)@, gpa, data@.len()) && final(self)@ == write_span(
                    old(self)@,
                    gpa,
                    data@,
                ),
                Err(e) => !span_backed(old(self)@, gpa, data@.len()) && e.gpa == addr_at(
                    gpa,
                    first_unbacked(old(self)@, gpa, data@.len()),
                ) && final(self)@ == old(self)@,
            },
    {
        let len: usize = data.len();
        if let Some(e) = self.probe(gpa, len) {
            proof {
                use_type_invariant(&*self);
            }
            return Err(e);
        }
        let ghost orig = self@;
        let mut pages = self.take_pages();
        let mut done: usize = 0;
        let mut cur: u64 = gpa;
        proof {
            let start = write_span(orig, gpa, data@.take(0));
            assert forall|pn: u64| #[trigger] orig.contains_key(pn) implies orig[pn]
                == start[pn] by {
                assert(orig[pn].bytes =~= start[pn].bytes);
            }
            assert(orig.dom() =~= start.dom());
            assert(orig =~= start);
        }
        while done < len
            invariant
                done <= len,
                len == data@.len(),
                cur == addr_at(gpa, done as int),
                span_backed(orig, gpa, len as nat),
                mem_ok(orig),
                pages@.map_values(|p: HostPage| p@) == write_span(
                    orig,
                    gpa,
                    data@.take(done as int),
                ),
            decreases len - done,
        {
            let n: usize = chunk_len(cur, len - done);
            let off: usize = (cur % PAGE_SIZE) as usize;
            let key: u64 = cur / PAGE_SIZE;
            let ghost before = pages@.map_values(|p: HostPage| p@);
            assert(backed(orig, addr_at(gpa, done as int)));
            assert(before.contains_key(key));
            let taken = pages.remove(&key);
            assert(taken is Some);
            if let Some(mut p) = taken {
                let chunk = vstd::slice::slice_subrange(data, done, done + n);
                p.store(off, chunk);
                pages.insert(key, p);
                proof {
                    let now = pages@.map_values(|p: HostPage| p@);
                    let after = write_span(orig, gpa, data@.take(done + n));
                    assert(now.dom() =~= after.dom());
                    assert forall|pn: u64| #[trigger] now.contains_key(pn) implies now[pn]
                        == after[pn] by {
                        assert(now[pn].bytes.len() == before[pn].bytes.len());
                        assert forall|o: int|
                            0 <= o < after[pn].bytes.len() implies now[pn].bytes[o]
                            == after[pn].bytes[o] by {
                            if pn <= MAX_PAGE_INDEX && o < PAGE_SIZE {
                                lemma_chunk_cover(gpa, cur, done as int, n as int, pn, o);
                            }
                        }
                        assert(now[pn].bytes =~= after[pn].bytes);
                    }
                    assert(now =~= after);
                }
            }
            proof {
                lemma_addr_at_step(gpa, done as int, n as int);
            }
            cur = advance(cur, n);
            done += n;
        }
        assert(data@.take(len as int) == data@);
        *self = PageMap { pages };
        Ok(())
    }

    /// The host address that stands for `gpa`, if its page is mapped.
    pub fn lookup(&self, gpa: u64) -> (r: Option<u64>)
        ensures
            r == (if backed(self@, gpa) {
                Some(host_addr(self@, gpa))
            } else {
                None
            }),
            r is Some ==> self@[page_index(gpa)].hva <= r->0 < self@[page_index(gpa)].hva
                + PAGE_SIZE,
            mem_ok(self@),
    {
        proof {
            use_type_invariant(self);
        }
        let key: u64 = gpa / PAGE_SIZE;
        match self.pages.get(&key) {
            Some(p) => {
                proof {
                    use_type_invariant(p);
                }
                Some(p.hva + gpa % PAGE_SIZE)
            },
            None => None,
        }
    }
}

} // verus!

use bochscpu_ffi::{
    bochscpu_mem_missing_page, bochscpu_mem_page_insert, bochscpu_mem_phy_read,
    bochscpu_mem_phy_translate, bochscpu_mem_virt_read, bochscpu_mem_virt_translate,
    bochscpu_mem_virt_write, walk, BackingStore, HostPage, Level, Memory, NoHandler, PageFault,
    PageMap, Unbacked, VirtError, BOCHSCPU_MEM_UNMAPPED, PHYS_LIMIT,
};

const P: u64 = 1;
const PS: u64 = 0x80;
const CR3: u64 = 0x1000;
const PDPT: u64 = 0x2000;
const PD: u64 = 0x3000;
const PT: u64 = 0x4000;

fn gva(pml4: u64, pdpt: u64, pd: u64, pt: u64, off: u64) -> u64 {
    (pml4 << 39) | (pdpt << 30) | (pd << 21) | (pt << 12) | off
}

fn zero_page(pages: &mut PageMap, gpa: u64) {
    pages.insert(gpa, HostPage::new(0x7000_0000 + gpa, vec![0; 4096]).unwrap());
}

fn set_entry(pages: &mut PageMap, table: u64, index: u64, entry: u64) {
    assert_eq!(pages.write(table + 8 * index, &entry.to_le_bytes()), Ok(()));
}

/// Tables that map the virtual page (1, 2, 3, 4) to the frame at 0x5000 and
/// the page behind it to the frame at 0x9000.
fn small_pages() -> PageMap {
    let mut pages = PageMap::new();
    for gpa in [CR3, PDPT, PD, PT, 0x5000, 0x9000] {
        zero_page(&mut pages, gpa);
    }
    set_entry(&mut pages, CR3, 1, PDPT | P);
    set_entry(&mut pages, PDPT, 2, PD | P);
    set_entry(&mut pages, PD, 3, PT | P);
    set_entry(&mut pages, PT, 4, 0x5000 | P);
    set_entry(&mut pages, PT, 5, 0x9000 | P);
    pages
}

fn memory(pages: PageMap) -> Memory<NoHandler> {
    let mut mem: Memory<NoHandler> = Memory::new();
    mem.pages = pages;
    mem
}

#[test]
fn walk_of_a_small_page() {
    let pages = small_pages();
    assert_eq!(walk(&pages, CR3, gva(1, 2, 3, 4, 0x1ab)), Ok(0x51ab));
    assert_eq!(walk(&pages, CR3, gva(1, 2, 3, 4, 0)), Ok(0x5000));
    assert_eq!(walk(&pages, CR3, gva(1, 2, 3, 4, 0xfff)), Ok(0x5fff));
    assert_eq!(walk(&pages, CR3, gva(1, 2, 3, 5, 0x10)), Ok(0x9010));
}

#[test]
fn walk_ignores_what_is_no_address_bit() {
    let mut pages = small_pages();
    assert_eq!(walk(&pages, CR3 | 0xfff, gva(1, 2, 3, 4, 0x1ab)), Ok(0x51ab));
    assert_eq!(walk(&pages, CR3 | (0xfff << 52), gva(1, 2, 3, 4, 0x1ab)), Ok(0x51ab));
    set_entry(&mut pages, PT, 4, 0x5000 | P | (1 << 63) | (0x7ff << 52) | 0xffe);
    assert_eq!(walk(&pages, CR3, gva(1, 2, 3, 4, 0x1ab)), Ok(0x51ab));
    assert_eq!(walk(&pages, CR3, (0xffff << 48) | gva(1, 2, 3, 4, 0x1ab)), Ok(0x51ab));
}

#[test]
fn walk_of_a_two_megabyte_page() {
    let mut pages = small_pages();
    set_entry(&mut pages, PD, 7, 0x0060_0000 | PS | P);
    assert_eq!(walk(&pages, CR3, gva(1, 2, 7, 0, 0)), Ok(0x0060_0000));
    assert_eq!(walk(&pages, CR3, gva(1, 2, 7, 0x1ff, 0xfff)), Ok(0x007f_ffff));
    assert_eq!(walk(&pages, CR3, gva(1, 2, 7, 0x12, 0x345)), Ok(0x0061_2345));
    set_entry(&mut pages, PD, 7, 0x0060_0000 | PS | P | 0x1000);
    assert_eq!(walk(&pages, CR3, gva(1, 2, 7, 0x12, 0x345)), Ok(0x0061_2345));
}

#[test]
fn walk_of_a_one_gigabyte_page() {
    let mut pages = small_pages();
    set_entry(&mut pages, PDPT, 9, 0x0001_c000_0000 | PS | P);
    assert_eq!(walk(&pages, CR3, gva(1, 9, 0, 0, 0)), Ok(0x0001_c000_0000));
    assert_eq!(walk(&pages, CR3, gva(1, 9, 0x1ff, 0x1ff, 0xfff)), Ok(0x0001_ffff_ffff));
    assert_eq!(walk(&pages, CR3, gva(1, 9, 5, 6, 7)), Ok(0x0001_c0a0_6007));
}

#[test]
fn walk_stays_below_the_limit() {
    let mut pages = small_pages();
    set_entry(&mut pages, PT, 6, u64::MAX);
    assert_eq!(walk(&pages, CR3, gva(1, 2, 3, 6, 0xfff)), Ok(PHYS_LIMIT - 1));
    assert_eq!(PHYS_LIMIT, 1 << 52);
}

#[test]
fn walk_finds_what_is_not_present() {
    let mut pages = small_pages();
    let not_present = |level| Err(VirtError::Fault(PageFault::NotPresent(level)));
    assert_eq!(walk(&pages, CR3, gva(0, 2, 3, 4, 0)), not_present(Level::Pml4));
    assert_eq!(walk(&pages, CR3, gva(1, 0, 3, 4, 0)), not_present(Level::Pdpt));
    assert_eq!(walk(&pages, CR3, gva(1, 2, 0, 4, 0)), not_present(Level::Pd));
    assert_eq!(walk(&pages, CR3, gva(1, 2, 3, 0, 0)), not_present(Level::Pt));
    set_entry(&mut pages, PT, 4, 0x5000 | 0xffe);
    assert_eq!(walk(&pages, CR3, gva(1, 2, 3, 4, 0)), not_present(Level::Pt));
    set_entry(&mut pages, PD, 3, PT | PS);
    assert_eq!(walk(&pages, CR3, gva(1, 2, 3, 4, 0)), not_present(Level::Pd));
}

#[test]
fn walk_finds_reserved_bits() {
    let mut pages = small_pages();
    let reserved = |level| Err(VirtError::Fault(PageFault::Reserved(level)));
    set_entry(&mut pages, CR3, 3, PDPT | PS | P);
    assert_eq!(walk(&pages, CR3, gva(3, 2, 3, 4, 0)), reserved(Level::Pml4));
    set_entry(&mut pages, PDPT, 9, 0x0001_c000_0000 | PS | P | 0x2000);
    assert_eq!(walk(&pages, CR3, gva(1, 9, 0, 0, 0)), reserved(Level::Pdpt));
    set_entry(&mut pages, PDPT, 9, 0x0001_c000_0000 | PS | P | 0x2000_0000);
    assert_eq!(walk(&pages, CR3, gva(1, 9, 0, 0, 0)), reserved(Level::Pdpt));
    set_entry(&mut pages, PD, 7, 0x0060_0000 | PS | P | 0x2000);
    assert_eq!(walk(&pages, CR3, gva(1, 2, 7, 0, 0)), reserved(Level::Pd));
    set_entry(&mut pages, PD, 7, 0x0060_0000 | PS | P | 0x10_0000);
    assert_eq!(walk(&pages, CR3, gva(1, 2, 7, 0, 0)), reserved(Level::Pd));
    set_entry(&mut pages, PT, 4, 0x5000 | PS | P);
    assert_eq!(walk(&pages, CR3, gva(1, 2, 3, 4, 0x1ab)), Ok(0x51ab));
}

#[test]
fn walk_reports_a_table_that_nothing_backs() {
    let mut pages = small_pages();
    let unbacked = |gpa| Err(VirtError::Unbacked(Unbacked { gpa }));
    assert_eq!(walk(&pages, 0x8000, gva(1, 2, 3, 4, 0)), unbacked(0x8008));
    set_entry(&mut pages, PD, 3, 0xa000 | P);
    assert_eq!(walk(&pages, CR3, gva(1, 2, 3, 4, 0)), unbacked(0xa020));
    assert_eq!(walk(&PageMap::new(), CR3 | 0xfff, gva(0x1ff, 0, 0, 0, 0)), unbacked(0x1ff8));
}

#[test]
fn failed_translation_gives_the_sentinel() {
    let mut mem = memory(small_pages());
    assert_eq!(BOCHSCPU_MEM_UNMAPPED, 0xffff_ffff_ffff_ffff);
    assert_eq!(bochscpu_mem_virt_translate(&mut mem, CR3, gva(1, 2, 3, 4, 0x1ab)), Ok(0x51ab));
    assert_eq!(
        bochscpu_mem_virt_translate(&mut mem, CR3, gva(1, 2, 3, 0, 0)),
        Ok(0xffff_ffff_ffff_ffff)
    );
    assert_eq!(bochscpu_mem_virt_translate(&mut mem, CR3, 0), Ok(BOCHSCPU_MEM_UNMAPPED));
    set_entry(&mut mem.pages, CR3, 3, PDPT | PS | P);
    assert_eq!(
        bochscpu_mem_virt_translate(&mut mem, CR3, gva(3, 0, 0, 0, 0)),
        Ok(BOCHSCPU_MEM_UNMAPPED)
    );
    assert_eq!(
        bochscpu_mem_virt_translate(&mut mem, 0x8000, gva(1, 2, 3, 4, 0)),
        Err(Unbacked { gpa: 0x8008 })
    );
    assert_eq!(mem.faults, 0);
}

#[test]
fn typed_translation_tells_the_faults_apart() {
    let mut mem = memory(small_pages());
    assert_eq!(mem.virt_translate_checked(CR3, gva(1, 2, 3, 4, 8)), Ok(0x5008));
    assert_eq!(
        mem.virt_translate_checked(CR3, gva(1, 2, 3, 9, 8)),
        Err(VirtError::Fault(PageFault::NotPresent(Level::Pt)))
    );
    assert_eq!(
        mem.virt_translate_checked(0x8000, 0),
        Err(VirtError::Unbacked(Unbacked { gpa: 0x8000 }))
    );
}

#[test]
fn virtual_write_then_read_gives_the_bytes_back() {
    let mut mem = memory(small_pages());
    let data: Vec<u8> = (0..300u32).map(|i| (i * 7 % 256) as u8).collect();
    let at = gva(1, 2, 3, 4, 0xf00);
    assert_eq!(bochscpu_mem_virt_write(&mut mem, CR3, at, &data), Ok(0));
    let mut buf = vec![0u8; 300];
    assert_eq!(bochscpu_mem_virt_read(&mut mem, CR3, at, &mut buf), Ok(0));
    assert_eq!(buf, data);
    let mut first = vec![0u8; 0x100];
    assert_eq!(bochscpu_mem_phy_read(&mut mem, 0x5f00, &mut first), Ok(()));
    assert_eq!(first, data[..0x100].to_vec());
    let mut second = vec![0u8; 44];
    assert_eq!(bochscpu_mem_phy_read(&mut mem, 0x9000, &mut second), Ok(()));
    assert_eq!(second, data[0x100..].to_vec());
}

#[test]
fn virtual_access_of_nothing_succeeds() {
    let mut mem: Memory<NoHandler> = Memory::new();
    let mut buf: Vec<u8> = Vec::new();
    assert_eq!(bochscpu_mem_virt_read(&mut mem, CR3, 0x1234, &mut buf), Ok(0));
    assert_eq!(bochscpu_mem_virt_write(&mut mem, CR3, 0x1234, &[]), Ok(0));
}

#[test]
fn virtual_read_that_faults_leaves_the_buffer() {
    let mut mem = memory(small_pages());
    let mut buf = vec![0xeeu8; 0x2000];
    let at = gva(1, 2, 3, 5, 0xff0);
    assert_eq!(bochscpu_mem_virt_read(&mut mem, CR3, at, &mut buf), Ok(-1));
    assert_eq!(buf, vec![0xeeu8; 0x2000]);
    assert_eq!(
        mem.virt_read_slice_checked(CR3, at, 0x20),
        Err(VirtError::Fault(PageFault::NotPresent(Level::Pt)))
    );
    assert_eq!(mem.virt_read_slice_checked(CR3, at, 0x10), Ok(vec![0u8; 0x10]));
}

#[test]
fn virtual_write_that_faults_stores_nothing() {
    let mut mem = memory(small_pages());
    let at = gva(1, 2, 3, 5, 0xffc);
    assert_eq!(bochscpu_mem_virt_write(&mut mem, CR3, at, &[1, 2, 3, 4, 5, 6]), Ok(-1));
    let mut buf = vec![0xffu8; 4];
    assert_eq!(bochscpu_mem_phy_read(&mut mem, 0x9ffc, &mut buf), Ok(()));
    assert_eq!(buf, vec![0, 0, 0, 0]);
    assert_eq!(
        mem.virt_write_checked(CR3, at, &[1, 2, 3, 4, 5, 6]),
        Err(VirtError::Fault(PageFault::NotPresent(Level::Pt)))
    );
}

#[test]
fn virtual_access_reports_a_frame_that_nothing_backs() {
    let mut mem = memory(small_pages());
    set_entry(&mut mem.pages, PT, 6, 0xb000 | P);
    let at = gva(1, 2, 3, 6, 0x10);
    let mut buf = vec![0u8; 4];
    assert_eq!(bochscpu_mem_virt_read(&mut mem, CR3, at, &mut buf), Err(Unbacked { gpa: 0xb010 }));
    assert_eq!(
        bochscpu_mem_virt_write(&mut mem, CR3, at, &[1, 2]),
        Err(Unbacked { gpa: 0xb010 })
    );
    assert_eq!(bochscpu_mem_virt_translate(&mut mem, CR3, at), Ok(0xb010));
}

#[test]
fn two_virtual_pages_on_one_frame_keep_the_later_bytes() {
    let mut mem = memory(small_pages());
    set_entry(&mut mem.pages, PT, 5, 0x5000 | P);
    let at = gva(1, 2, 3, 4, 0);
    let mut data = vec![1u8; 4096];
    data.extend(vec![2u8; 4096]);
    assert_eq!(bochscpu_mem_virt_write(&mut mem, CR3, at, &data), Ok(0));
    let mut buf = vec![0u8; 8192];
    assert_eq!(bochscpu_mem_virt_read(&mut mem, CR3, at, &mut buf), Ok(0));
    assert_eq!(buf, vec![2u8; 8192]);
}

#[test]
fn every_address_is_translated_before_a_byte_is_stored() {
    let mut mem = memory(small_pages());
    // The page (1, 2, 3, 8) shows the table PT itself; the page behind it is
    // mapped by entry 9 of that table.
    set_entry(&mut mem.pages, PT, 8, PT | P);
    set_entry(&mut mem.pages, PT, 9, 0x9000 | P);
    let at = gva(1, 2, 3, 8, 0xff8);
    // The first eight bytes overwrite entry 511; the next eight land in the
    // frame that entry 9 named when the store began.
    let mut data = vec![0u8; 8];
    data.extend([0x11u8; 8]);
    assert_eq!(bochscpu_mem_virt_write(&mut mem, CR3, at, &data), Ok(0));
    let mut buf = vec![0u8; 8];
    assert_eq!(bochscpu_mem_phy_read(&mut mem, 0x9000, &mut buf), Ok(()));
    assert_eq!(buf, vec![0x11u8; 8]);
    // Overwriting entry 9 itself does not redirect the bytes that follow.
    let entry9 = gva(1, 2, 3, 8, 9 * 8);
    let mut redirect = (0x5000u64 | P).to_le_bytes().to_vec();
    redirect.extend(vec![0u8; 4096 - 80]);
    redirect.extend([0x22u8; 4]);
    assert_eq!(bochscpu_mem_virt_write(&mut mem, CR3, entry9, &redirect), Ok(0));
    assert_eq!(bochscpu_mem_phy_read(&mut mem, 0x9000, &mut buf), Ok(()));
    assert_eq!(&buf[..4], &[0x22u8; 4]);
    assert_eq!(bochscpu_mem_virt_translate(&mut mem, CR3, gva(1, 2, 3, 9, 0)), Ok(0x5000));
}

#[test]
fn tables_are_paged_in_as_the_walk_needs_them() {
    let mut mem: Memory<BackingStore> = Memory::new();
    bochscpu_mem_missing_page(&mut mem, BackingStore { store: small_pages() });
    assert_eq!(bochscpu_mem_virt_translate(&mut mem, CR3, gva(1, 2, 3, 4, 0x1ab)), Ok(0x51ab));
    assert_eq!(mem.faults, 4);
    for table in [CR3, PDPT, PD, PT] {
        assert!(mem.pages.contains(table));
        assert!(!mem.handler.as_ref().unwrap().store.contains(table));
    }
    assert!(!mem.pages.contains(0x5000));
    assert_eq!(bochscpu_mem_virt_translate(&mut mem, CR3, gva(1, 2, 3, 4, 0x1ab)), Ok(0x51ab));
    assert_eq!(mem.faults, 4);
    let mut buf = vec![0xffu8; 4];
    assert_eq!(bochscpu_mem_virt_read(&mut mem, CR3, gva(1, 2, 3, 4, 0xffe), &mut buf), Ok(0));
    assert_eq!(buf, vec![0u8; 4]);
    assert_eq!(mem.faults, 6);
    assert!(mem.pages.contains(0x5000));
    assert!(mem.pages.contains(0x9000));
}

#[test]
fn a_missing_table_that_the_handler_cannot_supply_is_reported() {
    let mut mem: Memory<BackingStore> = Memory::new();
    let mut store = small_pages();
    assert!(store.remove(PD).is_some());
    bochscpu_mem_missing_page(&mut mem, BackingStore { store });
    assert_eq!(
        bochscpu_mem_virt_translate(&mut mem, CR3, gva(1, 2, 3, 4, 0)),
        Err(Unbacked { gpa: PD + 24 })
    );
    assert_eq!(mem.faults, 3);
    let mut buf = vec![0u8; 4];
    assert_eq!(
        bochscpu_mem_virt_read(&mut mem, CR3, gva(1, 2, 3, 4, 0), &mut buf),
        Err(Unbacked { gpa: PD + 24 })
    );
    assert_eq!(mem.faults, 4);
}

#[test]
fn a_backing_store_hands_each_page_over_once() {
    let mut mem: Memory<BackingStore> = Memory::new();
    let mut store = PageMap::new();
    store.insert(0x3000, HostPage::new(0x7000_3000, vec![0x33; 4096]).unwrap());
    bochscpu_mem_missing_page(&mut mem, BackingStore { store });
    assert_eq!(bochscpu_mem_phy_translate(&mut mem, 0x3010), Ok(0x7000_3010));
    assert_eq!(mem.faults, 1);
    assert!(!mem.handler.as_ref().unwrap().store.contains(0x3000));
    assert_eq!(bochscpu_mem_phy_translate(&mut mem, 0x3020), Ok(0x7000_3020));
    assert_eq!(mem.faults, 1);
    assert_eq!(bochscpu_mem_phy_translate(&mut mem, 0x4000), Err(Unbacked { gpa: 0x4000 }));
    assert_eq!(mem.faults, 2);
}

#[test]
fn insert_through_the_boundary_function_is_seen_by_the_walk() {
    let mut mem: Memory<NoHandler> = Memory::new();
    let mut table = vec![0u8; 4096];
    table[0..8].copy_from_slice(&(0x0001_c000_0000u64 | PS | P).to_le_bytes());
    let mut root = vec![0u8; 4096];
    root[0..8].copy_from_slice(&(PDPT | P).to_le_bytes());
    bochscpu_mem_page_insert(&mut mem, CR3, HostPage::new(0x10_0000, root).unwrap());
    bochscpu_mem_page_insert(&mut mem, PDPT, HostPage::new(0x20_0000, table).unwrap());
    assert_eq!(bochscpu_mem_virt_translate(&mut mem, CR3, 0x1234_5678), Ok(0x0001_d234_5678));
}

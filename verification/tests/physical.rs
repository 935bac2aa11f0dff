use bochscpu_ffi::{
    access_code, access_status, bochscpu_mem_missing_page, bochscpu_mem_page_insert,
    bochscpu_mem_page_remove, bochscpu_mem_phy_read, bochscpu_mem_phy_translate,
    bochscpu_mem_phy_write, gpa_or_unmapped, translation_code, HostPage, Level, Memory,
    MissingPage, NoHandler, PageFault, PageMap, Unbacked, VirtError, PAGE_SIZE,
};

fn page_of(hva: u64, fill: u8) -> HostPage {
    HostPage::new(hva, vec![fill; 4096]).unwrap()
}

/// Maps a zeroed page for whatever address is asked for and keeps a record.
struct Lazy {
    asked: Vec<u64>,
}

impl MissingPage for Lazy {
    fn missing_page(&mut self, pages: &mut PageMap, gpa: u64) {
        self.asked.push(gpa);
        pages.insert(gpa, page_of(0x5000_0000 + (gpa & !0xfff), 0));
    }
}

/// Is asked and maps nothing.
struct Deaf {
    asked: Vec<u64>,
}

impl MissingPage for Deaf {
    fn missing_page(&mut self, _pages: &mut PageMap, gpa: u64) {
        self.asked.push(gpa);
    }
}

/// Maps a page, but next to the one that was asked for.
struct Astray {
    asked: Vec<u64>,
}

impl MissingPage for Astray {
    fn missing_page(&mut self, pages: &mut PageMap, gpa: u64) {
        self.asked.push(gpa);
        pages.insert(gpa.wrapping_add(0x1000), page_of(0x6000_0000, 0));
    }
}

#[test]
fn page_size_is_four_kilobytes() {
    assert_eq!(PAGE_SIZE, 4096);
}

#[test]
fn host_page_needs_exactly_one_page() {
    assert!(HostPage::new(0x1000, vec![0; 4096]).is_some());
    assert!(HostPage::new(0x1000, vec![0; 4095]).is_none());
    assert!(HostPage::new(0x1000, vec![0; 4097]).is_none());
    assert!(HostPage::new(0x1000, Vec::new()).is_none());
}

#[test]
fn host_page_must_end_inside_the_address_space() {
    assert!(HostPage::new(u64::MAX - 4095, vec![0; 4096]).is_some());
    assert!(HostPage::new(u64::MAX - 4094, vec![0; 4096]).is_none());
    assert!(HostPage::zeroed(u64::MAX - 4095).is_some());
    assert!(HostPage::zeroed(u64::MAX).is_none());
}

#[test]
fn zeroed_page_holds_zeros() {
    let p = HostPage::zeroed(0x4000).unwrap();
    assert_eq!(p.hva(), 0x4000);
    assert_eq!(p.bytes().len(), 4096);
    assert!(p.bytes().iter().all(|b| *b == 0));
}

#[test]
fn insert_then_translate_points_into_the_buffer() {
    let mut mem: Memory<NoHandler> = Memory::new();
    bochscpu_mem_page_insert(&mut mem, 0x1234, page_of(0x7000_0000, 0));
    assert_eq!(bochscpu_mem_phy_translate(&mut mem, 0x1234), Ok(0x7000_0234));
    assert_eq!(bochscpu_mem_phy_translate(&mut mem, 0x1000), Ok(0x7000_0000));
    assert_eq!(bochscpu_mem_phy_translate(&mut mem, 0x1fff), Ok(0x7000_0fff));
    assert_eq!(mem.faults, 0);
}

#[test]
fn insert_replaces_silently() {
    let mut mem: Memory<NoHandler> = Memory::new();
    bochscpu_mem_page_insert(&mut mem, 0x2000, page_of(0x7000_0000, 1));
    bochscpu_mem_page_insert(&mut mem, 0x2fff, page_of(0x8000_0000, 2));
    assert_eq!(bochscpu_mem_phy_translate(&mut mem, 0x2010), Ok(0x8000_0010));
    let mut buf = vec![0u8; 2];
    assert_eq!(bochscpu_mem_phy_read(&mut mem, 0x2000, &mut buf), Ok(()));
    assert_eq!(buf, vec![2, 2]);
}

#[test]
fn translate_without_page_or_handler_is_unbacked() {
    let mut mem: Memory<NoHandler> = Memory::new();
    assert_eq!(bochscpu_mem_phy_translate(&mut mem, 0x3008), Err(Unbacked { gpa: 0x3008 }));
    assert_eq!(mem.faults, 0);
}

#[test]
fn remove_then_translate_asks_the_handler() {
    let mut mem: Memory<Lazy> = Memory::new();
    bochscpu_mem_missing_page(&mut mem, Lazy { asked: Vec::new() });
    bochscpu_mem_page_insert(&mut mem, 0x1000, page_of(0x7000_0000, 0));
    assert_eq!(bochscpu_mem_phy_translate(&mut mem, 0x1010), Ok(0x7000_0010));
    assert!(mem.handler.as_ref().unwrap().asked.is_empty());
    let back = bochscpu_mem_page_remove(&mut mem, 0x1abc);
    assert_eq!(back.unwrap().hva(), 0x7000_0000);
    assert_eq!(bochscpu_mem_phy_translate(&mut mem, 0x1010), Ok(0x5000_1010));
    assert_eq!(mem.handler.as_ref().unwrap().asked, vec![0x1010]);
    assert_eq!(mem.faults, 1);
}

#[test]
fn remove_of_an_absent_page_changes_nothing() {
    let mut mem: Memory<NoHandler> = Memory::new();
    bochscpu_mem_page_insert(&mut mem, 0x1000, page_of(0x7000_0000, 0));
    assert!(bochscpu_mem_page_remove(&mut mem, 0x2000).is_none());
    assert_eq!(bochscpu_mem_phy_translate(&mut mem, 0x1000), Ok(0x7000_0000));
}

#[test]
fn handler_that_inserts_resolves_the_miss() {
    let mut mem: Memory<Lazy> = Memory::new();
    bochscpu_mem_missing_page(&mut mem, Lazy { asked: Vec::new() });
    assert_eq!(bochscpu_mem_phy_translate(&mut mem, 0xabc123), Ok(0x5000_0000 + 0xabc123));
    assert_eq!(bochscpu_mem_phy_translate(&mut mem, 0xabc456), Ok(0x5000_0000 + 0xabc456));
    assert_eq!(mem.handler.as_ref().unwrap().asked, vec![0xabc123]);
    assert_eq!(mem.faults, 1);
}

#[test]
fn handler_that_maps_nothing_leaves_the_miss() {
    let mut mem: Memory<Deaf> = Memory::new();
    bochscpu_mem_missing_page(&mut mem, Deaf { asked: Vec::new() });
    assert_eq!(bochscpu_mem_phy_translate(&mut mem, 0x9000), Err(Unbacked { gpa: 0x9000 }));
    assert_eq!(mem.handler.as_ref().unwrap().asked, vec![0x9000]);
    assert_eq!(mem.faults, 1);
}

#[test]
fn handler_that_maps_another_page_leaves_the_miss() {
    let mut mem: Memory<Astray> = Memory::new();
    bochscpu_mem_missing_page(&mut mem, Astray { asked: Vec::new() });
    assert_eq!(bochscpu_mem_phy_translate(&mut mem, 0x9000), Err(Unbacked { gpa: 0x9000 }));
    assert_eq!(bochscpu_mem_phy_translate(&mut mem, 0xa000), Ok(0x6000_0000));
}

#[test]
fn installing_a_handler_replaces_the_one_before() {
    let mut mem: Memory<Lazy> = Memory::new();
    assert!(bochscpu_mem_missing_page(&mut mem, Lazy { asked: vec![1] }).is_none());
    let prior = bochscpu_mem_missing_page(&mut mem, Lazy { asked: vec![2] });
    assert_eq!(prior.unwrap().asked, vec![1]);
    assert_eq!(mem.handler.as_ref().unwrap().asked, vec![2]);
}

#[test]
fn read_spans_pages() {
    let mut mem: Memory<NoHandler> = Memory::new();
    bochscpu_mem_page_insert(&mut mem, 0x1000, page_of(0x7000_0000, 0x11));
    bochscpu_mem_page_insert(&mut mem, 0x2000, page_of(0x7100_0000, 0x22));
    bochscpu_mem_page_insert(&mut mem, 0x3000, page_of(0x7200_0000, 0x33));
    let mut buf = vec![0u8; 4096 + 4];
    assert_eq!(bochscpu_mem_phy_read(&mut mem, 0x1ffe, &mut buf), Ok(()));
    assert_eq!(&buf[0..2], &[0x11, 0x11]);
    assert!(buf[2..4098].iter().all(|b| *b == 0x22));
    assert_eq!(&buf[4098..4100], &[0x33, 0x33]);
}

#[test]
fn read_of_nothing_succeeds_anywhere() {
    let mut mem: Memory<NoHandler> = Memory::new();
    let mut buf: Vec<u8> = Vec::new();
    assert_eq!(bochscpu_mem_phy_read(&mut mem, 0x1234, &mut buf), Ok(()));
    assert!(buf.is_empty());
    assert_eq!(mem.pages.read(0, 0), Ok(Vec::new()));
}

#[test]
fn read_reports_the_first_unbacked_byte() {
    let mut mem: Memory<NoHandler> = Memory::new();
    bochscpu_mem_page_insert(&mut mem, 0x1000, page_of(0x7000_0000, 0x11));
    let mut buf = vec![0xeeu8; 16];
    assert_eq!(bochscpu_mem_phy_read(&mut mem, 0x1ff8, &mut buf), Err(Unbacked { gpa: 0x2000 }));
    assert_eq!(buf, vec![0xeeu8; 16]);
    assert_eq!(bochscpu_mem_phy_read(&mut mem, 0x0ff8, &mut buf), Err(Unbacked { gpa: 0x0ff8 }));
    assert_eq!(mem.pages.probe(0x1ff8, 16), Some(Unbacked { gpa: 0x2000 }));
    assert_eq!(mem.pages.probe(0x1ff8, 8), None);
}

#[test]
fn read_faults_once_for_each_missing_page() {
    let mut mem: Memory<Lazy> = Memory::new();
    bochscpu_mem_missing_page(&mut mem, Lazy { asked: Vec::new() });
    let mut buf = vec![0xeeu8; 2 * 4096];
    assert_eq!(bochscpu_mem_phy_read(&mut mem, 0x1800, &mut buf), Ok(()));
    assert_eq!(buf, vec![0u8; 2 * 4096]);
    assert_eq!(mem.handler.as_ref().unwrap().asked, vec![0x1800, 0x2000, 0x3000]);
    assert_eq!(mem.faults, 3);
}

#[test]
fn read_gives_up_when_the_handler_maps_nothing() {
    let mut mem: Memory<Deaf> = Memory::new();
    bochscpu_mem_missing_page(&mut mem, Deaf { asked: Vec::new() });
    let mut buf = vec![0u8; 3 * 4096];
    assert_eq!(bochscpu_mem_phy_read(&mut mem, 0x4000, &mut buf), Err(Unbacked { gpa: 0x4000 }));
    assert_eq!(mem.handler.as_ref().unwrap().asked, vec![0x4000]);
}

#[test]
fn write_then_read_physical() {
    let mut mem: Memory<NoHandler> = Memory::new();
    bochscpu_mem_page_insert(&mut mem, 0x1000, page_of(0x7000_0000, 0));
    bochscpu_mem_page_insert(&mut mem, 0x2000, page_of(0x7100_0000, 0));
    let data: Vec<u8> = (0..200u32).map(|i| (i % 251) as u8).collect();
    assert_eq!(bochscpu_mem_phy_write(&mut mem, 0x1f9c, &data), Ok(()));
    let mut buf = vec![0u8; 200];
    assert_eq!(bochscpu_mem_phy_read(&mut mem, 0x1f9c, &mut buf), Ok(()));
    assert_eq!(buf, data);
    let mut around = vec![0xffu8; 2];
    assert_eq!(bochscpu_mem_phy_read(&mut mem, 0x1f9a, &mut around), Ok(()));
    assert_eq!(around, vec![0, 0]);
    assert_eq!(bochscpu_mem_phy_read(&mut mem, 0x1f9c + 200, &mut around), Ok(()));
    assert_eq!(around, vec![0, 0]);
    assert_eq!(bochscpu_mem_phy_translate(&mut mem, 0x2000), Ok(0x7100_0000));
}

#[test]
fn write_stores_nothing_when_a_page_is_missing() {
    let mut mem: Memory<NoHandler> = Memory::new();
    bochscpu_mem_page_insert(&mut mem, 0x1000, page_of(0x7000_0000, 0));
    assert_eq!(
        bochscpu_mem_phy_write(&mut mem, 0x1ffe, &[1, 2, 3, 4]),
        Err(Unbacked { gpa: 0x2000 })
    );
    let mut buf = vec![0xffu8; 2];
    assert_eq!(bochscpu_mem_phy_read(&mut mem, 0x1ffe, &mut buf), Ok(()));
    assert_eq!(buf, vec![0, 0]);
}

#[test]
fn write_faults_pages_in_before_it_stores() {
    let mut mem: Memory<Lazy> = Memory::new();
    bochscpu_mem_missing_page(&mut mem, Lazy { asked: Vec::new() });
    assert_eq!(bochscpu_mem_phy_write(&mut mem, 0x1ffe, &[1, 2, 3, 4]), Ok(()));
    assert_eq!(mem.handler.as_ref().unwrap().asked, vec![0x1ffe, 0x2000]);
    let mut buf = vec![0u8; 6];
    assert_eq!(bochscpu_mem_phy_read(&mut mem, 0x1ffd, &mut buf), Ok(()));
    assert_eq!(buf, vec![0, 1, 2, 3, 4, 0]);
    assert_eq!(mem.faults, 2);
}

#[test]
fn addresses_wrap_at_the_end_of_the_space() {
    let mut mem: Memory<NoHandler> = Memory::new();
    bochscpu_mem_page_insert(&mut mem, u64::MAX, page_of(0x7000_0000, 0));
    bochscpu_mem_page_insert(&mut mem, 0, page_of(0x7100_0000, 0));
    assert_eq!(bochscpu_mem_phy_write(&mut mem, u64::MAX - 1, &[9, 8, 7, 6]), Ok(()));
    let mut buf = vec![0u8; 4];
    assert_eq!(bochscpu_mem_phy_read(&mut mem, u64::MAX - 1, &mut buf), Ok(()));
    assert_eq!(buf, vec![9, 8, 7, 6]);
    let mut low = vec![0u8; 2];
    assert_eq!(bochscpu_mem_phy_read(&mut mem, 0, &mut low), Ok(()));
    assert_eq!(low, vec![7, 6]);
    assert_eq!(bochscpu_mem_phy_translate(&mut mem, u64::MAX), Ok(0x7000_0fff));
}

#[test]
fn lookup_and_contains_go_by_the_page() {
    let mut pages = PageMap::new();
    pages.insert(0x5123, HostPage::new(0x7000_0000, vec![0; 4096]).unwrap());
    assert!(pages.contains(0x5000));
    assert!(pages.contains(0x5fff));
    assert!(!pages.contains(0x4fff));
    assert!(!pages.contains(0x6000));
    assert_eq!(pages.lookup(0x5008), Some(0x7000_0008));
    assert_eq!(pages.lookup(0x6000), None);
}

#[test]
fn boundary_codes() {
    let fault = VirtError::Fault(PageFault::Reserved(Level::Pd));
    let unbacked = VirtError::Unbacked(Unbacked { gpa: 0x1000 });
    assert_eq!(gpa_or_unmapped(Some(0x1234)), 0x1234);
    assert_eq!(gpa_or_unmapped(Some(0)), 0);
    assert_eq!(gpa_or_unmapped(None), 0xffff_ffff_ffff_ffff);
    assert_eq!(access_status(true), 0);
    assert_eq!(access_status(false), -1);
    assert_eq!(translation_code(Ok(0x5000)), Ok(0x5000));
    assert_eq!(translation_code(Err(fault)), Ok(0xffff_ffff_ffff_ffff));
    assert_eq!(translation_code(Err(unbacked)), Err(Unbacked { gpa: 0x1000 }));
    assert_eq!(access_code(None), Ok(0));
    assert_eq!(access_code(Some(fault)), Ok(-1));
    assert_eq!(access_code(Some(unbacked)), Err(Unbacked { gpa: 0x1000 }));
}

/// Maps the page it is asked for and unmaps the one before it.
struct Fickle {
    asked: Vec<u64>,
}

impl MissingPage for Fickle {
    fn missing_page(&mut self, pages: &mut PageMap, gpa: u64) {
        self.asked.push(gpa);
        pages.insert(gpa, page_of(0x5000_0000 + (gpa & !0xfff), 0));
        let _ = pages.remove(gpa.wrapping_sub(0x1000));
    }
}

#[test]
fn what_is_reported_holds_of_the_memory_as_the_handler_left_it() {
    let mut mem: Memory<Fickle> = Memory::new();
    bochscpu_mem_missing_page(&mut mem, Fickle { asked: Vec::new() });
    let mut buf = vec![0xeeu8; 3 * 4096];
    assert_eq!(bochscpu_mem_phy_read(&mut mem, 0x4000, &mut buf), Err(Unbacked { gpa: 0x4000 }));
    assert_eq!(mem.handler.as_ref().unwrap().asked, vec![0x4000, 0x5000, 0x6000]);
    assert_eq!(buf, vec![0xeeu8; 3 * 4096]);
    assert!(!mem.pages.contains(0x4000));
    assert!(!mem.pages.contains(0x5000));
    assert!(mem.pages.contains(0x6000));
    assert_eq!(mem.faults, 3);
    assert_eq!(
        bochscpu_mem_phy_write(&mut mem, 0x6ffe, &[1, 2, 3, 4]),
        Err(Unbacked { gpa: 0x6ffe })
    );
    assert_eq!(mem.handler.as_ref().unwrap().asked, vec![0x4000, 0x5000, 0x6000, 0x7000]);
    assert!(!mem.pages.contains(0x6000));
    assert!(mem.pages.contains(0x7000));
    let mut two = vec![0xffu8; 2];
    assert_eq!(bochscpu_mem_phy_read(&mut mem, 0x7000, &mut two), Ok(()));
    assert_eq!(two, vec![0, 0]);
}

use memory_manager::any_page::AnyPage;
use memory_manager::config_page::{ConfigPage, Field, MemoryLayout};
use memory_manager::free_list_page::FreeListPage;
use memory_manager::from_slice::get_page_mut;
use memory_manager::generic_page::GenericPage;
use memory_manager::error::PageError;
use memory_manager::page_manager::PageManager;
use memory_manager::u48::U48;

fn store(num_pages: u64) -> Vec<u8> {
    vec![0u8; num_pages as usize * 4096]
}

fn record(memory: &mut [u8], page: u64, slot: u64) -> MemoryLayout {
    let view: ConfigPage = get_page_mut(memory, page).unwrap();
    MemoryLayout::from_bytes_at(&view, slot).unwrap()
}

#[test]
fn recycled_pages_are_reused_in_order_then_fresh_ones() {
    let mut memory = store(8);
    let mut pm = PageManager::new(&mut memory, 8).unwrap();
    let mut pending = vec![2u64, 3];
    pm.recyle_pages(&mut pending);
    assert!(pending.is_empty());
    pm.consolidate_state(&mut memory).unwrap();
    assert_eq!(pm.get_free_pages(&memory, 2, true).unwrap(), vec![2, 3]);
    let fresh = pm.get_free_pages(&memory, 1, true).unwrap();
    assert_eq!(fresh, vec![3]);
    assert_eq!(pm.last_used_page, 3);
}

#[test]
fn recycled_list_is_persisted_at_the_new_head() {
    let mut memory = store(8);
    let mut pm = PageManager::new(&mut memory, 8).unwrap();
    let mut pending = vec![5u64, 6];
    pm.recyle_pages(&mut pending);
    pm.consolidate_state(&mut memory).unwrap();
    let head = record(&mut memory, 0, 0).recycled_pages_list;
    assert_eq!(head, pm.recycled_pages_page);
    let list: FreeListPage = get_page_mut(&mut memory, head).unwrap();
    assert_eq!(list.get_recycled_pages_list(), pm.recycled_pages);
    assert_eq!(pm.recycled_pages, vec![5, 6]);
    let reopened = PageManager::new(&mut memory, 8).unwrap();
    assert_eq!(reopened.recycled_pages, vec![5, 6]);
    assert_eq!(reopened.last_used_page, pm.last_used_page);
}

#[test]
fn pages_recycled_are_not_reused_before_commit() {
    let mut memory = store(8);
    let mut pm = PageManager::new(&mut memory, 8).unwrap();
    let mut pending = vec![6u64];
    pm.recyle_pages(&mut pending);
    assert_eq!(pm.get_free_pages(&memory, 1, true).unwrap(), vec![2]);
}

#[test]
fn recycling_queues_every_index_in_order() {
    let mut memory = store(8);
    let mut pm = PageManager::new(&mut memory, 8).unwrap();
    let mut pending = vec![6u64, 4, 6];
    pm.recyle_pages(&mut pending);
    assert_eq!(pm.pending_recycled, vec![6, 4, 6]);
    assert!(pending.is_empty());
}

#[test]
fn fresh_store_starts_with_no_recycled_pages() {
    let mut memory = store(4);
    {
        let mut stale: FreeListPage = get_page_mut(&mut memory, 1).unwrap();
        let mut payload = vec![0u8; 4080];
        payload[0] = 3;
        stale.set_free_list_page_data_slice(&payload);
    }
    let pm = PageManager::new(&mut memory, 4).unwrap();
    assert!(pm.recycled_pages.is_empty());
    assert_eq!(pm.recycled_pages_page, 1);
}

#[test]
fn u48_error_text() {
    assert_eq!(
        U48::try_from_u64(U48::MAX + 1).err(),
        Some("The number is too large for U48.")
    );
}

#[test]
fn fresh_pages_without_reuse_skip_recycled_ones() {
    let mut memory = store(8);
    let mut pm = PageManager::new(&mut memory, 8).unwrap();
    let mut pending = vec![4u64];
    pm.recyle_pages(&mut pending);
    pm.consolidate_state(&mut memory).unwrap();
    let before = pm.last_used_page;
    assert_eq!(pm.get_free_pages(&memory, 2, false).unwrap(), vec![before + 1, before + 2]);
    assert_eq!(pm.recycled_pages, vec![4]);
}

#[test]
fn out_of_pages_leaves_the_manager_unchanged() {
    let mut memory = store(4);
    let mut pm = PageManager::new(&mut memory, 4).unwrap();
    let err = pm.get_free_pages(&memory, 5, false).unwrap_err();
    assert_eq!(
        err,
        PageError::OutOfPages { total_allocated_pages: 4, last_used_page: 4 }
    );
    assert_eq!(pm.last_used_page, 1);
    assert_eq!(pm.get_free_pages(&memory, 2, false).unwrap(), vec![2, 3]);
}

#[test]
fn every_commit_bumps_the_version_and_never_lowers_the_high_water_mark() {
    let mut memory = store(16);
    let mut pm = PageManager::new(&mut memory, 16).unwrap();
    let mut last = pm.last_used_page;
    for v in 2..6u64 {
        pm.consolidate_state(&mut memory).unwrap();
        let now = record(&mut memory, 0, 0);
        assert_eq!(now.version_number, v);
        assert!(now.last_used_page >= last);
        last = now.last_used_page;
        assert_eq!(now, pm.config);
        assert_eq!(now.last_used_page, pm.last_used_page);
        assert_eq!(now.recycled_pages_list, pm.recycled_pages_page);
        assert_eq!(now.total_allocated_pages, 16);
    }
}

#[test]
fn ring_holds_older_versions_oldest_first() {
    let mut memory = store(16);
    let mut pm = PageManager::new(&mut memory, 16).unwrap();
    for _ in 0..4 {
        pm.consolidate_state(&mut memory).unwrap();
    }
    let r0 = record(&mut memory, 0, 0);
    assert_eq!(r0.version_number, 5);
    assert_eq!(r0.offset, 5);
    for j in 1..r0.offset {
        let rj = record(&mut memory, 0, j);
        assert_eq!(rj.version_number, r0.version_number - r0.offset + j);
    }
}

#[test]
fn spill_copies_the_full_ring_and_starts_a_new_one() {
    let mut memory = store(140);
    let mut pm = PageManager::new(&mut memory, 140).unwrap();
    for _ in 0..128 {
        pm.consolidate_state(&mut memory).unwrap();
    }
    let r0 = record(&mut memory, 0, 0);
    assert_eq!(r0.version_number, 129);
    assert_eq!(r0.offset, 2);
    let prev = r0.previous_config_page;
    assert_ne!(prev, 0);
    let old_top = record(&mut memory, prev, 0);
    assert_eq!(old_top.version_number, 128);
    assert_eq!(old_top.offset, 128);
    let r1 = record(&mut memory, 0, 1);
    assert_eq!(r1.version_number, 128);
    assert_eq!(r1.offset, 1);
    assert_eq!(r1.previous_config_page, prev);
    let r2 = record(&mut memory, 0, 2);
    assert_eq!(r2, MemoryLayout::default());
}

#[test]
fn free_list_of_an_old_version_is_found_through_the_previous_page() {
    let mut memory = store(140);
    let mut pm = PageManager::new(&mut memory, 140).unwrap();
    for _ in 0..130 {
        pm.consolidate_state(&mut memory).unwrap();
    }
    assert_eq!(pm.get_free_list_page_at(&memory, 3).unwrap(), Vec::<u64>::new());
    assert_eq!(pm.get_free_list_page_at(&memory, 131).unwrap(), Vec::<u64>::new());
    assert_eq!(pm.get_free_list_page_at(&memory, 132), Err(PageError::VersionOutOfRange));
    assert_eq!(pm.get_free_list_page_at(&memory, 0), Err(PageError::VersionOutOfRange));
}

#[test]
fn free_list_of_each_version_is_kept() {
    let mut memory = store(16);
    let mut pm = PageManager::new(&mut memory, 16).unwrap();
    let mut pending = vec![9u64, 10];
    pm.recyle_pages(&mut pending);
    pm.consolidate_state(&mut memory).unwrap();
    assert_eq!(pm.get_free_list_page_at(&memory, 1).unwrap(), Vec::<u64>::new());
    assert_eq!(pm.get_free_list_page_at(&memory, 2).unwrap(), vec![9, 10]);
}

#[test]
fn corrupt_root_is_refused() {
    let mut memory = store(4);
    {
        let mut root: ConfigPage = get_page_mut(&mut memory, 0).unwrap();
        root.set_last_used_page(3);
    }
    let err = PageManager::new(&mut memory, 4).err().unwrap();
    assert_eq!(err, PageError::CorruptBootstrap);
    assert_eq!(
        err.to_string(),
        "Database file is corrupted: last_used_page != 0 || recycled_pages_page != 0"
    );
}

#[test]
fn empty_store_has_no_root_page() {
    let mut memory: Vec<u8> = Vec::new();
    let err = PageManager::new(&mut memory, 4).err().unwrap();
    assert_eq!(err, PageError::PageOutOfRange { index: 0 });
    assert_eq!(err.to_string(), "Index 0 is out of bounds");
}

#[test]
fn cyclic_free_list_chain_is_refused() {
    let mut memory = store(4);
    let mut pm = PageManager::new(&mut memory, 4).unwrap();
    {
        let mut head: FreeListPage = get_page_mut(&mut memory, 1).unwrap();
        head.set_free_list_page_next(1);
    }
    assert_eq!(
        pm.get_free_pages(&memory, 1, true),
        Err(PageError::RecycledChainInconsistent)
    );
    assert_eq!(pm.last_used_page, 1);
}

#[test]
fn exhausted_buffer_continues_down_the_chain() {
    let mut memory = store(8);
    let mut pm = PageManager::new(&mut memory, 8).unwrap();
    {
        let mut head: FreeListPage = get_page_mut(&mut memory, 1).unwrap();
        head.set_free_list_page_next(7);
    }
    {
        let mut next: FreeListPage = get_page_mut(&mut memory, 7).unwrap();
        let mut payload = vec![0u8; 4080];
        payload[0] = 5;
        payload[8] = 6;
        next.set_free_list_page_data_slice(&payload);
    }
    assert_eq!(pm.get_free_pages(&memory, 3, true).unwrap(), vec![5, 6, 2]);
    assert_eq!(pm.recycled_pages_page, 7);
}

#[test]
fn version_lookup_past_the_current_version_fails() {
    let mut memory = store(4);
    let pm = PageManager::new(&mut memory, 4).unwrap();
    assert_eq!(pm.get_free_list_page_at(&memory, 2), Err(PageError::VersionOutOfRange));
    assert_eq!(
        PageError::VersionOutOfRange.to_string(),
        "Error: no such version is recorded"
    );
}

#[test]
fn field_round_trip_keeps_other_fields() {
    let mut buffer = [0u8; 4096];
    let mut page = ConfigPage { data: &mut buffer };
    page.set_total_allocated_pages(U48::MAX);
    page.set_version_number(0xFF_FFFF_FFFF);
    page.set_last_used_page(0x1234_5678_9ABC);
    page.set_recycled_pages_list(7);
    page.set_previous_config_page(0x0102_0304_0506);
    page.set_offset(0xFF_FFFF);
    assert_eq!(page.get_total_allocated_pages(), U48::MAX);
    assert_eq!(page.get_version_number(), 0xFF_FFFF_FFFF);
    assert_eq!(page.get_last_used_page(), 0x1234_5678_9ABC);
    assert_eq!(page.get_recycled_pages_list(), 7);
    assert_eq!(page.get_previous_config_page(), 0x0102_0304_0506);
    assert_eq!(page.get_offset(), 0xFF_FFFF);
    page.set_offset(2);
    assert_eq!(page.get_offset(), 2);
    assert_eq!(page.get_last_used_page(), 0x1234_5678_9ABC);
    assert_eq!(page.get_at(Field::LastUsedPage, 1), 0);
}

#[test]
fn fields_are_little_endian_at_their_offsets() {
    let mut buffer = [0u8; 4096];
    let mut page = ConfigPage { data: &mut buffer };
    page.set_version_number(0x0102);
    page.set_offset(0x030405);
    assert_eq!(buffer[6], 0x02);
    assert_eq!(buffer[7], 0x01);
    assert_eq!(&buffer[29..32], &[0x05, 0x04, 0x03]);
}

#[test]
fn last_record_of_the_page_is_readable() {
    let mut buffer = [0u8; 4096];
    buffer[4093] = 9;
    buffer[4095] = 1;
    let page = ConfigPage { data: &mut buffer };
    assert_eq!(page.get_offset_at(127), 0x010009);
    assert!(MemoryLayout::from_bytes_at(&page, 128).is_none());
}

#[test]
fn oversized_field_values_keep_their_low_bytes() {
    let mut buffer = [0u8; 4096];
    let mut page = ConfigPage { data: &mut buffer };
    page.set_offset(0x0100_0002);
    assert_eq!(page.get_offset(), 2);
}

#[test]
fn snapshot_copies_record_zero_into_its_slot() {
    let mut buffer = [0u8; 4096];
    let mut page = ConfigPage { data: &mut buffer };
    page.set_version_number(4);
    page.set_offset(3);
    page.copy_header_to_offset();
    assert_eq!(page.get_version_number_at(3), 4);
    assert_eq!(page.get_offset_at(3), 3);
    assert_eq!(page.get_version_number_at(2), 0);
}

#[test]
fn page_copies_take_whole_page_or_header() {
    let mut a = [0u8; 4096];
    let mut b = [0u8; 4096];
    for i in 0..4096 {
        a[i] = (i % 251) as u8 + 1;
    }
    {
        let src = ConfigPage { data: &mut a };
        let mut dst = ConfigPage { data: &mut b };
        dst.copy_config_page_header(&src);
    }
    assert_eq!(&b[0..32], &a[0..32]);
    assert_eq!(b[32], 0);
    {
        let src = ConfigPage { data: &mut a };
        let mut dst = ConfigPage { data: &mut b };
        dst.copy_config_page(&src);
    }
    assert_eq!(a.to_vec(), b.to_vec());
}

#[test]
fn u48_round_trip() {
    for x in [0u64, 1, 0x1234_5678_9ABC, U48::MAX] {
        let v = U48::try_from_u64(x).unwrap();
        assert_eq!(v.to_u64(), x);
        assert_eq!(v.to_usize(), x as usize);
    }
    assert!(U48::try_from_u64(U48::MAX + 1).is_err());
    let v = U48::try_from_u64(0x0605_0403_0201).unwrap();
    assert_eq!(v.to_bytes(), &[1, 2, 3, 4, 5, 6]);
    assert!(U48::from_bytes([1, 2, 3, 4, 5, 6]) == v);
    assert!(U48::copy_slice_to_u48(&[1, 2, 3, 4, 5, 6]) == v);
    assert!(U48::from_bytes_range(&[9, 1, 2, 3, 4, 5, 6, 9], 1, 7) == v);
    assert_eq!(U48::default().to_u64(), 0);
}

#[test]
fn memory_layout_to_bytes_is_six_little_endian_words() {
    let m = MemoryLayout {
        total_allocated_pages: 1,
        version_number: 2,
        last_used_page: 3,
        recycled_pages_list: 4,
        previous_config_page: 5,
        offset: 0x0106,
    };
    let bytes = m.to_bytes();
    assert_eq!(bytes.len(), 48);
    assert_eq!(bytes[0], 1);
    assert_eq!(bytes[8], 2);
    assert_eq!(bytes[40], 6);
    assert_eq!(bytes[41], 1);
    assert_eq!(bytes[47], 0);
}

#[test]
fn free_list_page_reads_until_the_first_zero() {
    let mut buffer = [0u8; 4096];
    let mut page = FreeListPage { data: &mut buffer };
    let mut payload = vec![0u8; 4080];
    payload[0] = 11;
    payload[8] = 12;
    payload[24] = 14;
    page.set_free_list_page_data_slice(&payload);
    page.set_free_list_page_next(0x0102_0304_0506);
    assert_eq!(page.get_recycled_pages_list(), vec![11, 12]);
    assert_eq!(page.get_free_list_page_next(), 0x0102_0304_0506);
    let slots = page.get_free_pages_list_slice();
    assert_eq!(slots[3], 14);
    assert_eq!(slots[509], 0);
    page.set_free_list_page_header_slice(&[0u8; 16]);
    assert_eq!(page.get_free_list_page_next(), 0);
}

#[test]
fn free_list_header_copy() {
    let mut a = [0u8; 4096];
    let mut b = [0u8; 4096];
    {
        let mut src = FreeListPage { data: &mut a };
        src.set_free_list_page_next(42);
    }
    let src = FreeListPage { data: &mut a };
    let mut dst = FreeListPage { data: &mut b };
    dst.copy_free_list_page_header_slice(&src);
    assert_eq!(dst.get_free_list_page_next(), 42);
}

#[test]
fn two_views_of_a_page_see_the_same_bytes() {
    let mut memory = store(4);
    PageManager::new(&mut memory, 4).unwrap();
    let first: Vec<u8> = {
        let view: ConfigPage = get_page_mut(&mut memory, 0).unwrap();
        view.data.to_vec()
    };
    let second: Vec<u8> = {
        let view: ConfigPage = get_page_mut(&mut memory, 0).unwrap();
        view.data.to_vec()
    };
    assert_eq!(first, second);
    assert_eq!(first, memory[0..4096].to_vec());
    let missing: Result<GenericPage, PageError> = get_page_mut(&mut memory, 4);
    assert_eq!(missing.err(), Some(PageError::PageOutOfRange { index: 4 }));
}

#[test]
fn any_page_conversions() {
    let mut buffer = [7u8; 4096];
    let generic = AnyPage::Generic(GenericPage::from_config_page(&mut buffer));
    let config = generic.to_config_page().unwrap();
    assert_eq!(config.data[0], 7);
    let back = AnyPage::Config(config).to_generic_page().unwrap();
    assert_eq!(back.data[4095], 7);
    let free = AnyPage::FreeList(FreeListPage { data: back.data });
    assert!(free.to_config_page().is_none());
}

#[test]
fn u48_conversions_and_text() {
    let v = U48::from([0xBC, 0x9A, 0x78, 0x56, 0x34, 0x12]);
    assert_eq!(u64::from(v), 0x1234_5678_9ABC);
    let bytes: [u8; 6] = v.into();
    assert_eq!(bytes, [0xBC, 0x9A, 0x78, 0x56, 0x34, 0x12]);
    assert_eq!(v.debug_string(), "0x123456789abc");
    assert_eq!(U48::default().debug_string(), "0x000000000000");
}

#[test]
fn long_recycled_list_spans_a_chain_of_pages() {
    let mut memory = store(1024);
    let mut pm = PageManager::new(&mut memory, 1024).unwrap();
    let mut pages = pm.get_free_pages(&memory, 600, false).unwrap();
    assert_eq!(pages[0], 2);
    assert_eq!(pages[599], 601);
    pm.recyle_pages(&mut pages);
    pm.consolidate_state(&mut memory).unwrap();
    assert_eq!(pm.recycled_pages_page, 601);
    assert_eq!(pm.recycled_pages.len(), 510);
    let reopened = PageManager::new(&mut memory, 1024).unwrap();
    assert_eq!(reopened.recycled_pages, pm.recycled_pages);
    let served = pm.get_free_pages(&memory, 600, true).unwrap();
    let mut expected: Vec<u64> = (2..=600).collect();
    expected.push(603);
    assert_eq!(served, expected);
    assert_eq!(pm.recycled_pages_page, 602);
}

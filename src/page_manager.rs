//! The page manager: allocates pages of the store, fresh or recycled, and
//! commits its state as a new version in the root config page.
use crate::chain::{
    chain_pages, copy_vec, draw, extend_range, fresh_run, lemma_take_recycled_no_zero,
    persist_plan, persist_recycled, served_after, take_recycled,
};
use crate::config_page::{
    lemma_field_limits, lemma_stored_fits, read_field, read_record, record_at, stored,
    write_field, Field, MemoryLayout, RECORDS_PER_PAGE,
};
use crate::error::PageError;
use crate::le_bytes::splice;
use crate::free_list_page::{
    next_of, no_zero, read_next, read_recycled_list, recycled_list,
};
use crate::page::{
    has_page, lemma_page_count_bound, lemma_store_page, load_page, page_count, page_of,
    store_page, PAGE_SIZE,
};
use crate::ring::{
    committed, find_slot, find_version, stage_after_spill, stage_in_ring,
    used_slots,
};
use vstd::prelude::*;

verus! {

/// The index of the root config page.
pub const RESERVED_CONFIG_PAGE_INDEX: u64 = 0;

/// The allocator's state in memory. `config` mirrors record 0 of the root
/// config page as last committed; the rest runs ahead of it until the next
/// commit.
pub struct PageManager {
    pub config: MemoryLayout,
    /// The highest page index ever handed out fresh.
    pub last_used_page: u64,
    /// Recycled page indices ready for reuse, served from the front.
    pub recycled_pages: Vec<u64>,
    /// The free-list page that `recycled_pages` was loaded from.
    pub recycled_pages_page: u64,
    /// The capacity of the store in pages.
    pub total_allocated_pages: u64,
    /// Pages recycled since the last commit; reusable after the next one.
    pub pending_recycled: Vec<u64>,
}

impl PageManager {
    /// Bounds every manager keeps: page counts fit the 48-bit fields.
    pub open spec fn wf(&self) -> bool {
        &&& self.last_used_page <= 0xFFFF_FFFF_FFFF
        &&& self.total_allocated_pages <= 0xFFFF_FFFF_FFFF
        &&& no_zero(self.recycled_pages@)
        &&& no_zero(self.pending_recycled@)
    }

    /// What serving `num` pages takes from the recycled pages.
    pub open spec fn reuse_plan(&self, mem: Seq<u8>, num: nat, reuse: bool) -> Option<
        (Seq<u64>, Seq<u64>, u64),
    > {
        if reuse {
            take_recycled(mem, self.recycled_pages@, self.recycled_pages_page, num, page_count(mem))
        } else {
            Some((Seq::empty(), self.recycled_pages@, self.recycled_pages_page))
        }
    }

    /// How many pages a commit reserves: the staging page, and a copy page
    /// when the root's ring is full.
    pub open spec fn commit_reserves(mem: Seq<u8>) -> nat {
        if record_at(page_of(mem, 0), 0).offset >= RECORDS_PER_PAGE {
            2
        } else {
            1
        }
    }

    /// A commit cannot fail from here: the root and the recycled list's head
    /// page are in the store; the recycled pages serve the pages a commit
    /// reserves without walking down the chain; as many more fresh pages
    /// stay under the capacity, which the store holds; and every recycled or
    /// pending page lies in the store.
    pub open spec fn commit_can_proceed(&self, mem: Seq<u8>) -> bool {
        let n = Self::commit_reserves(mem);
        &&& has_page(mem, 0)
        &&& has_page(mem, self.recycled_pages_page as int)
        &&& self.recycled_pages@.len() >= n || next_of(page_of(mem, self.recycled_pages_page as int)) == 0
        &&& self.last_used_page + n < self.total_allocated_pages
        &&& self.total_allocated_pages <= page_count(mem)
        &&& forall|i: int|
            0 <= i < self.recycled_pages@.len() ==> self.recycled_pages@[i] < page_count(mem)
        &&& forall|i: int|
            0 <= i < self.pending_recycled@.len() ==> self.pending_recycled@[i] < page_count(mem)
    }

    /// What a commit from this state does, when it succeeds: the staging
    /// page and, when the ring is full, the copy page are reserved as
    /// `get_free_pages(1, true)` would serve them; the recycled pages left,
    /// the pending pages and the staging page are then joined and persisted.
    /// Gives the high-water mark, recycled buffer and head after the commit,
    /// the copy page, and the pages the new chain is written on.
    pub open spec fn commit_plan(&self, mem: Seq<u8>) -> Option<(u64, Seq<u64>, u64, u64, Seq<u64>)> {
        let spill = record_at(page_of(mem, 0), 0).offset >= RECORDS_PER_PAGE;
        match draw(
            mem,
            self.total_allocated_pages,
            self.last_used_page,
            self.recycled_pages@,
            self.recycled_pages_page,
            1,
        ) {
            None => None,
            Some((p1, l1, b1, h1)) => {
                let second = if spill {
                    draw(mem, self.total_allocated_pages, l1, b1, h1, 1)
                } else {
                    Some((seq![0u64], l1, b1, h1))
                };
                match second {
                    None => None,
                    Some((p2, l2, b2, h2)) => {
                        let merged = b2 + self.pending_recycled@ + seq![p1[0]];
                        let on_disk = recycled_list(page_of(mem, h2 as int));
                        let (nb, nh) = persist_plan(merged, on_disk, h2);
                        Some((l2, nb, nh, p2[0], chain_pages(merged, on_disk)))
                    },
                }
            },
        }
    }

    /// Whether `m` more fresh pages would reach the capacity.
    pub open spec fn out_of_pages(&self, m: nat) -> bool {
        m > 0 && self.last_used_page + m >= self.total_allocated_pages
    }

    /// The fresh page index at which the capacity is reached.
    pub open spec fn exhausted_at(&self) -> u64 {
        if self.last_used_page + 1 >= self.total_allocated_pages {
            (self.last_used_page + 1) as u64
        } else {
            self.total_allocated_pages
        }
    }

    /// The state a manager starts from over a root record `r0`, with the
    /// recycled list `buf` loaded from its head page.
    pub open spec fn loaded(self, r0: MemoryLayout, buf: Seq<u64>) -> bool {
        &&& self.config == r0
        &&& self.last_used_page == r0.last_used_page
        &&& self.recycled_pages_page == r0.recycled_pages_list
        &&& self.total_allocated_pages == r0.total_allocated_pages
        &&& self.recycled_pages@ == buf
        &&& self.pending_recycled@ == Seq::<u64>::empty()
    }

    /// Opens the allocator over `memory`. A store whose root records no
    /// pages is initialized: one page, which must lie in the store, is reserved
    /// for the recycled list, which starts empty, and version 1 is written to the
    /// root. Otherwise the state is read from
    /// the root's record 0 and the head page of its recycled list.
    pub fn new(memory: &mut [u8], num_pages: u64) -> (r: Result<PageManager, PageError>)
        requires
            num_pages <= 0xFFFF_FFFF_FFFF,
        ensures
            ({
                let mem = old(memory)@;
                let r0 = record_at(page_of(mem, 0), 0);
                let fresh = MemoryLayout {
                    total_allocated_pages: num_pages,
                    version_number: 1,
                    last_used_page: 1,
                    recycled_pages_list: 1,
                    previous_config_page: 0,
                    offset: 1,
                };
                if !has_page(mem, 0) {
                    r == Err::<PageManager, PageError>(PageError::PageOutOfRange { index: 0 })
                        && final(memory)@ == mem
                } else if r0.total_allocated_pages == 0 {
                    if r0.last_used_page != 0 || r0.recycled_pages_list != 0 {
                        r == Err::<PageManager, PageError>(PageError::CorruptBootstrap)
                            && final(memory)@ == mem
                    } else if num_pages <= 1 {
                        r == Err::<PageManager, PageError>(
                            PageError::OutOfPages { total_allocated_pages: num_pages, last_used_page: 1 },
                        ) && final(memory)@ == mem
                    } else if !has_page(mem, 1) {
                        r == Err::<PageManager, PageError>(PageError::PageOutOfRange { index: 1 })
                            && final(memory)@ == mem
                    } else {
                        &&& r is Ok
                        &&& r->Ok_0.wf()
                        &&& r->Ok_0.loaded(fresh, Seq::<u64>::empty())
                        &&& final(memory)@.len() == mem.len()
                        &&& record_at(page_of(final(memory)@, 0), 0) == fresh
                        &&& forall|s: int|
                            1 <= s < RECORDS_PER_PAGE ==> record_at(page_of(final(memory)@, 0), s)
                                == record_at(page_of(mem, 0), s)
                        &&& forall|q: int|
                            has_page(mem, q) && q != 0 ==> page_of(final(memory)@, q) == page_of(mem, q)
                    }
                } else if !has_page(mem, r0.recycled_pages_list as int) {
                    r == Err::<PageManager, PageError>(
                        PageError::PageOutOfRange { index: r0.recycled_pages_list },
                    ) && final(memory)@ == mem
                } else {
                    &&& r is Ok
                    &&& r->Ok_0.wf()
                    &&& r->Ok_0.loaded(r0, recycled_list(page_of(mem, r0.recycled_pages_list as int)))
                    &&& final(memory)@ == mem
                }
            }),
    {
        let root = match load_page(memory, RESERVED_CONFIG_PAGE_INDEX) {
            Ok(p) => p,
            Err(e) => {
                return Err(e);
            },
        };
        let r0 = read_record(&root, 0);
        proof {
            crate::config_page::lemma_field_bound(root@, 0, Field::TotalAllocatedPages);
            crate::config_page::lemma_field_bound(root@, 0, Field::LastUsedPage);
        }
        let mut page_manager = PageManager {
            config: r0,
            last_used_page: r0.last_used_page,
            recycled_pages: Vec::new(),
            recycled_pages_page: r0.recycled_pages_list,
            total_allocated_pages: r0.total_allocated_pages,
            pending_recycled: Vec::new(),
        };
        if r0.total_allocated_pages == 0 {
            if r0.last_used_page != 0 || r0.recycled_pages_list != 0 {
                return Err(PageError::CorruptBootstrap);
            }
            page_manager.total_allocated_pages = num_pages;
            assert(next_of(page_of(memory@, 0)) == 0);
            let first = match page_manager.get_free_pages(memory, 1, true) {
                Ok(v) => v,
                Err(e) => {
                    return Err(e);
                },
            };
            let head = first[0];
            let _head_page = match load_page(memory, head) {
                Ok(p) => p,
                Err(e) => {
                    return Err(e);
                },
            };
            page_manager.recycled_pages_page = head;
            let ghost before = memory@;
            page_manager.consolidate_state_initial(memory);
            page_manager.recycled_pages = Vec::new();
            proof {
                lemma_store_page(before, 0, page_of(memory@, 0));
                lemma_field_limits();
                lemma_stored_fits(Field::RecycledPagesList, 1);
                assert(first@ =~= seq![1u64]);
                assert(head == 1);
            }
        } else {
            let head_page = match load_page(memory, r0.recycled_pages_list) {
                Ok(p) => p,
                Err(e) => {
                    return Err(e);
                },
            };
            page_manager.recycled_pages = read_recycled_list(&head_page);
        }
        Ok(page_manager)
    }

    /// Queues `pending` for reuse after the next commit, leaving `pending`
    /// empty. Index 0 is the root page and cannot be recycled.
    pub fn recyle_pages(&mut self, pending: &mut Vec<u64>)
        requires
            old(self).wf(),
            no_zero(old(pending)@),
        ensures
            final(self).wf(),
            final(self).pending_recycled@ == old(self).pending_recycled@ + old(pending)@,
            final(pending)@ == Seq::<u64>::empty(),
            final(self).config == old(self).config,
            final(self).last_used_page == old(self).last_used_page,
            final(self).recycled_pages == old(self).recycled_pages,
            final(self).recycled_pages_page == old(self).recycled_pages_page,
            final(self).total_allocated_pages == old(self).total_allocated_pages,
    {
        let mut i: usize = 0;
        while i < pending.len()
            invariant
                i <= pending@.len(),
                *pending == *old(pending),
                no_zero(pending@),
                self.pending_recycled@ == old(self).pending_recycled@ + pending@.take(i as int),
                self.config == old(self).config,
                self.last_used_page == old(self).last_used_page,
                self.recycled_pages == old(self).recycled_pages,
                self.recycled_pages_page == old(self).recycled_pages_page,
                self.total_allocated_pages == old(self).total_allocated_pages,
            decreases pending@.len() - i,
        {
            self.pending_recycled.push(pending[i]);
            i = i + 1;
            assert(self.pending_recycled@ =~= old(self).pending_recycled@ + pending@.take(i as int));
        }
        assert(pending@.take(pending@.len() as int) =~= pending@);
        proof {
            assert forall|j: int| 0 <= j < self.pending_recycled@.len() implies self.pending_recycled@[j] != 0 by {
                if j >= old(self).pending_recycled@.len() {
                    assert(self.pending_recycled@[j] == old(pending)@[j - old(self).pending_recycled@.len()]);
                }
            }
        }
        pending.clear();
    }

    /// Writes version 1 of the allocator state into record 0 of the root:
    /// the capacity, the high-water mark and the recycled list's head page,
    /// with no previous config page and the ring's next slot at 1.
    pub fn consolidate_state_initial(&mut self, memory: &mut [u8])
        requires
            has_page(old(memory)@, 0),
            old(self).wf(),
        ensures
            ({
                let written = MemoryLayout {
                    total_allocated_pages: old(self).total_allocated_pages,
                    version_number: 1,
                    last_used_page: old(self).last_used_page,
                    recycled_pages_list: stored(Field::RecycledPagesList, old(self).recycled_pages_page),
                    previous_config_page: 0,
                    offset: 1,
                };
                &&& final(memory)@ == splice(old(memory)@, 0, page_of(final(memory)@, 0))
                &&& page_of(final(memory)@, 0).len() == PAGE_SIZE
                &&& record_at(page_of(final(memory)@, 0), 0) == written
                &&& forall|s: int|
                    1 <= s < RECORDS_PER_PAGE ==> record_at(page_of(final(memory)@, 0), s)
                        == record_at(page_of(old(memory)@, 0), s)
                &&& *final(self) == PageManager { config: written, ..*old(self) }
            }),
    {
        proof {
            lemma_page_count_bound(memory@, 0);
        }
        let mut root = match load_page(memory, RESERVED_CONFIG_PAGE_INDEX) {
            Ok(p) => p,
            Err(_) => {
                return;
            },
        };
        write_field(&mut root, Field::TotalAllocatedPages, self.total_allocated_pages);
        write_field(&mut root, Field::VersionNumber, 1);
        write_field(&mut root, Field::LastUsedPage, self.last_used_page);
        write_field(&mut root, Field::RecycledPagesList, self.recycled_pages_page);
        write_field(&mut root, Field::PreviousConfigPage, 0);
        write_field(&mut root, Field::Offset, 1);
        let _ = store_page(memory, RESERVED_CONFIG_PAGE_INDEX, &root);
        self.config = read_record(&root, 0);
        proof {
            lemma_store_page(old(memory)@, 0, root@);
            lemma_field_limits();
            lemma_stored_fits(Field::TotalAllocatedPages, old(self).total_allocated_pages);
            lemma_stored_fits(Field::VersionNumber, 1);
            lemma_stored_fits(Field::LastUsedPage, old(self).last_used_page);
            lemma_stored_fits(Field::PreviousConfigPage, 0);
            lemma_stored_fits(Field::Offset, 1);
        }
    }

    /// Commits the state as a new version. A page is reserved for staging
    /// the new root, which is assembled in memory: record 0 of the root is
    /// snapshotted into the ring or, when the ring is full, the root is
    /// copied to a second reserved page and a fresh ring links to that copy.
    /// The pending pages and the staging page then join the recycled ones,
    /// and the recycled list is rewritten when it changed. The root page is
    /// overwritten last, so a failure leaves the committed version intact;
    /// the manager is left as it was, too.
    pub fn consolidate_state(&mut self, memory: &mut [u8]) -> (r: Result<(), PageError>)
        requires
            old(self).wf(),
        ensures
            final(self).wf(),
            old(self).commit_can_proceed(old(memory)@) ==> r is Ok,
            r is Err ==> *final(self) == *old(self) && page_of(final(memory)@, 0) == page_of(
                old(memory)@,
                0,
            ),
            r is Ok ==> ({
                let root = page_of(old(memory)@, 0);
                let cur = record_at(root, 0);
                let root2 = page_of(final(memory)@, 0);
                let now = record_at(root2, 0);
                &&& has_page(old(memory)@, 0)
                &&& final(memory)@.len() == old(memory)@.len()
                &&& final(self).config == now
                &&& committed(root, root2)
                &&& now.total_allocated_pages == final(self).total_allocated_pages
                &&& final(self).total_allocated_pages == old(self).total_allocated_pages
                &&& now.last_used_page == final(self).last_used_page
                &&& final(self).last_used_page >= old(self).last_used_page
                &&& now.recycled_pages_list == stored(
                    Field::RecycledPagesList,
                    final(self).recycled_pages_page,
                )
                &&& final(self).pending_recycled@ == Seq::<u64>::empty()
                &&& old(self).commit_plan(old(memory)@) matches Some((l, b, h, cp, ch))
                &&& final(self).last_used_page == l
                &&& final(self).recycled_pages@ == b
                &&& final(self).recycled_pages_page == h
                &&& cur.offset >= RECORDS_PER_PAGE ==> {
                    &&& cp != 0
                    &&& has_page(final(memory)@, cp as int)
                    &&& page_of(final(memory)@, cp as int) == root
                    &&& now.previous_config_page == stored(Field::PreviousConfigPage, cp)
                }
                &&& forall|q: int|
                    has_page(old(memory)@, q) && q != 0 && !(cur.offset >= RECORDS_PER_PAGE && q == cp)
                        && !ch.contains(q as u64) ==> page_of(final(memory)@, q) == page_of(
                        old(memory)@,
                        q,
                    )
                &&& h != 0 && !(cur.offset >= RECORDS_PER_PAGE && h == cp) ==> recycled_list(
                    page_of(final(memory)@, h as int),
                ) == b
            }),
    {
        let root = match load_page(memory, RESERVED_CONFIG_PAGE_INDEX) {
            Ok(p) => p,
            Err(e) => {
                return Err(e);
            },
        };
        let cur = read_record(&root, 0);
        let mut work = PageManager {
            config: self.config,
            last_used_page: self.last_used_page,
            recycled_pages: copy_vec(&self.recycled_pages),
            recycled_pages_page: self.recycled_pages_page,
            total_allocated_pages: self.total_allocated_pages,
            pending_recycled: copy_vec(&self.pending_recycled),
        };
        let first = match work.get_free_pages(memory, 1, true) {
            Ok(v) => v,
            Err(e) => {
                return Err(e);
            },
        };
        let next_cfg = first[0];
        let ghost can = old(self).commit_can_proceed(old(memory)@);
        let ghost npages = page_count(old(memory)@);
        proof {
            if can {
                let buf = old(self).recycled_pages@;
                if buf.len() >= 1 {
                    assert(first@ =~= buf.take(1));
                    assert(work.recycled_pages@ =~= buf.skip(1));
                }
                assert(next_cfg < npages);
                assert(work.recycled_pages_page == old(self).recycled_pages_page);
                assert(work.last_used_page <= old(self).last_used_page + 1);
                assert(record_at(page_of(old(memory)@, 0), 0).offset >= RECORDS_PER_PAGE ==> (
                work.recycled_pages@.len() >= 1 || next_of(
                    page_of(old(memory)@, work.recycled_pages_page as int),
                ) == 0));
                assert(forall|i: int|
                    0 <= i < work.recycled_pages@.len() ==> work.recycled_pages@[i] < npages);
            }
        }
        let spill = cur.offset >= RECORDS_PER_PAGE as u64;
        let mut copy_page: u64 = 0;
        let mut staging = if spill {
            let second = match work.get_free_pages(memory, 1, true) {
                Ok(v) => v,
                Err(e) => {
                    return Err(e);
                },
            };
            copy_page = second[0];
            proof {
                if can {
                    assert(copy_page < npages);
                    assert(forall|i: int|
                        0 <= i < work.recycled_pages@.len() ==> work.recycled_pages@[i] < npages);
                }
            }
            stage_after_spill(&root, copy_page)
        } else {
            stage_in_ring(&root)
        };
        let (buffer, head) = match persist_recycled(
            memory,
            &work.recycled_pages,
            &work.pending_recycled,
            next_cfg,
            work.recycled_pages_page,
        ) {
            Ok(p) => p,
            Err(e) => {
                return Err(e);
            },
        };
        if spill {
            let ghost before = memory@;
            match store_page(memory, copy_page, &root) {
                Ok(()) => {},
                Err(e) => {
                    return Err(e);
                },
            }
            proof {
                lemma_store_page(before, copy_page as int, root@);
            }
        }
        write_field(&mut staging, Field::LastUsedPage, work.last_used_page);
        write_field(&mut staging, Field::RecycledPagesList, head);
        write_field(&mut staging, Field::TotalAllocatedPages, work.total_allocated_pages);
        let ghost before = memory@;
        match store_page(memory, RESERVED_CONFIG_PAGE_INDEX, &staging) {
            Ok(()) => {},
            Err(e) => {
                return Err(e);
            },
        }
        proof {
            lemma_store_page(before, 0, staging@);
            lemma_field_limits();
            lemma_stored_fits(Field::LastUsedPage, work.last_used_page);
            lemma_stored_fits(Field::TotalAllocatedPages, work.total_allocated_pages);
        }
        work.config = read_record(&staging, 0);
        work.recycled_pages = buffer;
        work.recycled_pages_page = head;
        work.pending_recycled = Vec::new();
        *self = work;
        Ok(())
    }

    /// The recycled list that version `version` committed: the list held by
    /// the head page its record names. The record is looked up in the root's
    /// ring, then in the config pages it links back to.
    pub fn get_free_list_page_at(&self, memory: &[u8], version: u64) -> (r: Result<
        Vec<u64>,
        PageError,
    >)
        ensures
            ({
                let mem = memory@;
                let current = record_at(page_of(mem, 0), 0).version_number;
                if !has_page(mem, 0) {
                    r == Err::<Vec<u64>, PageError>(PageError::PageOutOfRange { index: 0 })
                } else if version == 0 || version > current {
                    r == Err::<Vec<u64>, PageError>(PageError::VersionOutOfRange)
                } else {
                    match find_version(mem, 0, version, page_count(mem)) {
                        None => r == Err::<Vec<u64>, PageError>(PageError::VersionOutOfRange),
                        Some(rec) => if has_page(mem, rec.recycled_pages_list as int) {
                            r is Ok && r->Ok_0@ == recycled_list(
                                page_of(mem, rec.recycled_pages_list as int),
                            )
                        } else {
                            r == Err::<Vec<u64>, PageError>(
                                PageError::PageOutOfRange { index: rec.recycled_pages_list },
                            )
                        },
                    }
                }
            }),
    {
        let root = match load_page(memory, RESERVED_CONFIG_PAGE_INDEX) {
            Ok(p) => p,
            Err(e) => {
                return Err(e);
            },
        };
        let current = read_field(&root, 0, Field::VersionNumber);
        if version == 0 || version > current {
            return Err(PageError::VersionOutOfRange);
        }
        let ghost goal = find_version(memory@, 0, version, page_count(memory@));
        let mut index: u64 = RESERVED_CONFIG_PAGE_INDEX;
        let mut page = root;
        let mut fuel: u64 = (memory.len() / PAGE_SIZE) as u64;
        let mut found: Option<MemoryLayout> = None;
        loop
            invariant_except_break
                has_page(memory@, index as int),
                page@ == page_of(memory@, index as int),
                goal == find_version(memory@, index, version, fuel as nat),
                found is None,
            ensures
                goal == found,
            decreases fuel,
        {
            let r0 = read_record(&page, 0);
            let end: u64 = if r0.offset < 1 {
                1
            } else if r0.offset > RECORDS_PER_PAGE as u64 {
                RECORDS_PER_PAGE as u64
            } else {
                r0.offset
            };
            let mut j: u64 = 0;
            while j < end
                invariant_except_break
                    found is None,
                    find_slot(page@, version, 0, end as int) == find_slot(page@, version, j as int, end as int),
                invariant
                    j <= end <= RECORDS_PER_PAGE,
                    end == used_slots(r0),
                    r0 == record_at(page@, 0),
                    page@.len() == PAGE_SIZE,
                ensures
                    found is None ==> find_slot(page@, version, 0, end as int) is None,
                    found is Some ==> (find_slot(page@, version, 0, end as int) matches Some(k)
                        && found == Some(record_at(page@, k))),
                decreases end - j,
            {
                let v = read_field(&page, j as usize, Field::VersionNumber);
                if v == version {
                    found = Some(read_record(&page, j as usize));
                    break;
                }
                j = j + 1;
            }
            if found.is_some() {
                break;
            }
            if r0.previous_config_page == 0 || fuel == 0 {
                break;
            }
            let next = r0.previous_config_page;
            page = match load_page(memory, next) {
                Ok(p) => p,
                Err(_) => {
                    assert(find_version(memory@, next, version, (fuel - 1) as nat) is None);
                    break;
                },
            };
            index = next;
            fuel = fuel - 1;
        }
        match found {
            None => Err(PageError::VersionOutOfRange),
            Some(rec) => {
                let list_page = match load_page(memory, rec.recycled_pages_list) {
                    Ok(p) => p,
                    Err(e) => {
                        return Err(e);
                    },
                };
                Ok(read_recycled_list(&list_page))
            },
        }
    }

    /// Hands out `num` pages: recycled ones first when `reuse_pages` is set,
    /// oldest first, then fresh ones above the high-water mark.
    pub fn get_free_pages(&mut self, memory: &[u8], num: u64, reuse_pages: bool) -> (r: Result<
        Vec<u64>,
        PageError,
    >)
        requires
            old(self).wf(),
        ensures
            final(self).wf(),
            final(self).last_used_page >= old(self).last_used_page,
            match old(self).reuse_plan(memory@, num as nat, reuse_pages) {
                None => r == Err::<Vec<u64>, PageError>(PageError::RecycledChainInconsistent)
                    && *final(self) == *old(self),
                Some((t, b, h)) => {
                    let m = (num - t.len()) as nat;
                    if old(self).out_of_pages(m) {
                        &&& r == Err::<Vec<u64>, PageError>(
                            PageError::OutOfPages {
                                total_allocated_pages: old(self).total_allocated_pages,
                                last_used_page: old(self).exhausted_at(),
                            },
                        )
                        &&& *final(self) == *old(self)
                    } else {
                        &&& r is Ok
                        &&& r->Ok_0@ == t + fresh_run(old(self).last_used_page, m)
                        &&& no_zero(r->Ok_0@)
                        &&& final(self).recycled_pages@ == b
                        &&& final(self).recycled_pages_page == h
                        &&& final(self).last_used_page == old(self).last_used_page + m
                        &&& final(self).total_allocated_pages == old(self).total_allocated_pages
                        &&& final(self).pending_recycled == old(self).pending_recycled
                        &&& final(self).config == old(self).config
                    }
                },
            },
    {
        let ghost plan = old(self).reuse_plan(memory@, num as nat, reuse_pages);
        proof {
            if reuse_pages {
                lemma_take_recycled_no_zero(
                    memory@,
                    old(self).recycled_pages@,
                    old(self).recycled_pages_page,
                    num as nat,
                    page_count(memory@),
                );
            }
        }
        let mut out: Vec<u64> = Vec::new();
        let mut buf: Vec<u64> = copy_vec(&self.recycled_pages);
        let mut head: u64 = self.recycled_pages_page;
        if reuse_pages {
            let mut fuel: u64 = (memory.len() / PAGE_SIZE) as u64;
            let mut broken = false;
            loop
                invariant_except_break
                    out@.len() <= num,
                    plan == served_after(
                        out@,
                        take_recycled(memory@, buf@, head, (num - out@.len()) as nat, fuel as nat),
                    ),
                    !broken,
                invariant
                    *self == *old(self),
                    self.wf(),
                ensures
                    out@.len() <= num,
                    broken ==> plan is None,
                    !broken ==> plan == Some((out@, buf@, head)),
                decreases fuel,
            {
                let need: u64 = num - out.len() as u64;
                if need <= buf.len() as u64 {
                    extend_range(&mut out, &buf, 0, need as usize);
                    let mut rest: Vec<u64> = Vec::new();
                    extend_range(&mut rest, &buf, need as usize, buf.len());
                    proof {
                        assert(buf@.subrange(0, need as int) =~= buf@.take(need as int));
                        assert(rest@ =~= buf@.skip(need as int));
                        }
                    buf = rest;
                    break ;
                }
                let ghost out0 = out@;
                let ghost buf0 = buf@;
                extend_range(&mut out, &buf, 0, buf.len());
                assert(buf0.subrange(0, buf0.len() as int) =~= buf0);
                buf = Vec::new();
                let page = match load_page(memory, head) {
                    Ok(p) => p,
                    Err(_) => {
                        assert(take_recycled(memory@, buf0, head, need as nat, fuel as nat) is None);
                        broken = true;
                        break ;
                    },
                };
                let next = read_next(&page);
                if next == 0 {
                    assert(buf@ =~= Seq::<u64>::empty());
                    break ;
                }
                if fuel == 0 {
                    broken = true;
                    break ;
                }
                let next_page = match load_page(memory, next) {
                    Ok(p) => p,
                    Err(_) => {
                        assert(take_recycled(memory@, buf0, head, need as nat, fuel as nat) is None);
                        broken = true;
                        break ;
                    },
                };
                buf = read_recycled_list(&next_page);
                head = next;
                fuel = fuel - 1;
                proof {
                    let r = take_recycled(memory@, buf@, head, (num - out@.len()) as nat, fuel as nat);
                    match r {
                        Some((t, b, h)) => {
                            assert(out0 + (buf0 + t) =~= out@ + t);
                        },
                        None => {},
                    }
                }
            }
            if broken {
                return Err(PageError::RecycledChainInconsistent);
            }
        }
        let m: u64 = num - out.len() as u64;
        if m > 0 && (self.last_used_page >= self.total_allocated_pages || m
            >= self.total_allocated_pages - self.last_used_page) {
            let at = if self.last_used_page + 1 >= self.total_allocated_pages {
                self.last_used_page + 1
            } else {
                self.total_allocated_pages
            };
            return Err(
                PageError::OutOfPages {
                    total_allocated_pages: self.total_allocated_pages,
                    last_used_page: at,
                },
            );
        }
        let ghost t = out@;
        let mut i: u64 = 0;
        while i < m
            invariant
                i <= m,
                no_zero(t),
                no_zero(out@),
                m == num - t.len(),
                old(self).last_used_page + m < old(self).total_allocated_pages || m == 0,
                self.last_used_page == old(self).last_used_page,
                out@ == t + fresh_run(self.last_used_page, i as nat),
            decreases m - i,
        {
            out.push(self.last_used_page + 1 + i);
            proof {
                assert forall|j: int| 0 <= j < out@.len() implies out@[j] != 0 by {
                    if j < out@.len() - 1 {
                        assert(out@[j] == out@.drop_last()[j]);
                    }
                }
            }
            i = i + 1;
            assert(out@ =~= t + fresh_run(self.last_used_page, i as nat));
        }
        self.recycled_pages = buf;
        self.recycled_pages_page = head;
        self.last_used_page = self.last_used_page + m;
        Ok(out)
    }
}

} // verus!

//! The ring of header records in the root config page: how a commit stages
//! the next version, how versions are looked up, and the order the ring
//! keeps.
use crate::config_page::{
    copy_record0, lemma_field_limits, lemma_stored_fits, read_field, record_at, stored,
    write_field, Field, MemoryLayout, RECORDS_PER_PAGE, RECORD_SIZE,
};
use crate::page::{copy_between, has_page, page_of, PAGE_SIZE};
use vstd::prelude::*;

verus! {

/// The first slot in `from..end` of the config page `page` whose record
/// has version `version`.
pub open spec fn find_slot(page: Seq<u8>, version: u64, from: int, end: int) -> Option<int>
    decreases end - from,
{
    if from >= end {
        None
    } else if record_at(page, from).version_number == version {
        Some(from)
    } else {
        find_slot(page, version, from + 1, end)
    }
}

/// How many slots of a config page whose record 0 is `r0` hold records:
/// those below its offset, and at least record 0.
pub open spec fn used_slots(r0: MemoryLayout) -> int {
    if r0.offset < 1 {
        1
    } else if r0.offset > RECORDS_PER_PAGE {
        RECORDS_PER_PAGE as int
    } else {
        r0.offset as int
    }
}

/// The record of version `version`, looked up in the config page `index`
/// and then in the pages that it links back to, at most `fuel` links.
pub open spec fn find_version(mem: Seq<u8>, index: u64, version: u64, fuel: nat) -> Option<
    MemoryLayout,
>
    decreases fuel,
{
    if !has_page(mem, index as int) {
        None
    } else {
        let page = page_of(mem, index as int);
        let r0 = record_at(page, 0);
        match find_slot(page, version, 0, used_slots(r0)) {
            Some(j) => Some(record_at(page, j)),
            None => if r0.previous_config_page == 0 || fuel == 0 {
                None
            } else {
                find_version(mem, r0.previous_config_page, version, (fuel - 1) as nat)
            },
        }
    }
}

/// A record with every field zero: an unused ring slot.
pub open spec fn empty_record() -> MemoryLayout {
    MemoryLayout {
        total_allocated_pages: 0,
        version_number: 0,
        last_used_page: 0,
        recycled_pages_list: 0,
        previous_config_page: 0,
        offset: 0,
    }
}

/// Stages the next version inside the current ring: record 0 is
/// snapshotted into slot `offset`, then record 0 takes the next offset and
/// version.
pub fn stage_in_ring(root: &[u8; 4096]) -> (r: [u8; 4096])
    requires
        record_at(root@, 0).offset < RECORDS_PER_PAGE,
    ensures
        ({
            let cur = record_at(root@, 0);
            &&& record_at(r@, 0) == cur.with(Field::Offset, (cur.offset + 1) as u64).with(
                Field::VersionNumber,
                stored(Field::VersionNumber, (cur.version_number + 1) as u64),
            )
            &&& cur.offset >= 1 ==> record_at(r@, cur.offset as int) == cur
            &&& forall|s: int|
                1 <= s < RECORDS_PER_PAGE && s != cur.offset ==> record_at(r@, s) == record_at(
                    root@,
                    s,
                )
        }),
{
    let ghost cur = record_at(root@, 0);
    let mut staging: [u8; 4096] = *root;
    let off = read_field(&staging, 0, Field::Offset);
    let version = read_field(&staging, 0, Field::VersionNumber);
    proof {
        crate::config_page::lemma_field_bound(root@, 0, Field::VersionNumber);
        lemma_field_limits();
    }
    if off >= 1 {
        copy_record0(&mut staging, off as usize);
    }
    write_field(&mut staging, Field::Offset, off + 1);
    write_field(&mut staging, Field::VersionNumber, version + 1);
    proof {
        lemma_stored_fits(Field::Offset, (off + 1) as u64);
    }
    staging
}

/// Stages the next version on a fresh ring, once the current one is full
/// and has been copied to page `copy_page`: record 1 is the current record
/// 0 re-linked to that copy, record 0 follows it with the next version, and
/// the rest of the ring is empty.
pub fn stage_after_spill(root: &[u8; 4096], copy_page: u64) -> (r: [u8; 4096])
    ensures
        ({
            let cur = record_at(root@, 0);
            let linked = cur.with(Field::Offset, 1).with(
                Field::PreviousConfigPage,
                stored(Field::PreviousConfigPage, copy_page),
            );
            &&& record_at(r@, 0) == linked.with(Field::Offset, 2).with(
                Field::VersionNumber,
                stored(Field::VersionNumber, (cur.version_number + 1) as u64),
            )
            &&& record_at(r@, 1) == linked
            &&& forall|s: int| 2 <= s < RECORDS_PER_PAGE ==> record_at(r@, s) == empty_record()
        }),
{
    let mut staging = [0u8; 4096];
    copy_between(&mut staging, 0, root, 0, RECORD_SIZE);
    proof {
        assert(staging@.subrange(0, RECORD_SIZE as int) =~= root@.subrange(0, RECORD_SIZE as int));
        crate::config_page::lemma_same_header(staging@, root@);
        assert forall|s: int| 1 <= s < RECORDS_PER_PAGE implies record_at(staging@, s) == empty_record() by {
            crate::config_page::lemma_zero_record(staging@, s);
        }
    }
    let version = read_field(&staging, 0, Field::VersionNumber);
    proof {
        crate::config_page::lemma_field_bound(root@, 0, Field::VersionNumber);
        lemma_field_limits();
        lemma_stored_fits(Field::Offset, 1);
        lemma_stored_fits(Field::Offset, 2);
    }
    write_field(&mut staging, Field::Offset, 1);
    write_field(&mut staging, Field::PreviousConfigPage, copy_page);
    copy_record0(&mut staging, 1);
    write_field(&mut staging, Field::Offset, 2);
    write_field(&mut staging, Field::VersionNumber, version + 1);
    staging
}

/// How a commit turns the root config page `root` into `root2`. With room
/// in the ring, record 0 is snapshotted into the slot its offset names and
/// every other slot is kept; with the ring full, slot 1 holds the old record
/// 0 relinked to the copy of the old page, and the rest of the ring is
/// empty. Either way record 0 carries the next version.
pub open spec fn committed(root: Seq<u8>, root2: Seq<u8>) -> bool {
    let cur = record_at(root, 0);
    let now = record_at(root2, 0);
    &&& now.version_number == stored(Field::VersionNumber, (cur.version_number + 1) as u64)
    &&& cur.offset < RECORDS_PER_PAGE ==> {
        &&& now.offset == cur.offset + 1
        &&& now.previous_config_page == cur.previous_config_page
        &&& cur.offset >= 1 ==> record_at(root2, cur.offset as int) == cur
        &&& forall|s: int|
            1 <= s < RECORDS_PER_PAGE && s != cur.offset ==> record_at(root2, s) == record_at(
                root,
                s,
            )
    }
    &&& cur.offset >= RECORDS_PER_PAGE ==> {
        &&& now.offset == 2
        &&& record_at(root2, 1) == cur.with(Field::Offset, 1).with(
            Field::PreviousConfigPage,
            now.previous_config_page,
        )
        &&& forall|s: int| 2 <= s < RECORDS_PER_PAGE ==> record_at(root2, s) == empty_record()
    }
}

/// The ring of a config page is in order: record 0 holds the newest
/// version `V`, and each slot `j` below the offset `n` holds version
/// `V - n + j`, oldest first.
pub open spec fn ring_ordered(page: Seq<u8>) -> bool {
    let r0 = record_at(page, 0);
    &&& 1 <= r0.offset <= RECORDS_PER_PAGE
    &&& forall|j: int|
        1 <= j < r0.offset ==> record_at(page, j).version_number == r0.version_number - r0.offset
            + j
}

/// A freshly initialized root, holding version 1 with the ring's next slot
/// at 1, is in order.
pub proof fn lemma_initial_ring_ordered(page: Seq<u8>)
    requires
        record_at(page, 0).version_number == 1,
        record_at(page, 0).offset == 1,
    ensures
        ring_ordered(page),
{
}

/// A commit keeps the ring in order, as long as the next version still fits
/// the 40-bit version field: the old record 0 lands in the ring's next slot,
/// or, when the ring is full, becomes slot 1 of a fresh ring.
pub proof fn lemma_commit_keeps_ring_ordered(root: Seq<u8>, root2: Seq<u8>)
    requires
        root.len() == PAGE_SIZE,
        ring_ordered(root),
        committed(root, root2),
        record_at(root, 0).version_number + 1 < 0x100_0000_0000,
    ensures
        ring_ordered(root2),
        record_at(root2, 0).version_number == record_at(root, 0).version_number + 1,
{
    let cur = record_at(root, 0);
    lemma_field_limits();
    lemma_stored_fits(Field::VersionNumber, (cur.version_number + 1) as u64);
}

/// In an ordered ring, record 0 holds the newest version and record `v`
/// holds the version `v` commits after the oldest one in this page.
pub proof fn lemma_ring_versions(page: Seq<u8>, v: int)
    requires
        ring_ordered(page),
        0 <= v < record_at(page, 0).offset,
    ensures
        v == 0 ==> record_at(page, v).version_number == record_at(page, 0).version_number,
        v >= 1 ==> record_at(page, v).version_number == record_at(page, 0).version_number
            - record_at(page, 0).offset + v,
{
}

/// Record `v` of an ordered ring holds version `V - v`, `V` being the
/// version of record 0, exactly when `v` is 0 or the ring's offset is `2v`:
/// below record 0 the ring runs oldest first.
pub proof fn lemma_version_at_distance(page: Seq<u8>, v: int)
    requires
        ring_ordered(page),
        0 <= v < record_at(page, 0).offset,
    ensures
        (record_at(page, v).version_number == record_at(page, 0).version_number - v) <==> (v == 0
            || record_at(page, 0).offset == 2 * v),
{
}

} // verus!

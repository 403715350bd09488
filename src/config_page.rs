//! The configuration page: a ring of up to 128 header records of 32 bytes,
//! each holding one committed state of the allocator. Record 0 is the live
//! one; older snapshots follow it.
use crate::le_bytes::{
    le_bytes, le_nat, lemma_le_bytes_len, lemma_le_nat_bound, lemma_le_round_trip, pow256,
    read_le, splice, write_le,
};
use crate::page::PAGE_SIZE;
use vstd::prelude::*;

verus! {

pub const RECORD_SIZE: usize = 32;

pub const RECORDS_PER_PAGE: usize = 128;

/// The fields of a header record, each stored little-endian at a fixed
/// place in the record.
#[derive(Copy, Clone, PartialEq, Eq, Structural, Debug)]
pub enum Field {
    TotalAllocatedPages,
    VersionNumber,
    LastUsedPage,
    RecycledPagesList,
    PreviousConfigPage,
    Offset,
}

impl Field {
    pub open spec fn spec_start(self) -> nat {
        match self {
            Field::TotalAllocatedPages => 0,
            Field::VersionNumber => 6,
            Field::LastUsedPage => 11,
            Field::RecycledPagesList => 17,
            Field::PreviousConfigPage => 23,
            Field::Offset => 29,
        }
    }

    pub open spec fn spec_width(self) -> nat {
        match self {
            Field::TotalAllocatedPages => 6,
            Field::VersionNumber => 5,
            Field::LastUsedPage => 6,
            Field::RecycledPagesList => 6,
            Field::PreviousConfigPage => 6,
            Field::Offset => 3,
        }
    }

    /// Where the field starts inside its record.
    pub fn start(&self) -> (r: usize)
        ensures
            r == self.spec_start(),
    {
        match self {
            Field::TotalAllocatedPages => 0,
            Field::VersionNumber => 6,
            Field::LastUsedPage => 11,
            Field::RecycledPagesList => 17,
            Field::PreviousConfigPage => 23,
            Field::Offset => 29,
        }
    }

    /// How many bytes the field takes.
    pub fn width(&self) -> (r: usize)
        ensures
            r == self.spec_width(),
    {
        match self {
            Field::TotalAllocatedPages => 6,
            Field::VersionNumber => 5,
            Field::LastUsedPage => 6,
            Field::RecycledPagesList => 6,
            Field::PreviousConfigPage => 6,
            Field::Offset => 3,
        }
    }
}

/// The value of field `f` of record `slot` in the config page `page`.
pub open spec fn field_at(page: Seq<u8>, slot: int, f: Field) -> nat {
    let pos = slot * RECORD_SIZE as int + f.spec_start();
    le_nat(page.subrange(pos, pos + f.spec_width()))
}

/// A header record with every field widened to 64 bits.
#[derive(Copy, Clone, Debug, Default, PartialEq, Eq, Structural)]
pub struct MemoryLayout {
    pub total_allocated_pages: u64,
    pub version_number: u64,
    pub last_used_page: u64,
    pub recycled_pages_list: u64,
    pub previous_config_page: u64,
    pub offset: u64,
}

impl MemoryLayout {
    pub open spec fn get(self, f: Field) -> u64 {
        match f {
            Field::TotalAllocatedPages => self.total_allocated_pages,
            Field::VersionNumber => self.version_number,
            Field::LastUsedPage => self.last_used_page,
            Field::RecycledPagesList => self.recycled_pages_list,
            Field::PreviousConfigPage => self.previous_config_page,
            Field::Offset => self.offset,
        }
    }

    /// This record with field `f` set to `v`.
    pub open spec fn with(self, f: Field, v: u64) -> MemoryLayout {
        match f {
            Field::TotalAllocatedPages => MemoryLayout { total_allocated_pages: v, ..self },
            Field::VersionNumber => MemoryLayout { version_number: v, ..self },
            Field::LastUsedPage => MemoryLayout { last_used_page: v, ..self },
            Field::RecycledPagesList => MemoryLayout { recycled_pages_list: v, ..self },
            Field::PreviousConfigPage => MemoryLayout { previous_config_page: v, ..self },
            Field::Offset => MemoryLayout { offset: v, ..self },
        }
    }
}

impl MemoryLayout {
    /// The six fields as 64-bit little-endian integers, one after another.
    pub fn to_bytes(&self) -> (r: Vec<u8>)
        ensures
            r@ == le_bytes(self.total_allocated_pages as nat, 8) + le_bytes(
                self.version_number as nat,
                8,
            ) + le_bytes(self.last_used_page as nat, 8) + le_bytes(
                self.recycled_pages_list as nat,
                8,
            ) + le_bytes(self.previous_config_page as nat, 8) + le_bytes(self.offset as nat, 8),
    {
        let mut result: Vec<u8> = Vec::new();
        push_u64_le(&mut result, self.total_allocated_pages);
        push_u64_le(&mut result, self.version_number);
        push_u64_le(&mut result, self.last_used_page);
        push_u64_le(&mut result, self.recycled_pages_list);
        push_u64_le(&mut result, self.previous_config_page);
        push_u64_le(&mut result, self.offset);
        result
    }

    /// Record `version` of `config_page`, read as a slot index of its ring;
    /// `None` when the page has no such slot.
    pub fn from_bytes_at(config_page: &ConfigPage, version: u64) -> (r: Option<Self>)
        requires
            config_page.wf(),
        ensures
            r is Some <==> version < RECORDS_PER_PAGE,
            r is Some ==> r->Some_0 == config_page.record(version as int),
    {
        if version >= RECORDS_PER_PAGE as u64 {
            return None;
        }
        Some(read_record(config_page.data, version as usize))
    }
}

/// Appends the eight little-endian bytes of `x`.
fn push_u64_le(v: &mut Vec<u8>, x: u64)
    ensures
        final(v)@ == old(v)@ + le_bytes(x as nat, 8),
{
    let bytes = crate::le_bytes::write_u64_le(x);
    proof {
        lemma_le_bytes_len(x as nat, 8);
    }
    let mut i: usize = 0;
    while i < 8
        invariant
            i <= 8,
            bytes@ == le_bytes(x as nat, 8),
            bytes@.len() == 8,
            v@ == old(v)@ + bytes@.subrange(0, i as int),
        decreases 8 - i,
    {
        v.push(bytes[i]);
        i = i + 1;
        assert(v@ =~= old(v)@ + bytes@.subrange(0, i as int));
    }
    assert(bytes@.subrange(0, 8) =~= bytes@);
}

/// Reads the whole record `slot` of a config page.
pub fn read_record(page: &[u8], slot: usize) -> (r: MemoryLayout)
    requires
        page@.len() == PAGE_SIZE,
        slot < RECORDS_PER_PAGE,
    ensures
        r == record_at(page@, slot as int),
{
    MemoryLayout {
        total_allocated_pages: read_field(page, slot, Field::TotalAllocatedPages),
        version_number: read_field(page, slot, Field::VersionNumber),
        last_used_page: read_field(page, slot, Field::LastUsedPage),
        recycled_pages_list: read_field(page, slot, Field::RecycledPagesList),
        previous_config_page: read_field(page, slot, Field::PreviousConfigPage),
        offset: read_field(page, slot, Field::Offset),
    }
}

/// Record `slot` of the config page `page`.
pub open spec fn record_at(page: Seq<u8>, slot: int) -> MemoryLayout {
    MemoryLayout {
        total_allocated_pages: field_at(page, slot, Field::TotalAllocatedPages) as u64,
        version_number: field_at(page, slot, Field::VersionNumber) as u64,
        last_used_page: field_at(page, slot, Field::LastUsedPage) as u64,
        recycled_pages_list: field_at(page, slot, Field::RecycledPagesList) as u64,
        previous_config_page: field_at(page, slot, Field::PreviousConfigPage) as u64,
        offset: field_at(page, slot, Field::Offset) as u64,
    }
}

/// What a field keeps of a value written into it: its low-order bytes.
pub open spec fn stored(f: Field, v: u64) -> u64 {
    (v as nat % pow256(f.spec_width())) as u64
}

/// The sizes of the three field widths.
pub proof fn lemma_field_limits()
    ensures
        pow256(6) == 0x1_0000_0000_0000,
        pow256(5) == 0x100_0000_0000,
        pow256(3) == 0x100_0000,
{
    reveal_with_fuel(pow256, 7);
}

/// A value that fits a field is stored whole.
pub proof fn lemma_stored_fits(f: Field, v: u64)
    requires
        v < pow256(f.spec_width()),
    ensures
        stored(f, v) == v,
{
    vstd::arithmetic::div_mod::lemma_small_mod(v as nat, pow256(f.spec_width()));
}

pub proof fn lemma_field_bound(page: Seq<u8>, slot: int, f: Field)
    requires
        0 <= slot < RECORDS_PER_PAGE,
        page.len() == PAGE_SIZE,
    ensures
        field_at(page, slot, f) < pow256(f.spec_width()),
        field_at(page, slot, f) < 0x1_0000_0000_0000,
        record_at(page, slot).get(f) == field_at(page, slot, f),
{
    let pos = slot * RECORD_SIZE as int + f.spec_start();
    lemma_le_nat_bound(page.subrange(pos, pos + f.spec_width()));
    reveal_with_fuel(pow256, 7);
}

pub proof fn lemma_splice_outside(s: Seq<u8>, pos: int, t: Seq<u8>, a: int, b: int)
    requires
        0 <= pos,
        pos + t.len() <= s.len(),
        0 <= a <= b <= s.len(),
        b <= pos || pos + t.len() <= a,
    ensures
        splice(s, pos, t).subrange(a, b) == s.subrange(a, b),
{
    assert(splice(s, pos, t).subrange(a, b) =~= s.subrange(a, b));
}

pub proof fn lemma_splice_inside(s: Seq<u8>, pos: int, t: Seq<u8>)
    requires
        0 <= pos,
        pos + t.len() <= s.len(),
    ensures
        splice(s, pos, t).subrange(pos, pos + t.len()) == t,
        splice(s, pos, t).len() == s.len(),
{
    assert(splice(s, pos, t).subrange(pos, pos + t.len()) =~= t);
}

/// Two records whose fields all agree are equal.
pub proof fn lemma_same_fields(a: Seq<u8>, sa: int, b: Seq<u8>, sb: int)
    requires
        forall|g: Field| #[trigger] field_at(a, sa, g) == field_at(b, sb, g),
    ensures
        record_at(a, sa) == record_at(b, sb),
{
    assert(field_at(a, sa, Field::TotalAllocatedPages) == field_at(b, sb, Field::TotalAllocatedPages));
    assert(field_at(a, sa, Field::VersionNumber) == field_at(b, sb, Field::VersionNumber));
    assert(field_at(a, sa, Field::LastUsedPage) == field_at(b, sb, Field::LastUsedPage));
    assert(field_at(a, sa, Field::RecycledPagesList) == field_at(b, sb, Field::RecycledPagesList));
    assert(field_at(a, sa, Field::PreviousConfigPage) == field_at(b, sb, Field::PreviousConfigPage));
    assert(field_at(a, sa, Field::Offset) == field_at(b, sb, Field::Offset));
}

/// Setting field `f` of record 0 to `v` stores `v`'s low-order bytes there
/// and leaves every other field of every record as it was.
pub proof fn lemma_set_field(page: Seq<u8>, f: Field, v: u64)
    requires
        page.len() == PAGE_SIZE,
    ensures
        ({
            let updated = splice(page, f.spec_start() as int, le_bytes(v as nat, f.spec_width()));
            &&& updated.len() == PAGE_SIZE
            &&& record_at(updated, 0) == record_at(page, 0).with(f, stored(f, v))
            &&& forall|s: int| 1 <= s < RECORDS_PER_PAGE ==> record_at(updated, s) == record_at(page, s)
        }),
{
    let t = le_bytes(v as nat, f.spec_width());
    lemma_le_bytes_len(v as nat, f.spec_width());
    let updated = splice(page, f.spec_start() as int, t);
    lemma_splice_inside(page, f.spec_start() as int, t);
    lemma_le_round_trip(v as nat, f.spec_width());
    assert forall|s: int, g: Field| 0 <= s < RECORDS_PER_PAGE && (s != 0 || g != f) implies field_at(
        updated,
        s,
        g,
    ) == field_at(page, s, g) by {
        let a = s * RECORD_SIZE as int + g.spec_start();
        lemma_splice_outside(page, f.spec_start() as int, t, a, a + g.spec_width());
    }
    assert forall|s: int| 1 <= s < RECORDS_PER_PAGE implies record_at(updated, s) == record_at(page, s) by {
        lemma_same_fields(updated, s, page, s);
    }
    assert(field_at(updated, 0, f) == stored(f, v)) by {
        reveal_with_fuel(pow256, 7);
    }
}

/// Writing a value that fits a field and reading the field back gives the
/// value; every other field of every record keeps its value.
pub proof fn lemma_field_round_trip(page: Seq<u8>, f: Field, x: u64)
    requires
        page.len() == PAGE_SIZE,
        x < pow256(f.spec_width()),
    ensures
        ({
            let updated = splice(page, f.spec_start() as int, le_bytes(x as nat, f.spec_width()));
            &&& record_at(updated, 0).get(f) == x
            &&& forall|g: Field| g != f ==> record_at(updated, 0).get(g) == record_at(page, 0).get(g)
            &&& forall|s: int| 1 <= s < RECORDS_PER_PAGE ==> record_at(updated, s) == record_at(page, s)
        }),
{
    lemma_set_field(page, f, x);
    lemma_stored_fits(f, x);
}

/// Copying the 32 bytes of record 0 over record `slot` makes that record
/// equal to record 0 and leaves the others as they were.
pub proof fn lemma_copy_record(page: Seq<u8>, slot: int)
    requires
        page.len() == PAGE_SIZE,
        1 <= slot < RECORDS_PER_PAGE,
    ensures
        ({
            let updated = splice(page, slot * RECORD_SIZE as int, page.subrange(0, RECORD_SIZE as int));
            &&& updated.len() == PAGE_SIZE
            &&& record_at(updated, slot) == record_at(page, 0)
            &&& forall|s: int| 0 <= s < RECORDS_PER_PAGE && s != slot ==> record_at(updated, s) == record_at(page, s)
        }),
{
    let t = page.subrange(0, RECORD_SIZE as int);
    let base = slot * RECORD_SIZE as int;
    let updated = splice(page, base, t);
    lemma_splice_inside(page, base, t);
    assert forall|s: int, g: Field| 0 <= s < RECORDS_PER_PAGE && s != slot implies field_at(updated, s, g)
        == field_at(page, s, g) by {
        let a = s * RECORD_SIZE as int + g.spec_start();
        lemma_splice_outside(page, base, t, a, a + g.spec_width());
    }
    assert forall|g: Field| true implies field_at(updated, slot, g) == field_at(page, 0, g) by {
        let a = base + g.spec_start();
        assert(updated.subrange(a, a + g.spec_width()) =~= page.subrange(
            g.spec_start() as int,
            (g.spec_start() + g.spec_width()) as int,
        ));
    }
    assert forall|s: int| 0 <= s < RECORDS_PER_PAGE && s != slot implies record_at(updated, s) == record_at(page, s) by {
        lemma_same_fields(updated, s, page, s);
    }
    lemma_same_fields(updated, slot, page, 0);
}

/// A record whose bytes are all zero reads as all zero fields.
pub proof fn lemma_zero_record(page: Seq<u8>, slot: int)
    requires
        page.len() == PAGE_SIZE,
        0 <= slot < RECORDS_PER_PAGE,
        forall|i: int| slot * RECORD_SIZE <= i < slot * RECORD_SIZE + RECORD_SIZE ==> page[i] == 0,
    ensures
        record_at(page, slot) == (MemoryLayout {
            total_allocated_pages: 0,
            version_number: 0,
            last_used_page: 0,
            recycled_pages_list: 0,
            previous_config_page: 0,
            offset: 0,
        }),
{
    assert forall|g: Field| true implies field_at(page, slot, g) == 0 by {
        let a = slot * RECORD_SIZE as int + g.spec_start();
        crate::le_bytes::lemma_le_nat_zeros(page.subrange(a, a + g.spec_width()));
    }
}

/// Two pages that agree on the first 32 bytes have the same record 0.
pub proof fn lemma_same_header(a: Seq<u8>, b: Seq<u8>)
    requires
        a.len() == PAGE_SIZE,
        b.len() == PAGE_SIZE,
        a.subrange(0, RECORD_SIZE as int) == b.subrange(0, RECORD_SIZE as int),
    ensures
        record_at(a, 0) == record_at(b, 0),
{
    assert forall|g: Field| true implies field_at(a, 0, g) == field_at(b, 0, g) by {
        let lo = g.spec_start() as int;
        let hi = lo + g.spec_width();
        assert(a.subrange(lo, hi) =~= a.subrange(0, RECORD_SIZE as int).subrange(lo, hi));
        assert(b.subrange(lo, hi) =~= b.subrange(0, RECORD_SIZE as int).subrange(lo, hi));
    }
    lemma_same_fields(a, 0, b, 0);
}

/// Reads field `f` of record `slot` of a config page.
pub fn read_field(page: &[u8], slot: usize, f: Field) -> (r: u64)
    requires
        page@.len() == PAGE_SIZE,
        slot < RECORDS_PER_PAGE,
    ensures
        r == record_at(page@, slot as int).get(f),
        r < 0x1_0000_0000_0000,
{
    let r = read_le(page, slot * RECORD_SIZE + f.start(), f.width());
    proof {
        lemma_field_bound(page@, slot as int, f);
    }
    r
}

/// Writes `v` into field `f` of record 0 of a config page; the field keeps
/// the low-order bytes that fit in it.
pub fn write_field(page: &mut [u8], f: Field, v: u64)
    requires
        old(page)@.len() == PAGE_SIZE,
    ensures
        final(page)@.len() == PAGE_SIZE,
        record_at(final(page)@, 0) == record_at(old(page)@, 0).with(f, stored(f, v)),
        forall|s: int|
            1 <= s < RECORDS_PER_PAGE ==> record_at(final(page)@, s) == record_at(old(page)@, s),
{
    write_le(page, f.start(), f.width(), v);
    proof {
        lemma_set_field(old(page)@, f, v);
    }
}

/// Copies record 0 over record `slot`.
pub fn copy_record0(page: &mut [u8], slot: usize)
    requires
        old(page)@.len() == PAGE_SIZE,
        1 <= slot < RECORDS_PER_PAGE,
    ensures
        final(page)@.len() == PAGE_SIZE,
        record_at(final(page)@, slot as int) == record_at(old(page)@, 0),
        forall|s: int|
            0 <= s < RECORDS_PER_PAGE && s != slot ==> record_at(final(page)@, s) == record_at(
                old(page)@,
                s,
            ),
{
    crate::page::copy_within(page, 0, slot * RECORD_SIZE, RECORD_SIZE);
    proof {
        lemma_copy_record(old(page)@, slot as int);
    }
}

/// A config page: a mutable view of one 4096-byte page of the store.
#[derive(PartialEq)]
pub struct ConfigPage<'a> {
    pub data: &'a mut [u8],
}

impl<'a> ConfigPage<'a> {
    /// Reads a generic page as a config page.
    pub fn from_generic_page(page: crate::generic_page::GenericPage<'a>) -> (r: ConfigPage<'a>)
        ensures
            r.bytes() == page.bytes(),
    {
        ConfigPage { data: page.data }
    }

    pub open spec fn wf(&self) -> bool {
        self.data@.len() == PAGE_SIZE
    }

    pub open spec fn bytes(&self) -> Seq<u8> {
        self.data@
    }

    /// Record `slot` of this page.
    pub open spec fn record(&self, slot: int) -> MemoryLayout {
        record_at(self.data@, slot)
    }

    pub fn get(&self, f: Field) -> (r: u64)
        requires
            self.wf(),
        ensures
            r == self.record(0).get(f),
    {
        read_field(self.data, 0, f)
    }

    /// Field `f` of record `slot`, which must be below 128. Slots at or past
    /// the ring's offset hold zeros or older values.
    pub fn get_at(&self, f: Field, slot: u64) -> (r: u64)
        requires
            self.wf(),
            slot < RECORDS_PER_PAGE,
        ensures
            r == self.record(slot as int).get(f),
    {
        read_field(self.data, slot as usize, f)
    }

    pub fn set(&mut self, f: Field, v: u64)
        requires
            old(self).wf(),
        ensures
            final(self).wf(),
            final(self).record(0) == old(self).record(0).with(f, stored(f, v)),
            forall|s: int| 1 <= s < RECORDS_PER_PAGE ==> final(self).record(s) == old(self).record(s),
    {
        write_field(self.data, f, v)
    }

    pub fn get_total_allocated_pages(&self) -> (r: u64)
        requires
            self.wf(),
        ensures
            r == self.record(0).total_allocated_pages,
    {
        self.get(Field::TotalAllocatedPages)
    }

    pub fn get_total_allocated_pages_at(&self, slot: u64) -> (r: u64)
        requires
            self.wf(),
            slot < RECORDS_PER_PAGE,
        ensures
            r == self.record(slot as int).total_allocated_pages,
    {
        self.get_at(Field::TotalAllocatedPages, slot)
    }

    pub fn set_total_allocated_pages(&mut self, value: u64)
        requires
            old(self).wf(),
        ensures
            final(self).wf(),
            final(self).record(0) == old(self).record(0).with(Field::TotalAllocatedPages, stored(Field::TotalAllocatedPages, value)),
            forall|s: int| 1 <= s < RECORDS_PER_PAGE ==> final(self).record(s) == old(self).record(s),
    {
        self.set(Field::TotalAllocatedPages, value)
    }

    pub fn get_version_number(&self) -> (r: u64)
        requires
            self.wf(),
        ensures
            r == self.record(0).version_number,
    {
        self.get(Field::VersionNumber)
    }

    pub fn get_version_number_at(&self, slot: u64) -> (r: u64)
        requires
            self.wf(),
            slot < RECORDS_PER_PAGE,
        ensures
            r == self.record(slot as int).version_number,
    {
        self.get_at(Field::VersionNumber, slot)
    }

    pub fn set_version_number(&mut self, value: u64)
        requires
            old(self).wf(),
        ensures
            final(self).wf(),
            final(self).record(0) == old(self).record(0).with(Field::VersionNumber, stored(Field::VersionNumber, value)),
            forall|s: int| 1 <= s < RECORDS_PER_PAGE ==> final(self).record(s) == old(self).record(s),
    {
        self.set(Field::VersionNumber, value)
    }

    pub fn get_last_used_page(&self) -> (r: u64)
        requires
            self.wf(),
        ensures
            r == self.record(0).last_used_page,
    {
        self.get(Field::LastUsedPage)
    }

    pub fn get_last_used_page_at(&self, slot: u64) -> (r: u64)
        requires
            self.wf(),
            slot < RECORDS_PER_PAGE,
        ensures
            r == self.record(slot as int).last_used_page,
    {
        self.get_at(Field::LastUsedPage, slot)
    }

    pub fn set_last_used_page(&mut self, value: u64)
        requires
            old(self).wf(),
        ensures
            final(self).wf(),
            final(self).record(0) == old(self).record(0).with(Field::LastUsedPage, stored(Field::LastUsedPage, value)),
            forall|s: int| 1 <= s < RECORDS_PER_PAGE ==> final(self).record(s) == old(self).record(s),
    {
        self.set(Field::LastUsedPage, value)
    }

    pub fn get_recycled_pages_list(&self) -> (r: u64)
        requires
            self.wf(),
        ensures
            r == self.record(0).recycled_pages_list,
    {
        self.get(Field::RecycledPagesList)
    }

    pub fn get_recycled_pages_list_at(&self, slot: u64) -> (r: u64)
        requires
            self.wf(),
            slot < RECORDS_PER_PAGE,
        ensures
            r == self.record(slot as int).recycled_pages_list,
    {
        self.get_at(Field::RecycledPagesList, slot)
    }

    pub fn set_recycled_pages_list(&mut self, value: u64)
        requires
            old(self).wf(),
        ensures
            final(self).wf(),
            final(self).record(0) == old(self).record(0).with(Field::RecycledPagesList, stored(Field::RecycledPagesList, value)),
            forall|s: int| 1 <= s < RECORDS_PER_PAGE ==> final(self).record(s) == old(self).record(s),
    {
        self.set(Field::RecycledPagesList, value)
    }

    pub fn get_previous_config_page(&self) -> (r: u64)
        requires
            self.wf(),
        ensures
            r == self.record(0).previous_config_page,
    {
        self.get(Field::PreviousConfigPage)
    }

    pub fn get_previous_config_page_at(&self, slot: u64) -> (r: u64)
        requires
            self.wf(),
            slot < RECORDS_PER_PAGE,
        ensures
            r == self.record(slot as int).previous_config_page,
    {
        self.get_at(Field::PreviousConfigPage, slot)
    }

    pub fn set_previous_config_page(&mut self, value: u64)
        requires
            old(self).wf(),
        ensures
            final(self).wf(),
            final(self).record(0) == old(self).record(0).with(Field::PreviousConfigPage, stored(Field::PreviousConfigPage, value)),
            forall|s: int| 1 <= s < RECORDS_PER_PAGE ==> final(self).record(s) == old(self).record(s),
    {
        self.set(Field::PreviousConfigPage, value)
    }

    pub fn get_offset(&self) -> (r: u64)
        requires
            self.wf(),
        ensures
            r == self.record(0).offset,
    {
        self.get(Field::Offset)
    }

    pub fn get_offset_at(&self, slot: u64) -> (r: u64)
        requires
            self.wf(),
            slot < RECORDS_PER_PAGE,
        ensures
            r == self.record(slot as int).offset,
    {
        self.get_at(Field::Offset, slot)
    }

    pub fn set_offset(&mut self, value: u64)
        requires
            old(self).wf(),
        ensures
            final(self).wf(),
            final(self).record(0) == old(self).record(0).with(Field::Offset, stored(Field::Offset, value)),
            forall|s: int| 1 <= s < RECORDS_PER_PAGE ==> final(self).record(s) == old(self).record(s),
    {
        self.set(Field::Offset, value)
    }

    /// Snapshots record 0 into the ring slot named by its own offset field.
    pub fn copy_header_to_offset(&mut self)
        requires
            old(self).wf(),
            old(self).record(0).offset < RECORDS_PER_PAGE,
        ensures
            final(self).wf(),
            final(self).record(old(self).record(0).offset as int) == old(self).record(0),
            forall|s: int|
                0 <= s < RECORDS_PER_PAGE && s != old(self).record(0).offset ==> final(self).record(s)
                    == old(self).record(s),
    {
        let slot = read_field(self.data, 0, Field::Offset);
        if slot >= 1 {
            copy_record0(self.data, slot as usize)
        }
    }

    /// Makes this page a byte-for-byte copy of `config`.
    pub fn copy_config_page(&mut self, config: &ConfigPage)
        requires
            old(self).wf(),
            config.wf(),
        ensures
            final(self).bytes() == config.bytes(),
    {
        crate::page::copy_between(self.data, 0, config.data, 0, PAGE_SIZE);
        assert(self.bytes() =~= config.bytes());
    }

    /// Copies record 0 of `config` over record 0 of this page.
    pub fn copy_config_page_header(&mut self, config: &ConfigPage)
        requires
            old(self).wf(),
            config.wf(),
        ensures
            final(self).bytes() == splice(old(self).bytes(), 0, config.bytes().subrange(0, RECORD_SIZE as int)),
    {
        crate::page::copy_between(self.data, 0, config.data, 0, RECORD_SIZE);
    }
}

} // verus!

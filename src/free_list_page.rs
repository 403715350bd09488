//! The free-list page: a link to the next page of the chain, then 510
//! eight-byte slots of recycled page indices, the first zero ending the list.
use crate::config_page::{lemma_splice_inside, lemma_splice_outside};
use crate::le_bytes::{
    le_bytes, le_nat, lemma_le_bytes_len, lemma_le_nat_bound,
    lemma_le_round_trip, pow256, read_le, splice, write_le,
};
use crate::page::PAGE_SIZE;
use vstd::prelude::*;

verus! {

pub const NEXT_START: usize = 0;

pub const NEXT_WIDTH: usize = 6;

pub const DATA_START: usize = 16;

pub const DATA_END: usize = 4096;

pub const SLOT_SIZE: usize = 8;

pub const SLOTS_PER_PAGE: usize = 510;

/// The page the chain continues with; 0 ends the chain.
pub open spec fn next_of(page: Seq<u8>) -> nat {
    le_nat(page.subrange(NEXT_START as int, NEXT_START + NEXT_WIDTH))
}

/// The value in payload slot `i`.
pub open spec fn slot_value(page: Seq<u8>, i: int) -> nat {
    let pos = DATA_START + i * SLOT_SIZE;
    le_nat(page.subrange(pos, pos + SLOT_SIZE))
}

/// All 510 payload slots.
pub open spec fn payload(page: Seq<u8>) -> Seq<u64> {
    Seq::new(SLOTS_PER_PAGE as nat, |i: int| slot_value(page, i) as u64)
}

/// The length of the longest prefix of `s` without a zero.
pub open spec fn first_zero(s: Seq<u64>) -> nat
    decreases s.len(),
{
    if s.len() == 0 || s[0] == 0 {
        0
    } else {
        1 + first_zero(s.drop_first())
    }
}

/// The entries of `s` up to, not including, its first zero.
pub open spec fn until_zero(s: Seq<u64>) -> Seq<u64> {
    s.take(first_zero(s) as int)
}

/// The list of recycled page indices that a free-list page holds.
pub open spec fn recycled_list(page: Seq<u8>) -> Seq<u64> {
    until_zero(payload(page))
}

pub open spec fn no_zero(s: Seq<u64>) -> bool {
    forall|i: int| 0 <= i < s.len() ==> s[i] != 0
}

/// `first_zero` is the index of the first zero, or the length when there is none.
pub proof fn lemma_first_zero(s: Seq<u64>, k: int)
    requires
        0 <= k <= s.len(),
        forall|j: int| 0 <= j < k ==> s[j] != 0,
        k == s.len() || s[k] == 0,
    ensures
        first_zero(s) == k,
    decreases s.len(),
{
    if s.len() > 0 && s[0] != 0 {
        lemma_first_zero(s.drop_first(), k - 1);
    }
}

/// Every entry before the first zero is nonzero.
pub proof fn lemma_until_zero_no_zero(s: Seq<u64>)
    ensures
        no_zero(until_zero(s)),
        first_zero(s) <= s.len(),
    decreases s.len(),
{
    if s.len() > 0 && s[0] != 0 {
        lemma_until_zero_no_zero(s.drop_first());
        assert forall|j: int| 0 <= j < first_zero(s) implies s[j] != 0 by {
            if j > 0 {
                assert(until_zero(s.drop_first())[j - 1] == s.drop_first()[j - 1]);
            }
        }
    }
}

/// A list without zeros, padded with zeros, reads back as itself.
pub proof fn lemma_until_zero_padded(e: Seq<u64>, s: Seq<u64>)
    requires
        no_zero(e),
        e.len() <= s.len(),
        forall|i: int| 0 <= i < e.len() ==> s[i] == e[i],
        e.len() == s.len() || s[e.len() as int] == 0,
    ensures
        until_zero(s) == e,
{
    lemma_first_zero(s, e.len() as int);
    assert(s.take(e.len() as int) =~= e);
}

pub proof fn lemma_slot_bound(page: Seq<u8>, i: int)
    requires
        page.len() == PAGE_SIZE,
        0 <= i < SLOTS_PER_PAGE,
    ensures
        slot_value(page, i) < 0x1_0000_0000_0000_0000,
{
    let pos = DATA_START + i * SLOT_SIZE;
    lemma_le_nat_bound(page.subrange(pos, pos + SLOT_SIZE));
    reveal_with_fuel(pow256, 9);
}

/// Reads the link to the next page of the chain.
pub fn read_next(page: &[u8]) -> (r: u64)
    requires
        page@.len() == PAGE_SIZE,
    ensures
        r == next_of(page@),
{
    read_le(page, NEXT_START, NEXT_WIDTH)
}

/// Reads payload slot `i`.
pub fn read_slot(page: &[u8], i: usize) -> (r: u64)
    requires
        page@.len() == PAGE_SIZE,
        i < SLOTS_PER_PAGE,
    ensures
        r == slot_value(page@, i as int),
        r == payload(page@)[i as int],
{
    proof {
        lemma_slot_bound(page@, i as int);
    }
    read_le(page, DATA_START + i * SLOT_SIZE, SLOT_SIZE)
}

/// The recycled page indices a free-list page holds: its slots up to the
/// first zero.
pub fn read_recycled_list(page: &[u8]) -> (r: Vec<u64>)
    requires
        page@.len() == PAGE_SIZE,
    ensures
        r@ == recycled_list(page@),
        no_zero(r@),
        r@.len() <= SLOTS_PER_PAGE,
{
    let mut out: Vec<u64> = Vec::new();
    let mut i: usize = 0;
    while i < SLOTS_PER_PAGE
        invariant_except_break
            i <= SLOTS_PER_PAGE,
            page@.len() == PAGE_SIZE,
            out@ == payload(page@).take(i as int),
            forall|j: int| 0 <= j < i ==> payload(page@)[j] != 0,
        ensures
            i <= SLOTS_PER_PAGE,
            out@ == payload(page@).take(i as int),
            forall|j: int| 0 <= j < i ==> payload(page@)[j] != 0,
            i == SLOTS_PER_PAGE || payload(page@)[i as int] == 0,
        decreases SLOTS_PER_PAGE - i,
    {
        let v = read_slot(page, i);
        if v == 0 {
            break;
        }
        out.push(v);
        i = i + 1;
        assert(out@ =~= payload(page@).take(i as int));
    }
    proof {
        lemma_first_zero(payload(page@), i as int);
    }
    out
}

/// Rewrites a free-list page to link to `next` and to hold `entries`,
/// zero-padded to the full payload.
pub fn write_list_page(page: &mut [u8], next: u64, entries: &[u64])
    requires
        old(page)@.len() == PAGE_SIZE,
        entries@.len() <= SLOTS_PER_PAGE,
    ensures
        final(page)@.len() == PAGE_SIZE,
        next_of(final(page)@) == next as nat % pow256(NEXT_WIDTH as nat),
        forall|i: int| 0 <= i < entries@.len() ==> payload(final(page)@)[i] == entries@[i],
        forall|i: int| entries@.len() <= i < SLOTS_PER_PAGE ==> payload(final(page)@)[i] == 0,
        no_zero(entries@) ==> recycled_list(final(page)@) == entries@,
{
    let mut i: usize = 0;
    while i < SLOTS_PER_PAGE
        invariant
            i <= SLOTS_PER_PAGE,
            page@.len() == PAGE_SIZE,
            entries@.len() <= SLOTS_PER_PAGE,
            forall|j: int|
                0 <= j < i && j < entries@.len() ==> slot_value(page@, j) == entries@[j] as nat,
            forall|j: int| entries@.len() <= j < i ==> slot_value(page@, j) == 0,
        decreases SLOTS_PER_PAGE - i,
    {
        let v: u64 = if i < entries.len() {
            entries[i]
        } else {
            0
        };
        let ghost before = page@;
        let pos = DATA_START + i * SLOT_SIZE;
        write_le(page, pos, SLOT_SIZE, v);
        proof {
            let t = le_bytes(v as nat, 8);
            lemma_le_bytes_len(v as nat, 8);
            lemma_splice_inside(before, pos as int, t);
            lemma_le_round_trip(v as nat, 8);
            reveal_with_fuel(pow256, 9);
            assert forall|j: int| 0 <= j < SLOTS_PER_PAGE && j != i implies slot_value(page@, j)
                == slot_value(before, j) by {
                let a = DATA_START + j * SLOT_SIZE;
                lemma_splice_outside(before, pos as int, t, a, a + SLOT_SIZE);
            }
            assert(pow256(8) == 0x1_0000_0000_0000_0000);
            assert(page@.subrange(pos as int, pos + 8) == t);
            vstd::arithmetic::div_mod::lemma_small_mod(v as nat, pow256(8));
            assert(le_nat(t) == v as nat);
            assert(slot_value(page@, i as int) == v as nat);
            assert forall|j: int| entries@.len() <= j < i + 1 implies slot_value(page@, j) == 0 by {
                if j != i {
                    assert(slot_value(before, j) == 0);
                }
            }
        }
        i = i + 1;
    }
    let ghost before = page@;
    write_le(page, NEXT_START, NEXT_WIDTH, next);
    proof {
        let t = le_bytes(next as nat, 6);
        lemma_le_bytes_len(next as nat, 6);
        lemma_splice_inside(before, 0, t);
        lemma_le_round_trip(next as nat, 6);
        assert forall|j: int| 0 <= j < SLOTS_PER_PAGE implies slot_value(page@, j) == slot_value(
            before,
            j,
        ) by {
            let a = DATA_START + j * SLOT_SIZE;
            lemma_splice_outside(before, 0, t, a, a + SLOT_SIZE);
        }
        assert forall|j: int| 0 <= j < entries@.len() implies payload(page@)[j] == entries@[j] by {
            assert(slot_value(page@, j) == entries@[j] as nat);
        }
        assert forall|j: int| entries@.len() <= j < SLOTS_PER_PAGE implies payload(page@)[j] == 0 by {
            assert(slot_value(before, j) == 0);
            assert(slot_value(page@, j) == slot_value(before, j));
        }
        if no_zero(entries@) {
            lemma_until_zero_padded(entries@, payload(page@));
        }
    }
}

/// A free-list page: a mutable view of one 4096-byte page of the store.
#[derive(PartialEq)]
pub struct FreeListPage<'a> {
    pub data: &'a mut [u8],
}

impl<'a> FreeListPage<'a> {
    pub open spec fn wf(&self) -> bool {
        self.data@.len() == PAGE_SIZE
    }

    pub open spec fn bytes(&self) -> Seq<u8> {
        self.data@
    }

    pub fn get_free_list_page_next(&self) -> (r: u64)
        requires
            self.wf(),
        ensures
            r == next_of(self.bytes()),
    {
        read_next(self.data)
    }

    /// Links this page to `value`; the link keeps the low 48 bits.
    pub fn set_free_list_page_next(&mut self, value: u64)
        requires
            old(self).wf(),
        ensures
            final(self).bytes() == splice(old(self).bytes(), NEXT_START as int, le_bytes(value as nat, 6)),
            next_of(final(self).bytes()) == value as nat % pow256(6),
    {
        write_le(self.data, NEXT_START, NEXT_WIDTH, value);
        proof {
            lemma_le_bytes_len(value as nat, 6);
            lemma_splice_inside(old(self).bytes(), 0, le_bytes(value as nat, 6));
            lemma_le_round_trip(value as nat, 6);
        }
    }

    /// All 510 payload slots.
    pub fn get_free_pages_list_slice(&self) -> (r: [u64; 510])
        requires
            self.wf(),
        ensures
            r@ == payload(self.bytes()),
    {
        let mut out = [0u64; 510];
        let mut i: usize = 0;
        while i < SLOTS_PER_PAGE
            invariant
                i <= SLOTS_PER_PAGE,
                self.wf(),
                out@.len() == SLOTS_PER_PAGE,
                forall|j: int| 0 <= j < i ==> out@[j] == payload(self.bytes())[j],
            decreases SLOTS_PER_PAGE - i,
        {
            out[i] = read_slot(self.data, i);
            i = i + 1;
        }
        assert(out@ =~= payload(self.bytes()));
        out
    }

    /// Overwrites the 16 header bytes: the link and the padding after it.
    pub fn set_free_list_page_header_slice(&mut self, data_slice: &[u8])
        requires
            old(self).wf(),
            data_slice@.len() == DATA_START,
        ensures
            final(self).bytes() == splice(old(self).bytes(), 0, data_slice@),
    {
        crate::page::copy_between(self.data, 0, data_slice, 0, DATA_START);
        assert(data_slice@.subrange(0, DATA_START as int) =~= data_slice@);
    }

    /// Copies the 16 header bytes of `free_list_page` into this page.
    pub fn copy_free_list_page_header_slice(&mut self, free_list_page: &FreeListPage)
        requires
            old(self).wf(),
            free_list_page.wf(),
        ensures
            final(self).bytes() == splice(
                old(self).bytes(),
                0,
                free_list_page.bytes().subrange(0, DATA_START as int),
            ),
    {
        crate::page::copy_between(self.data, 0, free_list_page.data, 0, DATA_START);
    }

    /// Overwrites the whole 4080-byte payload.
    pub fn set_free_list_page_data_slice(&mut self, data_slice: &[u8])
        requires
            old(self).wf(),
            data_slice@.len() == DATA_END - DATA_START,
        ensures
            final(self).bytes() == splice(old(self).bytes(), DATA_START as int, data_slice@),
    {
        crate::page::copy_between(self.data, DATA_START, data_slice, 0, DATA_END - DATA_START);
        assert(data_slice@.subrange(0, (DATA_END - DATA_START) as int) =~= data_slice@);
    }

    /// The recycled page indices this page holds, up to the first zero slot.
    pub fn get_recycled_pages_list(&self) -> (r: Vec<u64>)
        requires
            self.wf(),
        ensures
            r@ == recycled_list(self.bytes()),
    {
        read_recycled_list(self.data)
    }
}

} // verus!

//! Pages: fixed 4 KiB windows of the byte store, addressed by index.
use crate::error::PageError;
use crate::le_bytes::splice;
use vstd::prelude::*;

verus! {

pub const PAGE_SIZE: usize = 4096;

/// The bytes of page `index` of the store `mem`.
pub open spec fn page_of(mem: Seq<u8>, index: int) -> Seq<u8> {
    mem.subrange(index * PAGE_SIZE as int, index * PAGE_SIZE as int + PAGE_SIZE as int)
}

/// Whether page `index` lies wholly inside the store `mem`.
pub open spec fn has_page(mem: Seq<u8>, index: int) -> bool {
    0 <= index && index * PAGE_SIZE as int + PAGE_SIZE as int <= mem.len()
}

/// The mutable window of page `index` of the store.
pub fn page_window<'a>(memory: &'a mut [u8], index: usize) -> (r: &'a mut [u8])
    requires
        has_page(old(memory)@, index as int),
    ensures
        r@ == page_of(old(memory)@, index as int),
        final(memory)@ == old(memory)@.subrange(0, index * PAGE_SIZE as int) + final(r)@
            + old(memory)@.subrange(
            index * PAGE_SIZE as int + PAGE_SIZE as int,
            old(memory)@.len() as int,
        ),
{
    let n = memory.len();
    let (before, rest) = memory.split_at_mut(index * PAGE_SIZE);
    let (page, after) = rest.split_at_mut(PAGE_SIZE);
    assert(before@ == old(memory)@.subrange(0, index * PAGE_SIZE as int));
    assert(after@.len() == n - index * PAGE_SIZE - PAGE_SIZE);
    assert(after@ == old(memory)@.subrange(
        index * PAGE_SIZE as int + PAGE_SIZE as int,
        old(memory)@.len() as int,
    ));
    page
}

/// A view that is dropped without being written leaves the store as it
/// was, so the next view of the same page observes identical bytes.
pub proof fn lemma_unwritten_view(mem: Seq<u8>, index: int, view: Seq<u8>)
    requires
        has_page(mem, index),
        view == page_of(mem, index),
    ensures
        ({
            let after = mem.subrange(0, index * PAGE_SIZE as int) + view + mem.subrange(
                index * PAGE_SIZE as int + PAGE_SIZE as int,
                mem.len() as int,
            );
            &&& after == mem
            &&& page_of(after, index) == view
        }),
{
    let after = mem.subrange(0, index * PAGE_SIZE as int) + view + mem.subrange(
        index * PAGE_SIZE as int + PAGE_SIZE as int,
        mem.len() as int,
    );
    assert(after =~= mem);
}

/// An owned copy of one page.
#[derive(Debug, PartialEq, Copy, Clone)]
pub struct Page {
    pub data: [u8; 4096],
}

/// Copies `len` bytes from `src` to `dst` inside one store; the two ranges
/// are the same or do not overlap.
pub fn copy_within(data: &mut [u8], src: usize, dst: usize, len: usize)
    requires
        src + len <= old(data)@.len(),
        dst + len <= old(data)@.len(),
        src == dst || src + len <= dst || dst + len <= src,
    ensures
        final(data)@ == splice(
            old(data)@,
            dst as int,
            old(data)@.subrange(src as int, src + len),
        ),
{
    let ghost from = old(data)@.subrange(src as int, src + len);
    let mut i: usize = 0;
    while i < len
        invariant
            i <= len,
            src + len <= data@.len(),
            dst + len <= data@.len(),
            data@.len() == data.len(),
            data@.len() == old(data)@.len(),
            src == dst || src + len <= dst || dst + len <= src,
            from == old(data)@.subrange(src as int, src + len),
            forall|j: int|
                0 <= j < data@.len() && !(dst <= j < dst + i) ==> data@[j] == old(data)@[j],
            forall|j: int| 0 <= j < i ==> data@[dst + j] == from[j],
        decreases len - i,
    {
        let b = data[src + i];
        data[dst + i] = b;
        i = i + 1;
    }
    assert(data@ =~= splice(old(data)@, dst as int, from));
}

/// Copies `len` bytes from `src[src_pos..]` into `dst[dst_pos..]`.
pub fn copy_between(dst: &mut [u8], dst_pos: usize, src: &[u8], src_pos: usize, len: usize)
    requires
        src_pos + len <= src@.len(),
        dst_pos + len <= old(dst)@.len(),
    ensures
        final(dst)@ == splice(
            old(dst)@,
            dst_pos as int,
            src@.subrange(src_pos as int, src_pos + len),
        ),
{
    let ghost from = src@.subrange(src_pos as int, src_pos + len);
    let mut i: usize = 0;
    while i < len
        invariant
            i <= len,
            src_pos + len <= src@.len(),
            src@.len() == src.len(),
            dst_pos + len <= dst@.len(),
            dst@.len() == dst.len(),
            dst@.len() == old(dst)@.len(),
            from == src@.subrange(src_pos as int, src_pos + len),
            forall|j: int|
                0 <= j < dst@.len() && !(dst_pos <= j < dst_pos + i) ==> dst@[j] == old(dst)@[j],
            forall|j: int| 0 <= j < i ==> dst@[dst_pos + j] == from[j],
        decreases len - i,
    {
        dst[dst_pos + i] = src[src_pos + i];
        i = i + 1;
    }
    assert(dst@ =~= splice(old(dst)@, dst_pos as int, from));
}

/// The number of whole pages in the store `mem`.
pub open spec fn page_count(mem: Seq<u8>) -> nat {
    mem.len() / PAGE_SIZE as nat
}

pub proof fn lemma_page_in_store(mem: Seq<u8>, index: int)
    requires
        0 <= index < page_count(mem),
    ensures
        has_page(mem, index),
{
    let n = page_count(mem) as int;
    assert(index * 4096 + 4096 <= n * 4096) by (nonlinear_arith)
        requires
            index < n,
    ;
    assert(n * 4096 <= mem.len()) by (nonlinear_arith)
        requires
            n == mem.len() / 4096,
    ;
}

pub proof fn lemma_page_count_bound(mem: Seq<u8>, index: int)
    requires
        has_page(mem, index),
    ensures
        index < page_count(mem),
{
    let len = mem.len() as int;
    assert(index + 1 <= len / 4096) by (nonlinear_arith)
        requires
            index * 4096 + 4096 <= len,
            index >= 0,
    {
        vstd::arithmetic::div_mod::lemma_div_is_ordered((index + 1) * 4096, len, 4096);
        vstd::arithmetic::div_mod::lemma_div_multiples_vanish(index + 1, 4096);
    }
}

/// Copies page `index` of the store out.
pub fn load_page(memory: &[u8], index: u64) -> (r: Result<[u8; 4096], PageError>)
    ensures
        r is Ok <==> index < page_count(memory@),
        r is Err ==> r == Err::<[u8; 4096], PageError>(PageError::PageOutOfRange { index }),
        r is Ok ==> r->Ok_0@ == page_of(memory@, index as int) && has_page(memory@, index as int),
        r is Err ==> !has_page(memory@, index as int),
{
    if index >= (memory.len() / PAGE_SIZE) as u64 {
        proof {
            if has_page(memory@, index as int) {
                lemma_page_count_bound(memory@, index as int);
            }
        }
        return Err(PageError::PageOutOfRange { index });
    }
    proof {
        lemma_page_in_store(memory@, index as int);
    }
    let mut page = [0u8; 4096];
    let base = index as usize * PAGE_SIZE;
    copy_between(&mut page, 0, memory, base, PAGE_SIZE);
    assert(page@ =~= page_of(memory@, index as int));
    Ok(page)
}

/// Overwrites page `index` of the store with `page`.
pub fn store_page(memory: &mut [u8], index: u64, page: &[u8; 4096]) -> (r: Result<(), PageError>)
    ensures
        r is Ok <==> index < page_count(old(memory)@),
        r is Err ==> r == Err::<(), PageError>(PageError::PageOutOfRange { index })
            && final(memory)@ == old(memory)@,
        r is Ok ==> final(memory)@ == splice(old(memory)@, index * PAGE_SIZE as int, page@),
{
    if index >= (memory.len() / PAGE_SIZE) as u64 {
        return Err(PageError::PageOutOfRange { index });
    }
    proof {
        lemma_page_in_store(old(memory)@, index as int);
    }
    let base = index as usize * PAGE_SIZE;
    copy_between(memory, base, page, 0, PAGE_SIZE);
    assert(page@.subrange(0, PAGE_SIZE as int) =~= page@);
    Ok(())
}

/// Replacing page `index` changes that page only.
pub proof fn lemma_store_page(mem: Seq<u8>, index: int, page: Seq<u8>)
    requires
        has_page(mem, index),
        page.len() == PAGE_SIZE,
    ensures
        ({
            let m2 = splice(mem, index * PAGE_SIZE as int, page);
            &&& m2.len() == mem.len()
            &&& page_count(m2) == page_count(mem)
            &&& page_of(m2, index) == page
            &&& forall|q: int| has_page(mem, q) && q != index ==> page_of(m2, q) == page_of(mem, q)
        }),
{
    let m2 = splice(mem, index * PAGE_SIZE as int, page);
    assert(page_of(m2, index) =~= page);
    assert forall|q: int| has_page(mem, q) && q != index implies page_of(m2, q) == page_of(mem, q) by {
        if q < index {
            assert(q * 4096 + 4096 <= index * 4096) by (nonlinear_arith)
                requires
                    q < index,
            ;
        } else {
            assert(index * 4096 + 4096 <= q * 4096) by (nonlinear_arith)
                requires
                    q > index,
            ;
        }
        assert(page_of(m2, q) =~= page_of(mem, q));
    }
}

} // verus!

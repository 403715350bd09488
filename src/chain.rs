//! Serving recycled pages from the free-list chain, and writing a recycled
//! list back as a new chain.
use crate::error::PageError;
use crate::free_list_page::{
    next_of, no_zero, payload, read_next, read_recycled_list, recycled_list, write_list_page,
    SLOTS_PER_PAGE,
};
use crate::le_bytes::{lemma_le_round_trip, pow256};
use crate::page::{
    has_page, lemma_store_page, load_page, page_count, page_of,
    store_page,
};
use vstd::prelude::*;

verus! {

/// Serves `need` recycled page indices: first from `buf`, then, once `buf`
/// is used up, from the pages further down the free-list chain that starts
/// at `head`. Gives what was served, what is left of the buffer, and the
/// chain page it was loaded from; `None` when the chain leaves the store or
/// runs longer than `fuel` links.
pub open spec fn take_recycled(
    mem: Seq<u8>,
    buf: Seq<u64>,
    head: u64,
    need: nat,
    fuel: nat,
) -> Option<(Seq<u64>, Seq<u64>, u64)>
    decreases fuel,
{
    if need <= buf.len() {
        Some((buf.take(need as int), buf.skip(need as int), head))
    } else if !has_page(mem, head as int) {
        None
    } else {
        let next = next_of(page_of(mem, head as int));
        if next == 0 {
            Some((buf, Seq::empty(), head))
        } else if fuel == 0 || !has_page(mem, next as int) {
            None
        } else {
            match take_recycled(
                mem,
                recycled_list(page_of(mem, next as int)),
                next as u64,
                (need - buf.len()) as nat,
                (fuel - 1) as nat,
            ) {
                Some((t, b, h)) => Some((buf + t, b, h)),
                None => None,
            }
        }
    }
}

/// What the recycled pages serve has no zero, nor has what is left.
pub proof fn lemma_take_recycled_no_zero(
    mem: Seq<u8>,
    buf: Seq<u64>,
    head: u64,
    need: nat,
    fuel: nat,
)
    requires
        no_zero(buf),
    ensures
        (take_recycled(mem, buf, head, need, fuel) matches Some((t, b, h)) ==> no_zero(t) && no_zero(
            b,
        )),
    decreases fuel,
{
    if need <= buf.len() {
    } else if has_page(mem, head as int) {
        let next = next_of(page_of(mem, head as int));
        if next != 0 && fuel != 0 && has_page(mem, next as int) {
            let l = recycled_list(page_of(mem, next as int));
            crate::free_list_page::lemma_until_zero_no_zero(payload(page_of(mem, next as int)));
            lemma_take_recycled_no_zero(mem, l, next as u64, (need - buf.len()) as nat, (fuel - 1) as nat);
            match take_recycled(mem, l, next as u64, (need - buf.len()) as nat, (fuel - 1) as nat) {
                Some((t, b, h)) => {
                    assert forall|j: int| 0 <= j < (buf + t).len() implies (buf + t)[j] != 0 by {
                        if j >= buf.len() {
                            assert((buf + t)[j] == t[j - buf.len()]);
                        }
                    }
                },
                None => {},
            }
        }
    }
}

/// `m` fresh page indices following `last`.
pub open spec fn fresh_run(last: u64, m: nat) -> Seq<u64> {
    Seq::new(m, |i: int| (last + 1 + i) as u64)
}

/// Serving `num` pages, recycled ones first, from an allocator whose
/// capacity is `total`, high-water mark `last`, recycled buffer `buf` and
/// chain head `head`: the pages served and the new mark, buffer and head;
/// `None` when the chain is broken or the capacity is reached.
pub open spec fn draw(
    mem: Seq<u8>,
    total: u64,
    last: u64,
    buf: Seq<u64>,
    head: u64,
    num: nat,
) -> Option<(Seq<u64>, u64, Seq<u64>, u64)> {
    match take_recycled(mem, buf, head, num, page_count(mem)) {
        None => None,
        Some((t, b, h)) => {
            let m = (num - t.len()) as nat;
            if m > 0 && last + m >= total {
                None
            } else {
                Some((t + fresh_run(last, m), (last + m) as u64, b, h))
            }
        },
    }
}

/// `r` with `p` put before what it served.
pub open spec fn served_after(
    p: Seq<u64>,
    r: Option<(Seq<u64>, Seq<u64>, u64)>,
) -> Option<(Seq<u64>, Seq<u64>, u64)> {
    match r {
        Some((t, b, h)) => Some((p + t, b, h)),
        None => None,
    }
}

/// Whether two lists are equal.
pub fn same_list(a: &Vec<u64>, b: &Vec<u64>) -> (r: bool)
    ensures
        r == (a@ == b@),
{
    if a.len() != b.len() {
        return false;
    }
    let mut i: usize = 0;
    while i < a.len()
        invariant
            i <= a@.len(),
            a@.len() == b@.len(),
            forall|j: int| 0 <= j < i ==> a@[j] == b@[j],
        decreases a@.len() - i,
    {
        if a[i] != b[i] {
            return false;
        }
        i = i + 1;
    }
    assert(a@ =~= b@);
    true
}

/// How many pages a chain of `n` entries takes: one per 510, and at least one.
pub open spec fn chunk_count(n: nat) -> int {
    if n == 0 {
        1
    } else {
        (n - 1) / SLOTS_PER_PAGE as int + 1
    }
}

/// The entries that page `i` of a chain holds.
pub open spec fn chunk_of(entries: Seq<u64>, i: int) -> Seq<u64> {
    let from = SLOTS_PER_PAGE * i;
    let to = if entries.len() - from < SLOTS_PER_PAGE {
        entries.len() as int
    } else {
        from + SLOTS_PER_PAGE
    };
    entries.subrange(from, to)
}

/// Where page `i` of a chain of `count` pages on `pages` links: the next
/// page, or `tail` from the last one.
pub open spec fn link_of(pages: Seq<u64>, i: int, count: int, tail: u64) -> u64 {
    if i + 1 < count {
        pages[i + 1]
    } else {
        tail
    }
}

/// No page occurs twice.
pub open spec fn distinct(s: Seq<u64>) -> bool {
    forall|i: int, j: int| 0 <= i < j < s.len() ==> s[i] != s[j]
}

/// Page `pages[i]` of `mem` holds chunk `i` of `entries` and links on.
pub open spec fn holds_chunk(mem: Seq<u8>, pages: Seq<u64>, entries: Seq<u64>, i: int, tail: u64) -> bool {
    let page = page_of(mem, pages[i] as int);
    &&& recycled_list(page) == chunk_of(entries, i)
    &&& next_of(page) == link_of(pages, i, chunk_count(entries.len()), tail) as nat % pow256(6)
}

/// Writes `entries` as a chain of free-list pages on `pages`, 510 entries
/// to a page, each page linking to the next one and the last to `tail`.
/// The page holding the first entries, `pages[0]`, is written last.
pub fn write_chain(memory: &mut [u8], pages: &Vec<u64>, entries: &Vec<u64>, tail: u64) -> (r: Result<
    (),
    PageError,
>)
    requires
        pages@.len() >= 1,
        entries@.len() <= SLOTS_PER_PAGE * pages@.len(),
        no_zero(pages@),
        has_page(old(memory)@, 0),
    ensures
        final(memory)@.len() == old(memory)@.len(),
        page_of(final(memory)@, 0) == page_of(old(memory)@, 0),
        forall|q: int|
            has_page(old(memory)@, q) && (forall|j: int| 0 <= j < pages@.len() ==> pages@[j] != q)
                ==> page_of(final(memory)@, q) == page_of(old(memory)@, q),
        (forall|i: int| 0 <= i < pages@.len() ==> pages@[i] < page_count(old(memory)@)) ==> r is Ok,
        r is Ok && distinct(pages@) && no_zero(entries@) ==> forall|i: int|
            0 <= i < chunk_count(entries@.len()) ==> #[trigger] holds_chunk(
                final(memory)@,
                pages@,
                entries@,
                i,
                tail,
            ),
        r is Ok ==> {
            &&& has_page(final(memory)@, pages@[0] as int)
            &&& no_zero(entries@) ==> recycled_list(page_of(final(memory)@, pages@[0] as int))
                == entries@.take(
                if entries@.len() < SLOTS_PER_PAGE {
                    entries@.len() as int
                } else {
                    SLOTS_PER_PAGE as int
                },
            )
        },
{
    let chunks: usize = if entries.len() == 0 {
        1
    } else {
        (entries.len() - 1) / SLOTS_PER_PAGE + 1
    };
    proof {
        let n = entries@.len() as int;
        let p = pages@.len() as int;
        if n > 0 {
            assert((n - 1) / 510 + 1 <= p) by (nonlinear_arith)
                requires
                    n <= 510 * p,
                    n > 0,
            {
                vstd::arithmetic::div_mod::lemma_div_is_ordered(n - 1, 510 * p - 1, 510);
                vstd::arithmetic::div_mod::lemma_fundamental_div_mod(510 * p - 1, 510);
            }
        }
    }
    let mut i: usize = chunks;
    while i > 1
        invariant
            1 <= i <= chunks <= pages@.len(),
            no_zero(pages@),
            memory@.len() == old(memory)@.len(),
            has_page(memory@, 0),
            page_of(memory@, 0) == page_of(old(memory)@, 0),
            forall|q: int|
                has_page(old(memory)@, q) && (forall|j: int| 0 <= j < pages@.len() ==> pages@[j] != q)
                    ==> page_of(memory@, q) == page_of(old(memory)@, q),
            chunks == 1 || (chunks - 1) * SLOTS_PER_PAGE < entries@.len(),
            entries@.len() == entries.len(),
            entries@.len() <= SLOTS_PER_PAGE * chunks,
            chunks == chunk_count(entries@.len()),
            forall|j: int| i <= j < chunks ==> has_page(memory@, #[trigger] pages@[j] as int),
            distinct(pages@) && no_zero(entries@) ==> forall|j: int|
                i <= j < chunks ==> #[trigger] holds_chunk(memory@, pages@, entries@, j, tail),
        decreases i,
    {
        i = i - 1;
        assert(i * 510 <= (chunks - 1) * 510) by (nonlinear_arith)
            requires
                i <= chunks - 1,
        ;
        let from = i * SLOTS_PER_PAGE;
        let to = if entries.len() - from < SLOTS_PER_PAGE {
            entries.len()
        } else {
            from + SLOTS_PER_PAGE
        };
        let mut chunk: Vec<u64> = Vec::new();
        extend_range(&mut chunk, entries, from, to);
        let next = if i + 1 < chunks {
            pages[i + 1]
        } else {
            tail
        };
        let index = pages[i];
        let mut page = match load_page(memory, index) {
            Ok(p) => p,
            Err(e) => {
                return Err(e);
            },
        };
        write_list_page(&mut page, next, chunk.as_slice());
        let ghost before = memory@;
        match store_page(memory, index, &page) {
            Ok(()) => {},
            Err(e) => {
                return Err(e);
            },
        }
        proof {
            lemma_store_page(before, index as int, page@);
            crate::page::lemma_page_in_store(before, index as int);
            lemma_le_round_trip(next as nat, 6);
            if distinct(pages@) && no_zero(entries@) {
                assert(chunk@ =~= chunk_of(entries@, i as int));
                assert(no_zero(chunk@));
                assert forall|j: int| i <= j < chunks implies #[trigger] holds_chunk(
                    memory@,
                    pages@,
                    entries@,
                    j,
                    tail,
                ) by {
                    if j > i {
                        assert(holds_chunk(before, pages@, entries@, j, tail));
                    }
                }
            }
        }
    }
    let to = if entries.len() < SLOTS_PER_PAGE {
        entries.len()
    } else {
        SLOTS_PER_PAGE
    };
    let mut chunk: Vec<u64> = Vec::new();
    extend_range(&mut chunk, entries, 0, to);
    let next = if 1 < chunks {
        pages[1]
    } else {
        tail
    };
    let index = pages[0];
    let mut page = match load_page(memory, index) {
        Ok(p) => p,
        Err(e) => {
            return Err(e);
        },
    };
    write_list_page(&mut page, next, chunk.as_slice());
    let ghost before = memory@;
    match store_page(memory, index, &page) {
        Ok(()) => {},
        Err(e) => {
            return Err(e);
        },
    }
    proof {
        lemma_store_page(before, index as int, page@);
        crate::page::lemma_page_in_store(before, index as int);
        assert(chunk@ =~= entries@.take(to as int));
        if no_zero(entries@) {
            assert(no_zero(chunk@));
        }
        lemma_le_round_trip(next as nat, 6);
        if distinct(pages@) && no_zero(entries@) {
            assert(chunk@ =~= chunk_of(entries@, 0));
            assert forall|j: int| 0 <= j < chunks implies #[trigger] holds_chunk(
                memory@,
                pages@,
                entries@,
                j,
                tail,
            ) by {
                if j > 0 {
                    assert(holds_chunk(before, pages@, entries@, j, tail));
                }
            }
        }
    }
    Ok(())
}

/// A copy of `v`.
pub fn copy_vec(v: &Vec<u64>) -> (r: Vec<u64>)
    ensures
        r@ == v@,
{
    let mut out: Vec<u64> = Vec::new();
    let mut i: usize = 0;
    while i < v.len()
        invariant
            i <= v@.len(),
            out@ == v@.take(i as int),
        decreases v@.len() - i,
    {
        out.push(v[i]);
        i = i + 1;
        assert(out@ =~= v@.take(i as int));
    }
    assert(v@.take(v@.len() as int) =~= v@);
    out
}

/// Appends `v[from..to]` to `out`.
pub fn extend_range(out: &mut Vec<u64>, v: &Vec<u64>, from: usize, to: usize)
    requires
        from <= to <= v@.len(),
    ensures
        final(out)@ == old(out)@ + v@.subrange(from as int, to as int),
{
    let mut i: usize = from;
    while i < to
        invariant
            from <= i <= to <= v@.len(),
            out@ == old(out)@ + v@.subrange(from as int, i as int),
        decreases to - i,
    {
        out.push(v[i]);
        i = i + 1;
        assert(out@ =~= old(out)@ + v@.subrange(from as int, i as int));
    }
}

/// How many entries of the joined list `merged` stay in the list when a
/// chain is written for it: the rest, one page for every 511 entries,
/// host the chain.
pub open spec fn chain_keep(merged: Seq<u64>) -> int {
    merged.len() - ((merged.len() - 1) / 511 + 1)
}

/// The pages a commit writes its chain on, given the joined list `merged`
/// and the list `on_disk` stored at the head; empty when nothing is
/// written.
pub open spec fn chain_pages(merged: Seq<u64>, on_disk: Seq<u64>) -> Seq<u64> {
    if merged == on_disk || merged.take(chain_keep(merged)) == on_disk {
        Seq::empty()
    } else {
        merged.skip(chain_keep(merged))
    }
}

/// The recycled pages kept in memory and the head page after persisting
/// the joined list `merged` over the list `on_disk` stored at `head`: the
/// list itself when it is already stored, else what is left once the chain
/// pages are taken, and when that is not stored either, its first 510
/// entries at the first chain page.
pub open spec fn persist_plan(merged: Seq<u64>, on_disk: Seq<u64>, head: u64) -> (Seq<u64>, u64) {
    let keep = chain_keep(merged);
    let rest = merged.take(keep);
    if merged == on_disk {
        (merged, head)
    } else if rest == on_disk {
        (rest, head)
    } else {
        (
            rest.take(
                if rest.len() < SLOTS_PER_PAGE {
                    rest.len() as int
                } else {
                    SLOTS_PER_PAGE as int
                },
            ),
            merged[keep],
        )
    }
}

/// Joins the pending pages and the page `staging_page` to the recycled
/// pages and persists the result as the recycled list, unless the list at
/// `head` already holds it. The list is rewritten onto pages taken from its
/// own end, most recently recycled first; when what is left still differs
/// from the stored list it is written there as a new chain, whose tail is
/// the rest of the old one. Gives the part of the list now in memory and
/// the page it is stored at.
pub fn persist_recycled(
    memory: &mut [u8],
    recycled: &Vec<u64>,
    pending: &Vec<u64>,
    staging_page: u64,
    head: u64,
) -> (r: Result<(Vec<u64>, u64), PageError>)
    requires
        no_zero(recycled@),
        no_zero(pending@),
        staging_page != 0,
        has_page(old(memory)@, 0),
    ensures
        final(memory)@.len() == old(memory)@.len(),
        page_of(final(memory)@, 0) == page_of(old(memory)@, 0),
        ({
            let pc = page_count(old(memory)@);
            &&& has_page(old(memory)@, head as int)
            &&& forall|i: int| 0 <= i < recycled@.len() ==> recycled@[i] < pc
            &&& forall|i: int| 0 <= i < pending@.len() ==> pending@[i] < pc
            &&& staging_page < pc
        }) ==> r is Ok,
        r is Ok ==> ({
            let (buffer, at) = r->Ok_0;
            let merged = recycled@ + pending@ + seq![staging_page];
            let on_disk = recycled_list(page_of(old(memory)@, head as int));
            &&& has_page(old(memory)@, head as int)
            &&& (buffer@, at) == persist_plan(merged, on_disk, head)
            &&& forall|q: int|
                has_page(old(memory)@, q) && !chain_pages(merged, on_disk).contains(q as u64)
                    ==> page_of(final(memory)@, q) == page_of(old(memory)@, q)
            &&& no_zero(buffer@)
            &&& has_page(final(memory)@, at as int)
            &&& recycled_list(page_of(final(memory)@, at as int)) == buffer@
        }),
{
    let head_page = match load_page(memory, head) {
        Ok(p) => p,
        Err(e) => {
            return Err(e);
        },
    };
    let on_disk = read_recycled_list(&head_page);
    let tail = read_next(&head_page);
    let mut merged = copy_vec(recycled);
    extend_range(&mut merged, pending, 0, pending.len());
    merged.push(staging_page);
    assert(merged@ =~= recycled@ + pending@ + seq![staging_page]);
    let ghost pc = page_count(old(memory)@);
    let ghost fits = {
        &&& forall|i: int| 0 <= i < recycled@.len() ==> recycled@[i] < pc
        &&& forall|i: int| 0 <= i < pending@.len() ==> pending@[i] < pc
        &&& staging_page < pc
    };
    proof {
        assert forall|j: int| 0 <= j < merged@.len() implies merged@[j] != 0 && (fits ==> merged@[j]
            < pc) by {
            if j < recycled@.len() {
                assert(merged@[j] == recycled@[j]);
            } else if j < recycled@.len() + pending@.len() {
                assert(merged@[j] == pending@[j - recycled@.len()]);
            }
        }
    }
    if same_list(&merged, &on_disk) {
        return Ok((merged, head));
    }
    let k = (merged.len() - 1) / 511 + 1;
    let keep = merged.len() - k;
    let mut rest: Vec<u64> = Vec::new();
    extend_range(&mut rest, &merged, 0, keep);
    let mut chain: Vec<u64> = Vec::new();
    extend_range(&mut chain, &merged, keep, merged.len());
    assert(keep == chain_keep(merged@));
    assert(rest@ =~= merged@.take(keep as int));
    assert(chain@ =~= merged@.skip(keep as int));
    if same_list(&rest, &on_disk) {
        return Ok((rest, head));
    }
    proof {
        let n = merged@.len() as int;
        assert(n - ((n - 1) / 511 + 1) <= 510 * ((n - 1) / 511 + 1)) by (nonlinear_arith)
            requires
                n >= 1,
        {
            vstd::arithmetic::div_mod::lemma_fundamental_div_mod(n - 1, 511);
        }
        assert(forall|i: int| 0 <= i < chain@.len() ==> chain@[i] == merged@[keep + i]);
        assert(no_zero(chain@));
        assert(no_zero(rest@));
    }
    match write_chain(memory, &chain, &rest, tail) {
        Ok(()) => {},
        Err(e) => {
            return Err(e);
        },
    }
    let first_len = if rest.len() < SLOTS_PER_PAGE {
        rest.len()
    } else {
        SLOTS_PER_PAGE
    };
    let mut kept: Vec<u64> = Vec::new();
    extend_range(&mut kept, &rest, 0, first_len);
    assert(kept@ =~= rest@.take(first_len as int));
    Ok((kept, chain[0]))
}

} // verus!

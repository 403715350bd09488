//! Typed views of pages, built over a page's bytes.
use crate::config_page::ConfigPage;
use crate::free_list_page::FreeListPage;
use crate::generic_page::GenericPage;
use crate::error::PageError;
use crate::page::{lemma_page_in_store, page_count, page_of, page_window, PAGE_SIZE};
use vstd::prelude::*;

verus! {

/// A page view that can be laid over the bytes of one page.
pub trait FromSlice<'a>: Sized {
    /// The bytes the view covers.
    spec fn view_bytes(&self) -> Seq<u8>;

    fn from_slice(data: &'a mut [u8]) -> (r: Self)
        ensures
            r.view_bytes() == old(data)@,
    ;
}

impl<'a> FromSlice<'a> for GenericPage<'a> {
    open spec fn view_bytes(&self) -> Seq<u8> {
        self.bytes()
    }

    fn from_slice(data: &'a mut [u8]) -> (r: Self) {
        GenericPage { data: data }
    }
}

impl<'a> FromSlice<'a> for ConfigPage<'a> {
    open spec fn view_bytes(&self) -> Seq<u8> {
        self.bytes()
    }

    fn from_slice(data: &'a mut [u8]) -> (r: Self) {
        ConfigPage { data: data }
    }
}

impl<'a> FromSlice<'a> for FreeListPage<'a> {
    open spec fn view_bytes(&self) -> Seq<u8> {
        self.bytes()
    }

    fn from_slice(data: &'a mut [u8]) -> (r: Self) {
        FreeListPage { data: data }
    }
}

/// A typed mutable view of page `index` of the store.
pub fn get_page_mut<'a, T: FromSlice<'a>>(memory: &'a mut [u8], index: u64) -> (r: Result<
    T,
    PageError,
>)
    ensures
        r is Ok <==> index < page_count(old(memory)@),
        r is Ok ==> r->Ok_0.view_bytes() == page_of(old(memory)@, index as int),
        r is Err ==> r == Err::<T, PageError>(PageError::PageOutOfRange { index })
            && final(memory)@ == old(memory)@,
{
    if index >= (memory.len() / PAGE_SIZE) as u64 {
        return Err(PageError::PageOutOfRange { index });
    }
    proof {
        lemma_page_in_store(memory@, index as int);
    }
    Ok(T::from_slice(page_window(memory, index as usize)))
}

} // verus!

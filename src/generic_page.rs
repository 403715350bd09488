//! A page whose role is not known: a plain mutable view of its bytes.
use vstd::prelude::*;

verus! {

#[derive(Debug, PartialEq)]
pub struct GenericPage<'a> {
    pub data: &'a mut [u8],
}

impl<'a> GenericPage<'a> {
    pub open spec fn bytes(&self) -> Seq<u8> {
        self.data@
    }

    /// Wraps the bytes of a config page as a generic page.
    pub fn from_config_page(data: &'a mut [u8]) -> (r: Self)
        ensures
            r.bytes() == old(data)@,
    {
        GenericPage { data: data }
    }
}

} // verus!

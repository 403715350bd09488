//! A page of any role, for the places where the role is found at run time.
use crate::config_page::ConfigPage;
use crate::free_list_page::FreeListPage;
use crate::generic_page::GenericPage;
use vstd::prelude::*;

verus! {

pub enum AnyPage<'a> {
    Generic(GenericPage<'a>),
    Config(ConfigPage<'a>),
    FreeList(FreeListPage<'a>),
}

impl<'a> AnyPage<'a> {
    /// A generic page read as a config page; `None` for any other page.
    pub fn to_config_page(self) -> (r: Option<ConfigPage<'a>>)
        ensures
            r is Some <==> self is Generic,
            r is Some ==> r->Some_0.bytes() == self->Generic_0.bytes(),
    {
        if let AnyPage::Generic(page) = self {
            Some(ConfigPage::from_generic_page(page))
        } else {
            None
        }
    }

    /// A config page seen as a generic page; `None` for any other page.
    pub fn to_generic_page(self) -> (r: Option<GenericPage<'a>>)
        ensures
            r is Some <==> self is Config,
            r is Some ==> r->Some_0.bytes() == self->Config_0.bytes(),
    {
        if let AnyPage::Config(page) = self {
            Some(GenericPage::from_config_page(page.data))
        } else {
            None
        }
    }
}

} // verus!

//! A paged block allocator over a byte store of 4 KiB pages, with a
//! versioned, copy-on-write history of its allocation state.
pub mod le_bytes;
pub mod u48;
pub mod page;
pub mod config_page;
pub mod free_list_page;
pub mod error;
pub mod chain;
pub mod ring;
pub mod page_manager;
pub mod generic_page;
pub mod any_page;
pub mod from_slice;

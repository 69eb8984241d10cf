//! A four-level page-table manager that reaches its tables through a
//! recursive self-mapping, modelled over a sparse physical memory of
//! page-table frames.

pub mod addr;
pub mod entry;
pub mod memory;
pub mod allocator;
pub mod table;
pub mod paging;
pub mod temporary_page;

pub mod attr;
pub mod memory_set;


pub mod page_replace;
pub mod paging;
pub mod phys;

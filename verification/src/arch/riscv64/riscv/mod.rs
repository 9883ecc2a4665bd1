pub mod paging;

pub mod ivrs;
pub mod ivrs_laws;
pub mod paging;

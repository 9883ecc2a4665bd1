pub mod iort;
pub mod iort_laws;
pub mod smmu2;
pub mod smmu3;

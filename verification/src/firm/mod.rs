pub mod acpi;
pub mod pcie;

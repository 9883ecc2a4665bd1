[package]
name = "kore_iommu"
version = "0.1.0"
edition = "2021"
publish = false

[dependencies]
acpi = { version = "=5.2.0", default-features = false }
heapless = "=0.8.0"
memory_addr = "=0.4.1"
x86_64 = { version = "=0.15.5", default-features = false, features = ["instructions"] }

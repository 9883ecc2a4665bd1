# kore_iommu

Building blocks for I/O memory management units, proved with Verus: addresses
and address ranges, firmware tables (DMAR, IVRS, IORT), page-table formats,
descriptors, and the decisions of an Intel VT-d controller.

- `src/` is the library. It touches no hardware: an operation is given what was
  read, and returns what is to be written and in which order. Every contract is
  stated over the mathematical model of the data, and the `law_*` functions state
  what holds across operations.
- `app/` is the platform side: mapped memory and registers, control registers,
  traits of other crates, and printing.
- `tests/` runs the library on concrete tables, descriptors and queues.

| Module | Contents |
| --- | --- |
| `addr`, `bits`, `bytes`, `walk` | addresses, bit fields, little-endian numbers, walks over lists of records and their visitors |
| `memory`, `mapping` | page sizes, page-table geometry and entries, mapping requests |
| `firm` | PCI requester identities, system description tables |
| `caps`, `info`, `error`, `ctrl` | what all controllers share: capabilities, bindings, invalidation requests |
| `queue`, `submit`, `device`, `poll` | command queues, submissions to them step by step, the hardware behind them with a log of what is done to it, bounded polling |
| `arch::x86_64` | interrupts, address-space activation, AMD-Vi and Intel VT-d |
| `arch::aarch64`, `arch::riscv64` | SMMU and RISC-V page-table geometry, the IORT |

pub mod riscv;

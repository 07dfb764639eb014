pub mod qemu_pc;
pub mod qemu_virt_aarch64;
pub mod qemu_virt_riscv64;
pub mod raspberrypi3;
pub mod virtualbox;

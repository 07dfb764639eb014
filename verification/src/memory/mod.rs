pub mod mmap;
pub mod phys;

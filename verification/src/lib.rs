//! Small systems-programming exercises with verified contracts.

pub mod hello;
pub mod mmu;
pub mod unsigned;
pub mod wordcount;
pub mod bitmap;
pub mod records;
pub mod bufio;
pub mod pool;
pub mod shell;
pub mod arguments;

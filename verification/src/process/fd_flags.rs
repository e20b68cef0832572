//! File descriptor open flags.
use vstd::prelude::*;

verus! {

pub const O_RDONLY: u32 = 0;
pub const O_WRONLY: u32 = 1;
pub const O_RDWR: u32 = 2;
pub const O_APPEND: u32 = 0x400;
pub const O_CREAT: u32 = 0x40;
pub const O_TRUNC: u32 = 0x200;

} // verus!

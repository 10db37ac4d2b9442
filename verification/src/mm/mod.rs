//! Memory management: addresses, page numbers and the physical frame allocator.
pub mod address;
pub mod frame_allocator;

pub use address::{PhysAddr, PhysPageNum, StepByOne, VirtAddr};
pub use frame_allocator::{frame_alloc, frame_dealloc, FrameTracker};

//! Where blocks come from.

pub mod heap;
pub mod huge_page_backed;
pub mod inline;
pub mod locked_mmap;
pub mod mmap;
pub mod static_buf;

pub use self::heap::{HeapBytes, HeapRequest};
pub use self::huge_page_backed::HugePageBacked;
pub use self::inline::{InlineBacked, MAX_ALIGN};
pub use self::locked_mmap::LockedMmapBacked;
pub use self::mmap::{MmapBacked, MmapFlags};
pub use self::static_buf::StaticBacked;

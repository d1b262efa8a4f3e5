//! Wrappers that harden an allocator.

pub mod cache_jitter;
pub mod canary;
pub mod faulty;
pub mod guard_page;
pub mod huge_page;
pub mod numa;
pub mod poison;
pub mod split_metadata;
pub mod statistics;
pub mod zeroize;

pub use self::cache_jitter::CacheJitter;
pub use self::canary::Canary;
pub use self::faulty::Faulty;
pub use self::guard_page::GuardPage;
pub use self::huge_page::{default_huge_page_size, HugePageAligned};
pub use self::numa::{current_numa_node, NodeSet, NumaLocal, NumaPolicy};
pub use self::poison::{PoisonOnFree, DEFAULT_POISON};
pub use self::split_metadata::SplitMetadata;
pub use self::statistics::{AllocStats, Statistics};
pub use self::zeroize::ZeroizeOnFree;

//! A read-through page cache for object stores.
//!
//! Objects are cached in fixed-size pages. [`memory::InMemoryCache`] keeps
//! pages and object metadata in memory; [`ReadThroughCache`] turns a byte
//! range into page lookups, tells its caller which pages have to be fetched
//! from the backing store, and puts the answer together.
//!
//! The library performs no I/O. Whoever drives it talks to the backing store
//! and hands the outcome back.

pub mod buffer;
pub mod coherence;
pub mod error;
pub mod layout;
pub mod memory;
pub mod paging;
pub mod read_through;

pub use error::{Error, ErrorSource};
pub use read_through::ReadThroughCache;

//! Verified solutions: a bounded temperature store with its command handler,
//! and a collection of small, self-contained exercises.

pub mod sums;
pub mod text;
pub mod text_map;
pub mod temperature;
pub mod store;
pub mod protocol;
pub mod monitor;
pub mod fundamentals;
pub mod structs_enums;
pub mod ownership;
pub mod smart_pointers;
pub mod error_handling;
pub mod pattern_matching;
pub mod iterators;
pub mod books;
pub mod members;
pub mod loans;
pub mod library;
pub mod traits;
pub mod generics;

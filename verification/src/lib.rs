//! A navigable, searchable catalog of annotated shell scripts.
//!
//! The crate parses metadata directives out of script headers, builds a
//! deterministically ordered catalog, ranks catalog entries against fuzzy
//! search queries, and drives the breadcrumb-based menu state machine that
//! ties browsing, category listing and search together.
use vstd::prelude::*;

pub mod display;
pub mod menu;
pub mod models;
pub mod order;
pub mod scanner;
pub mod search;
pub mod store;
pub mod text;

verus! {

/// The sort-time default applied to entries that declare no explicit order.
pub const DEFAULT_ORDER: i32 = 999;

/// The order key an entry sorts by: its declared order, or the default.
pub fn effective_order(order: Option<i32>) -> (r: i32)
    ensures
        r == spec_effective_order(order),
{
    match order {
        Some(o) => o,
        None => DEFAULT_ORDER,
    }
}

/// What `effective_order` returns.
pub open spec fn spec_effective_order(order: Option<i32>) -> int {
    match order {
        Some(o) => o as int,
        None => DEFAULT_ORDER as int,
    }
}

} // verus!

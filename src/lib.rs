//! Discovery of the newest `zfs-<major>.<minor>.<patch>-cachyos` release
//! branch of the CachyOS ZFS fork.
//!
//! The library holds the decisions: which page to ask for next and when the
//! listing is complete ([`listing`]), and which branch name is the latest
//! ([`select`]). Fetching pages and running the prefetch tool happen outside.
use vstd::prelude::*;

pub mod listing;
pub mod prefetch;
pub mod select;

verus! {

pub use listing::{BranchLister, FetchError, ListStep, PageRequest, PageResponse, PAGE_SIZE, USER_AGENT};
pub use prefetch::{head_ref, SOURCE_URL};
pub use select::{find_latest_cachyos_branch, select_latest, SelectionError, BRANCH_PATTERN};

} // verus!

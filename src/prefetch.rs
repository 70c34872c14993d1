//! What is handed to the prefetch tool for a selected branch.
use vstd::prelude::*;

verus! {

/// Repository that the prefetch tool fetches from.
pub const SOURCE_URL: &'static str = "https://github.com/CachyOS/zfs.git";

/// The full ref path of branch `branch`.
pub open spec fn head_ref_of(branch: Seq<char>) -> Seq<char> {
    "refs/heads/"@ + branch
}

/// The ref path `refs/heads/<branch>` under which the prefetch tool finds
/// the branch.
pub fn head_ref(branch: &str) -> (r: String)
    ensures
        r@ == head_ref_of(branch@),
{
    let mut r = String::from_str("refs/heads/");
    r.append(branch);
    r
}

} // verus!

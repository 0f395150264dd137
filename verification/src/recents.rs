//! The list of recently opened repositories: what an entry holds and how long the list grows.
use vstd::prelude::*;

verus! {

/// How many recents the list shows. The list is for reopening what one was working on, not a
/// history: past a few dozen it no longer helps to choose.
pub const RECENTS_LIMIT: usize = 20;

/// A repository opened recently. The path is the primary datum; the id is derived from it.
pub struct Recent {
    pub repo_id: String,
    pub path: String,
    pub name: String,
    /// Milliseconds since the epoch: two repositories opened in the same second still have an
    /// order, and the order is all the list says.
    pub opened_at: i64,
}

/// A recent and whether its folder is still a repository. A folder that moved stays in the
/// list, disabled: dropping it silently would hide from the user that it moved.
pub struct RecentEntry {
    pub recent: Recent,
    pub available: bool,
}

} // verus!

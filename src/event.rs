use vstd::prelude::*;

use crate::origin::Origin;
use crate::table::{announce_model, unannounce_model};

verus! {

/// One item of an origin's own announcement stream.
pub enum Announcement {
    /// The origin now announces the path.
    Active(String),
    /// The origin no longer announces the path.
    Ended(String),
    /// The origin's initial backlog has been delivered.
    Live,
}

/// The routing table after `origin` delivers `event`.
pub open spec fn step_model(
    m: Map<Seq<char>, Seq<Origin>>,
    event: Announcement,
    origin: Origin,
) -> Map<Seq<char>, Seq<Origin>> {
    match event {
        Announcement::Active(path) => announce_model(m, path@, origin),
        Announcement::Ended(path) => unannounce_model(m, path@, origin),
        Announcement::Live => m,
    }
}

} // verus!

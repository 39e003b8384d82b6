//! The origin registry of a media relay: which origins currently announce
//! each track path, which origin serves a path, and a deduplicated
//! announcement bus that sees every path become active and end exactly once.

mod bus;
mod event;
mod filter;
mod laws;
mod origin;
mod origins;
mod table;

pub use bus::{active_paths, backlog_of, live_of, reports_live};
pub use event::{step_model, Announcement};
pub use filter::PathFilter;
pub use laws::{
    activations, emits_active, emits_ended, endings, lemma_first_announced_wins, lemma_first_announcer_serves,
    lemma_route_kept_on_announce, lemma_run_wf, lemma_single_transition, lemma_step_transition, lemma_step_wf,
    lemma_unannounce_absent, present, run, withdraws,
};
pub use origin::Origin;
pub use origins::Origins;
pub use table::{announce_model, route_model, unannounce_model, wf_model, RouteTable};

use vstd::prelude::*;

use moq_transfork::{AnnouncedConsumer, AnnouncedProducer, Filter};

use crate::filter::PathFilter;

verus! {

#[verifier::external_type_specification]
#[verifier::external_body]
pub struct ExAnnouncedProducer(AnnouncedProducer);

#[verifier::external_type_specification]
#[verifier::external_body]
pub struct ExAnnouncedConsumer(AnnouncedConsumer);

/// The paths that a producer currently holds as active: what a new
/// subscriber receives as its backlog.
pub uninterp spec fn active_paths(p: AnnouncedProducer) -> Set<Seq<char>>;

/// The producer has been marked live: its subscribers hear a `Live` marker
/// once their backlog is delivered.
pub uninterp spec fn live_of(p: AnnouncedProducer) -> bool;

/// The paths waiting in a consumer's queue of activations when `subscribe`
/// builds it: its backlog.
pub uninterp spec fn backlog_of(c: AnnouncedConsumer) -> Set<Seq<char>>;

/// The consumer will report `Live` once its backlog is delivered.
pub uninterp spec fn reports_live(c: AnnouncedConsumer) -> bool;

/// Relies on `AnnouncedProducer::new`: a new producer holds no active path
/// and is not yet live.
#[verifier::external_body]
pub(crate) fn new_producer() -> (r: AnnouncedProducer)
    ensures
        active_paths(r) == Set::<Seq<char>>::empty(),
        !live_of(r),
{
    AnnouncedProducer::new()
}

/// Relies on `AnnouncedProducer::live`: from now on a subscriber hears a
/// `Live` marker once its backlog is delivered; the active set stays.
#[verifier::external_body]
pub(crate) fn mark_live(p: &mut AnnouncedProducer)
    ensures
        active_paths(*final(p)) == active_paths(*old(p)),
        live_of(*final(p)),
{
    p.live();
}

/// Relies on `AnnouncedProducer::announce`: the path joins the active set,
/// and subscribers are told (true) only when it was not in it before.
#[verifier::external_body]
pub(crate) fn announce_path(p: &mut AnnouncedProducer, path: String) -> (r: bool)
    ensures
        active_paths(*final(p)) == active_paths(*old(p)).insert(path@),
        live_of(*final(p)) == live_of(*old(p)),
        r == !active_paths(*old(p)).contains(path@),
{
    p.announce(path)
}

/// Relies on `AnnouncedProducer::unannounce`: the path leaves the active
/// set, and subscribers are told (true) only when it was in it before.
#[verifier::external_body]
pub(crate) fn unannounce_path(p: &mut AnnouncedProducer, path: &str) -> (r: bool)
    ensures
        active_paths(*final(p)) == active_paths(*old(p)).remove(path@),
        live_of(*final(p)) == live_of(*old(p)),
        r == active_paths(*old(p)).contains(path@),
{
    p.unannounce(path)
}

/// Relies on `AnnouncedProducer::subscribe` and `Filter::matches`: the new
/// consumer's backlog is the active paths that the filter accepts, and it
/// reports `Live` after them when the producer is live.
#[verifier::external_body]
pub(crate) fn subscribe_paths(p: &AnnouncedProducer, filter: PathFilter) -> (r: AnnouncedConsumer)
    ensures
        backlog_of(r) == Set::new(|s: Seq<char>| active_paths(*p).contains(s) && filter.matches(s)),
        reports_live(r) == live_of(*p),
{
    let filter = match filter {
        PathFilter::Any => Filter::Any,
        PathFilter::Exact(pattern) => Filter::Exact(pattern),
        PathFilter::Prefix(prefix) => Filter::Prefix(prefix),
        PathFilter::Suffix(suffix) => Filter::Suffix(suffix),
        PathFilter::Wildcard { prefix, suffix } => Filter::Wildcard { prefix, suffix },
    };
    p.subscribe(filter)
}

} // verus!

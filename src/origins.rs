use vstd::prelude::*;

use moq_transfork::{AnnouncedConsumer, AnnouncedProducer};

use crate::bus::{
    active_paths, announce_path, backlog_of, live_of, mark_live, new_producer, reports_live,
    subscribe_paths, unannounce_path,
};
use crate::filter::PathFilter;
use crate::event::{step_model, Announcement};
use crate::origin::Origin;
use crate::table::{announce_model, route_model, unannounce_model, wf_model, RouteTable};

verus! {

/// The origin registry: which origins announce each path, and the bus that
/// tells subscribers when a path becomes active or ends.
pub struct Origins {
    unique: AnnouncedProducer,
    routes: RouteTable,
}

impl Origins {
    /// The routing table: each announced path with its origins, oldest first.
    pub closed spec fn view(&self) -> Map<Seq<char>, Seq<Origin>> {
        self.routes@
    }

    /// The paths that the bus holds as active.
    pub closed spec fn bus_active(&self) -> Set<Seq<char>> {
        active_paths(self.unique)
    }

    /// The table is well formed, the bus holds as active exactly the paths
    /// that have an entry, and the bus is live.
    pub closed spec fn wf(&self) -> bool {
        &&& self.routes.wf()
        &&& active_paths(self.unique) == self.routes@.dom()
        &&& live_of(self.unique)
    }

    /// What a well-formed registry guarantees: the bus's active paths are
    /// the table's paths, and no path has an empty list of origins.
    pub proof fn lemma_wf(&self)
        requires
            self.wf(),
        ensures
            self.bus_active() == self@.dom(),
            wf_model(self@),
    {
        self.routes.lemma_nonempty();
    }

    /// An empty registry. It has no backlog of its own, so the bus is live
    /// from the start: a subscriber hears `Live` right after the paths that
    /// were active when it subscribed.
    pub fn new() -> (r: Origins)
        ensures
            r.wf(),
            r@ == Map::<Seq<char>, Seq<Origin>>::empty(),
    {
        let mut unique = new_producer();
        mark_live(&mut unique);
        let r = Origins { unique, routes: RouteTable::new() };
        assert(active_paths(r.unique) =~= r.routes@.dom());
        r
    }

    /// Records that `origin` announces `path`. The bus hears of the path
    /// only when no origin announced it before.
    pub fn announce_track(&mut self, path: String, origin: Origin)
        requires
            old(self).wf(),
        ensures
            final(self).wf(),
            final(self)@ == announce_model(old(self)@, path@, origin),
            final(self).bus_active() == old(self).bus_active().insert(path@),
    {
        let key = path.clone();
        let created = self.routes.announce_track(path, origin);
        if created {
            announce_path(&mut self.unique, key);
        }
        proof {
            if !created {
                assert(active_paths(self.unique).insert(key@) =~= active_paths(self.unique));
            }
            assert(active_paths(self.unique) =~= self.routes@.dom());
        }
    }

    /// Records that `origin` withdraws `path`. The bus hears that the path
    /// ended only when its last origin left; withdrawing what was not
    /// announced changes nothing.
    pub fn unannounce_track(&mut self, path: &str, origin: Origin)
        requires
            old(self).wf(),
        ensures
            final(self).wf(),
            final(self)@ == unannounce_model(old(self)@, path@, origin),
            final(self).bus_active() == (if final(self)@.contains_key(path@) {
                old(self).bus_active()
            } else {
                old(self).bus_active().remove(path@)
            }),
    {
        let ended = self.routes.unannounce_track(path, origin);
        if ended {
            unannounce_path(&mut self.unique, path);
        }
        proof {
            if !ended && !old(self).routes@.contains_key(path@) {
                assert(active_paths(self.unique).remove(path@) =~= active_paths(self.unique));
            }
            assert(active_paths(self.unique) =~= self.routes@.dom());
        }
    }

    /// Applies one item of an origin's announcement stream: `Active`
    /// announces, `Ended` withdraws, `Live` changes nothing.
    pub fn apply(&mut self, event: Announcement, origin: Origin)
        requires
            old(self).wf(),
        ensures
            final(self).wf(),
            final(self)@ == step_model(old(self)@, event, origin),
            final(self).bus_active() == final(self)@.dom(),
    {
        match event {
            Announcement::Active(path) => self.announce_track(path, origin),
            Announcement::Ended(path) => self.unannounce_track(path.as_str(), origin),
            Announcement::Live => {},
        }
    }

    /// A consumer of the bus: first, as `Active`, each announced path that
    /// `filter` accepts, once; then `Live`; then the transitions that follow.
    pub fn announced(&self, filter: PathFilter) -> (r: AnnouncedConsumer)
        requires
            self.wf(),
        ensures
            backlog_of(r) == Set::new(|s: Seq<char>| self@.contains_key(s) && filter.matches(s)),
            reports_live(r),
    {
        subscribe_paths(&self.unique, filter)
    }

    /// The origin that serves `path`: the first of its origins in the order
    /// in which they announced it, or none when no origin announces it.
    pub fn route(&self, path: &str) -> (r: Option<Origin>)
        requires
            self.wf(),
        ensures
            r == route_model(self@, path@),
            r.is_some() == self@.contains_key(path@),
    {
        self.routes.route(path)
    }
}

impl Default for Origins {
    fn default() -> (r: Origins)
        ensures
            r.wf(),
            r@ == Map::<Seq<char>, Seq<Origin>>::empty(),
    {
        Origins::new()
    }
}

} // verus!

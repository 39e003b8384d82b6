use vstd::prelude::*;

use crate::origin::Origin;

verus! {

/// What the table holds after `origin` announces `path`: the origin is
/// appended to the path's list, which is created if the path had none.
pub open spec fn announce_model(
    m: Map<Seq<char>, Seq<Origin>>,
    path: Seq<char>,
    origin: Origin,
) -> Map<Seq<char>, Seq<Origin>> {
    if m.contains_key(path) {
        m.insert(path, m[path].push(origin))
    } else {
        m.insert(path, seq![origin])
    }
}

/// What the table holds after `origin` withdraws `path`: the first
/// occurrence of the origin leaves the path's list, and a list that becomes
/// empty leaves the table.
pub open spec fn unannounce_model(
    m: Map<Seq<char>, Seq<Origin>>,
    path: Seq<char>,
    origin: Origin,
) -> Map<Seq<char>, Seq<Origin>> {
    if !m.contains_key(path) {
        m
    } else if m[path].remove_value(origin).len() == 0 {
        m.remove(path)
    } else {
        m.insert(path, m[path].remove_value(origin))
    }
}

/// No path of the table has an empty list of origins.
pub open spec fn wf_model(m: Map<Seq<char>, Seq<Origin>>) -> bool {
    forall|p: Seq<char>| #[trigger] m.contains_key(p) ==> m[p].len() > 0
}

/// The origin that serves `path`: the first of its list.
pub open spec fn route_model(m: Map<Seq<char>, Seq<Origin>>, path: Seq<char>) -> Option<Origin> {
    if m.contains_key(path) {
        Some(m[path][0])
    } else {
        None
    }
}

/// The origins that announce one path, oldest first.
pub struct RouteEntry {
    pub path: String,
    pub origins: Vec<Origin>,
}

/// The routing table: for each announced path, the origins that announce
/// it, in the order in which they did.
pub struct RouteTable {
    entries: Vec<RouteEntry>,
}

impl RouteTable {
    /// Paths are unique and no list is empty.
    pub closed spec fn wf(&self) -> bool {
        &&& forall|i: int, j: int|
            0 <= i < self.entries.len() && 0 <= j < self.entries.len() && i != j
                ==> #[trigger] self.entries[i].path@ != #[trigger] self.entries[j].path@
        &&& forall|i: int|
            0 <= i < self.entries.len() ==> #[trigger] self.entries[i].origins@.len() > 0
    }

    /// Some entry holds `p`.
    pub closed spec fn has_path(&self, p: Seq<char>) -> bool {
        exists|i: int| 0 <= i < self.entries.len() && #[trigger] self.entries[i].path@ == p
    }

    /// The table as a map from path to its origins.
    pub closed spec fn view(&self) -> Map<Seq<char>, Seq<Origin>> {
        Map::new(
            |p: Seq<char>| self.has_path(p),
            |p: Seq<char>|
                self.entries[choose|i: int|
                    0 <= i < self.entries.len() && #[trigger] self.entries[i].path@ == p].origins@,
        )
    }

    proof fn lemma_view_at(&self, i: int)
        requires
            self.wf(),
            0 <= i < self.entries.len(),
        ensures
            self@.contains_key(self.entries[i].path@),
            self@[self.entries[i].path@] == self.entries[i].origins@,
    {
        let p = self.entries[i].path@;
        assert(self.has_path(p));
        let j = choose|j: int| 0 <= j < self.entries.len() && #[trigger] self.entries[j].path@ == p;
        assert(j == i);
    }

    /// The invariant of the map: no path has an empty list.
    pub proof fn lemma_nonempty(&self)
        requires
            self.wf(),
        ensures
            wf_model(self@),
    {
        assert forall|p: Seq<char>| #[trigger] self@.contains_key(p) implies self@[p].len() > 0 by {
            let i = choose|i: int| 0 <= i < self.entries.len() && #[trigger] self.entries[i].path@ == p;
            self.lemma_view_at(i);
        }
    }

    pub fn new() -> (r: RouteTable)
        ensures
            r.wf(),
            r@ == Map::<Seq<char>, Seq<Origin>>::empty(),
    {
        let r = RouteTable { entries: Vec::new() };
        assert(r@ =~= Map::<Seq<char>, Seq<Origin>>::empty());
        r
    }

    /// The index of the entry for `path`, if there is one.
    fn find(&self, path: &String) -> (r: Option<usize>)
        requires
            self.wf(),
        ensures
            match r {
                Some(i) => i < self.entries.len() && self.entries[i as int].path@ == path@,
                None => !self@.contains_key(path@),
            },
    {
        let mut i: usize = 0;
        while i < self.entries.len()
            invariant
                i <= self.entries.len(),
                forall|j: int| 0 <= j < i ==> #[trigger] self.entries[j].path@ != path@,
            decreases self.entries.len() - i,
        {
            if self.entries[i].path == *path {
                return Some(i);
            }
            i = i + 1;
        }
        None
    }

    /// Records that `origin` announces `path`; true when the path had no
    /// entry before, so that it has just become active.
    pub fn announce_track(&mut self, path: String, origin: Origin) -> (r: bool)
        requires
            old(self).wf(),
        ensures
            final(self).wf(),
            final(self)@ == announce_model(old(self)@, path@, origin),
            r == !old(self)@.contains_key(path@),
    {
        match self.find(&path) {
            Some(i) => {
                proof {
                    self.lemma_view_at(i as int);
                }
                let ghost before = self.entries@;
                let mut entry = self.entries.remove(i);
                entry.origins.push(origin);
                self.entries.insert(i, entry);
                proof {
                    assert(self.entries@ =~= before.update(i as int, self.entries[i as int]));
                    let m = announce_model(old(self)@, path@, origin);
                    assert forall|k: int| 0 <= k < self.entries.len() && k != i implies
                        #[trigger] self.entries[k] == before[k] by {}
                    assert forall|k: int| 0 <= k < self.entries.len() implies
                        #[trigger] self.entries[k].origins@.len() > 0 by {}
                    assert forall|q: Seq<char>| self.has_path(q) <==> old(self).has_path(q) by {
                        if self.has_path(q) {
                            let k = choose|k: int| 0 <= k < self.entries.len() && #[trigger] self.entries[k].path@ == q;
                            assert(old(self).entries[k].path@ == q);
                        }
                        if old(self).has_path(q) {
                            let k = choose|k: int| 0 <= k < old(self).entries.len() && #[trigger] old(self).entries[k].path@ == q;
                            assert(self.entries[k].path@ == q);
                        }
                    }
                    assert forall|q: Seq<char>| #[trigger] self@.contains_key(q) implies self@[q] == m[q] by {
                        let k = choose|k: int| 0 <= k < self.entries.len() && #[trigger] self.entries[k].path@ == q;
                        self.lemma_view_at(k);
                        old(self).lemma_view_at(k);
                    }
                    assert(self@ =~= m);
                }
                false
            },
            None => {
                let ghost before = self.entries@;
                let mut origins: Vec<Origin> = Vec::new();
                origins.push(origin);
                self.entries.push(RouteEntry { path, origins });
                proof {
                    let n = before.len() as int;
                    let m = announce_model(old(self)@, path@, origin);
                    assert(self.entries[n].origins@ =~= seq![origin]);
                    assert forall|k: int| 0 <= k < n implies #[trigger] self.entries[k] == before[k] by {}
                    assert forall|k: int| 0 <= k < n implies #[trigger] self.entries[k].path@ != path@ by {
                        old(self).lemma_view_at(k);
                    }
                    assert forall|q: Seq<char>| self.has_path(q) <==> (old(self).has_path(q) || q == path@) by {
                        if self.has_path(q) {
                            let k = choose|k: int| 0 <= k < self.entries.len() && #[trigger] self.entries[k].path@ == q;
                            if k < n {
                                assert(old(self).entries[k].path@ == q);
                            }
                        }
                        if old(self).has_path(q) {
                            let k = choose|k: int| 0 <= k < old(self).entries.len() && #[trigger] old(self).entries[k].path@ == q;
                            assert(self.entries[k].path@ == q);
                        }
                        if q == path@ {
                            assert(self.entries[n].path@ == q);
                        }
                    }
                    assert forall|q: Seq<char>| #[trigger] self@.contains_key(q) implies self@[q] == m[q] by {
                        let k = choose|k: int| 0 <= k < self.entries.len() && #[trigger] self.entries[k].path@ == q;
                        self.lemma_view_at(k);
                        if k < n {
                            old(self).lemma_view_at(k);
                        }
                    }
                    assert(self@ =~= m);
                }
                true
            },
        }
    }

    proof fn lemma_replace(a: &RouteTable, b: &RouteTable, i: int)
        requires
            a.wf(),
            0 <= i < a.entries.len(),
            b.entries.len() == a.entries.len(),
            b.entries[i].path@ == a.entries[i].path@,
            b.entries[i].origins@.len() > 0,
            forall|k: int| 0 <= k < a.entries.len() && k != i ==> #[trigger] b.entries[k] == a.entries[k],
        ensures
            b.wf(),
            b@ == a@.insert(a.entries[i].path@, b.entries[i].origins@),
    {
        let m = a@.insert(a.entries[i].path@, b.entries[i].origins@);
        assert(b.wf()) by {
            assert forall|x: int, y: int|
                0 <= x < b.entries.len() && 0 <= y < b.entries.len() && x != y
                    implies #[trigger] b.entries[x].path@ != #[trigger] b.entries[y].path@ by {
                assert(a.entries[x].path@ != a.entries[y].path@);
            }
            assert forall|x: int| 0 <= x < b.entries.len() implies #[trigger] b.entries[x].origins@.len() > 0 by {
                if x != i {
                    assert(a.entries[x].origins@.len() > 0);
                }
            }
        }
        assert forall|q: Seq<char>| b.has_path(q) <==> a.has_path(q) by {
            if b.has_path(q) {
                let k = choose|k: int| 0 <= k < b.entries.len() && #[trigger] b.entries[k].path@ == q;
                assert(a.entries[k].path@ == q);
            }
            if a.has_path(q) {
                let k = choose|k: int| 0 <= k < a.entries.len() && #[trigger] a.entries[k].path@ == q;
                assert(b.entries[k].path@ == q);
            }
        }
        a.lemma_view_at(i);
        assert forall|q: Seq<char>| #[trigger] b@.contains_key(q) implies b@[q] == m[q] by {
            let k = choose|k: int| 0 <= k < b.entries.len() && #[trigger] b.entries[k].path@ == q;
            b.lemma_view_at(k);
            a.lemma_view_at(k);
        }
        assert(b@ =~= m);
    }

    proof fn lemma_remove(a: &RouteTable, b: &RouteTable, i: int)
        requires
            a.wf(),
            0 <= i < a.entries.len(),
            b.entries@ == a.entries@.remove(i),
        ensures
            b.wf(),
            b@ == a@.remove(a.entries[i].path@),
    {
        let p = a.entries[i].path@;
        let m = a@.remove(p);
        let old_index = |k: int| if k < i { k } else { k + 1 };
        assert forall|k: int| 0 <= k < b.entries.len() implies #[trigger] b.entries[k] == a.entries[old_index(k)] by {}
        assert(b.wf()) by {
            assert forall|x: int, y: int|
                0 <= x < b.entries.len() && 0 <= y < b.entries.len() && x != y
                    implies #[trigger] b.entries[x].path@ != #[trigger] b.entries[y].path@ by {
                assert(b.entries[x] == a.entries[old_index(x)]);
                assert(b.entries[y] == a.entries[old_index(y)]);
            }
            assert forall|x: int| 0 <= x < b.entries.len() implies #[trigger] b.entries[x].origins@.len() > 0 by {
                assert(b.entries[x] == a.entries[old_index(x)]);
            }
        }
        assert forall|q: Seq<char>| b.has_path(q) <==> (a.has_path(q) && q != p) by {
            if b.has_path(q) {
                let k = choose|k: int| 0 <= k < b.entries.len() && #[trigger] b.entries[k].path@ == q;
                assert(b.entries[k] == a.entries[old_index(k)]);
                assert(a.entries[old_index(k)].path@ == q);
            }
            if a.has_path(q) && q != p {
                let k = choose|k: int| 0 <= k < a.entries.len() && #[trigger] a.entries[k].path@ == q;
                if k < i {
                    assert(b.entries[k] == a.entries[k]);
                    assert(b.entries[k].path@ == q);
                } else {
                    assert(k != i);
                    assert(b.entries[k - 1] == a.entries[k]);
                    assert(b.entries[k - 1].path@ == q);
                }
            }
        }
        assert forall|q: Seq<char>| #[trigger] b@.contains_key(q) implies b@[q] == m[q] by {
            let k = choose|k: int| 0 <= k < b.entries.len() && #[trigger] b.entries[k].path@ == q;
            b.lemma_view_at(k);
            assert(b.entries[k] == a.entries[old_index(k)]);
            a.lemma_view_at(old_index(k));
        }
        assert(b@ =~= m);
    }

    /// Records that `origin` withdraws `path`; true when the path's last
    /// origin left, so that it has just ended.
    pub fn unannounce_track(&mut self, path: &str, origin: Origin) -> (r: bool)
        requires
            old(self).wf(),
        ensures
            final(self).wf(),
            final(self)@ == unannounce_model(old(self)@, path@, origin),
            r == (old(self)@.contains_key(path@) && old(self)@[path@].remove_value(origin).len() == 0),
    {
        let key = path.to_owned();
        let i = match self.find(&key) {
            Some(i) => i,
            None => {
                return false;
            },
        };
        proof {
            self.lemma_view_at(i as int);
        }
        let ghost before = *self;
        let mut entry = self.entries.remove(i);
        let ghost list = entry.origins@;
        let mut j: usize = 0;
        while j < entry.origins.len()
            invariant
                entry.origins@ == list,
                j <= list.len(),
                forall|k: int| 0 <= k < j ==> #[trigger] list[k] != origin,
            ensures
                entry.origins@ == list,
                j <= list.len(),
                forall|k: int| 0 <= k < j ==> #[trigger] list[k] != origin,
                j < list.len() ==> list[j as int] == origin,
            decreases list.len() - j,
        {
            if entry.origins[j] == origin {
                break;
            }
            j = j + 1;
        }
        proof {
            list.index_of_first_ensures(origin);
        }
        if j == entry.origins.len() {
            proof {
                assert(!list.contains(origin));
                assert(list.remove_value(origin) == list);
            }
            self.entries.insert(i, entry);
            proof {
                assert(self.entries@ =~= before.entries@);
                assert(self@ =~= before@);
            }
            return false;
        }
        proof {
            assert(list[j as int] == origin);
            assert(list.contains(origin));
            let f = list.index_of_first(origin).unwrap();
            assert(f == j as int);
        }
        entry.origins.remove(j);
        if entry.origins.len() == 0 {
            proof {
                RouteTable::lemma_remove(&before, self, i as int);
            }
            true
        } else {
            self.entries.insert(i, entry);
            proof {
                assert forall|k: int| 0 <= k < before.entries.len() && k != i implies
                    #[trigger] self.entries[k] == before.entries[k] by {}
                RouteTable::lemma_replace(&before, self, i as int);
            }
            false
        }
    }

    /// The origin that serves `path`: the oldest one that still announces it.
    pub fn route(&self, path: &str) -> (r: Option<Origin>)
        requires
            self.wf(),
        ensures
            r == route_model(self@, path@),
    {
        let key = path.to_owned();
        match self.find(&key) {
            Some(i) => {
                proof {
                    self.lemma_view_at(i as int);
                }
                Some(self.entries[i].origins[0])
            },
            None => None,
        }
    }
}

} // verus!

use vstd::prelude::*;

use crate::event::{step_model, Announcement};
use crate::origin::Origin;
use crate::table::{announce_model, route_model, unannounce_model, wf_model};

verus! {

/// The routing table after the origins deliver `events` in order, starting
/// from `m`. Concurrent drivers take turns on the table, so every
/// interleaving of their calls is such a sequence.
pub open spec fn run(
    m: Map<Seq<char>, Seq<Origin>>,
    events: Seq<(Announcement, Origin)>,
) -> Map<Seq<char>, Seq<Origin>>
    decreases events.len(),
{
    if events.len() == 0 {
        m
    } else {
        step_model(run(m, events.drop_last()), events.last().0, events.last().1)
    }
}

/// The registry tells the bus that `p` became active: an `Active(p)` that
/// finds no entry for `p`.
pub open spec fn emits_active(
    m: Map<Seq<char>, Seq<Origin>>,
    event: Announcement,
    p: Seq<char>,
) -> bool {
    match event {
        Announcement::Active(path) => path@ == p && !m.contains_key(p),
        _ => false,
    }
}

/// The registry tells the bus that `p` ended: an `Ended(p)` that takes the
/// last origin out of the entry for `p`.
pub open spec fn emits_ended(
    m: Map<Seq<char>, Seq<Origin>>,
    event: Announcement,
    origin: Origin,
    p: Seq<char>,
) -> bool {
    match event {
        Announcement::Ended(path) => path@ == p && m.contains_key(p) && m[p].remove_value(
            origin,
        ).len() == 0,
        _ => false,
    }
}

/// How many times the bus hears that `p` became active over the run.
pub open spec fn activations(
    m: Map<Seq<char>, Seq<Origin>>,
    events: Seq<(Announcement, Origin)>,
    p: Seq<char>,
) -> nat
    decreases events.len(),
{
    if events.len() == 0 {
        0
    } else {
        activations(m, events.drop_last(), p) + if emits_active(
            run(m, events.drop_last()),
            events.last().0,
            p,
        ) {
            1nat
        } else {
            0nat
        }
    }
}

/// How many times the bus hears that `p` ended over the run.
pub open spec fn endings(
    m: Map<Seq<char>, Seq<Origin>>,
    events: Seq<(Announcement, Origin)>,
    p: Seq<char>,
) -> nat
    decreases events.len(),
{
    if events.len() == 0 {
        0
    } else {
        endings(m, events.drop_last(), p) + if emits_ended(
            run(m, events.drop_last()),
            events.last().0,
            events.last().1,
            p,
        ) {
            1nat
        } else {
            0nat
        }
    }
}

/// One when `p` has an entry, zero when it has none.
pub open spec fn present(m: Map<Seq<char>, Seq<Origin>>, p: Seq<char>) -> int {
    if m.contains_key(p) {
        1
    } else {
        0
    }
}

/// One step tells the bus that `p` became active exactly when `p` gains an
/// entry, that it ended exactly when `p` loses its entry, and nothing
/// otherwise.
pub proof fn lemma_step_transition(
    m: Map<Seq<char>, Seq<Origin>>,
    event: Announcement,
    origin: Origin,
    p: Seq<char>,
)
    ensures
        emits_active(m, event, p) <==> (!m.contains_key(p) && step_model(m, event, origin).contains_key(p)),
        emits_ended(m, event, origin, p) <==> (m.contains_key(p) && !step_model(m, event, origin).contains_key(p)),
{
}

/// For every path and every sequence of announcements and withdrawals, the
/// bus hears of the path becoming active once per period in which it has an
/// entry and of its end once when that period closes: the activations and
/// endings alternate, and their difference is whether the path has an entry
/// now less whether it had one at the start.
pub proof fn lemma_single_transition(
    m: Map<Seq<char>, Seq<Origin>>,
    events: Seq<(Announcement, Origin)>,
    p: Seq<char>,
)
    ensures
        activations(m, events, p) + present(m, p) == endings(m, events, p) + present(run(m, events), p),
        0 <= activations(m, events, p) + present(m, p) - endings(m, events, p) <= 1,
    decreases events.len(),
{
    if events.len() > 0 {
        lemma_single_transition(m, events.drop_last(), p);
        lemma_step_transition(run(m, events.drop_last()), events.last().0, events.last().1, p);
    }
}

/// Every step keeps every list of the table non-empty.
pub proof fn lemma_step_wf(m: Map<Seq<char>, Seq<Origin>>, event: Announcement, origin: Origin)
    requires
        wf_model(m),
    ensures
        wf_model(step_model(m, event, origin)),
{
    let n = step_model(m, event, origin);
    assert forall|q: Seq<char>| #[trigger] n.contains_key(q) implies n[q].len() > 0 by {
        match event {
            Announcement::Active(path) => {
                if q == path@ && m.contains_key(q) {
                    assert(n[q] == m[q].push(origin));
                }
            },
            _ => {},
        }
    }
}

/// When `a` and then `b` announce a path that had no entry, the path is
/// served by `a`; once `a` withdraws, it is served by `b`.
pub proof fn lemma_first_announced_wins(
    m: Map<Seq<char>, Seq<Origin>>,
    p: Seq<char>,
    a: Origin,
    b: Origin,
)
    requires
        !m.contains_key(p),
    ensures
        route_model(announce_model(announce_model(m, p, a), p, b), p) == Some(a),
        route_model(unannounce_model(announce_model(announce_model(m, p, a), p, b), p, a), p) == Some(b),
{
    let both = announce_model(announce_model(m, p, a), p, b);
    assert(both[p] =~= seq![a, b]);
    seq![a, b].index_of_first_ensures(a);
    assert(seq![a, b].remove_value(a) =~= seq![b]);
}

/// Every run keeps every list of the table non-empty.
pub proof fn lemma_run_wf(m: Map<Seq<char>, Seq<Origin>>, events: Seq<(Announcement, Origin)>)
    requires
        wf_model(m),
    ensures
        wf_model(run(m, events)),
    decreases events.len(),
{
    if events.len() > 0 {
        lemma_run_wf(m, events.drop_last());
        lemma_step_wf(run(m, events.drop_last()), events.last().0, events.last().1);
    }
}

/// The item withdraws `p`.
pub open spec fn withdraws(event: Announcement, p: Seq<char>) -> bool {
    match event {
        Announcement::Ended(path) => path@ == p,
        _ => false,
    }
}

/// When `a` announces a path that had no entry, the path is served by `a`
/// for as long as nobody withdraws it, whatever else is announced or
/// withdrawn meanwhile, the path itself included.
pub proof fn lemma_first_announcer_serves(
    m: Map<Seq<char>, Seq<Origin>>,
    p: Seq<char>,
    a: Origin,
    events: Seq<(Announcement, Origin)>,
)
    requires
        wf_model(m),
        !m.contains_key(p),
        forall|i: int| 0 <= i < events.len() ==> !withdraws(#[trigger] events[i].0, p),
    ensures
        route_model(run(announce_model(m, p, a), events), p) == Some(a),
    decreases events.len(),
{
    let start = announce_model(m, p, a);
    if events.len() > 0 {
        let rest = events.drop_last();
        assert forall|i: int| 0 <= i < rest.len() implies !withdraws(#[trigger] rest[i].0, p) by {
            assert(rest[i] == events[i]);
        }
        lemma_first_announcer_serves(m, p, a, rest);
        let before = run(start, rest);
        assert(wf_model(start)) by {
            assert forall|q: Seq<char>| #[trigger] start.contains_key(q) implies start[q].len() > 0 by {
                if q != p {
                    assert(m.contains_key(q));
                }
            }
        }
        lemma_run_wf(start, rest);
        let (event, origin) = events.last();
        assert(!withdraws(events[events.len() - 1].0, p));
        match event {
            Announcement::Active(path) => {
                if path@ == p {
                    assert(before[p].push(origin)[0] == before[p][0]);
                }
            },
            _ => {},
        }
    }
}

/// A further announcement of a path that has an entry leaves its route as
/// it was.
pub proof fn lemma_route_kept_on_announce(m: Map<Seq<char>, Seq<Origin>>, p: Seq<char>, o: Origin)
    requires
        wf_model(m),
        m.contains_key(p),
    ensures
        route_model(announce_model(m, p, o), p) == route_model(m, p),
{
}

/// Withdrawing a path that has no entry, or that the origin does not
/// announce, leaves the table as it was and tells the bus nothing.
pub proof fn lemma_unannounce_absent(m: Map<Seq<char>, Seq<Origin>>, p: Seq<char>, o: Origin)
    requires
        wf_model(m),
        !m.contains_key(p) || !m[p].contains(o),
    ensures
        unannounce_model(m, p, o) == m,
        !(m.contains_key(p) && m[p].remove_value(o).len() == 0),
{
    if m.contains_key(p) {
        m[p].index_of_first_ensures(o);
        assert(m[p].remove_value(o) == m[p]);
        assert(m.insert(p, m[p]) =~= m);
    }
}

} // verus!

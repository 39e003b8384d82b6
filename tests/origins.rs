use std::future::Future;
use std::task::{Context, Poll, Waker};

use moq_relay_origins::{Announcement, Origin, Origins, PathFilter, RouteTable};
use moq_transfork::{Announced, AnnouncedConsumer};

/// Polls the consumer once: `None` when it would wait, `Some(item)` otherwise.
fn poll_next(consumer: &mut AnnouncedConsumer) -> Option<Option<Announced>> {
    let mut cx = Context::from_waker(Waker::noop());
    let mut next = Box::pin(consumer.next());
    match next.as_mut().poll(&mut cx) {
        Poll::Ready(item) => Some(item),
        Poll::Pending => None,
    }
}

fn expect_active(consumer: &mut AnnouncedConsumer) -> String {
    match poll_next(consumer) {
        Some(Some(Announced::Active(m))) => m.to_full(),
        other => panic!("expected an active path, got {:?}", other),
    }
}

fn expect_ended(consumer: &mut AnnouncedConsumer) -> String {
    match poll_next(consumer) {
        Some(Some(Announced::Ended(m))) => m.to_full(),
        other => panic!("expected an ended path, got {:?}", other),
    }
}

fn expect_live(consumer: &mut AnnouncedConsumer) {
    match poll_next(consumer) {
        Some(Some(Announced::Live)) => {}
        other => panic!("expected the live marker, got {:?}", other),
    }
}

fn expect_quiet(consumer: &mut AnnouncedConsumer) {
    assert!(poll_next(consumer).is_none(), "expected no announcement");
}

#[test]
fn room_scenario_routes_and_single_transition() {
    let mut origins = Origins::new();
    let mut bus = origins.announced(PathFilter::Any);
    expect_live(&mut bus);

    origins.announce_track("/room/42".to_string(), Origin::Local);
    assert_eq!(origins.route("/room/42"), Some(Origin::Local));
    assert_eq!(expect_active(&mut bus), "/room/42");

    origins.announce_track("/room/42".to_string(), Origin::Remote(1));
    assert_eq!(origins.route("/room/42"), Some(Origin::Local));
    expect_quiet(&mut bus);

    origins.unannounce_track("/room/42", Origin::Local);
    assert_eq!(origins.route("/room/42"), Some(Origin::Remote(1)));
    expect_quiet(&mut bus);

    origins.unannounce_track("/room/42", Origin::Remote(1));
    assert_eq!(origins.route("/room/42"), None);
    assert_eq!(expect_ended(&mut bus), "/room/42");
    expect_quiet(&mut bus);
}

#[test]
fn many_announcers_give_one_active_and_one_ended() {
    let mut origins = Origins::new();
    let mut bus = origins.announced(PathFilter::Any);
    expect_live(&mut bus);

    for id in 0..5u64 {
        origins.announce_track("/a".to_string(), Origin::Remote(id));
    }
    assert_eq!(expect_active(&mut bus), "/a");
    expect_quiet(&mut bus);

    for id in (0..5u64).rev() {
        assert!(origins.route("/a").is_some());
        origins.unannounce_track("/a", Origin::Remote(id));
    }
    assert_eq!(expect_ended(&mut bus), "/a");
    expect_quiet(&mut bus);

    // A second period of activity is announced again, once.
    origins.announce_track("/a".to_string(), Origin::Local);
    origins.announce_track("/a".to_string(), Origin::Remote(9));
    assert_eq!(expect_active(&mut bus), "/a");
    expect_quiet(&mut bus);
}

#[test]
fn route_present_iff_announced() {
    let mut origins = Origins::new();
    assert_eq!(origins.route("/x"), None);
    origins.announce_track("/x".to_string(), Origin::Remote(3));
    assert_eq!(origins.route("/x"), Some(Origin::Remote(3)));
    assert_eq!(origins.route("/y"), None);
    origins.unannounce_track("/x", Origin::Remote(3));
    assert_eq!(origins.route("/x"), None);
}

#[test]
fn first_announced_wins() {
    let mut origins = Origins::new();
    origins.announce_track("/p".to_string(), Origin::Remote(1));
    origins.announce_track("/p".to_string(), Origin::Remote(2));
    assert_eq!(origins.route("/p"), Some(Origin::Remote(1)));
    origins.unannounce_track("/p", Origin::Remote(1));
    assert_eq!(origins.route("/p"), Some(Origin::Remote(2)));
}

#[test]
fn local_after_remote_is_not_preferred() {
    let mut origins = Origins::new();
    origins.announce_track("/p".to_string(), Origin::Remote(7));
    origins.announce_track("/p".to_string(), Origin::Local);
    assert_eq!(origins.route("/p"), Some(Origin::Remote(7)));
}

#[test]
fn unannounce_of_unknown_path_is_noop() {
    let mut origins = Origins::new();
    let mut bus = origins.announced(PathFilter::Any);
    expect_live(&mut bus);

    origins.unannounce_track("/never", Origin::Local);
    assert_eq!(origins.route("/never"), None);
    expect_quiet(&mut bus);
}

#[test]
fn unannounce_of_absent_origin_is_noop() {
    let mut origins = Origins::new();
    origins.announce_track("/p".to_string(), Origin::Remote(1));
    let mut bus = origins.announced(PathFilter::Any);
    assert_eq!(expect_active(&mut bus), "/p");
    expect_live(&mut bus);

    origins.unannounce_track("/p", Origin::Remote(2));
    origins.unannounce_track("/p", Origin::Local);
    assert_eq!(origins.route("/p"), Some(Origin::Remote(1)));
    expect_quiet(&mut bus);

    // The entry is intact: its one origin still ends it.
    origins.unannounce_track("/p", Origin::Remote(1));
    assert_eq!(origins.route("/p"), None);
    assert_eq!(expect_ended(&mut bus), "/p");
}

#[test]
fn late_subscriber_gets_backlog_then_live() {
    let mut origins = Origins::new();
    origins.announce_track("/a".to_string(), Origin::Local);
    origins.announce_track("/b".to_string(), Origin::Remote(1));

    let mut bus = origins.announced(PathFilter::Any);
    let mut backlog = vec![expect_active(&mut bus), expect_active(&mut bus)];
    backlog.sort();
    assert_eq!(backlog, vec!["/a".to_string(), "/b".to_string()]);
    expect_live(&mut bus);
    expect_quiet(&mut bus);

    // Another announcer of a path in the backlog is no new transition.
    origins.announce_track("/a".to_string(), Origin::Remote(2));
    expect_quiet(&mut bus);

    origins.announce_track("/c".to_string(), Origin::Local);
    assert_eq!(expect_active(&mut bus), "/c");
    origins.unannounce_track("/b", Origin::Remote(1));
    assert_eq!(expect_ended(&mut bus), "/b");
    expect_quiet(&mut bus);
}

#[test]
fn filter_limits_what_a_subscriber_hears() {
    let mut origins = Origins::new();
    origins.announce_track("room/a".to_string(), Origin::Local);
    origins.announce_track("other/b".to_string(), Origin::Local);

    let mut bus = origins.announced(PathFilter::Prefix("room/".to_string()));
    assert_eq!(expect_active(&mut bus), "room/a");
    expect_live(&mut bus);
    expect_quiet(&mut bus);
}

#[test]
fn repeated_announce_needs_repeated_withdrawal() {
    let mut origins = Origins::new();
    origins.announce_track("/p".to_string(), Origin::Local);
    origins.announce_track("/p".to_string(), Origin::Local);
    origins.unannounce_track("/p", Origin::Local);
    assert_eq!(origins.route("/p"), Some(Origin::Local));
    origins.unannounce_track("/p", Origin::Local);
    assert_eq!(origins.route("/p"), None);
}

#[test]
fn withdrawal_removes_one_occurrence() {
    let mut origins = Origins::new();
    origins.announce_track("/p".to_string(), Origin::Local);
    origins.announce_track("/p".to_string(), Origin::Remote(1));
    origins.announce_track("/p".to_string(), Origin::Local);

    origins.unannounce_track("/p", Origin::Local);
    assert_eq!(origins.route("/p"), Some(Origin::Remote(1)));
    origins.unannounce_track("/p", Origin::Remote(1));
    assert_eq!(origins.route("/p"), Some(Origin::Local));
    origins.unannounce_track("/p", Origin::Local);
    assert_eq!(origins.route("/p"), None);
}

#[test]
fn apply_follows_the_stream() {
    let mut origins = Origins::new();
    let mut bus = origins.announced(PathFilter::Any);
    expect_live(&mut bus);

    origins.apply(Announcement::Active("/s".to_string()), Origin::Remote(4));
    assert_eq!(origins.route("/s"), Some(Origin::Remote(4)));
    assert_eq!(expect_active(&mut bus), "/s");

    origins.apply(Announcement::Live, Origin::Remote(4));
    assert_eq!(origins.route("/s"), Some(Origin::Remote(4)));
    expect_quiet(&mut bus);

    origins.apply(Announcement::Ended("/s".to_string()), Origin::Remote(4));
    assert_eq!(origins.route("/s"), None);
    assert_eq!(expect_ended(&mut bus), "/s");
}

#[test]
fn default_registry_is_empty() {
    let origins = Origins::default();
    assert_eq!(origins.route("/anything"), None);
    let mut bus = origins.announced(PathFilter::Any);
    expect_live(&mut bus);
    expect_quiet(&mut bus);
}

#[test]
fn table_reports_transitions() {
    let mut table = RouteTable::new();
    assert!(table.announce_track("/t".to_string(), Origin::Local));
    assert!(!table.announce_track("/t".to_string(), Origin::Remote(2)));
    assert!(table.announce_track("/u".to_string(), Origin::Local));
    assert!(!table.unannounce_track("/t", Origin::Remote(5)));
    assert!(!table.unannounce_track("/t", Origin::Local));
    assert_eq!(table.route("/t"), Some(Origin::Remote(2)));
    assert!(table.unannounce_track("/t", Origin::Remote(2)));
    assert_eq!(table.route("/t"), None);
    assert!(!table.unannounce_track("/t", Origin::Remote(2)));
    assert_eq!(table.route("/u"), Some(Origin::Local));
}

fn backlog(origins: &Origins, filter: PathFilter) -> Vec<String> {
    let mut bus = origins.announced(filter);
    let mut paths = Vec::new();
    loop {
        match poll_next(&mut bus) {
            Some(Some(Announced::Active(m))) => paths.push(m.to_full()),
            Some(Some(Announced::Live)) => break,
            other => panic!("unexpected item before the live marker: {:?}", other),
        }
    }
    paths.sort();
    paths
}

fn sample_registry() -> Origins {
    let mut origins = Origins::new();
    for path in ["foo/bar/baz", "foo/bar/", "foo/bar/baz/qux", "zoo/bar/baz", "ab"] {
        origins.announce_track(path.to_string(), Origin::Local);
    }
    origins
}

#[test]
fn exact_filter_backlog() {
    let origins = sample_registry();
    assert_eq!(backlog(&origins, PathFilter::Exact("foo/bar/".to_string())), vec!["foo/bar/".to_string()]);
    assert!(backlog(&origins, PathFilter::Exact("foo".to_string())).is_empty());
}

#[test]
fn suffix_filter_backlog() {
    let origins = sample_registry();
    assert_eq!(
        backlog(&origins, PathFilter::Suffix("/bar/baz".to_string())),
        vec!["foo/bar/baz".to_string(), "zoo/bar/baz".to_string()]
    );
}

#[test]
fn prefix_filter_backlog() {
    let origins = sample_registry();
    assert_eq!(
        backlog(&origins, PathFilter::Prefix("foo/bar/".to_string())),
        vec!["foo/bar/".to_string(), "foo/bar/baz".to_string(), "foo/bar/baz/qux".to_string()]
    );
}

#[test]
fn wildcard_filter_backlog() {
    let origins = sample_registry();
    let middle = PathFilter::Wildcard { prefix: "foo/".to_string(), suffix: "/baz".to_string() };
    assert_eq!(backlog(&origins, middle), vec!["foo/bar/baz".to_string()]);
    // Prefix and suffix may not overlap.
    let overlapping = PathFilter::Wildcard { prefix: "ab".to_string(), suffix: "b".to_string() };
    assert!(backlog(&origins, overlapping).is_empty());
    let touching = PathFilter::Wildcard { prefix: "a".to_string(), suffix: "b".to_string() };
    assert_eq!(backlog(&origins, touching), vec!["ab".to_string()]);
}

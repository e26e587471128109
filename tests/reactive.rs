use reactive_core::resource::{boundary_view, BoundaryView, Resource, ResourceState, Suspense};
use reactive_core::runtime::Runtime;

#[test]
fn writes_in_one_block_rerun_each_subscriber_once() {
    let mut rt = Runtime::new();
    let s = rt.create_signal(0);
    let other = rt.create_signal(0);
    let e = rt.create_effect();
    let idle = rt.create_effect();
    rt.begin_run(e);
    assert_eq!(rt.get(s), 0);
    assert_eq!(rt.get(s), 0);
    rt.end_run(e, None);
    rt.begin_run(idle);
    rt.get(other);
    rt.end_run(idle, None);
    rt.set(s, 1);
    rt.set(s, 2);
    rt.set(s, 3);
    assert_eq!(rt.get(s), 3);
    assert_eq!(rt.flush(), vec![e]);
    assert_eq!(rt.flush(), Vec::<usize>::new());
}

#[test]
fn stale_dependencies_are_dropped() {
    let mut rt = Runtime::new();
    let a = rt.create_signal(0);
    let b = rt.create_signal(0);
    let e = rt.create_effect();
    rt.begin_run(e);
    rt.get(a);
    rt.end_run(e, None);
    rt.begin_run(e);
    rt.get(b);
    rt.end_run(e, None);
    rt.set(a, 5);
    assert!(rt.flush().is_empty());
    rt.set(b, 5);
    assert_eq!(rt.flush(), vec![e]);
}

#[test]
fn each_rerun_releases_the_previous_timer() {
    let mut rt = Runtime::new();
    let e = rt.create_effect();
    assert_eq!(rt.begin_run(e), None);
    rt.end_run(e, Some(11));
    assert_eq!(rt.begin_run(e), Some(11));
    rt.end_run(e, Some(12));
    assert_eq!(rt.begin_run(e), Some(12));
    rt.end_run(e, Some(13));
    assert_eq!(rt.timer, vec![Some(13)]);
    assert_eq!(rt.dispose(e), Some(13));
    assert_eq!(rt.timer, vec![None]);
}

#[test]
fn superseded_fetch_result_is_discarded() {
    let mut r = Resource::new();
    assert_eq!(r.generation, 1);
    let g = r.refetch();
    assert_eq!(g, 2);
    assert!(r.is_pending());
    assert!(r.complete(2, Ok(5)));
    assert!(!r.complete(1, Ok(9)));
    assert_eq!(r.state, ResourceState::Ready(5));
    assert!(r.complete(2, Err(4)));
    assert_eq!(r.state, ResourceState::Failed(4));
}

#[test]
fn boundary_waits_for_every_resource() {
    assert_eq!(boundary_view(&vec![]), BoundaryView::Content);
    assert_eq!(
        boundary_view(&vec![ResourceState::Ready(1), ResourceState::Pending]),
        BoundaryView::Fallback
    );
    assert_eq!(
        boundary_view(&vec![ResourceState::Ready(1), ResourceState::Failed(2)]),
        BoundaryView::Content
    );
}

#[test]
fn boundary_suspends_again_when_a_resource_refetches() {
    let mut r = Resource::new();
    let mut b = Suspense::new();
    b.track(0);
    r.complete(1, Ok(0));
    assert!(b.refresh(&vec![r]));
    r.refetch();
    assert!(!b.refresh(&vec![r]));
    assert_eq!(b.view, BoundaryView::Fallback);
    r.complete(2, Ok(0));
    assert!(b.refresh(&vec![r]));
    assert_eq!(b.content_renders, 2);
}

#[test]
fn disposed_effect_is_never_rerun() {
    let mut rt = Runtime::new();
    let s = rt.create_signal(0);
    let e = rt.create_effect();
    rt.begin_run(e);
    rt.get(s);
    rt.end_run(e, Some(3));
    assert_eq!(rt.dispose(e), Some(3));
    rt.set(s, 1);
    assert!(rt.flush().is_empty());
}

#[test]
fn resource_resolves_into_content_once() {
    let mut r = Resource::new();
    let mut b = Suspense::new();
    // the child reads the resource while the fallback shows
    b.track(0);
    b.track(0);
    assert_eq!(b.watched, vec![0]);
    assert!(!b.refresh(&vec![r]));
    assert_eq!(b.view, BoundaryView::Fallback);
    // the fetch, tagged with the first generation, returns after its sleep
    assert!(r.complete(1, Ok(0)));
    assert!(b.refresh(&vec![r]));
    assert_eq!(b.view, BoundaryView::Content);
    assert!(!b.refresh(&vec![r]));
    assert_eq!(b.content_renders, 1);
}

#[test]
fn fallback_counter_counts_ticks_until_disposal() {
    let mut rt = Runtime::new();
    let total = rt.create_signal(0);
    let e = rt.create_effect();
    assert_eq!(rt.begin_run(e), None);
    rt.end_run(e, Some(1));
    rt.tick(e, total);
    rt.tick(e, total);
    rt.tick(e, total);
    assert_eq!(rt.get(total), 3);

    let mut rt = Runtime::new();
    let total = rt.create_signal(0);
    let e = rt.create_effect();
    rt.begin_run(e);
    rt.end_run(e, Some(1));
    rt.tick(e, total);
    rt.tick(e, total);
    assert_eq!(rt.dispose(e), Some(1));
    rt.tick(e, total);
    assert_eq!(rt.get(total), 2);
}

#[test]
fn failed_effect_body_terminates_the_effect() {
    let mut rt = Runtime::new();
    let s = rt.create_signal(0);
    let e = rt.create_effect();
    rt.begin_run(e);
    rt.end_run(e, Some(9));
    assert_eq!(rt.begin_run(e), Some(9));
    rt.get(s);
    rt.abort_run(e);
    assert_eq!(rt.active, None);
    assert_eq!(rt.failed, vec![true]);
    rt.set(s, 1);
    assert!(rt.flush().is_empty());
}

#[test]
fn ticks_rerun_the_counter_reader_once() {
    let mut rt = Runtime::new();
    let total = rt.create_signal(0);
    let timer_eff = rt.create_effect();
    let text = rt.create_effect();
    rt.begin_run(timer_eff);
    rt.end_run(timer_eff, Some(1));
    rt.begin_run(text);
    assert_eq!(rt.get(total), 0);
    rt.end_run(text, None);
    rt.tick(timer_eff, total);
    rt.tick(timer_eff, total);
    rt.tick(timer_eff, total);
    assert_eq!(rt.flush(), vec![text]);
    rt.begin_run(text);
    assert_eq!(rt.get(total), 3);
    rt.end_run(text, None);
    assert!(rt.flush().is_empty());
}

#[test]
fn late_ticks_after_disposal_change_nothing() {
    let mut rt = Runtime::new();
    let total = rt.create_signal(0);
    let timer_eff = rt.create_effect();
    rt.begin_run(timer_eff);
    rt.end_run(timer_eff, Some(1));
    rt.tick(timer_eff, total);
    rt.tick(timer_eff, total);
    assert_eq!(rt.dispose(timer_eff), Some(1));
    rt.tick(timer_eff, total);
    rt.tick(timer_eff, total);
    assert_eq!(rt.values, vec![2]);
    assert_eq!(rt.failed, vec![false]);
}

#[test]
fn torn_down_resource_ignores_its_fetch() {
    let mut r = Resource::new();
    r.dispose();
    assert!(!r.complete(1, Ok(0)));
    assert_eq!(r.state, ResourceState::Pending);
    let mut b = Suspense::new();
    b.track(0);
    assert!(!b.refresh(&vec![r]));
    assert_eq!(b.view, BoundaryView::Fallback);
}

#[test]
fn boundary_ignores_resources_it_does_not_watch() {
    let ready = {
        let mut r = Resource::new();
        r.complete(1, Ok(7));
        r
    };
    let pending = Resource::new();
    let mut b = Suspense::new();
    b.track(0);
    assert!(b.refresh(&vec![ready, pending]));
    b.track(1);
    assert!(!b.refresh(&vec![ready, pending]));
    assert_eq!(b.view, BoundaryView::Fallback);
}

#[test]
fn update_rewrites_through_the_function() {
    let mut rt = Runtime::new();
    let s = rt.create_signal(4);
    let e = rt.create_effect();
    rt.begin_run(e);
    rt.get(s);
    rt.end_run(e, None);
    rt.update(s, |x| x * 3 + 1);
    assert_eq!(rt.get(s), 13);
    assert_eq!(rt.flush(), vec![e]);
}

#[test]
fn disposing_the_scope_stops_every_timer_and_write() {
    let mut rt = Runtime::new();
    let s = rt.create_signal(0);
    let a = rt.create_effect();
    let b = rt.create_effect();
    rt.begin_run(a);
    rt.get(s);
    rt.end_run(a, Some(5));
    rt.begin_run(b);
    rt.end_run(b, None);
    assert_eq!(rt.dispose_scope(), vec![Some(5), None]);
    assert!(rt.closed);
    rt.set(s, 9);
    assert_eq!(rt.get(s), 0);
    assert!(rt.flush().is_empty());
    rt.tick(a, s);
    assert_eq!(rt.get(s), 0);
}

#[test]
fn settled_resource_reruns_its_readers() {
    let mut rt = Runtime::new();
    let sig = rt.create_signal(0);
    let boundary_eff = rt.create_effect();
    let mut r = Resource::new();
    rt.begin_run(boundary_eff);
    assert_eq!(r.read(&mut rt, sig), ResourceState::Pending);
    rt.end_run(boundary_eff, None);
    let g = r.refetch();
    assert!(!r.settle(&mut rt, sig, 1, Ok(8)));
    assert!(rt.flush().is_empty());
    assert!(r.settle(&mut rt, sig, g, Ok(9)));
    assert_eq!(rt.flush(), vec![boundary_eff]);
    rt.begin_run(boundary_eff);
    assert_eq!(r.read(&mut rt, sig), ResourceState::Ready(9));
    rt.end_run(boundary_eff, None);
}

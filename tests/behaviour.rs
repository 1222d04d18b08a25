use htmx_wasm::binder::{poll_tick, Decision, Firing, ListenerState, PollAction};
use htmx_wasm::swap::{SwapManager, SwapSite, SwapStyle};
use htmx_wasm::triggers::TriggerManager;

fn spec(text: &str) -> htmx_wasm::triggers::TriggerSpec {
    TriggerManager::new().parse_trigger_spec(text).remove(0)
}

fn at(now: u64) -> Firing {
    Firing { now, target_matches: true, value: None }
}

fn site(children: &[&str]) -> SwapSite {
    SwapSite {
        before: vec!["<p>before</p>".to_string()],
        children: Some(children.iter().map(|s| s.to_string()).collect()),
        after: vec!["<p>after</p>".to_string()],
    }
}

#[test]
fn once_fires_exactly_once() {
    let t = spec("click once");
    let mut s = ListenerState::new(None);
    assert_eq!(s.fire(&t, &at(1)).decision, Decision::Start);
    assert!(s.is_removed());
    assert_eq!(s.fire(&t, &at(2)).decision, Decision::Inactive);
    assert_eq!(s.fire(&t, &at(5000)).decision, Decision::Inactive);
}

#[test]
fn once_ignores_firings_that_do_not_qualify() {
    let t = spec("click once target:.row");
    let mut s = ListenerState::new(None);
    let miss = Firing { now: 1, target_matches: false, value: None };
    assert_eq!(s.fire(&t, &miss).decision, Decision::Discarded);
    assert!(!s.is_removed());
    assert_eq!(s.fire(&t, &at(2)).decision, Decision::Start);
    assert!(s.is_removed());
}

#[test]
fn queue_last_restarts_the_delay() {
    let t = spec("keyup delay:300");
    let mut s = ListenerState::new(None);
    let first = s.fire(&t, &at(0)).decision;
    assert_eq!(first, Decision::Schedule { ticket: 0, delay: 300, cancel: None });
    let second = s.fire(&t, &at(100)).decision;
    assert_eq!(second, Decision::Schedule { ticket: 1, delay: 300, cancel: Some(0) });
    assert_eq!(s.pending(), vec![1]);
    assert_eq!(s.timer_elapsed(&t, 0, 300), Decision::Stale);
    assert_eq!(s.timer_elapsed(&t, 1, 400), Decision::Start);
    assert!(s.pending().is_empty());
}

#[test]
fn queue_first_keeps_the_pending_action() {
    let t = spec("keyup delay:300 queue:first");
    let mut s = ListenerState::new(None);
    assert_eq!(s.fire(&t, &at(0)).decision, Decision::Schedule { ticket: 0, delay: 300, cancel: None });
    assert_eq!(s.fire(&t, &at(100)).decision, Decision::KeepPending);
    assert_eq!(s.pending(), vec![0]);
    assert_eq!(s.timer_elapsed(&t, 0, 300), Decision::Start);
}

#[test]
fn queue_all_and_none() {
    let t = spec("keyup delay:50 queue:all");
    let mut s = ListenerState::new(None);
    s.fire(&t, &at(0));
    s.fire(&t, &at(10));
    assert_eq!(s.pending(), vec![0, 1]);
    let t = spec("keyup delay:50 queue:none");
    let mut s = ListenerState::new(None);
    assert_eq!(s.fire(&t, &at(0)).decision, Decision::Start);
}

#[test]
fn throttle_spaces_starts() {
    let t = spec("scroll throttle:100");
    let mut s = ListenerState::new(None);
    let mut starts = Vec::new();
    for now in [0u64, 30, 99, 100, 150, 199, 200, 250, 320] {
        if s.fire(&t, &at(now)).decision == Decision::Start {
            starts.push(now);
        }
    }
    assert_eq!(starts, vec![0, 100, 200, 320]);
    for w in starts.windows(2) {
        assert!(w[1] - w[0] >= 100);
    }
}

#[test]
fn consume_stops_propagation() {
    let t = spec("click consume target:.x");
    let mut s = ListenerState::new(None);
    let miss = Firing { now: 0, target_matches: false, value: None };
    let r = s.fire(&t, &miss);
    assert!(r.stop_propagation);
    assert_eq!(r.decision, Decision::Discarded);
    assert!(!s.fire(&spec("click"), &at(1)).stop_propagation);
}

#[test]
fn changed_needs_a_new_value() {
    let t = spec("keyup changed");
    let mut s = ListenerState::new(Some("a".to_string()));
    let v = |now: u64, x: &str| Firing { now, target_matches: true, value: Some(x.to_string()) };
    assert_eq!(s.fire(&t, &v(0, "a")).decision, Decision::Discarded);
    assert_eq!(s.fire(&t, &v(1, "ab")).decision, Decision::Start);
    assert_eq!(s.fire(&t, &v(2, "ab")).decision, Decision::Discarded);
    assert_eq!(s.fire(&t, &v(3, "a")).decision, Decision::Start);
}

#[test]
fn inner_html_twice_does_not_accumulate() {
    let m = SwapManager::new();
    let mut s = site(&["<i>old</i>", "<i>older</i>"]);
    m.swap_content(&mut s, "<b>new</b>", Some("innerHTML"));
    let once = s.clone();
    m.swap_content(&mut s, "<b>new</b>", Some("innerHTML"));
    assert_eq!(s.children, once.children);
    assert_eq!(s.children, Some(vec!["<b>new</b>".to_string()]));
    assert_eq!(s.before, once.before);
    assert_eq!(s.after, once.after);
}

#[test]
fn each_style_places_markup() {
    let m = SwapManager::new();
    let mut s = site(&["<i>c</i>"]);
    m.swap_content(&mut s, "<b>1</b>", Some("beforeend"));
    m.swap_content(&mut s, "<b>0</b>", Some("afterbegin"));
    assert_eq!(s.children, Some(vec!["<b>0</b>".to_string(), "<i>c</i>".to_string(), "<b>1</b>".to_string()]));
    m.swap_content(&mut s, "<b>pre</b>", Some("beforebegin"));
    m.swap_content(&mut s, "<b>post</b>", Some("afterend"));
    assert_eq!(s.before.last().map(String::as_str), Some("<b>pre</b>"));
    assert_eq!(s.after.first().map(String::as_str), Some("<b>post</b>"));
    m.swap_content(&mut s, "<x/>", Some("none"));
    assert_eq!(s.children.as_ref().map(|c| c.len()), Some(3));
    m.swap_content(&mut s, "<x/>", Some("delete"));
    assert_eq!(s.children, None);
    m.swap_content(&mut s, "<y/>", None);
    assert_eq!(s.children, None);
}

#[test]
fn oob_true_replaces_live_node() {
    let m = SwapManager::new();
    let oob = m.oob_swap("true", "x");
    assert_eq!(oob.style, SwapStyle::OuterHtml);
    assert_eq!(oob.selector, "#x");
    let mut live = site(&["old"]);
    m.swap_content(&mut live, "<div id=\"x\">Y</div>", Some("outerHTML"));
    assert_eq!(live.children, None);
    assert_eq!(live.before.last().map(String::as_str), Some("<div id=\"x\">Y</div>"));
    let mut primary = site(&["p"]);
    m.swap_content(&mut primary, "main", None);
    assert_eq!(primary.children, Some(vec!["main".to_string()]));
}

#[test]
fn oob_marker_forms() {
    let m = SwapManager::new();
    let o = m.oob_swap("beforeend:#list", "item");
    assert_eq!(o.style, SwapStyle::BeforeEnd);
    assert_eq!(o.selector, "#list");
    let o = m.oob_swap("afterbegin", "feed");
    assert_eq!(o.style, SwapStyle::AfterBegin);
    assert_eq!(o.selector, "#feed");
    let o = m.oob_swap("weird", "z");
    assert_eq!(o.style, SwapStyle::InnerHtml);
    assert_eq!(o.selector, "#z");
}

#[test]
fn polling_stops_when_detached() {
    assert_eq!(poll_tick(true), PollAction::Fire);
    assert_eq!(poll_tick(false), PollAction::Cancel);
}

#[test]
fn queue_last_runs_only_the_restarted_delay() {
    let t = spec("keyup delay:500");
    let mut s = ListenerState::new(None);
    s.fire(&t, &at(0));
    s.fire(&t, &at(200));
    let mut starts = Vec::new();
    for (ticket, now) in [(0u64, 500u64), (1, 700)] {
        if s.timer_elapsed(&t, ticket, now) == Decision::Start {
            starts.push(now);
        }
    }
    assert_eq!(starts, vec![700]);
}

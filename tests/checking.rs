use linkcheck::checker::{
    classify, on_probe, retry_delay, start, CheckAction, CheckPolicy, CheckState, CheckStatus,
    Method, Probe,
};
use linkcheck::coordinator::{CheckOutcome, Coordinator, SetupError};
use linkcheck::extract::{FragmentPolicy, LinkSet};
use linkcheck::report::{aggregate, decimal_string, url_le, BrokenLink};
use linkcheck::resolve::AbsoluteUrl;
use linkcheck::collect_links;

fn url(s: &str) -> AbsoluteUrl {
    AbsoluteUrl::parse(s).unwrap()
}

fn policy(max_attempts: u32) -> CheckPolicy {
    CheckPolicy { max_attempts, base_delay_ms: 100 }
}

fn get_state() -> CheckState {
    CheckState { method: Method::Get, attempts: 0 }
}

/// Runs the checker of one URL against canned probe results.
fn run_check(results: &[Probe], p: &CheckPolicy) -> (CheckStatus, Vec<(Method, u64)>) {
    let (mut state, mut action) = start();
    let mut sent = Vec::new();
    let mut k = 0;
    loop {
        match action {
            CheckAction::Send { method, delay_ms } => {
                sent.push((method, delay_ms));
                let (s, a) = on_probe(&state, results[k].clone(), p);
                k += 1;
                state = s;
                action = a;
            }
            CheckAction::Finish(status) => return (status, sent),
        }
    }
}

fn links(urls: &[&str]) -> LinkSet {
    let mut set = LinkSet::new();
    for u in urls {
        set.insert(url(u));
    }
    set
}

#[test]
fn status_404_is_unreachable() {
    assert!(matches!(classify(404), CheckStatus::Unreachable(404)));
    let (status, _) = run_check(&[Probe::Status(404)], &policy(3));
    assert!(matches!(status, CheckStatus::Unreachable(404)));
}

#[test]
fn status_200_is_reachable() {
    assert!(matches!(classify(200), CheckStatus::Reachable));
    let (status, sent) = run_check(&[Probe::Status(200)], &policy(3));
    assert!(matches!(status, CheckStatus::Reachable));
    assert_eq!(sent, vec![(Method::Head, 0)]);
}

#[test]
fn classification_bounds() {
    assert!(matches!(classify(399), CheckStatus::Reachable));
    assert!(matches!(classify(301), CheckStatus::Reachable));
    assert!(matches!(classify(400), CheckStatus::Unreachable(400)));
    assert!(matches!(classify(599), CheckStatus::Unreachable(599)));
    assert!(matches!(classify(199), CheckStatus::Unreachable(199)));
}

#[test]
fn unresolvable_host_is_transport_failure() {
    let dns = Probe::Transport("dns error: no such host".to_string());
    let (status, sent) = run_check(&[dns.clone(), dns.clone(), dns], &policy(3));
    match status {
        CheckStatus::TransportFailure(r) => assert_eq!(r, "dns error: no such host"),
        _ => panic!("expected a transport failure"),
    }
    assert_eq!(sent, vec![(Method::Head, 0), (Method::Head, 100), (Method::Head, 200)]);
}

#[test]
fn retry_then_success() {
    let t = Probe::Transport("timeout".to_string());
    let (status, sent) = run_check(&[t, Probe::Status(204)], &policy(3));
    assert!(matches!(status, CheckStatus::Reachable));
    assert_eq!(sent.len(), 2);
}

#[test]
fn zero_attempts_still_probes_once() {
    let (state, action) = on_probe(&get_state(), Probe::Transport("refused".to_string()), &policy(0));
    assert_eq!(state.attempts, 0);
    assert!(matches!(action, CheckAction::Finish(CheckStatus::TransportFailure(_))));
}

#[test]
fn head_rejected_falls_back_to_get() {
    let (status, sent) = run_check(&[Probe::Status(405), Probe::Status(404)], &policy(1));
    assert!(matches!(status, CheckStatus::Unreachable(404)));
    assert_eq!(sent, vec![(Method::Head, 0), (Method::Get, 0)]);
}

#[test]
fn get_405_is_unreachable() {
    let (_, action) = on_probe(&get_state(), Probe::Status(405), &policy(3));
    assert!(matches!(action, CheckAction::Finish(CheckStatus::Unreachable(405))));
}

#[test]
fn backoff_doubles_and_saturates() {
    assert_eq!(retry_delay(100, 1), 100);
    assert_eq!(retry_delay(100, 2), 200);
    assert_eq!(retry_delay(100, 4), 800);
    assert_eq!(retry_delay(0, 9), 0);
    assert_eq!(retry_delay(u64::MAX / 2 + 1, 2), u64::MAX);
    assert_eq!(retry_delay(u64::MAX, 3), u64::MAX);
}

#[test]
fn zero_limit_is_refused() {
    let set = links(&["https://a.com/"]);
    assert!(matches!(Coordinator::new(&set, 0), Err(SetupError::CapacityExceeded)));
}

#[test]
fn one_outcome_per_link() {
    let set = links(&["https://a.com/", "https://b.com/", "https://c.com/", "https://d.com/", "https://e.com/"]);
    let mut c = Coordinator::new(&set, 2).unwrap();
    let mut queue = Vec::new();
    let mut peak = 0;
    loop {
        while let Some((id, _)) = c.start_next() {
            queue.push(id);
        }
        peak = peak.max(c.running_count());
        assert!(c.running_count() <= 2);
        if c.is_finished() {
            break;
        }
        let id = queue.remove(0);
        assert!(c.complete(id, CheckStatus::Reachable));
    }
    assert_eq!(peak, 2);
    let outs = c.outcomes();
    assert_eq!(outs.len(), set.len());
    for (i, o) in outs.iter().enumerate() {
        assert_eq!(o.url.as_str(), set.get(i).as_str());
    }
}

#[test]
fn running_never_exceeds_limit() {
    let set = links(&["https://a.com/", "https://b.com/", "https://c.com/"]);
    let mut c = Coordinator::new(&set, 1).unwrap();
    let (first, u) = c.start_next().unwrap();
    assert_eq!(first, 0);
    assert_eq!(u.as_str(), "https://a.com/");
    assert!(c.start_next().is_none());
    assert_eq!(c.running_count(), 1);
    assert!(c.complete(first, CheckStatus::Unreachable(500)));
    assert_eq!(c.running_count(), 0);
    let (second, _) = c.start_next().unwrap();
    assert_eq!(second, 1);
    assert!(c.start_next().is_none());
}

#[test]
fn complete_of_idle_task_is_refused() {
    let set = links(&["https://a.com/", "https://b.com/"]);
    let mut c = Coordinator::new(&set, 2).unwrap();
    assert!(!c.complete(0, CheckStatus::Reachable));
    assert!(!c.complete(7, CheckStatus::Reachable));
    let (id, _) = c.start_next().unwrap();
    assert!(c.complete(id, CheckStatus::Reachable));
    assert!(!c.complete(id, CheckStatus::Reachable));
}

#[test]
fn cancel_keeps_completed_outcomes() {
    let set = links(&["https://a.com/", "https://b.com/", "https://c.com/"]);
    let mut c = Coordinator::new(&set, 1).unwrap();
    let (id, _) = c.start_next().unwrap();
    assert!(c.complete(id, CheckStatus::Unreachable(404)));
    let (id2, _) = c.start_next().unwrap();
    c.cancel();
    assert!(c.start_next().is_none());
    assert!(!c.is_finished());
    assert!(c.complete(id2, CheckStatus::Reachable));
    assert!(c.is_finished());
    assert_eq!(c.outcomes().len(), 2);
}

#[test]
fn empty_set_is_finished_at_once() {
    let set = LinkSet::new();
    let c = Coordinator::new(&set, 20).unwrap();
    assert!(c.is_finished());
    assert!(c.outcomes().is_empty());
}

#[test]
fn decimal_codes() {
    assert_eq!(decimal_string(0), "0");
    assert_eq!(decimal_string(7), "7");
    assert_eq!(decimal_string(404), "404");
    assert_eq!(decimal_string(65535), "65535");
}

#[test]
fn lexicographic_order() {
    assert!(url_le("https://a.com/", "https://b.com/"));
    assert!(!url_le("https://b.com/", "https://a.com/"));
    assert!(url_le("https://a.com/", "https://a.com/x"));
    assert!(!url_le("https://a.com/x", "https://a.com/"));
    assert!(url_le("", ""));
}

#[test]
fn report_holds_broken_links_sorted() {
    let outs = vec![
        CheckOutcome { url: url("https://z.com/"), status: CheckStatus::Unreachable(500) },
        CheckOutcome { url: url("https://m.com/"), status: CheckStatus::Reachable },
        CheckOutcome { url: url("https://a.com/"), status: CheckStatus::TransportFailure("timed out".to_string()) },
        CheckOutcome { url: url("https://k.com/"), status: CheckStatus::Unreachable(404) },
    ];
    let report = aggregate(&outs);
    let got: Vec<(String, String)> = report.into_iter().map(|b: BrokenLink| (b.url, b.reason)).collect();
    assert_eq!(
        got,
        vec![
            ("https://a.com/".to_string(), "timed out".to_string()),
            ("https://k.com/".to_string(), "404".to_string()),
            ("https://z.com/".to_string(), "500".to_string()),
        ]
    );
}

#[test]
fn report_of_all_reachable_is_empty() {
    let outs = vec![CheckOutcome { url: url("https://a.com/"), status: CheckStatus::Reachable }];
    assert!(aggregate(&outs).is_empty());
}

#[test]
fn end_to_end_seed_page() {
    let body = "<html><base href=\"https://example.com/docs/\"><a href=\"a.html\">A</a><a href=\"https://other.com/x\">X</a><a href=\"mailto:foo@bar.com\">mail</a></body></html>";
    let (_, set) = collect_links("https://example.com/", body, FragmentPolicy::Keep).unwrap();
    let found: Vec<String> = (0..set.len()).map(|i| set.get(i).to_string()).collect();
    assert_eq!(found, vec!["https://example.com/docs/a.html".to_string(), "https://other.com/x".to_string()]);

    let mut c = Coordinator::new(&set, 20).unwrap();
    let mut started = Vec::new();
    while let Some(job) = c.start_next() {
        started.push(job);
    }
    for (id, u) in started {
        let code = if u.as_str() == "https://example.com/docs/a.html" { 404 } else { 200 };
        let p = policy(3);
        let (_, action) = on_probe(&CheckState { method: Method::Get, attempts: 0 }, Probe::Status(code), &p);
        match action {
            CheckAction::Finish(status) => assert!(c.complete(id, status)),
            _ => panic!("a status ends the check"),
        }
    }
    assert!(c.is_finished());
    let report = aggregate(&c.outcomes());
    let got: Vec<(String, String)> = report.into_iter().map(|b| (b.url, b.reason)).collect();
    assert_eq!(got, vec![("https://example.com/docs/a.html".to_string(), "404".to_string())]);
}

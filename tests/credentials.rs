use minio_rsc::credentials::{FetchStep, WaitOutcome};
use minio_rsc::{Credentials, RefreshGuard, StaticProvider};

fn creds(k: &str) -> Credentials {
    Credentials::new(k.to_string(), "secret".to_string(), None)
}

#[test]
fn static_provider_returns_the_same_value() {
    let p = StaticProvider::new("ak".to_string(), "sk".to_string(), Some("tok".to_string()));
    let a = p.fetch();
    let b = p.fetch();
    assert_eq!(a.access_key(), "ak");
    assert_eq!(a.secret_key(), "sk");
    assert_eq!(a.session_token(), Some("tok"));
    assert_eq!(b.access_key(), a.access_key());
}

#[test]
fn concurrent_fetches_share_one_refresh() {
    let mut g = RefreshGuard::new();
    let n = 5;
    let mut refreshes = 0;
    let mut tickets = Vec::new();
    for _ in 0..n {
        match g.fetch(false) {
            FetchStep::Refresh => refreshes += 1,
            FetchStep::Wait(t) => tickets.push(t),
            FetchStep::Ready(_) => panic!("nothing is cached yet"),
        }
    }
    assert_eq!(refreshes, 1);
    assert_eq!(tickets.len(), n - 1);
    for t in &tickets {
        assert!(matches!(g.after_wait(*t), WaitOutcome::Pending));
    }
    let (fresh, woken) = g.refresh_done(creds("new"));
    assert_eq!(fresh.access_key(), "new");
    assert_eq!(woken, n - 1);
    for t in &tickets {
        match g.after_wait(*t) {
            WaitOutcome::Ready(c) => assert_eq!(c.access_key(), "new"),
            _ => panic!("every waiter sees the refreshed value"),
        }
    }
    assert!(matches!(g.fetch(true), FetchStep::Ready(_)));
}

#[test]
fn failed_refresh_is_reported_to_waiters() {
    let mut g = RefreshGuard::new();
    assert!(matches!(g.fetch(false), FetchStep::Refresh));
    let t = match g.fetch(false) {
        FetchStep::Wait(t) => t,
        _ => panic!("a refresh is in flight"),
    };
    assert_eq!(g.refresh_failed(), 1);
    assert!(matches!(g.after_wait(t), WaitOutcome::Failed));
    assert_eq!(g.epoch(), 1);
}

#[test]
fn stale_cache_is_refreshed() {
    let mut g = RefreshGuard::new();
    assert!(matches!(g.fetch(false), FetchStep::Refresh));
    g.refresh_done(creds("first"));
    assert!(matches!(g.fetch(false), FetchStep::Refresh));
}

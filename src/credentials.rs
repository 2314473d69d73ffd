use vstd::prelude::*;

verus! {

/// An access key, a secret key and, for temporary credentials, a session token.
#[derive(Debug, Clone)]
pub struct Credentials {
    pub access_key: String,
    pub secret_key: String,
    pub session_token: Option<String>,
}

pub open spec fn opt_view(s: Option<String>) -> Option<Seq<char>> {
    match s {
        Some(t) => Some(t@),
        None => None,
    }
}

impl View for Credentials {
    type V = (Seq<char>, Seq<char>, Option<Seq<char>>);

    open spec fn view(&self) -> Self::V {
        (self.access_key@, self.secret_key@, opt_view(self.session_token))
    }
}

pub fn clone_opt_string(s: &Option<String>) -> (r: Option<String>)
    ensures
        opt_view(r) == opt_view(*s),
{
    match s {
        Some(t) => Some(t.clone()),
        None => None,
    }
}

impl Credentials {
    pub fn new(access_key: String, secret_key: String, session_token: Option<String>) -> (r: Self)
        ensures
            r@ == (access_key@, secret_key@, opt_view(session_token)),
    {
        Credentials { access_key, secret_key, session_token }
    }

    pub fn access_key(&self) -> (r: &str)
        ensures
            r@ == self.access_key@,
    {
        self.access_key.as_str()
    }

    pub fn secret_key(&self) -> (r: &str)
        ensures
            r@ == self.secret_key@,
    {
        self.secret_key.as_str()
    }

    pub fn session_token(&self) -> (r: Option<&str>)
        ensures
            r matches Some(t) ==> self.session_token matches Some(s) && t@ == s@,
            r is None <==> self.session_token is None,
    {
        match &self.session_token {
            Some(t) => Some(t.as_str()),
            None => None,
        }
    }

    /// A snapshot equal to this one.
    pub fn copy(&self) -> (r: Self)
        ensures
            r@ == self@,
    {
        Credentials {
            access_key: self.access_key.clone(),
            secret_key: self.secret_key.clone(),
            session_token: clone_opt_string(&self.session_token),
        }
    }
}

/// Credentials fixed at construction: every fetch returns the same value.
#[derive(Debug, Clone)]
pub struct StaticProvider {
    credentials: Credentials,
}

impl StaticProvider {
    pub closed spec fn spec_credentials(&self) -> (Seq<char>, Seq<char>, Option<Seq<char>>) {
        self.credentials@
    }

    pub fn new(access_key: String, secret_key: String, session_token: Option<String>) -> (r: Self)
        ensures
            r.spec_credentials() == (access_key@, secret_key@, opt_view(session_token)),
    {
        StaticProvider { credentials: Credentials::new(access_key, secret_key, session_token) }
    }

    pub fn fetch(&self) -> (r: Credentials)
        ensures
            r@ == self.spec_credentials(),
    {
        self.credentials.copy()
    }
}

/// What a caller of `fetch` does next.
#[derive(Debug, Clone)]
pub enum FetchStep {
    /// Use these credentials.
    Ready(Credentials),
    /// Run the one refresh, then report it with `refresh_done` or `refresh_failed`.
    Refresh,
    /// A refresh is in flight: wait for it to end, then ask `after_wait` with
    /// this ticket.
    Wait(u64),
}

/// What a waiter learns once the refresh it waited for has ended.
#[derive(Debug, Clone)]
pub enum WaitOutcome {
    /// The refresh succeeded: these are its credentials.
    Ready(Credentials),
    /// The refresh failed: the failure is the waiter's too, not retried.
    Failed,
    /// The refresh has not ended yet.
    Pending,
    /// Later refreshes have passed since: fetch again.
    Again,
}

/// The state of a refreshing provider, as plain values: the cached value,
/// whether a refresh is in flight, how many wait for it, how many refreshes
/// have ended, and whether the last one failed.
pub struct GuardModel {
    pub cached: Option<(Seq<char>, Seq<char>, Option<Seq<char>>)>,
    pub refreshing: bool,
    pub waiters: nat,
    pub epoch: nat,
    pub last_failed: bool,
}

/// One `fetch`: a valid cached value is used (step 0); otherwise the first
/// caller refreshes (step 1) and every other caller waits for that refresh (step 2).
pub open spec fn fetch_model(s: GuardModel, cache_valid: bool) -> (GuardModel, int) {
    if s.cached is Some && cache_valid {
        (s, 0)
    } else if s.refreshing {
        (GuardModel { waiters: s.waiters + 1, ..s }, 2)
    } else {
        (GuardModel { refreshing: true, ..s }, 1)
    }
}

/// `n` fetches on a stale cache, one after another in any interleaving
/// before the refresh ends: the number of refreshes started and the state after.
pub open spec fn fetch_many(s: GuardModel, n: nat) -> (GuardModel, nat)
    decreases n,
{
    if n == 0 {
        (s, 0)
    } else {
        let (s1, k) = fetch_many(s, (n - 1) as nat);
        let (s2, step) = fetch_model(s1, false);
        (s2, k + if step == 1 { 1nat } else { 0nat })
    }
}

/// The refresh in flight ended with `fresh`.
pub open spec fn done_model(s: GuardModel, fresh: (Seq<char>, Seq<char>, Option<Seq<char>>)) -> GuardModel {
    GuardModel { cached: Some(fresh), refreshing: false, waiters: 0, epoch: s.epoch + 1, last_failed: false }
}

/// The refresh in flight failed.
pub open spec fn failed_model(s: GuardModel) -> GuardModel {
    GuardModel { refreshing: false, waiters: 0, epoch: s.epoch + 1, last_failed: true, ..s }
}

/// What a waiter holding `ticket` learns: `Some(Some(c))` the refreshed value,
/// `Some(None)` the failure, `None` pending or passed.
pub open spec fn after_wait_model(s: GuardModel, ticket: nat) -> Option<Option<(Seq<char>, Seq<char>, Option<Seq<char>>)>> {
    if s.epoch == ticket + 1 && s.last_failed {
        Some(None)
    } else if s.epoch == ticket + 1 && s.cached is Some {
        Some(s.cached)
    } else {
        None
    }
}

/// Single flight: however many fetches arrive while the cache is stale, one
/// refresh starts (none if one was already in flight), every other caller is
/// counted as a waiter for it, and all of them hold the same ticket.
pub proof fn lemma_single_flight(s: GuardModel, n: nat)
    requires
        n > 0,
    ensures
        fetch_many(s, n).0.refreshing,
        fetch_many(s, n).1 == if s.refreshing { 0nat } else { 1nat },
        fetch_many(s, n).0.waiters == s.waiters + n - fetch_many(s, n).1,
        fetch_many(s, n).0.cached == s.cached,
        fetch_many(s, n).0.epoch == s.epoch,
        fetch_many(s, n).0.last_failed == s.last_failed,
    decreases n,
{
    let prev = fetch_many(s, (n - 1) as nat);
    if n > 1 {
        lemma_single_flight(s, (n - 1) as nat);
    } else {
        assert(prev == (s, 0nat));
    }
    assert(fetch_many(s, n) == ({
        let (s2, step) = fetch_model(prev.0, false);
        (s2, prev.1 + if step == 1 { 1nat } else { 0nat })
    }));
}

/// All callers observe the refresh: after `n` fetches during one refresh,
/// exactly one refresh runs, and when it ends with `fresh` every waiter's
/// ticket gives `fresh`; when it fails, every waiter gets the failure.
pub proof fn lemma_waiters_observe_refresh(
    s: GuardModel,
    n: nat,
    fresh: (Seq<char>, Seq<char>, Option<Seq<char>>),
)
    requires
        n > 0,
    ensures
        fetch_many(s, n).1 <= 1,
        after_wait_model(done_model(fetch_many(s, n).0, fresh), s.epoch) == Some(Some(fresh)),
        after_wait_model(failed_model(fetch_many(s, n).0), s.epoch) == Some(
            None::<(Seq<char>, Seq<char>, Option<Seq<char>>)>,
        ),
{
    lemma_single_flight(s, n);
}

/// The guard of a refreshing provider.
pub struct RefreshGuard {
    cached: Option<Credentials>,
    refreshing: bool,
    waiters: usize,
    epoch: u64,
    last_failed: bool,
}

impl RefreshGuard {
    pub closed spec fn model(&self) -> GuardModel {
        GuardModel {
            cached: match self.cached {
                Some(c) => Some(c@),
                None => None,
            },
            refreshing: self.refreshing,
            waiters: self.waiters as nat,
            epoch: self.epoch as nat,
            last_failed: self.last_failed,
        }
    }

    pub fn new() -> (r: Self)
        ensures
            r.model() == (GuardModel { cached: None, refreshing: false, waiters: 0, epoch: 0, last_failed: false }),
    {
        RefreshGuard { cached: None, refreshing: false, waiters: 0, epoch: 0, last_failed: false }
    }

    /// How many callers wait for the refresh in flight.
    pub fn waiting(&self) -> (r: usize)
        ensures
            r == self.model().waiters,
    {
        self.waiters
    }

    /// How many refreshes have ended.
    pub fn epoch(&self) -> (r: u64)
        ensures
            r == self.model().epoch,
    {
        self.epoch
    }

    /// Decides one fetch; `cache_valid` says whether the cached value has not
    /// expired.
    pub fn fetch(&mut self, cache_valid: bool) -> (r: FetchStep)
        requires
            old(self).model().waiters < usize::MAX,
        ensures
            final(self).model() == fetch_model(old(self).model(), cache_valid).0,
            fetch_model(old(self).model(), cache_valid).1 == 0 <==> r is Ready,
            fetch_model(old(self).model(), cache_valid).1 == 1 <==> r is Refresh,
            fetch_model(old(self).model(), cache_valid).1 == 2 <==> r is Wait,
            r matches FetchStep::Ready(c) ==> old(self).model().cached == Some(c@),
            r matches FetchStep::Wait(t) ==> t == old(self).model().epoch,
    {
        if cache_valid {
            match &self.cached {
                Some(c) => {
                    return FetchStep::Ready(c.copy());
                },
                None => {},
            }
        }
        if self.refreshing {
            self.waiters = self.waiters + 1;
            FetchStep::Wait(self.epoch)
        } else {
            self.refreshing = true;
            FetchStep::Refresh
        }
    }

    /// The refresh succeeded: the new value is cached and returned to the
    /// refreshing caller, with the number of waiters to wake.
    pub fn refresh_done(&mut self, fresh: Credentials) -> (r: (Credentials, usize))
        requires
            old(self).model().epoch < u64::MAX,
        ensures
            final(self).model() == done_model(old(self).model(), fresh@),
            r.0@ == fresh@,
            r.1 == old(self).model().waiters,
    {
        let woken = self.waiters;
        let c = fresh.copy();
        self.cached = Some(fresh);
        self.refreshing = false;
        self.waiters = 0;
        self.epoch = self.epoch + 1;
        self.last_failed = false;
        (c, woken)
    }

    /// The refresh failed: the waiters are woken to receive that failure.
    pub fn refresh_failed(&mut self) -> (woken: usize)
        requires
            old(self).model().epoch < u64::MAX,
        ensures
            final(self).model() == failed_model(old(self).model()),
            woken == old(self).model().waiters,
    {
        let woken = self.waiters;
        self.refreshing = false;
        self.waiters = 0;
        self.epoch = self.epoch + 1;
        self.last_failed = true;
        woken
    }

    /// What a waiter holding `ticket` learns once woken.
    pub fn after_wait(&self, ticket: u64) -> (r: WaitOutcome)
        ensures
            after_wait_model(self.model(), ticket as nat) matches Some(Some(c)) ==> (r matches WaitOutcome::Ready(x) && x@ == c),
            after_wait_model(self.model(), ticket as nat) == Some(None::<(Seq<char>, Seq<char>, Option<Seq<char>>)>) ==> r is Failed,
            after_wait_model(self.model(), ticket as nat) is None ==> (r is Pending <==> self.model().epoch == ticket),
            after_wait_model(self.model(), ticket as nat) is None ==> (r is Pending || r is Again),
    {
        if self.epoch == ticket {
            return WaitOutcome::Pending;
        }
        if ticket < u64::MAX && self.epoch == ticket + 1 {
            if self.last_failed {
                return WaitOutcome::Failed;
            }
            match &self.cached {
                Some(c) => {
                    return WaitOutcome::Ready(c.copy());
                },
                None => {},
            }
        }
        WaitOutcome::Again
    }
}

} // verus!

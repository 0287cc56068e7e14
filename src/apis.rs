//! Per-client, per-endpoint rate limiting with lockdown, and the registry of
//! API endpoints and the clients seen.  Times are whole seconds.

use vstd::prelude::*;
use crate::text::{chars_of, str_equals, string_from_chars};

verus! {

/// Seconds from `t` to `now`; zero when `t` is not in the past.
pub open spec fn age(now: u64, t: u64) -> int {
    if now >= t { now - t } else { 0 }
}

/// The timestamps of `ts` younger than `window` seconds at `now`, in order.
pub open spec fn recent(ts: Seq<u64>, now: u64, window: u32) -> Seq<u64>
    decreases ts.len(),
{
    if ts.len() == 0 {
        Seq::empty()
    } else if age(now, ts.last()) < window {
        recent(ts.drop_last(), now, window).push(ts.last())
    } else {
        recent(ts.drop_last(), now, window)
    }
}

/// What a rate limiter holds, as values.
pub struct LimiterView {
    pub requests: Seq<u64>,
    pub lockdown: Option<u64>,
    pub window: u32,
    pub limit: usize,
}

/// One check at `now`: whether the request may go through, and the limiter
/// after it.  During a lockdown younger than the window nothing changes and
/// the request is denied.  Otherwise the lockdown is lifted, old timestamps
/// are pruned, and more than `limit` left puts the limiter in lockdown.
pub open spec fn check_step(l: LimiterView, now: u64) -> (bool, LimiterView) {
    if l.lockdown matches Some(t) && age(now, t) < l.window {
        (false, l)
    } else {
        let kept = recent(l.requests, now, l.window);
        if kept.len() > l.limit {
            (false, LimiterView { requests: kept, lockdown: Some(now), ..l })
        } else {
            (true, LimiterView { requests: kept, lockdown: None, ..l })
        }
    }
}

/// A sliding-window limiter: at most `limit_count` recorded requests younger
/// than `seconds_till_refresh` are tolerated before a lockdown.
#[derive(Debug)]
pub struct RateLimiter {
    pub last_requests: Vec<u64>,
    pub lockdown_time: Option<u64>,
    pub seconds_till_refresh: u32,
    pub limit_count: usize,
}

impl RateLimiter {
    pub open spec fn view(&self) -> LimiterView {
        LimiterView {
            requests: self.last_requests@,
            lockdown: self.lockdown_time,
            window: self.seconds_till_refresh,
            limit: self.limit_count,
        }
    }

    /// A limiter with no requests and no lockdown.
    pub fn new(limit: usize, seconds_till_refresh: u32) -> (r: Self)
        ensures
            r.view() == (LimiterView { requests: Seq::empty(), lockdown: None, window: seconds_till_refresh, limit }),
    {
        RateLimiter { last_requests: Vec::new(), lockdown_time: None, seconds_till_refresh, limit_count: limit }
    }

    /// Decides whether a request at `now` may go through, pruning expired
    /// timestamps and entering or leaving lockdown as `check_step` says.
    pub fn check_limit(&mut self, now: u64) -> (r: bool)
        ensures
            (r, final(self).view()) == check_step(old(self).view(), now),
    {
        match self.lockdown_time {
            Some(t) => {
                let a = if now >= t { now - t } else { 0 };
                if a < self.seconds_till_refresh as u64 {
                    return false;
                }
                self.lockdown_time = None;
            },
            None => {},
        }
        let mut kept: Vec<u64> = Vec::new();
        let mut i: usize = 0;
        while i < self.last_requests.len()
            invariant
                i <= self.last_requests@.len(),
                kept@ == recent(self.last_requests@.subrange(0, i as int), now, self.seconds_till_refresh),
            decreases self.last_requests@.len() - i,
        {
            let t = self.last_requests[i];
            let a = if now >= t { now - t } else { 0 };
            assert(self.last_requests@.subrange(0, i + 1).drop_last() =~= self.last_requests@.subrange(0, i as int));
            if a < self.seconds_till_refresh as u64 {
                kept.push(t);
            }
            i = i + 1;
        }
        assert(self.last_requests@.subrange(0, i as int) =~= self.last_requests@);
        self.last_requests = kept;
        if self.last_requests.len() > self.limit_count {
            self.lockdown_time = Some(now);
            return false;
        }
        true
    }

    /// Records a request made at `time`.
    pub fn add_request(&mut self, time: u64)
        ensures
            final(self).view() == (LimiterView { requests: old(self).view().requests.push(time), ..old(self).view() }),
    {
        self.last_requests.push(time);
    }

    /// How many request timestamps the limiter holds.
    pub fn get_recent_request_count(&self) -> (r: usize)
        ensures
            r == self.last_requests@.len(),
    {
        self.last_requests.len()
    }
}


/// The policy of the `"global"` limiter every client has.
pub const GLOBAL_LIMIT: usize = 36;
pub const GLOBAL_WINDOW: u32 = 360;

/// What a client's limiters hold: the global one, and one per endpoint name.
pub struct UserView {
    pub global: LimiterView,
    pub endpoints: Seq<(Seq<char>, LimiterView)>,
}

/// The position of the first endpoint named `name`, or -1.
pub open spec fn endpoint_index(eps: Seq<(Seq<char>, LimiterView)>, name: Seq<char>) -> int
    decreases eps.len(),
{
    if eps.len() == 0 {
        -1
    } else if endpoint_index(eps.drop_last(), name) >= 0 {
        endpoint_index(eps.drop_last(), name)
    } else if eps.last().0 == name {
        eps.len() - 1
    } else {
        -1
    }
}

/// The limiter a client keeps under `name`.
pub open spec fn limiter_named(u: UserView, name: Seq<char>) -> Option<LimiterView> {
    if name == "global"@ {
        Some(u.global)
    } else if endpoint_index(u.endpoints, name) >= 0 {
        Some(u.endpoints[endpoint_index(u.endpoints, name)].1)
    } else {
        None
    }
}

/// Sets the limiter under `name`, replacing one already there.
pub open spec fn insert_limiter(u: UserView, name: Seq<char>, l: LimiterView) -> UserView {
    if name == "global"@ {
        UserView { global: l, ..u }
    } else if endpoint_index(u.endpoints, name) >= 0 {
        UserView { endpoints: u.endpoints.update(endpoint_index(u.endpoints, name), (name, l)), ..u }
    } else {
        UserView { endpoints: u.endpoints.push((name, l)), ..u }
    }
}

/// Sets each limiter of `items` in order.
pub open spec fn insert_all(u: UserView, items: Seq<(Seq<char>, LimiterView)>) -> UserView
    decreases items.len(),
{
    if items.len() == 0 {
        u
    } else {
        insert_limiter(insert_all(u, items.drop_last()), items.last().0, items.last().1)
    }
}

/// The total number of timestamps held by the endpoint limiters.
pub open spec fn endpoints_total(eps: Seq<(Seq<char>, LimiterView)>) -> nat
    decreases eps.len(),
{
    if eps.len() == 0 { 0 } else { endpoints_total(eps.drop_last()) + eps.last().1.requests.len() }
}

/// The total number of timestamps a client's limiters hold.
pub open spec fn user_total(u: UserView) -> nat {
    u.global.requests.len() + endpoints_total(u.endpoints)
}

/// One check of a client's request for `path` at `now`: the global limiter
/// first, and only if it allows, the endpoint's limiter if there is one.
pub open spec fn user_check(u: UserView, path: Seq<char>, now: u64) -> (bool, UserView) {
    let (g_ok, g) = check_step(u.global, now);
    let u1 = UserView { global: g, ..u };
    let i = endpoint_index(u.endpoints, path);
    if !g_ok {
        (false, u1)
    } else if i < 0 {
        (true, u1)
    } else {
        let (e_ok, e) = check_step(u.endpoints[i].1, now);
        (e_ok, UserView { endpoints: u.endpoints.update(i, (path, e)), ..u1 })
    }
}

pub open spec fn record(l: LimiterView, now: u64) -> LimiterView {
    LimiterView { requests: l.requests.push(now), ..l }
}

/// Records a request for `path` at `now`: on the global limiter, and on the
/// endpoint's limiter if there is one.
pub open spec fn user_record(u: UserView, path: Seq<char>, now: u64) -> UserView {
    let i = endpoint_index(u.endpoints, path);
    let u1 = UserView { global: record(u.global, now), ..u };
    if i < 0 { u1 } else { UserView { endpoints: u.endpoints.update(i, (path, record(u.endpoints[i].1, now))), ..u1 } }
}

/// A client's rate limiters.
#[derive(Debug)]
pub struct User {
    pub global: RateLimiter,
    pub names: Vec<String>,
    pub limiters: Vec<RateLimiter>,
}

impl User {
    pub open spec fn wf(&self) -> bool {
        &&& self.names@.len() == self.limiters@.len()
        &&& keys_unique(self.view().endpoints)
    }

    pub open spec fn view(&self) -> UserView {
        UserView {
            global: self.global.view(),
            endpoints: Seq::new(self.names@.len(), |i: int| (self.names@[i]@, self.limiters@[i].view())),
        }
    }

    /// A client with only the global limiter.
    pub fn new() -> (r: Self)
        ensures
            r.wf(),
            r.view() == (UserView {
                global: LimiterView { requests: Seq::empty(), lockdown: None, window: GLOBAL_WINDOW, limit: GLOBAL_LIMIT },
                endpoints: Seq::empty(),
            }),
    {
        let r = User { global: RateLimiter::new(GLOBAL_LIMIT, GLOBAL_WINDOW), names: Vec::new(), limiters: Vec::new() };
        assert(r.view().endpoints =~= Seq::empty());
        r
    }

    fn find(&self, name: &str) -> (r: Option<usize>)
        requires
            self.wf(),
        ensures
            r matches Some(i) ==> endpoint_index(self.view().endpoints, name@) == i && i < self.names@.len(),
            r is None ==> endpoint_index(self.view().endpoints, name@) == -1,
    {
        let mut i: usize = 0;
        while i < self.names.len()
            invariant
                self.wf(),
                i <= self.names@.len(),
                endpoint_index(self.view().endpoints.subrange(0, i as int), name@) == -1,
            decreases self.names@.len() - i,
        {
            let ghost eps = self.view().endpoints;
            assert(eps.subrange(0, i + 1).drop_last() =~= eps.subrange(0, i as int));
            if str_equals(self.names[i].as_str(), name) {
                proof {
                    assert(eps.subrange(0, i + 1).drop_last() =~= eps.subrange(0, i as int));
                    lemma_endpoint_index_prefix(eps, name@, i + 1);
                }
                return Some(i);
            }
            i = i + 1;
        }
        assert(self.view().endpoints.subrange(0, i as int) =~= self.view().endpoints);
        None
    }

    /// Sets the limiter kept under `name`, replacing one already there.
    pub fn insert_limiter(&mut self, name: String, limiter: RateLimiter)
        requires
            old(self).wf(),
        ensures
            final(self).wf(),
            final(self).view() == insert_limiter(old(self).view(), name@, limiter.view()),
    {
        proof {
            reveal_strlit("global");
        }
        if str_equals(name.as_str(), "global") {
            self.global = limiter;
            assert(self.view().endpoints =~= old(self).view().endpoints);
            return;
        }
        match self.find(name.as_str()) {
            Some(i) => {
                let ghost v0 = self.view();
                proof { lemma_endpoint_index_found(v0.endpoints, name@); }
                self.limiters.set(i, limiter);
                self.names.set(i, name);
                assert(self.view().endpoints =~= v0.endpoints.update(i as int, (name@, limiter.view())));
                proof { lemma_same_keys_unique(v0.endpoints, self.view().endpoints); }
            },
            None => {
                let ghost v0 = self.view();
                let ghost nv = name@;
                let ghost lv = limiter.view();
                proof {
                    lemma_endpoint_index_is_first(v0.endpoints, nv);
                    lemma_put_unique(v0.endpoints, nv, lv);
                }
                self.names.push(name);
                self.limiters.push(limiter);
                assert(self.view().endpoints =~= v0.endpoints.push((nv, lv)));
            },
        }
    }

    /// Adds endpoint limiters, each under its name, in order.
    pub fn add_many(&mut self, api_limits: Vec<(RateLimiter, String)>)
        requires
            old(self).wf(),
        ensures
            final(self).wf(),
            final(self).view() == insert_all(old(self).view(), limiter_items(api_limits@)),
    {
        let ghost items = limiter_items(api_limits@);
        let ghost orig = api_limits@;
        let ghost u0 = self.view();
        let mut rest = api_limits;
        assert(orig.len() == rest.len());
        let mut k: usize = 0;
        while rest.len() > 0
            invariant
                self.wf(),
                k <= orig.len(),
                orig.len() <= usize::MAX,
                items == limiter_items(orig),
                rest@ == orig.subrange(k as int, orig.len() as int),
                self.view() == insert_all(u0, items.subrange(0, k as int)),
            decreases rest@.len(),
        {
            let (l, n) = rest.remove(0);
            assert(items.subrange(0, k + 1).drop_last() =~= items.subrange(0, k as int));
            self.insert_limiter(n, l);
            k = k + 1;
            assert(rest@ =~= orig.subrange(k as int, orig.len() as int));
        }
        assert(items.subrange(0, k as int) =~= items);
    }

    /// The number of request timestamps held by all the client's limiters,
    /// saturating at `usize::MAX`.
    pub fn get_recent_request_count(&self) -> (r: usize)
        requires
            self.wf(),
        ensures
            r as int == if user_total(self.view()) > usize::MAX { usize::MAX as int } else { user_total(self.view()) as int },
    {
        let mut total: usize = self.global.get_recent_request_count();
        let mut i: usize = 0;
        while i < self.limiters.len()
            invariant
                self.wf(),
                i <= self.limiters@.len(),
                total as int == if self.global.view().requests.len() + endpoints_total(self.view().endpoints.subrange(0, i as int)) > usize::MAX {
                    usize::MAX as int
                } else {
                    (self.global.view().requests.len() + endpoints_total(self.view().endpoints.subrange(0, i as int))) as int
                },
            decreases self.limiters@.len() - i,
        {
            assert(self.view().endpoints.subrange(0, i + 1).drop_last() =~= self.view().endpoints.subrange(0, i as int));
            total = total.saturating_add(self.limiters[i].get_recent_request_count());
            i = i + 1;
        }
        assert(self.view().endpoints.subrange(0, i as int) =~= self.view().endpoints);
        total
    }

    /// Checks a request for `api_path` at `now` against the global limiter
    /// and then, if it allows, the endpoint's limiter.
    pub fn check_limit(&mut self, api_path: &str, now: u64) -> (r: bool)
        requires
            old(self).wf(),
        ensures
            final(self).wf(),
            (r, final(self).view()) == user_check(old(self).view(), api_path@, now),
    {
        let ghost v0 = self.view();
        if !self.global.check_limit(now) {
            assert(self.view().endpoints =~= v0.endpoints);
            return false;
        }
        assert(self.view().endpoints =~= v0.endpoints);
        match self.find(api_path) {
            None => true,
            Some(i) => {
                let mut l = self.limiters.remove(i);
                let ok = l.check_limit(now);
                self.limiters.insert(i, l);
                proof {
                    lemma_endpoint_index_found(v0.endpoints, api_path@);
                }
                assert(self.view().endpoints =~= v0.endpoints.update(i as int, (api_path@, l.view())));
                proof { lemma_same_keys_unique(v0.endpoints, self.view().endpoints); }
                ok
            },
        }
    }

    /// Records a request at `now` on the global limiter only.
    pub fn add_gloabal_request(&mut self, now: u64)
        requires
            old(self).wf(),
        ensures
            final(self).wf(),
            final(self).view() == (UserView { global: record(old(self).view().global, now), ..old(self).view() }),
    {
        let ghost v0 = self.view();
        self.global.add_request(now);
        assert(self.view().endpoints =~= v0.endpoints);
    }

    /// Records a request for `api_path` at `now`: on the global limiter, and
    /// on the endpoint's limiter if there is one.
    pub fn add_request(&mut self, api_path: &str, now: u64)
        requires
            old(self).wf(),
        ensures
            final(self).wf(),
            final(self).view() == user_record(old(self).view(), api_path@, now),
    {
        let ghost v0 = self.view();
        self.global.add_request(now);
        assert(self.view().endpoints =~= v0.endpoints);
        match self.find(api_path) {
            None => {},
            Some(i) => {
                let mut l = self.limiters.remove(i);
                l.add_request(now);
                self.limiters.insert(i, l);
                proof {
                    lemma_endpoint_index_found(v0.endpoints, api_path@);
                }
                assert(self.view().endpoints =~= v0.endpoints.update(i as int, (api_path@, record(v0.endpoints[i as int].1, now))));
                proof { lemma_same_keys_unique(v0.endpoints, self.view().endpoints); }
            },
        }
    }
}

/// The name and limiter view of each item.
pub open spec fn limiter_items(v: Seq<(RateLimiter, String)>) -> Seq<(Seq<char>, LimiterView)> {
    v.map_values(|p: (RateLimiter, String)| (p.1@, p.0.view()))
}

proof fn lemma_endpoint_index_prefix(eps: Seq<(Seq<char>, LimiterView)>, name: Seq<char>, k: int)
    requires
        0 <= k <= eps.len(),
        endpoint_index(eps.subrange(0, k), name) >= 0 || (k > 0 && endpoint_index(eps.subrange(0, k - 1), name) == -1 && eps[k - 1].0 == name),
    ensures
        endpoint_index(eps, name) == (if endpoint_index(eps.subrange(0, k), name) >= 0 { endpoint_index(eps.subrange(0, k), name) } else { k - 1 }),
    decreases eps.len() - k,
{
    if k == eps.len() {
        assert(eps.subrange(0, k) =~= eps);
        if endpoint_index(eps.subrange(0, k), name) < 0 {
            assert(eps.subrange(0, k).drop_last() =~= eps.subrange(0, k - 1));
        }
    } else {
        assert(eps.subrange(0, k + 1).drop_last() =~= eps.subrange(0, k));
        if endpoint_index(eps.subrange(0, k), name) < 0 {
            assert(eps.subrange(0, k).drop_last() =~= eps.subrange(0, k - 1));
        }
        lemma_endpoint_index_prefix(eps, name, k + 1);
    }
}

proof fn lemma_endpoint_index_found(eps: Seq<(Seq<char>, LimiterView)>, name: Seq<char>)
    ensures
        endpoint_index(eps, name) >= 0 ==> eps[endpoint_index(eps, name)].0 == name,
        -1 <= endpoint_index(eps, name) < eps.len(),
    decreases eps.len(),
{
    if eps.len() > 0 {
        lemma_endpoint_index_found(eps.drop_last(), name);
    }
}


/// The position of the first entry keyed `k`, or -1.
pub open spec fn first_index<K, V>(s: Seq<(K, V)>, k: K) -> int
    decreases s.len(),
{
    if s.len() == 0 {
        -1
    } else if first_index(s.drop_last(), k) >= 0 {
        first_index(s.drop_last(), k)
    } else if s.last().0 == k {
        s.len() - 1
    } else {
        -1
    }
}

proof fn lemma_first_index_prefix<K, V>(s: Seq<(K, V)>, k: K, n: int)
    requires
        0 < n <= s.len(),
        first_index(s.subrange(0, n - 1), k) == -1,
        s[n - 1].0 == k,
    ensures
        first_index(s, k) == n - 1,
    decreases s.len() - n,
{
    assert(s.subrange(0, n).drop_last() =~= s.subrange(0, n - 1));
    if n == s.len() {
        assert(s.subrange(0, n) =~= s);
    } else {
        lemma_first_index_keeps(s, k, n, n + 1);
    }
}

proof fn lemma_first_index_keeps<K, V>(s: Seq<(K, V)>, k: K, n: int, m: int)
    requires
        0 < n <= m <= s.len(),
        first_index(s.subrange(0, n), k) >= 0,
    ensures
        first_index(s, k) == first_index(s.subrange(0, n), k),
    decreases s.len() - m,
{
    if m > n {
        assert(s.subrange(0, m).drop_last() =~= s.subrange(0, m - 1));
    }
    lemma_first_index_keeps_to(s, k, n, m);
    if m < s.len() {
        lemma_first_index_keeps(s, k, n, m + 1);
    } else {
        assert(s.subrange(0, m) =~= s);
    }
}

proof fn lemma_first_index_keeps_to<K, V>(s: Seq<(K, V)>, k: K, n: int, m: int)
    requires
        0 < n <= m <= s.len(),
        first_index(s.subrange(0, n), k) >= 0,
    ensures
        first_index(s.subrange(0, m), k) == first_index(s.subrange(0, n), k),
    decreases m - n,
{
    if m > n {
        lemma_first_index_keeps_to(s, k, n, m - 1);
        assert(s.subrange(0, m).drop_last() =~= s.subrange(0, m - 1));
    }
}

proof fn lemma_first_index_bounds<K, V>(s: Seq<(K, V)>, k: K)
    ensures
        -1 <= first_index(s, k) < s.len(),
        first_index(s, k) >= 0 ==> s[first_index(s, k)].0 == k,
    decreases s.len(),
{
    if s.len() > 0 {
        lemma_first_index_bounds(s.drop_last(), k);
    }
}

/// Whether no two entries share a key.
pub open spec fn keys_unique<K, V>(s: Seq<(K, V)>) -> bool {
    forall|i: int, j: int| 0 <= i < j < s.len() ==> (#[trigger] s[i]).0 != (#[trigger] s[j]).0
}

proof fn lemma_absent<K, V>(s: Seq<(K, V)>, k: K)
    requires
        first_index(s, k) == -1,
    ensures
        forall|i: int| 0 <= i < s.len() ==> (#[trigger] s[i]).0 != k,
    decreases s.len(),
{
    if s.len() > 0 {
        lemma_absent(s.drop_last(), k);
        assert forall|i: int| 0 <= i < s.len() implies (#[trigger] s[i]).0 != k by {
            if i < s.len() - 1 {
                assert(s[i] == s.drop_last()[i]);
            }
        }
    }
}

proof fn lemma_put_unique<K, V>(s: Seq<(K, V)>, k: K, v: V)
    requires
        keys_unique(s),
    ensures
        keys_unique(put(s, k, v)),
{
    lemma_first_index_bounds(s, k);
    let p = put(s, k, v);
    if first_index(s, k) >= 0 {
        assert forall|i: int| 0 <= i < p.len() implies (#[trigger] p[i]).0 == s[i].0 by {}
    } else {
        lemma_absent(s, k);
        assert forall|i: int, j: int| 0 <= i < j < p.len() implies (#[trigger] p[i]).0 != (#[trigger] p[j]).0 by {
            if j == s.len() {
                assert(p[i] == s[i]);
            } else {
                assert(p[i] == s[i] && p[j] == s[j]);
            }
        }
    }
}

proof fn lemma_same_keys_unique<K, V>(a: Seq<(K, V)>, b: Seq<(K, V)>)
    requires
        keys_unique(a),
        a.len() == b.len(),
        forall|i: int| 0 <= i < a.len() ==> (#[trigger] b[i]).0 == a[i].0,
    ensures
        keys_unique(b),
{
    assert forall|i: int, j: int| 0 <= i < j < b.len() implies (#[trigger] b[i]).0 != (#[trigger] b[j]).0 by {
        assert(b[i].0 == a[i].0 && b[j].0 == a[j].0);
    }
}

proof fn lemma_endpoint_index_is_first(eps: Seq<(Seq<char>, LimiterView)>, name: Seq<char>)
    ensures
        endpoint_index(eps, name) == first_index(eps, name),
    decreases eps.len(),
{
    if eps.len() > 0 {
        lemma_endpoint_index_is_first(eps.drop_last(), name);
    }
}

/// An endpoint's rate-limit policy.  Its handler lives with the caller,
/// keyed by the same path.
#[derive(Debug, Clone, Copy)]
pub struct Api {
    pub limit_count: usize,
    pub seconds_till_refresh: u32,
}

impl Api {
    pub fn get_limit_and_refresh(&self) -> (r: (usize, u32))
        ensures
            r == (self.limit_count, self.seconds_till_refresh),
    {
        (self.limit_count, self.seconds_till_refresh)
    }
}

/// What the registry decides for an API request.
#[derive(Debug, Clone, Copy, PartialEq, Eq, Structural)]
pub enum ApiDecision {
    /// A limiter denied the request: answer 429.
    TooManyRequests,
    /// No endpoint is registered at the path: answer 404.
    NotFound,
    /// Run the endpoint's handler.
    Run,
}

/// What the registry holds, as values.
pub struct RegistryView {
    pub apis: Seq<(Seq<char>, (usize, u32))>,
    pub users: Seq<(u128, UserView)>,
}

/// The limiters a client starts with: the global one, and one per
/// registered endpoint with that endpoint's policy.
pub open spec fn fresh_user(apis: Seq<(Seq<char>, (usize, u32))>) -> UserView {
    insert_all(
        UserView {
            global: LimiterView { requests: Seq::empty(), lockdown: None, window: GLOBAL_WINDOW, limit: GLOBAL_LIMIT },
            endpoints: Seq::empty(),
        },
        apis.map_values(|a: (Seq<char>, (usize, u32))| fresh_limiter(a)),
    )
}

/// A new limiter for an endpoint with the given policy.
pub open spec fn fresh_limiter(a: (Seq<char>, (usize, u32))) -> (Seq<char>, LimiterView) {
    (a.0, LimiterView { requests: Seq::empty(), lockdown: None, window: a.1.1, limit: a.1.0 })
}

/// Sets the entry keyed `k`, replacing the first one already there.
pub open spec fn put<K, V>(s: Seq<(K, V)>, k: K, v: V) -> Seq<(K, V)> {
    if first_index(s, k) >= 0 { s.update(first_index(s, k), (k, v)) } else { s.push((k, v)) }
}

/// The clients that still hold at least one request timestamp.
pub open spec fn active_users(users: Seq<(u128, UserView)>) -> Seq<(u128, UserView)>
    decreases users.len(),
{
    if users.len() == 0 {
        Seq::empty()
    } else if user_total(users.last().1) > 0 {
        active_users(users.drop_last()).push(users.last())
    } else {
        active_users(users.drop_last())
    }
}

/// The registry's answer to an API request from `ip` for `path` at `now`,
/// and its state after: a client seen for the first time gets fresh
/// limiters; a request both limiters allow is recorded, on the global
/// limiter and on the endpoint's; a request for an unregistered path is
/// recorded on the global limiter only.
pub open spec fn dispatch_step(r: RegistryView, ip: u128, path: Seq<char>, now: u64) -> (ApiDecision, RegistryView) {
    let i = first_index(r.users, ip);
    let u0 = if i >= 0 { r.users[i].1 } else { fresh_user(r.apis) };
    let (ok, u1) = user_check(u0, path, now);
    if !ok {
        (ApiDecision::TooManyRequests, RegistryView { users: put(r.users, ip, u1), ..r })
    } else if first_index(r.apis, path) >= 0 {
        (ApiDecision::Run, RegistryView { users: put(r.users, ip, user_record(u1, path, now)), ..r })
    } else {
        (ApiDecision::NotFound, RegistryView { users: put(r.users, ip, UserView { global: record(u1.global, now), ..u1 }), ..r })
    }
}

/// The registered endpoints and the clients seen, each client with its
/// limiters.  A client is keyed by its IP address as a 128-bit number
/// (an IPv4 address in its IPv6-mapped form).
#[derive(Debug)]
pub struct ApiRegister {
    pub api_paths: Vec<String>,
    pub apis: Vec<Api>,
    pub user_ips: Vec<u128>,
    pub users: Vec<User>,
}

impl ApiRegister {
    pub open spec fn wf(&self) -> bool {
        &&& self.api_paths@.len() == self.apis@.len()
        &&& self.user_ips@.len() == self.users@.len()
        &&& forall|i: int| 0 <= i < self.users@.len() ==> (#[trigger] self.users@[i]).wf()
        &&& keys_unique(self.view().users)
        &&& keys_unique(self.view().apis)
    }

    pub open spec fn view(&self) -> RegistryView {
        RegistryView {
            apis: Seq::new(self.apis@.len(), |i: int|
                (self.api_paths@[i]@, (self.apis@[i].limit_count, self.apis@[i].seconds_till_refresh))),
            users: Seq::new(self.users@.len(), |i: int| (self.user_ips@[i], self.users@[i].view())),
        }
    }

    /// An empty registry.
    pub fn new() -> (r: Self)
        ensures
            r.wf(),
            r.view().apis.len() == 0,
            r.view().users.len() == 0,
    {
        ApiRegister { api_paths: Vec::new(), apis: Vec::new(), user_ips: Vec::new(), users: Vec::new() }
    }

    fn find_api(&self, path: &str) -> (r: Option<usize>)
        requires
            self.wf(),
        ensures
            r matches Some(i) ==> first_index(self.view().apis, path@) == i && i < self.apis@.len(),
            r is None ==> first_index(self.view().apis, path@) == -1,
    {
        let mut i: usize = 0;
        while i < self.api_paths.len()
            invariant
                self.wf(),
                i <= self.api_paths@.len(),
                first_index(self.view().apis.subrange(0, i as int), path@) == -1,
            decreases self.api_paths@.len() - i,
        {
            let ghost s = self.view().apis;
            assert(s.subrange(0, i + 1).drop_last() =~= s.subrange(0, i as int));
            if str_equals(self.api_paths[i].as_str(), path) {
                proof { lemma_first_index_prefix(s, path@, i + 1); }
                return Some(i);
            }
            i = i + 1;
        }
        assert(self.view().apis.subrange(0, i as int) =~= self.view().apis);
        None
    }

    fn find_user(&self, ip: u128) -> (r: Option<usize>)
        requires
            self.wf(),
        ensures
            r matches Some(i) ==> first_index(self.view().users, ip) == i && i < self.users@.len(),
            r is None ==> first_index(self.view().users, ip) == -1,
    {
        let mut i: usize = 0;
        while i < self.user_ips.len()
            invariant
                self.wf(),
                i <= self.user_ips@.len(),
                first_index(self.view().users.subrange(0, i as int), ip) == -1,
            decreases self.user_ips@.len() - i,
        {
            let ghost s = self.view().users;
            assert(s.subrange(0, i + 1).drop_last() =~= s.subrange(0, i as int));
            if self.user_ips[i] == ip {
                proof { lemma_first_index_prefix(s, ip, i + 1); }
                return Some(i);
            }
            i = i + 1;
        }
        assert(self.view().users.subrange(0, i as int) =~= self.view().users);
        None
    }

    /// Registers an endpoint's policy at `path`, replacing one already there.
    pub fn register_api(&mut self, path: &str, limit: usize, refresh_timer: u32)
        requires
            old(self).wf(),
        ensures
            final(self).wf(),
            final(self).view() == (RegistryView { apis: put(old(self).view().apis, path@, (limit, refresh_timer)), ..old(self).view() }),
    {
        let api = Api { limit_count: limit, seconds_till_refresh: refresh_timer };
        let ghost v0 = self.view();
        let name = string_from_chars(chars_of(path).as_slice());
        match self.find_api(path) {
            Some(i) => {
                self.apis.set(i, api);
                self.api_paths.set(i, name);
                assert(self.view().apis =~= v0.apis.update(i as int, (path@, (limit, refresh_timer))));
            },
            None => {
                self.apis.push(api);
                self.api_paths.push(name);
                assert(self.view().apis =~= v0.apis.push((path@, (limit, refresh_timer))));
            },
        }
        assert(self.view().users =~= v0.users);
        proof { lemma_put_unique(v0.apis, path@, (limit, refresh_timer)); }
    }

    /// The policy registered at `path`.
    pub fn get_api(&self, path: &str) -> (r: Option<&Api>)
        requires
            self.wf(),
        ensures
            r matches Some(a) ==> first_index(self.view().apis, path@) >= 0
                && self.view().apis[first_index(self.view().apis, path@)].1 == (a.limit_count, a.seconds_till_refresh),
            r is None ==> first_index(self.view().apis, path@) == -1,
    {
        match self.find_api(path) {
            Some(i) => Some(&self.apis[i]),
            None => None,
        }
    }

    /// Whether a client has been seen.
    pub fn user_exists(&self, ip: u128) -> (r: bool)
        requires
            self.wf(),
        ensures
            r == (first_index(self.view().users, ip) >= 0),
    {
        self.find_user(ip).is_some()
    }

    fn new_user(&self) -> (r: User)
        requires
            self.wf(),
        ensures
            r.wf(),
            r.view() == fresh_user(self.view().apis),
    {
        let mut limits: Vec<(RateLimiter, String)> = Vec::new();
        let mut i: usize = 0;
        let ghost apis = self.view().apis;
        while i < self.apis.len()
            invariant
                self.wf(),
                i <= self.apis@.len(),
                apis == self.view().apis,
                limiter_items(limits@) == apis.subrange(0, i as int).map_values(|a: (Seq<char>, (usize, u32))| fresh_limiter(a)),
            decreases self.apis@.len() - i,
        {
            let (limit, refresh) = self.apis[i].get_limit_and_refresh();
            let name = string_from_chars(chars_of(self.api_paths[i].as_str()).as_slice());
            let l = RateLimiter::new(limit, refresh);
            let ghost item = (name@, l.view());
            assert(item == fresh_limiter(apis[i as int]));
            let ghost before = limits@;
            limits.push((l, name));
            assert(limiter_items(limits@) =~= limiter_items(before).push(item));
            assert(apis.subrange(0, i + 1).map_values(|a: (Seq<char>, (usize, u32))| fresh_limiter(a))
                =~= apis.subrange(0, i as int).map_values(|a: (Seq<char>, (usize, u32))| fresh_limiter(a)).push(fresh_limiter(apis[i as int])));
            i = i + 1;
        }
        assert(apis.subrange(0, i as int) =~= apis);
        let mut user = User::new();
        user.add_many(limits);
        user
    }

    /// Gives a client seen for the first time fresh limiters: the global one
    /// and one per registered endpoint.  A client already known keeps its
    /// limiters unchanged.
    pub fn add_user(&mut self, user_ip: u128)
        requires
            old(self).wf(),
        ensures
            final(self).wf(),
            first_index(old(self).view().users, user_ip) >= 0 ==> final(self).view() == old(self).view(),
            first_index(old(self).view().users, user_ip) < 0 ==> final(self).view() == (RegistryView {
                users: old(self).view().users.push((user_ip, fresh_user(old(self).view().apis))),
                ..old(self).view()
            }),
    {
        if self.find_user(user_ip).is_some() {
            return;
        }
        let user = self.new_user();
        self.put_user(user_ip, user);
    }

    fn put_user(&mut self, ip: u128, user: User)
        requires
            old(self).wf(),
            user.wf(),
        ensures
            final(self).wf(),
            final(self).view() == (RegistryView { users: put(old(self).view().users, ip, user.view()), ..old(self).view() }),
    {
        let ghost v0 = self.view();
        let ghost uv = user.view();
        match self.find_user(ip) {
            Some(i) => {
                proof { lemma_first_index_bounds(v0.users, ip); }
                self.users.set(i, user);
                assert(self.view().users =~= v0.users.update(i as int, (ip, uv)));
            },
            None => {
                self.users.push(user);
                self.user_ips.push(ip);
                assert(self.view().users =~= v0.users.push((ip, uv)));
            },
        }
        assert(self.view().apis =~= v0.apis);
        proof { lemma_put_unique(v0.users, ip, uv); }
    }

    fn take_user(&mut self, i: usize) -> (r: User)
        requires
            old(self).wf(),
            i < old(self).users@.len(),
        ensures
            r.wf(),
            r.view() == old(self).view().users[i as int].1,
            final(self).user_ips@ == old(self).user_ips@.remove(i as int),
            final(self).users@ == old(self).users@.remove(i as int),
            final(self).api_paths@ == old(self).api_paths@,
            final(self).apis@ == old(self).apis@,
            final(self).wf(),
    {
        let ghost v0 = self.view();
        self.user_ips.remove(i);
        let r = self.users.remove(i);
        assert forall|j: int| 0 <= j < self.users@.len() implies (#[trigger] self.users@[j]).wf() by {
            if j < i { assert(self.users@[j] == old(self).users@[j]); }
            else { assert(self.users@[j] == old(self).users@[j + 1]); }
        }
        let ghost vu = self.view().users;
        assert forall|a: int, b: int| 0 <= a < b < vu.len() implies (#[trigger] vu[a]).0 != (#[trigger] vu[b]).0 by {
            let a0 = if a < i { a } else { a + 1 };
            let b0 = if b < i { b } else { b + 1 };
            assert(vu[a].0 == v0.users[a0].0 && vu[b].0 == v0.users[b0].0);
        }
        assert(self.view().apis =~= v0.apis);
        r
    }
}


proof fn lemma_first_index_same_keys<K, V>(s1: Seq<(K, V)>, s2: Seq<(K, V)>, k: K)
    requires
        s1.len() == s2.len(),
        forall|i: int| 0 <= i < s1.len() ==> (#[trigger] s1[i]).0 == s2[i].0,
    ensures
        first_index(s1, k) == first_index(s2, k),
    decreases s1.len(),
{
    if s1.len() > 0 {
        lemma_first_index_same_keys(s1.drop_last(), s2.drop_last(), k);
        assert(s1.last().0 == s2.last().0);
    }
}

proof fn lemma_put_found<K, V>(s: Seq<(K, V)>, k: K, v: V, w: V)
    ensures
        first_index(put(s, k, v), k) >= 0,
        put(s, k, v)[first_index(put(s, k, v), k)] == (k, v),
        put(put(s, k, v), k, w) == put(s, k, w),
{
    lemma_first_index_bounds(s, k);
    let i = first_index(s, k);
    if i >= 0 {
        let s2 = s.update(i, (k, v));
        lemma_first_index_same_keys(s, s2, k);
        let s3 = s.update(i, (k, w));
        assert(s2.update(i, (k, w)) =~= s3);
    } else {
        let s2 = s.push((k, v));
        assert(s2.drop_last() =~= s);
        assert(first_index(s2, k) == s.len());
        assert(s2.update(s.len() as int, (k, w)) =~= s.push((k, w)));
    }
}

impl ApiRegister {
    fn restore_user(&mut self, i: usize, ip: u128, u: User)
        requires
            old(self).wf(),
            u.wf(),
            i <= old(self).users@.len(),
            forall|j: int| 0 <= j < old(self).user_ips@.len() ==> old(self).user_ips@[j] != ip,
        ensures
            final(self).wf(),
            final(self).users@ == old(self).users@.insert(i as int, u),
            final(self).user_ips@ == old(self).user_ips@.insert(i as int, ip),
            final(self).api_paths@ == old(self).api_paths@,
            final(self).apis@ == old(self).apis@,
    {
        let ghost v0 = self.view();
        self.users.insert(i, u);
        self.user_ips.insert(i, ip);
        let ghost vu = self.view().users;
        assert forall|a: int, b: int| 0 <= a < b < vu.len() implies (#[trigger] vu[a]).0 != (#[trigger] vu[b]).0 by {
            if a != i && b != i {
                let a0 = if a < i { a } else { a - 1 };
                let b0 = if b < i { b } else { b - 1 };
                assert(vu[a].0 == v0.users[a0].0 && vu[b].0 == v0.users[b0].0);
            } else if a == i {
                let b0 = b - 1;
                assert(vu[b].0 == old(self).user_ips@[b0]);
            } else {
                assert(vu[a].0 == old(self).user_ips@[a]);
            }
        }
        assert(self.view().apis =~= v0.apis);
        assert forall|j: int| 0 <= j < self.users@.len() implies (#[trigger] self.users@[j]).wf() by {
            if j < i { assert(self.users@[j] == old(self).users@[j]); }
            else if j > i { assert(self.users@[j] == old(self).users@[j - 1]); }
        }
    }

    /// Checks a request from a known client for `api_path` at `now`.
    pub fn check_limit(&mut self, ip: u128, api_path: &str, now: u64) -> (r: bool)
        requires
            old(self).wf(),
            first_index(old(self).view().users, ip) >= 0,
        ensures
            final(self).wf(),
            ({
                let (ok, u1) = user_check(old(self).view().users[first_index(old(self).view().users, ip)].1, api_path@, now);
                r == ok && final(self).view() == (RegistryView { users: put(old(self).view().users, ip, u1), ..old(self).view() })
            }),
    {
        let ghost v0 = self.view();
        let i = match self.find_user(ip) {
            Some(i) => i,
            None => return false,
        };
        proof { lemma_first_index_bounds(v0.users, ip); }
        let mut u = self.take_user(i);
        assert forall|j: int| 0 <= j < self.user_ips@.len() implies self.user_ips@[j] != ip by {
            let j0 = if j < i { j } else { j + 1 };
            assert(self.user_ips@[j] == v0.users[j0].0);
            assert(v0.users[i as int].0 == ip);
        }
        let ok = u.check_limit(api_path, now);
        let ghost uv = u.view();
        self.restore_user(i, ip, u);
        assert(self.view().users =~= v0.users.update(i as int, (ip, uv)));
        assert(self.view().apis =~= v0.apis);
        ok
    }

    /// Records a request from a known client for `api_path` at `now`, on its
    /// global limiter and on the endpoint's.
    pub fn add_request(&mut self, api_path: &str, user_ip: u128, now: u64)
        requires
            old(self).wf(),
            first_index(old(self).view().users, user_ip) >= 0,
        ensures
            final(self).wf(),
            final(self).view() == (RegistryView { users: put(old(self).view().users, user_ip,
                user_record(old(self).view().users[first_index(old(self).view().users, user_ip)].1, api_path@, now)), ..old(self).view() }),
    {
        let ghost v0 = self.view();
        let i = match self.find_user(user_ip) {
            Some(i) => i,
            None => return,
        };
        proof { lemma_first_index_bounds(v0.users, user_ip); }
        let mut u = self.take_user(i);
        assert forall|j: int| 0 <= j < self.user_ips@.len() implies self.user_ips@[j] != user_ip by {
            let j0 = if j < i { j } else { j + 1 };
            assert(self.user_ips@[j] == v0.users[j0].0);
            assert(v0.users[i as int].0 == user_ip);
        }
        u.add_request(api_path, now);
        let ghost uv = u.view();
        self.restore_user(i, user_ip, u);
        assert(self.view().users =~= v0.users.update(i as int, (user_ip, uv)));
        assert(self.view().apis =~= v0.apis);
    }

    /// Records a request from a known client at `now` on its global limiter.
    pub fn add_gloabal_request(&mut self, user_ip: u128, now: u64)
        requires
            old(self).wf(),
            first_index(old(self).view().users, user_ip) >= 0,
        ensures
            final(self).wf(),
            ({
                let u = old(self).view().users[first_index(old(self).view().users, user_ip)].1;
                final(self).view() == (RegistryView { users: put(old(self).view().users, user_ip,
                    UserView { global: record(u.global, now), ..u }), ..old(self).view() })
            }),
    {
        let ghost v0 = self.view();
        let i = match self.find_user(user_ip) {
            Some(i) => i,
            None => return,
        };
        proof { lemma_first_index_bounds(v0.users, user_ip); }
        let mut u = self.take_user(i);
        assert forall|j: int| 0 <= j < self.user_ips@.len() implies self.user_ips@[j] != user_ip by {
            let j0 = if j < i { j } else { j + 1 };
            assert(self.user_ips@[j] == v0.users[j0].0);
            assert(v0.users[i as int].0 == user_ip);
        }
        u.add_gloabal_request(now);
        let ghost uv = u.view();
        self.restore_user(i, user_ip, u);
        assert(self.view().users =~= v0.users.update(i as int, (user_ip, uv)));
        assert(self.view().apis =~= v0.apis);
    }

    /// Decides an API request from `ip` for `path` at `now` and records it:
    /// the client gets limiters on first sight, the global limiter is checked
    /// first and then the endpoint's, and a request that goes through is
    /// recorded once on each limiter it touches.
    pub fn dispatch(&mut self, ip: u128, path: &str, now: u64) -> (r: ApiDecision)
        requires
            old(self).wf(),
        ensures
            final(self).wf(),
            (r, final(self).view()) == dispatch_step(old(self).view(), ip, path@, now),
    {
        let ghost v0 = self.view();
        if !self.user_exists(ip) {
            self.add_user(ip);
        }
        let ghost v1 = self.view();
        proof {
            lemma_put_found(v0.users, ip, fresh_user(v0.apis), fresh_user(v0.apis));
            lemma_first_index_bounds(v0.users, ip);
            if first_index(v0.users, ip) >= 0 {
                assert(v1 == v0);
            }
        }
        let ghost u0 = v1.users[first_index(v1.users, ip)].1;
        let ghost (okg, u1) = user_check(u0, path@, now);
        if !self.check_limit(ip, path, now) {
            proof { lemma_put_found(v0.users, ip, fresh_user(v0.apis), u1); }
            return ApiDecision::TooManyRequests;
        }
        let ghost v2 = self.view();
        proof {
            lemma_put_found(v1.users, ip, u1, u1);
        }
        match self.find_api(path) {
            None => {
                self.add_gloabal_request(ip, now);
                proof {
                    lemma_put_found(v1.users, ip, u1, UserView { global: record(u1.global, now), ..u1 });
                    lemma_put_found(v0.users, ip, fresh_user(v0.apis), UserView { global: record(u1.global, now), ..u1 });
                }
                ApiDecision::NotFound
            },
            Some(_) => {
                self.add_request(path, ip, now);
                proof {
                    lemma_put_found(v1.users, ip, u1, user_record(u1, path@, now));
                    lemma_put_found(v0.users, ip, fresh_user(v0.apis), user_record(u1, path@, now));
                }
                ApiDecision::Run
            },
        }
    }

    /// Forgets every client whose limiters hold no request timestamps.
    pub fn clean_recent_requests(&mut self)
        requires
            old(self).wf(),
        ensures
            final(self).wf(),
            final(self).view() == (RegistryView { users: active_users(old(self).view().users), ..old(self).view() }),
    {
        let ghost v0 = self.view();
        let mut ips: Vec<u128> = Vec::new();
        let mut users: Vec<User> = Vec::new();
        std::mem::swap(&mut ips, &mut self.user_ips);
        std::mem::swap(&mut users, &mut self.users);
        let ghost n = users@.len();
        assert(n == users.len());
        assert(self.view().users =~= Seq::<(u128, UserView)>::empty());
        let mut k: usize = 0;
        while users.len() > 0
            invariant
                self.wf(),
                self.apis@ == old(self).apis@,
                self.api_paths@ == old(self).api_paths@,
                ips@.len() == users@.len(),
                k + users@.len() == n,
                n == v0.users.len(),
                n <= usize::MAX,
                v0 == old(self).view(),
                keys_unique(v0.users),
                forall|j: int| 0 <= j < users@.len() ==> (#[trigger] users@[j]).wf(),
                forall|j: int| 0 <= j < users@.len() ==> (ips@[j], #[trigger] users@[j].view()) == v0.users[k + j],
                self.view().users == active_users(v0.users.subrange(0, k as int)),
            decreases users@.len(),
        {
            let ghost us0 = users@;
            let ghost is0 = ips@;
            let ip = ips.remove(0);
            let u = users.remove(0);
            assert((ip, u.view()) == v0.users[k as int]);
            assert(v0.users.subrange(0, k + 1).drop_last() =~= v0.users.subrange(0, k as int));
            let ghost before = self.view().users;
            if u.get_recent_request_count() > 0 {
                let ghost uv = u.view();
                let len = self.users.len();
                assert forall|j: int| 0 <= j < self.user_ips@.len() implies self.user_ips@[j] != ip by {
                    let e = before[j];
                    assert(active_users(v0.users.subrange(0, k as int)).contains(e));
                    lemma_reaper_keeps_exactly_active(v0.users.subrange(0, k as int), e);
                    let m = choose|m: int| 0 <= m < k && v0.users.subrange(0, k as int)[m] == e;
                    assert(v0.users[m] == e);
                    assert(v0.users[m].0 != v0.users[k as int].0);
                }
                self.restore_user(len, ip, u);
                assert(self.view().users =~= before.push((ip, uv)));
            }
            assert forall|j: int| 0 <= j < users@.len() implies (ips@[j], #[trigger] users@[j].view()) == v0.users[k + 1 + j] by {
                assert(users@[j] == us0[j + 1]);
                assert(ips@[j] == is0[j + 1]);
            }
            k = k + 1;
            assert(self.view().apis =~= v0.apis);
        }
        assert(v0.users.subrange(0, k as int) =~= v0.users);
        assert(self.view().apis =~= v0.apis);
    }
}

/// A sweep of the reaper keeps exactly the clients whose limiters hold at
/// least one request timestamp, and removes every client whose limiters hold
/// none.
pub proof fn lemma_reaper_keeps_exactly_active(users: Seq<(u128, UserView)>, e: (u128, UserView))
    ensures
        active_users(users).contains(e) <==> (users.contains(e) && user_total(e.1) > 0),
    decreases users.len(),
{
    if users.len() > 0 {
        let rest = users.drop_last();
        lemma_reaper_keeps_exactly_active(rest, e);
        assert(users =~= rest.push(users.last()));
        if user_total(users.last().1) > 0 {
            let a = active_users(rest);
            assert(a.push(users.last()).contains(e) <==> (a.contains(e) || e == users.last())) by {
                if e == users.last() { assert(a.push(users.last())[a.len() as int] == e); }
                if a.push(users.last()).contains(e) {
                    let j = choose|j: int| 0 <= j < a.len() + 1 && a.push(users.last())[j] == e;
                    if j < a.len() { assert(a[j] == e); }
                }
                if a.contains(e) {
                    let j = choose|j: int| 0 <= j < a.len() && a[j] == e;
                    assert(a.push(users.last())[j] == e);
                }
            }
        }
        assert(users.contains(e) <==> (rest.contains(e) || e == users.last())) by {
            if e == users.last() { assert(users[users.len() - 1] == e); }
            if users.contains(e) {
                let j = choose|j: int| 0 <= j < users.len() && users[j] == e;
                if j < rest.len() { assert(rest[j] == e); }
            }
            if rest.contains(e) {
                let j = choose|j: int| 0 <= j < rest.len() && rest[j] == e;
                assert(users[j] == e);
            }
        }
    }
}

proof fn lemma_recent_keeps_young(ts: Seq<u64>, now: u64, window: u32)
    requires
        forall|i: int| 0 <= i < ts.len() ==> age(now, #[trigger] ts[i]) < window,
    ensures
        recent(ts, now, window) == ts,
    decreases ts.len(),
{
    if ts.len() > 0 {
        lemma_recent_keeps_young(ts.drop_last(), now, window);
        assert(ts.drop_last().push(ts.last()) =~= ts);
    }
}

/// Outside a lockdown, while every recorded request is younger than the
/// window, a check lets a request through exactly when at most `limit`
/// requests are recorded: `limit + 1` requests pass before the first denial,
/// and that denial starts a lockdown at `now`.
pub proof fn lemma_limit_plus_one_admitted(l: LimiterView, now: u64)
    requires
        l.lockdown is None,
        forall|i: int| 0 <= i < l.requests.len() ==> age(now, #[trigger] l.requests[i]) < l.window,
    ensures
        check_step(l, now).0 == (l.requests.len() <= l.limit),
        !check_step(l, now).0 ==> check_step(l, now).1.lockdown == Some(now),
{
    lemma_recent_keeps_young(l.requests, now, l.window);
}

/// During a lockdown younger than the window every check is denied and
/// changes nothing; once the window has passed since the lockdown began,
/// the lockdown no longer blocks.
pub proof fn lemma_lockdown_holds_for_window(l: LimiterView, now: u64)
    requires
        l.lockdown is Some,
    ensures
        age(now, l.lockdown->0) < l.window ==> check_step(l, now) == (false, l),
        age(now, l.lockdown->0) >= l.window && recent(l.requests, now, l.window).len() <= l.limit
            ==> check_step(l, now).0 && check_step(l, now).1.lockdown is None,
{
}

/// A dispatch that is not denied records the request exactly once on the
/// client's global limiter, and the registry's endpoints are unchanged.
pub proof fn lemma_dispatch_records_once(r: RegistryView, ip: u128, path: Seq<char>, now: u64)
    ensures
        ({
            let (d, r2) = dispatch_step(r, ip, path, now);
            let i = first_index(r.users, ip);
            let u0 = if i >= 0 { r.users[i].1 } else { fresh_user(r.apis) };
            let u1 = user_check(u0, path, now).1;
            &&& r2.apis == r.apis
            &&& first_index(r2.users, ip) >= 0
            &&& d != ApiDecision::TooManyRequests ==>
                r2.users[first_index(r2.users, ip)].1.global.requests == u1.global.requests.push(now)
            &&& d == ApiDecision::TooManyRequests ==> r2.users[first_index(r2.users, ip)].1 == u1
        }),
{
    let i = first_index(r.users, ip);
    let u0 = if i >= 0 { r.users[i].1 } else { fresh_user(r.apis) };
    let (ok, u1) = user_check(u0, path, now);
    let rec = user_record(u1, path, now);
    let glob = UserView { global: record(u1.global, now), ..u1 };
    lemma_put_found(r.users, ip, u1, u1);
    lemma_put_found(r.users, ip, rec, rec);
    lemma_put_found(r.users, ip, glob, glob);
}

/// A client's limiters after recording requests for `path` at each of
/// `times`, in order.
pub open spec fn record_all(u: UserView, path: Seq<char>, times: Seq<u64>) -> UserView
    decreases times.len(),
{
    if times.len() == 0 {
        u
    } else {
        user_record(record_all(u, path, times.drop_last()), path, times.last())
    }
}

proof fn lemma_endpoint_index_update(eps: Seq<(Seq<char>, LimiterView)>, i: int, name: Seq<char>, l: LimiterView, key: Seq<char>)
    requires
        0 <= i < eps.len(),
        eps[i].0 == name,
    ensures
        endpoint_index(eps.update(i, (name, l)), key) == endpoint_index(eps, key),
    decreases eps.len(),
{
    let e2 = eps.update(i, (name, l));
    if i < eps.len() - 1 {
        lemma_endpoint_index_update(eps.drop_last(), i, name, l, key);
        assert(e2.drop_last() =~= eps.drop_last().update(i, (name, l)));
    } else {
        assert(e2.drop_last() =~= eps.drop_last());
    }
}

/// No request is lost or counted twice: recording N requests, one after
/// another, adds exactly those N timestamps to the client's global limiter,
/// and to the endpoint's limiter when the client has one for `path`.
pub proof fn lemma_records_accumulate(u: UserView, path: Seq<char>, times: Seq<u64>)
    ensures
        record_all(u, path, times).global.requests == u.global.requests + times,
        endpoint_index(record_all(u, path, times).endpoints, path) == endpoint_index(u.endpoints, path),
        record_all(u, path, times).endpoints.len() == u.endpoints.len(),
        endpoint_index(u.endpoints, path) >= 0 ==>
            record_all(u, path, times).endpoints[endpoint_index(u.endpoints, path)].1.requests
                == u.endpoints[endpoint_index(u.endpoints, path)].1.requests + times,
    decreases times.len(),
{
    if times.len() == 0 {
        assert(u.global.requests + times =~= u.global.requests);
        assert(u.endpoints.len() > 0 && endpoint_index(u.endpoints, path) >= 0 ==>
            u.endpoints[endpoint_index(u.endpoints, path)].1.requests + times
                =~= u.endpoints[endpoint_index(u.endpoints, path)].1.requests);
    } else {
        let prev = record_all(u, path, times.drop_last());
        lemma_records_accumulate(u, path, times.drop_last());
        assert(u.global.requests + times =~= (u.global.requests + times.drop_last()).push(times.last()));
        let i = endpoint_index(prev.endpoints, path);
        lemma_endpoint_index_found(prev.endpoints, path);
        if i >= 0 {
            lemma_endpoint_index_update(prev.endpoints, i, path, record(prev.endpoints[i].1, times.last()), path);
            let j = endpoint_index(u.endpoints, path);
            assert(u.endpoints[j].1.requests + times
                =~= (u.endpoints[j].1.requests + times.drop_last()).push(times.last()));
        }
    }
}

} // verus!

//! Rate limiting by buckets.
//!
//! A bucket is a named policy: at most `limit` invocations within any
//! trailing `time_span`, and at least `delay` between two invocations. It is
//! kept per scope key, the identity against which the limits are counted.
//!
//! Time is a count of whole seconds on a clock that does not run backwards;
//! a reading taken between two ticks counts as the earlier tick, so a wait
//! given in seconds is the true wait rounded up. A reading earlier than the
//! latest recorded invocation is taken as that invocation's time.
//!
//! Checking and recording is one call on `&mut self`: no other check can come
//! between the reading of a window and the recording in it.

use vstd::prelude::*;
use vstd::string::*;
use crate::assoc::{keys_distinct, lemma_place_of, lemma_put, lists, map_of, put};
use crate::text::same_text;

verus! {

/// The limits of a bucket, in seconds and invocations.
#[derive(Clone, Copy, Debug, PartialEq, Eq, Structural)]
pub struct BucketPolicy {
    /// The least time between two invocations.
    pub delay: u64,
    /// The length of the trailing window.
    pub time_span: u64,
    /// The most invocations within one window.
    pub limit: u32,
}

/// The identity against which a bucket counts.
#[derive(Clone, Copy, Debug, PartialEq, Eq, Structural)]
pub struct ScopeKey {
    pub user_id: u64,
    pub channel_id: u64,
}

/// What a bucket says of an invocation.
#[derive(Clone, Copy, Debug, PartialEq, Eq, Structural)]
pub enum Verdict {
    /// The invocation may go ahead; it has been recorded.
    Allowed,
    /// The invocation is denied; the number is the seconds to wait until one
    /// would be allowed.
    RateLimited(u64),
}

/// The state of one scope key in a bucket.
pub struct ScopeView {
    /// The times of the recorded invocations that the window still holds,
    /// oldest first.
    pub window: Seq<u64>,
    /// The time of the latest recorded invocation.
    pub last: Option<u64>,
}

/// The model of a bucket: its policy and the state of each scope key seen.
pub struct BucketView {
    pub policy: BucketPolicy,
    pub scopes: Map<ScopeKey, ScopeView>,
}

/// The state of a scope key that was never seen.
pub open spec fn unseen() -> ScopeView {
    ScopeView { window: Seq::empty(), last: None }
}

/// The state of `key` in `bucket`.
pub open spec fn state_of(bucket: BucketView, key: ScopeKey) -> ScopeView {
    if bucket.scopes.dom().contains(key) {
        bucket.scopes[key]
    } else {
        unseen()
    }
}

/// The time at which a check at clock reading `now` is made.
pub open spec fn effective_now(state: ScopeView, now: u64) -> u64 {
    match state.last {
        Some(l) => if l > now {
            l
        } else {
            now
        },
        None => now,
    }
}

/// Whether an invocation recorded at `e` still counts at `now`: it has not
/// yet been in the window for the whole `span`.
pub open spec fn is_live(e: u64, span: u64, now: u64) -> bool {
    now < e + span
}

/// [`is_live`] as a predicate on the recorded time.
pub open spec fn live_at(span: u64, now: u64) -> spec_fn(u64) -> bool {
    |e: u64| is_live(e, span, now)
}

/// The entries of `window` that still count at `now`.
pub open spec fn live(window: Seq<u64>, span: u64, now: u64) -> Seq<u64> {
    window.filter(live_at(span, now))
}

/// The seconds until the window has room again; zero if it has room now.
pub open spec fn window_wait(policy: BucketPolicy, state: ScopeView, now: u64) -> int {
    let l = live(state.window, policy.time_span, now);
    if l.len() >= policy.limit {
        l[l.len() - policy.limit] + policy.time_span - now
    } else {
        0
    }
}

/// The seconds until the delay since the latest invocation is over; zero if
/// it is over.
pub open spec fn delay_wait(policy: BucketPolicy, state: ScopeView, now: u64) -> int {
    match state.last {
        Some(l) => if now < l + policy.delay {
            l + policy.delay - now
        } else {
            0
        },
        None => 0,
    }
}

/// The seconds until an invocation would be allowed: the longer of the two
/// waits.
pub open spec fn wait(policy: BucketPolicy, state: ScopeView, now: u64) -> int {
    let w = window_wait(policy, state, now);
    let d = delay_wait(policy, state, now);
    if w >= d {
        w
    } else {
        d
    }
}

/// The verdict on an invocation at clock reading `now`.
pub open spec fn verdict(policy: BucketPolicy, state: ScopeView, now: u64) -> Verdict {
    let n = effective_now(state, now);
    if wait(policy, state, n) <= 0 {
        Verdict::Allowed
    } else {
        Verdict::RateLimited(wait(policy, state, n) as u64)
    }
}

/// The state after a check at clock reading `now`: the expired entries are
/// gone, and the invocation is recorded if it was allowed.
pub open spec fn after(policy: BucketPolicy, state: ScopeView, now: u64) -> ScopeView {
    let n = effective_now(state, now);
    let kept = live(state.window, policy.time_span, n);
    if wait(policy, state, n) <= 0 {
        ScopeView { window: kept.push(n), last: Some(n) }
    } else {
        ScopeView { window: kept, last: state.last }
    }
}

/// The bucket after a check for `key` at clock reading `now`.
pub open spec fn recorded(bucket: BucketView, key: ScopeKey, now: u64) -> BucketView {
    BucketView {
        policy: bucket.policy,
        scopes: bucket.scopes.insert(key, after(bucket.policy, state_of(bucket, key), now)),
    }
}

/// A bucket of `policy` in which no scope key was seen yet.
pub open spec fn fresh(policy: BucketPolicy) -> BucketView {
    BucketView { policy, scopes: Map::empty() }
}

/// Oldest first.
pub open spec fn ascending(w: Seq<u64>) -> bool {
    forall|i: int, j: int| 0 <= i <= j < w.len() ==> w[i] <= w[j]
}

/// What holds of every state that checks produce: the window is ordered and
/// never holds more than `limit` entries, none later than the latest
/// invocation and none older than the time span as of it.
pub open spec fn scope_valid(policy: BucketPolicy, state: ScopeView) -> bool {
    &&& ascending(state.window)
    &&& state.window.len() <= policy.limit
    &&& state.last is None ==> state.window.len() == 0
    &&& state.last matches Some(l) ==> forall|i: int|
        0 <= i < state.window.len() ==> #[trigger] state.window[i] <= l && l <= state.window[i]
            + policy.time_span
}

/// What holds of every bucket: its policy admits an invocation, and each of
/// its states is valid.
pub open spec fn bucket_valid(bucket: BucketView) -> bool {
    &&& bucket.policy.limit >= 1
    &&& forall|key: ScopeKey| #[trigger]
        bucket.scopes.dom().contains(key) ==> scope_valid(bucket.policy, bucket.scopes[key])
}

/// In an ordered window the live entries are the ones from some place on.
pub proof fn lemma_live_is_suffix(w: Seq<u64>, span: u64, now: u64) -> (k: int)
    requires
        ascending(w),
    ensures
        0 <= k <= w.len(),
        live(w, span, now) == w.skip(k),
        forall|i: int| 0 <= i < k ==> !is_live(#[trigger] w[i], span, now),
        forall|i: int| k <= i < w.len() ==> is_live(#[trigger] w[i], span, now),
    decreases w.len(),
{
    if w.len() == 0 {
        reveal(Seq::filter);
        assert(live(w, span, now) =~= w.skip(0));
        0
    } else {
        let front = w.drop_last();
        let k0 = lemma_live_is_suffix(front, span, now);
        assert(w =~= front.push(w.last()));
        front.lemma_filter_push(w.last(), live_at(span, now));
        if is_live(w.last(), span, now) {
            assert(front.skip(k0).push(w.last()) =~= w.skip(k0));
            k0
        } else {
            if k0 < front.len() {
                assert(is_live(front[k0], span, now));
                assert(w[k0] <= w[w.len() - 1]);
            }
            assert(front.skip(k0) =~= w.skip(w.len() as int));
            w.len() as int
        }
    }
}

/// A check leaves a valid state valid, and after it the window holds no
/// entry older than the time span.
pub proof fn lemma_after_valid(policy: BucketPolicy, state: ScopeView, now: u64)
    requires
        policy.limit >= 1,
        scope_valid(policy, state),
    ensures
        scope_valid(policy, after(policy, state, now)),
        forall|i: int|
            0 <= i < after(policy, state, now).window.len() ==> effective_now(state, now) <= (
            #[trigger] after(policy, state, now).window[i]) + policy.time_span,
        0 <= wait(policy, state, effective_now(state, now)) <= u64::MAX,
{
    let n = effective_now(state, now);
    let k = lemma_live_is_suffix(state.window, policy.time_span, n);
    let kept = live(state.window, policy.time_span, n);
    assert forall|i: int| 0 <= i < kept.len() implies kept[i] == state.window[i + k] by {}
    if kept.len() >= policy.limit {
        assert(is_live(state.window[kept.len() - policy.limit + k], policy.time_span, n));
    }
}

/// The wait that a denial gives is exact: until it is over every further
/// check is denied, and from then on a check is allowed.
pub proof fn lemma_retry_after_exact(policy: BucketPolicy, state: ScopeView, now: u64, later: u64)
    requires
        policy.limit >= 1,
        scope_valid(policy, state),
        verdict(policy, state, now) is RateLimited,
        later >= effective_now(state, now),
    ensures
        later < effective_now(state, now) + verdict(policy, state, now)->0 ==> verdict(
            policy,
            after(policy, state, now),
            later,
        ) is RateLimited,
        later >= effective_now(state, now) + verdict(policy, state, now)->0 ==> verdict(
            policy,
            after(policy, state, now),
            later,
        ) is Allowed,
{
    let n = effective_now(state, now);
    let span = policy.time_span;
    lemma_after_valid(policy, state, now);
    let next = after(policy, state, now);
    let k = lemma_live_is_suffix(state.window, span, n);
    let kept = live(state.window, span, n);
    assert(next.window == kept);
    assert(next.last == state.last);
    assert(effective_now(next, later) == later);
    let k2 = lemma_live_is_suffix(kept, span, later);
    let kept2 = live(kept, span, later);
    assert forall|i: int| 0 <= i < kept2.len() implies kept2[i] == kept[i + k2] by {}
    if kept.len() >= policy.limit {
        let oldest = kept[kept.len() - policy.limit];
        if later < oldest + span {
            assert(is_live(kept[kept.len() - policy.limit], span, later));
            assert(k2 == 0);
            assert(kept2 =~= kept);
        } else {
            assert(!is_live(kept[kept.len() - policy.limit], span, later));
            assert(k2 > 0);
        }
    }
}

/// However large the limit, an invocation that follows an allowed one by
/// less than the delay is denied.
pub proof fn lemma_delay_denies(policy: BucketPolicy, state: ScopeView, first: u64, second: u64)
    requires
        policy.limit >= 1,
        scope_valid(policy, state),
        verdict(policy, state, first) is Allowed,
        effective_now(state, first) <= second < effective_now(state, first) + policy.delay,
    ensures
        verdict(policy, after(policy, state, first), second) is RateLimited,
{
    let n = effective_now(state, first);
    let next = after(policy, state, first);
    lemma_after_valid(policy, state, first);
    assert(next.last == Some(n));
    assert(effective_now(next, second) == second);
    assert(delay_wait(policy, next, second) > 0);
}

/// The state after checks at the clock readings `times`, one after the
/// other.
pub open spec fn after_all(policy: BucketPolicy, state: ScopeView, times: Seq<u64>) -> ScopeView
    decreases times.len(),
{
    if times.len() == 0 {
        state
    } else {
        after(policy, after_all(policy, state, times.drop_last()), times.last())
    }
}

/// A scope key that was never seen is allowed invocations until the window
/// is full: as long as no more than `limit` come within one time span and
/// there is no delay, each is allowed and recorded.
proof fn lemma_window_fills(policy: BucketPolicy, times: Seq<u64>, i: int)
    requires
        policy.limit >= 1,
        policy.delay == 0,
        0 <= i <= times.len() <= policy.limit,
        ascending(times),
        times.len() > 0 ==> times.last() < times[0] + policy.time_span,
    ensures
        after_all(policy, unseen(), times.take(i)).window == times.take(i),
        after_all(policy, unseen(), times.take(i)).last == if i == 0 {
            None
        } else {
            Some(times[i - 1])
        },
        scope_valid(policy, after_all(policy, unseen(), times.take(i))),
        i < times.len() ==> verdict(
            policy,
            after_all(policy, unseen(), times.take(i)),
            times[i],
        ) is Allowed,
    decreases i,
{
    let span = policy.time_span;
    if i > 0 {
        lemma_window_fills(policy, times, i - 1);
        let before = after_all(policy, unseen(), times.take(i - 1));
        assert(times.take(i).drop_last() =~= times.take(i - 1));
        assert(times.take(i).last() == times[i - 1]);
        let n = effective_now(before, times[i - 1]);
        assert(n == times[i - 1]);
        let k = lemma_live_is_suffix(before.window, span, n);
        if k > 0 {
            assert(!is_live(before.window[0], span, n));
            assert(before.window[0] == times[0]);
        }
        assert(live(before.window, span, n) =~= times.take(i - 1));
        assert(times.take(i - 1).push(times[i - 1]) =~= times.take(i));
        lemma_after_valid(policy, before, times[i - 1]);
    } else {
        assert(times.take(0) =~= Seq::<u64>::empty());
    }
    if i < times.len() {
        let state = after_all(policy, unseen(), times.take(i));
        let n = effective_now(state, times[i]);
        assert(i > 0 ==> times[i - 1] <= times[i]);
        assert(n == times[i]);
        let k = lemma_live_is_suffix(state.window, span, n);
        assert(live(state.window, span, n).len() <= i);
    }
}

/// With no delay, as many invocations as the limit says are allowed within
/// one time span. A further one within that span is denied, and has to wait
/// until the first of them leaves the window; from then on one is allowed
/// again.
pub proof fn lemma_limit_within_span(policy: BucketPolicy, times: Seq<u64>, next: u64)
    requires
        policy.limit >= 1,
        policy.delay == 0,
        times.len() == policy.limit,
        ascending(times),
        times.last() < times[0] + policy.time_span,
        next >= times.last(),
    ensures
        forall|i: int|
            0 <= i < times.len() ==> verdict(
                policy,
                #[trigger] after_all(policy, unseen(), times.take(i)),
                times[i],
            ) is Allowed,
        next < times[0] + policy.time_span ==> verdict(
            policy,
            after_all(policy, unseen(), times),
            next,
        ) == Verdict::RateLimited((times[0] + policy.time_span - next) as u64),
        next >= times[0] + policy.time_span ==> verdict(
            policy,
            after_all(policy, unseen(), times),
            next,
        ) is Allowed,
{
    let span = policy.time_span;
    assert forall|i: int| 0 <= i < times.len() implies verdict(
        policy,
        #[trigger] after_all(policy, unseen(), times.take(i)),
        times[i],
    ) is Allowed by {
        lemma_window_fills(policy, times, i);
    }
    lemma_window_fills(policy, times, times.len() as int);
    assert(times.take(times.len() as int) =~= times);
    let state = after_all(policy, unseen(), times);
    assert(effective_now(state, next) == next);
    let k = lemma_live_is_suffix(times, span, next);
    if next < times[0] + span {
        if k > 0 {
            assert(!is_live(times[0], span, next));
        }
        assert(live(times, span, next) =~= times);
    } else {
        if k == 0 {
            assert(is_live(times[0], span, next));
        }
    }
}

struct ScopeState {
    key: ScopeKey,
    window: Vec<u64>,
    last: Option<u64>,
}

impl View for ScopeState {
    type V = ScopeView;

    closed spec fn view(&self) -> ScopeView {
        ScopeView { window: self.window@, last: self.last }
    }
}

impl ScopeState {
    fn check(&mut self, policy: &BucketPolicy, now: u64) -> (v: Verdict)
        requires
            policy.limit >= 1,
            scope_valid(*policy, old(self)@),
        ensures
            v == verdict(*policy, old(self)@, now),
            final(self)@ == after(*policy, old(self)@, now),
            final(self).key == old(self).key,
            scope_valid(*policy, final(self)@),
    {
        let ghost before = self@;
        let n = match self.last {
            Some(l) => if l > now {
                l
            } else {
                now
            },
            None => now,
        };
        let span = policy.time_span;
        let ghost k = lemma_live_is_suffix(before.window, span, n);
        proof {
            lemma_after_valid(*policy, before, now);
        }
        let mut i: usize = 0;
        while i < self.window.len() && n - self.window[i] >= span
            invariant
                i <= self.window.len(),
                self@ == before,
                scope_valid(*policy, before),
                n == effective_now(before, now),
                span == policy.time_span,
                forall|j: int| 0 <= j < i ==> !is_live(#[trigger] before.window[j], span, n),
            decreases self.window.len() - i,
        {
            i += 1;
        }
        assert(i == k) by {
            if i < k {
                assert(!is_live(before.window[i as int], span, n));
            }
            if k < i {
                assert(is_live(before.window[k], span, n));
            }
        }
        let mut kept = self.window.split_off(i);
        assert(kept@ =~= live(before.window, span, n));
        let mut wait: u64 = 0;
        let limit = policy.limit as usize;
        if kept.len() >= limit {
            let oldest = kept[kept.len() - limit];
            assert(oldest == before.window[kept.len() - limit + k]);
            wait = span - (n - oldest);
        }
        match self.last {
            Some(l) => {
                if n - l < policy.delay {
                    let d = policy.delay - (n - l);
                    if d > wait {
                        wait = d;
                    }
                }
            },
            None => {},
        }
        assert(wait == crate::ratelimit::wait(*policy, before, n));
        if wait == 0 {
            kept.push(n);
            self.window = kept;
            self.last = Some(n);
            Verdict::Allowed
        } else {
            self.window = kept;
            Verdict::RateLimited(wait)
        }
    }
}

/// A named rate-limit policy with what it has recorded.
pub struct Bucket {
    name: String,
    policy: BucketPolicy,
    scopes: Vec<ScopeState>,
}

spec fn scope_listing(scopes: Seq<ScopeState>) -> Seq<(ScopeKey, ScopeView)> {
    Seq::new(scopes.len(), |i: int| (scopes[i].key, scopes[i]@))
}

impl View for Bucket {
    type V = BucketView;

    closed spec fn view(&self) -> BucketView {
        BucketView { policy: self.policy, scopes: map_of(scope_listing(self.scopes@)) }
    }
}

impl Bucket {
    /// The policy admits an invocation, no scope key is kept twice, and each
    /// state is valid.
    #[verifier::type_invariant]
    pub closed spec fn wf(&self) -> bool {
        &&& self.policy.limit >= 1
        &&& keys_distinct(scope_listing(self.scopes@))
        &&& forall|i: int|
            0 <= i < self.scopes.len() ==> scope_valid(self.policy, (#[trigger] self.scopes[i])@)
    }

    /// The name of the bucket.
    pub closed spec fn name(&self) -> Seq<char> {
        self.name@
    }

    /// A well-formed bucket is a valid one.
    pub proof fn lemma_wf(&self)
        requires
            self.wf(),
        ensures
            bucket_valid(self@),
    {
        let l = scope_listing(self.scopes@);
        assert forall|key: ScopeKey| #[trigger] self@.scopes.dom().contains(key) implies scope_valid(
            self@.policy,
            self@.scopes[key],
        ) by {
            let i = crate::assoc::place_of(l, key);
            assert(l[i].1 == self.scopes[i]@);
        }
    }

    /// A bucket of `policy` that has recorded nothing. A policy with a limit
    /// of zero admits no invocation at all and makes no bucket.
    pub fn new(name: &str, policy: BucketPolicy) -> (b: Option<Bucket>)
        ensures
            b is Some <==> policy.limit >= 1,
            b matches Some(bucket) ==> bucket.wf() && bucket.name() == name@ && bucket@ == fresh(
                policy,
            ),
    {
        if policy.limit == 0 {
            return None;
        }
        let bucket = Bucket { name: String::from_str(name), policy, scopes: Vec::new() };
        assert(bucket@.scopes =~= Map::<ScopeKey, ScopeView>::empty());
        Some(bucket)
    }

    /// The policy of the bucket.
    pub fn policy(&self) -> (p: BucketPolicy)
        ensures
            p == self@.policy,
    {
        self.policy
    }

    /// Decides on an invocation for `key` at clock reading `now`, and records
    /// it if it is allowed. The states of the other keys stay as they are.
    pub fn check_and_record(&mut self, key: ScopeKey, now: u64) -> (v: Verdict)
        ensures
            final(self).wf(),
            final(self).name() == old(self).name(),
            v == verdict(old(self)@.policy, state_of(old(self)@, key), now),
            final(self)@ == recorded(old(self)@, key, now),
    {
        proof {
            use_type_invariant(&*self);
        }
        let ghost before = scope_listing(self.scopes@);
        let mut scopes: Vec<ScopeState> = Vec::new();
        std::mem::swap(&mut self.scopes, &mut scopes);
        let mut i: usize = 0;
        while i < scopes.len() && !(scopes[i].key.user_id == key.user_id && scopes[i].key.channel_id
            == key.channel_id)
            invariant
                i <= scopes.len(),
                forall|j: int| 0 <= j < i ==> (#[trigger] scopes[j]).key != key,
            decreases scopes.len() - i,
        {
            i += 1;
        }
        if i == scopes.len() {
            assert(!lists(before, key));
            scopes.push(ScopeState { key, window: Vec::new(), last: None });
        } else {
            proof {
                lemma_place_of(before, i as int);
            }
        }
        let ghost state = scopes[i as int]@;
        assert(state == state_of(old(self)@, key));
        let v = scopes[i].check(&self.policy, now);
        proof {
            lemma_put(before, key, after(self.policy, state, now));
            assert(scope_listing(scopes@) =~= put(before, key, after(self.policy, state, now)));
        }
        std::mem::swap(&mut self.scopes, &mut scopes);
        v
    }
}

/// The buckets by name.
pub struct BucketStore {
    buckets: Vec<Bucket>,
}

spec fn bucket_listing(buckets: Seq<Bucket>) -> Seq<(Seq<char>, BucketView)> {
    Seq::new(buckets.len(), |i: int| (buckets[i].name@, buckets[i]@))
}

/// What holds of every store: each of its buckets is valid.
pub open spec fn store_valid(store: Map<Seq<char>, BucketView>) -> bool {
    forall|name: Seq<char>| #[trigger] store.dom().contains(name) ==> bucket_valid(store[name])
}

/// The store after a check in the bucket `name` for `key` at clock reading
/// `now`. Without such a bucket nothing is recorded.
pub open spec fn store_recorded(
    store: Map<Seq<char>, BucketView>,
    name: Seq<char>,
    key: ScopeKey,
    now: u64,
) -> Map<Seq<char>, BucketView> {
    if store.dom().contains(name) {
        store.insert(name, recorded(store[name], key, now))
    } else {
        store
    }
}

/// The verdict of the bucket `name` on an invocation for `key` at clock
/// reading `now`. Without such a bucket there is nothing to limit.
pub open spec fn store_verdict(
    store: Map<Seq<char>, BucketView>,
    name: Seq<char>,
    key: ScopeKey,
    now: u64,
) -> Verdict {
    if store.dom().contains(name) {
        verdict(store[name].policy, state_of(store[name], key), now)
    } else {
        Verdict::Allowed
    }
}

impl View for BucketStore {
    type V = Map<Seq<char>, BucketView>;

    closed spec fn view(&self) -> Map<Seq<char>, BucketView> {
        map_of(bucket_listing(self.buckets@))
    }
}

impl BucketStore {
    /// No name is kept twice, and each bucket is well-formed.
    #[verifier::type_invariant]
    pub closed spec fn wf(&self) -> bool {
        &&& keys_distinct(bucket_listing(self.buckets@))
        &&& forall|i: int| 0 <= i < self.buckets.len() ==> (#[trigger] self.buckets[i]).wf()
    }

    /// A well-formed store is a valid one.
    pub proof fn lemma_wf(&self)
        requires
            self.wf(),
        ensures
            store_valid(self@),
    {
        let l = bucket_listing(self.buckets@);
        assert forall|name: Seq<char>| #[trigger] self@.dom().contains(name) implies bucket_valid(
            self@[name],
        ) by {
            let i = crate::assoc::place_of(l, name);
            assert(l[i].1 == self.buckets[i]@);
            self.buckets[i].lemma_wf();
        }
    }

    /// A store without buckets.
    pub fn new() -> (s: Self)
        ensures
            s.wf(),
            s@ == Map::<Seq<char>, BucketView>::empty(),
    {
        let s = BucketStore { buckets: Vec::new() };
        assert(s@ =~= Map::<Seq<char>, BucketView>::empty());
        s
    }

    fn find(&self, name: &str) -> (r: Option<usize>)
        ensures
            match r {
                Some(i) => i < self.buckets.len() && self.buckets[i as int].name@ == name@,
                None => !lists(bucket_listing(self.buckets@), name@),
            },
    {
        let mut i: usize = 0;
        while i < self.buckets.len()
            invariant
                i <= self.buckets.len(),
                forall|j: int| 0 <= j < i ==> (#[trigger] self.buckets[j]).name@ != name@,
            decreases self.buckets.len() - i,
        {
            if same_text(self.buckets[i].name.as_str(), name) {
                return Some(i);
            }
            i += 1;
        }
        None
    }

    /// Defines the bucket `name` with `policy`, in place of an earlier bucket
    /// of that name if there is one. A policy with a limit of zero is
    /// refused, and the store stays as it was.
    pub fn define(&mut self, name: &str, policy: BucketPolicy) -> (defined: bool)
        ensures
            final(self).wf(),
            defined == (policy.limit >= 1),
            defined ==> final(self)@ == old(self)@.insert(name@, fresh(policy)),
            !defined ==> final(self)@ == old(self)@,
    {
        proof {
            use_type_invariant(&*self);
        }
        let bucket = match Bucket::new(name, policy) {
            Some(b) => b,
            None => {
                return false;
            },
        };
        let found = self.find(name);
        let ghost before = bucket_listing(self.buckets@);
        let mut buckets: Vec<Bucket> = Vec::new();
        std::mem::swap(&mut self.buckets, &mut buckets);
        match found {
            Some(i) => {
                proof {
                    lemma_place_of(before, i as int);
                }
                buckets[i] = bucket;
            },
            None => {
                buckets.push(bucket);
            },
        }
        proof {
            lemma_put(before, name@, fresh(policy));
            assert(bucket_listing(buckets@) =~= put(before, name@, fresh(policy)));
        }
        std::mem::swap(&mut self.buckets, &mut buckets);
        true
    }

    /// The policy of the bucket `name`, if there is such a bucket.
    pub fn policy_of(&self, name: &str) -> (p: Option<BucketPolicy>)
        ensures
            p is Some <==> self@.dom().contains(name@),
            p matches Some(policy) ==> policy == self@[name@].policy,
    {
        proof {
            use_type_invariant(self);
        }
        match self.find(name) {
            Some(i) => {
                proof {
                    lemma_place_of(bucket_listing(self.buckets@), i as int);
                }
                Some(self.buckets[i].policy())
            },
            None => None,
        }
    }

    /// Decides on an invocation in the bucket `bucket_name` for `scope_key`
    /// at clock reading `now`, and records it if it is allowed. Without such
    /// a bucket the invocation is allowed and nothing is recorded. The other
    /// buckets and scope keys stay as they are.
    pub fn check_and_record(&mut self, bucket_name: &str, scope_key: ScopeKey, now: u64) -> (v:
        Verdict)
        ensures
            final(self).wf(),
            v == store_verdict(old(self)@, bucket_name@, scope_key, now),
            final(self)@ == store_recorded(old(self)@, bucket_name@, scope_key, now),
    {
        proof {
            use_type_invariant(&*self);
        }
        let found = self.find(bucket_name);
        match found {
            Some(i) => {
                let ghost before = bucket_listing(self.buckets@);
                proof {
                    lemma_place_of(before, i as int);
                }
                let mut buckets: Vec<Bucket> = Vec::new();
                std::mem::swap(&mut self.buckets, &mut buckets);
                let ghost bucket = buckets[i as int]@;
                let v = buckets[i].check_and_record(scope_key, now);
                proof {
                    lemma_put(before, bucket_name@, recorded(bucket, scope_key, now));
                    assert(bucket_listing(buckets@) =~= put(
                        before,
                        bucket_name@,
                        recorded(bucket, scope_key, now),
                    ));
                }
                std::mem::swap(&mut self.buckets, &mut buckets);
                v
            },
            None => Verdict::Allowed,
        }
    }
}

} // verus!

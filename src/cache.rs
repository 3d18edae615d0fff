//! A single cached value with a refresh interval, refreshed at most once per caller that
//! finds it stale, and never poisoned by a failed refresh.
//!
//! Callers that share a cell hold its lock across the whole of `retrieve_or_update` (or
//! across `needs_refresh`, the refresh and `commit`), so their calls form one sequence; the
//! laws below are stated over such sequences.
use vstd::prelude::*;

verus! {

/// What a cell holds: when it was last refreshed, its value, and how many refreshes have
/// been attempted on it.
pub ghost struct CacheView<T> {
    pub timestamp: Option<u64>,
    pub value: T,
    pub attempts: nat,
}

/// The time from `t` to `now`; none where `now` comes first.
pub open spec fn elapsed(t: u64, now: u64) -> int {
    if now >= t {
        now - t
    } else {
        0
    }
}

/// The cell must be refreshed: it never was, or `interval` or more has passed since.
pub open spec fn stale<T>(c: CacheView<T>, now: u64, interval: u64) -> bool {
    match c.timestamp {
        None => true,
        Some(t) => elapsed(t, now) >= interval,
    }
}

/// The cell after a refresh attempt at `now`: a new value and time where it succeeded; the
/// old value and time where it failed. Either way the attempt is counted.
pub open spec fn committed<T, E>(c: CacheView<T>, outcome: Result<T, E>, now: u64) -> CacheView<T> {
    match outcome {
        Ok(v) => CacheView { timestamp: Some(now), value: v, attempts: c.attempts + 1 },
        Err(_) => CacheView { attempts: c.attempts + 1, ..c },
    }
}

/// The cell after one call at `now`: a stale cell takes the outcome of a refresh; a fresh one
/// stays as it is, and no refresh is made.
pub open spec fn after_call<T, E>(
    c: CacheView<T>,
    now: u64,
    interval: u64,
    outcome: Result<T, E>,
) -> CacheView<T> {
    if stale(c, now, interval) {
        committed(c, outcome, now)
    } else {
        c
    }
}

/// The cell after a sequence of calls, made one after another at the times `times`, each
/// stale call's refresh coming out as `outcomes` says.
pub open spec fn after_calls<T, E>(
    c: CacheView<T>,
    times: Seq<u64>,
    interval: u64,
    outcomes: Seq<Result<T, E>>,
) -> CacheView<T>
    decreases times.len(),
{
    if times.len() == 0 || outcomes.len() == 0 {
        c
    } else {
        after_calls(
            after_call(c, times[0], interval, outcomes[0]),
            times.drop_first(),
            interval,
            outcomes.drop_first(),
        )
    }
}

/// A timestamped value, refreshed when the interval since its last refresh has run out.
pub struct Cache<T> {
    timestamp: Option<u64>,
    value: T,
    attempts: Ghost<nat>,
}

impl<T> View for Cache<T> {
    type V = CacheView<T>;

    closed spec fn view(&self) -> CacheView<T> {
        CacheView { timestamp: self.timestamp, value: self.value, attempts: self.attempts@ }
    }
}

impl<T> Cache<T> {
    /// An empty cell holding `value`, never refreshed.
    pub fn new(value: T) -> (r: Cache<T>)
        ensures
            r@ == (CacheView { timestamp: None, value, attempts: 0 }),
    {
        Cache { timestamp: None, value, attempts: Ghost(0) }
    }

    /// The value the cell holds.
    pub fn value(&self) -> (r: &T)
        ensures
            *r == self@.value,
    {
        &self.value
    }

    /// When the cell was last refreshed.
    pub fn timestamp(&self) -> (r: Option<u64>)
        ensures
            r == self@.timestamp,
    {
        self.timestamp
    }

    /// Whether the cell must be refreshed at `now`.
    pub fn needs_refresh(&self, now: u64, interval: u64) -> (r: bool)
        ensures
            r == stale(self@, now, interval),
    {
        match self.timestamp {
            None => true,
            Some(t) => {
                let passed = if now >= t {
                    now - t
                } else {
                    0
                };
                passed >= interval
            },
        }
    }

    /// Records the outcome of a refresh made at `now`: a new value replaces the old one in
    /// one step; an error leaves the cell as it was and is handed back.
    pub fn commit<E>(&mut self, outcome: Result<T, E>, now: u64) -> (r: Result<(), E>)
        ensures
            final(self)@ == committed(old(self)@, outcome, now),
            r is Ok <==> outcome is Ok,
            outcome matches Err(e) ==> r == Err::<(), E>(e),
    {
        self.attempts = Ghost(self.attempts@ + 1);
        match outcome {
            Ok(v) => {
                self.value = v;
                self.timestamp = Some(now);
                Ok(())
            },
            Err(e) => Err(e),
        }
    }

    /// Gives the value, first refreshing it with `update` where the cell is stale at `now`.
    /// A fresh cell is handed back untouched and `update` is not called; a failed refresh
    /// leaves the cell's value and time as they were and gives the error.
    pub fn retrieve_or_update<E, F: FnOnce() -> Result<T, E>>(
        &mut self,
        now: u64,
        interval: u64,
        update: F,
    ) -> (r: Result<&T, E>)
        requires
            stale(old(self)@, now, interval) ==> update.requires(()),
        ensures
            !stale(old(self)@, now, interval) ==> final(self)@ == old(self)@ && r is Ok,
            stale(old(self)@, now, interval) ==> exists|outcome: Result<T, E>|
                update.ensures((), outcome) && final(self)@ == committed(old(self)@, outcome, now)
                    && (r is Ok <==> outcome is Ok) && (outcome matches Err(e) ==> r == Err::<
                    &T,
                    E,
                >(e)),
            r matches Ok(v) ==> *v == final(self)@.value,
    {
        if self.needs_refresh(now, interval) {
            let outcome = update();
            let ghost o = outcome;
            match self.commit(outcome, now) {
                Ok(()) => {},
                Err(e) => {
                    return Err(e);
                },
            }
        }
        Ok(&self.value)
    }
}

/// After a successful refresh at `t`, a call made before `interval` has passed finds the
/// cell fresh: it makes no refresh and leaves the cell as it is.
pub proof fn lemma_fresh_within_interval<T, E>(
    c: CacheView<T>,
    v: T,
    t: u64,
    now: u64,
    interval: u64,
    outcome: Result<T, E>,
)
    requires
        t <= now,
        now - t < interval,
    ensures
        !stale(committed(c, Ok::<T, E>(v), t), now, interval),
        after_call(committed(c, Ok::<T, E>(v), t), now, interval, outcome) == committed(
            c,
            Ok::<T, E>(v),
            t,
        ),
{
}

/// A failed refresh leaves the cell's value and time as they were, so that a call at the same
/// time or later finds it stale again and attempts a refresh of its own.
pub proof fn lemma_failure_keeps_staleness<T, E>(
    c: CacheView<T>,
    now: u64,
    later: u64,
    interval: u64,
    e: E,
    next: Result<T, E>,
)
    requires
        stale(c, now, interval),
        now <= later,
    ensures
        after_call(c, now, interval, Err::<T, E>(e)).value == c.value,
        after_call(c, now, interval, Err::<T, E>(e)).timestamp == c.timestamp,
        stale(after_call(c, now, interval, Err::<T, E>(e)), later, interval),
        after_call(after_call(c, now, interval, Err::<T, E>(e)), later, interval, next).attempts
            == c.attempts + 2,
{
}

/// Single flight: of callers that find a cell stale and take their turns under its lock,
/// all within `interval` of the first, only the first refreshes; when that refresh succeeds
/// every caller sees its value, and one refresh is counted in all.
pub proof fn lemma_single_flight<T, E>(
    c: CacheView<T>,
    times: Seq<u64>,
    interval: u64,
    outcomes: Seq<Result<T, E>>,
    v: T,
)
    requires
        times.len() > 0,
        outcomes.len() == times.len(),
        outcomes[0] == Ok::<T, E>(v),
        stale(c, times[0], interval),
        forall|i: int| 0 <= i < times.len() ==> times[0] <= #[trigger] times[i],
        forall|i: int| 0 <= i < times.len() ==> #[trigger] times[i] - times[0] < interval,
    ensures
        after_calls(c, times, interval, outcomes) == committed(c, Ok::<T, E>(v), times[0]),
        after_calls(c, times, interval, outcomes).attempts == c.attempts + 1,
        after_calls(c, times, interval, outcomes).value == v,
{
    let first = committed(c, Ok::<T, E>(v), times[0]);
    lemma_fresh_calls(first, times[0], times.drop_first(), interval, outcomes.drop_first());
}

/// Calls made before `interval` has passed since the refresh at `t` leave the cell as it is.
proof fn lemma_fresh_calls<T, E>(
    c: CacheView<T>,
    t: u64,
    times: Seq<u64>,
    interval: u64,
    outcomes: Seq<Result<T, E>>,
)
    requires
        c.timestamp == Some(t),
        forall|i: int| 0 <= i < times.len() ==> t <= #[trigger] times[i],
        forall|i: int| 0 <= i < times.len() ==> #[trigger] times[i] - t < interval,
    ensures
        after_calls(c, times, interval, outcomes) == c,
    decreases times.len(),
{
    if times.len() > 0 && outcomes.len() > 0 {
        assert(times[0] - t < interval);
        assert(!stale(c, times[0], interval));
        let rest = times.drop_first();
        assert forall|i: int| 0 <= i < rest.len() implies t <= #[trigger] rest[i] && rest[i] - t
            < interval by {
            assert(rest[i] == times[i + 1]);
        }
        lemma_fresh_calls(c, t, rest, interval, outcomes.drop_first());
    }
}

} // verus!

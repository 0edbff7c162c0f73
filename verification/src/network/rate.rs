//! Operational rate limiting.
//!
//! Bounded per-connection limits on the client operations that could flood
//! the server. Limits never alter what a world computes; an operation over
//! its limit is rejected explicitly. Time is nanoseconds on a monotonic
//! clock.

use vstd::prelude::*;

verus! {

/// One fixed-window counter: at most `limit` operations in a window, which
/// starts at the first use and anew at the first use after it has passed. A
/// limit of 0 allows nothing.
#[derive(Clone, Copy, Debug, PartialEq, Eq, Structural)]
pub struct RateWindow {
    /// When the current window started, if any use was made.
    pub start: Option<u64>,
    /// Operations allowed in the current window.
    pub used: u32,
    /// The most operations a window allows.
    pub limit: u32,
    /// The length of a window in seconds.
    pub window_secs: u64,
}

impl RateWindow {
    /// Whether the window that started at `start` has passed at `now`.
    pub open spec fn passed(self, start: u64, now: u64) -> bool {
        now - start >= self.window_secs * 1000000000 && now >= start
    }

    /// Whether a use at `now` starts a window.
    pub open spec fn starts(self, now: u64) -> bool {
        match self.start {
            None => true,
            Some(start) => self.passed(start, now),
        }
    }

    /// Whether a use at `now` is allowed.
    pub open spec fn allows(self, now: u64) -> bool {
        self.limit > 0 && (self.starts(now) || self.used < self.limit)
    }

    /// The counter after a use at `now`.
    pub open spec fn taken(self, now: u64) -> RateWindow {
        if self.limit == 0 {
            self
        } else if self.starts(now) {
            RateWindow { start: Some(now), used: 1, ..self }
        } else if self.used < self.limit {
            RateWindow { used: (self.used + 1) as u32, ..self }
        } else {
            self
        }
    }

    /// A counter that was never used.
    pub fn new(limit: u32, window_secs: u64) -> (window: RateWindow)
        ensures
            window == (RateWindow { start: None, used: 0, limit, window_secs }),
    {
        RateWindow { start: None, used: 0, limit, window_secs }
    }

    /// Tries to take one slot. Yields whether the operation is allowed; the
    /// counter advances only if it is.
    pub fn try_take(&mut self, now: u64) -> (allowed: bool)
        ensures
            allowed == old(self).allows(now),
            *final(self) == old(self).taken(now),
    {
        let fresh = match self.start {
            None => true,
            Some(start) => now >= start && (now - start) as u128 >= self.window_secs as u128
                * 1000000000u128,
        };
        if self.limit == 0 {
            false
        } else if fresh {
            self.start = Some(now);
            self.used = 1;
            true
        } else if self.used >= self.limit {
            false
        } else {
            self.used = self.used + 1;
            true
        }
    }
}

/// The number of allowed uses among uses at the given times.
pub open spec fn allowed_count(window: RateWindow, times: Seq<u64>) -> nat
    decreases times.len(),
{
    if times.len() == 0 {
        0
    } else {
        (if window.allows(times[0]) {
            1nat
        } else {
            0nat
        }) + allowed_count(window.taken(times[0]), times.drop_first())
    }
}

/// A window never allows more than its limit: of uses that fall into the
/// current window, no more are allowed than the window has slots left.
pub proof fn windows_never_exceed_their_limit(window: RateWindow, times: Seq<u64>)
    requires
        window.start is Some,
        window.used <= window.limit,
        forall|i: int| 0 <= i < times.len() ==> !window.passed(window.start->0, #[trigger] times[i]),
    ensures
        allowed_count(window, times) + window.used <= window.limit,
    decreases times.len(),
{
    if times.len() > 0 {
        let rest = times.drop_first();
        assert(!window.passed(window.start->0, times[0]));
        assert forall|i: int| 0 <= i < rest.len() implies !window.passed(
            window.start->0,
            #[trigger] rest[i],
        ) by {
            assert(rest[i] == times[i + 1]);
        }
        windows_never_exceed_their_limit(window.taken(times[0]), rest);
    }
}

/// A window with a limit of 0 allows nothing, whenever it is used.
pub proof fn empty_windows_allow_nothing(window: RateWindow, times: Seq<u64>)
    requires
        window.limit == 0,
    ensures
        allowed_count(window, times) == 0,
    decreases times.len(),
{
    if times.len() > 0 {
        empty_windows_allow_nothing(window.taken(times[0]), times.drop_first());
    }
}

/// A counter after uses at the given times, in order.
pub open spec fn after_uses(window: RateWindow, times: Seq<u64>) -> RateWindow
    decreases times.len(),
{
    if times.len() == 0 {
        window
    } else {
        after_uses(window, times.drop_last()).taken(times.last())
    }
}

proof fn uses_are_counted(limit: u32, secs: u64, times: Seq<u64>)
    requires
        limit > 0,
        times.len() > 0,
        forall|i: int|
            0 <= i < times.len() ==> times[0] <= #[trigger] times[i] < times[0] + secs * 1000000000,
    ensures
        after_uses(RateWindow { start: None, used: 0, limit, window_secs: secs }, times) == (
        RateWindow {
            start: Some(times[0]),
            used: if times.len() < limit {
                times.len() as u32
            } else {
                limit
            },
            limit,
            window_secs: secs,
        }),
    decreases times.len(),
{
    let fresh = RateWindow { start: None, used: 0, limit, window_secs: secs };
    let earlier = times.drop_last();
    if times.len() == 1 {
        assert(after_uses(fresh, earlier) == fresh);
    } else {
        assert(earlier[0] == times[0]);
        assert forall|i: int| 0 <= i < earlier.len() implies earlier[0] <= #[trigger] earlier[i]
            < earlier[0] + secs * 1000000000 by {
            assert(earlier[i] == times[i]);
        }
        uses_are_counted(limit, secs, earlier);
        assert(times.last() == times[times.len() - 1]);
    }
}

/// A window counts for its whole length and starts anew after it: of the uses
/// that fall within so many seconds of the first, as the window is long, exactly
/// the first ones up to the limit are allowed, and a use after that time is
/// allowed and counts as the first of a fresh window.
pub proof fn windows_allow_exactly_their_limit(
    limit: u32,
    secs: u64,
    times: Seq<u64>,
    later: u64,
)
    requires
        limit > 0,
        times.len() > 0,
        forall|i: int|
            0 <= i < times.len() ==> times[0] <= #[trigger] times[i] < times[0] + secs * 1000000000,
        later >= times[0] + secs * 1000000000,
    ensures
        ({
            let fresh = RateWindow { start: None, used: 0, limit, window_secs: secs };
            &&& forall|i: int|
                0 <= i < times.len() ==> (after_uses(fresh, times.take(i)).allows(
                    #[trigger] times[i],
                ) <==> i < limit)
            &&& after_uses(fresh, times).allows(later)
            &&& after_uses(fresh, times).taken(later) == after_uses(fresh, seq![later])
        }),
{
    let fresh = RateWindow { start: None, used: 0, limit, window_secs: secs };
    uses_are_counted(limit, secs, times);
    assert forall|i: int| 0 <= i < times.len() implies (after_uses(fresh, times.take(i)).allows(
        #[trigger] times[i],
    ) <==> i < limit) by {
        let earlier = times.take(i);
        if i > 0 {
            assert(earlier[0] == times[0]);
            assert forall|j: int| 0 <= j < earlier.len() implies earlier[0]
                <= #[trigger] earlier[j] < earlier[0] + secs * 1000000000 by {
                assert(earlier[j] == times[j]);
            }
            uses_are_counted(limit, secs, earlier);
        }
    }
    assert(seq![later].drop_last() =~= Seq::<u64>::empty());
    assert(after_uses(fresh, seq![later].drop_last()) == fresh);
}

/// Which operation class a limit applies to.
#[derive(Clone, Copy, Debug, PartialEq, Eq, Structural)]
pub enum RateBucket {
    /// Authentication attempts.
    Auth,
    /// Input frames.
    Input,
    /// Reducer calls.
    Reducer,
    /// Subscriptions.
    Subscribe,
    /// Resyncs.
    Resync,
}

/// The per-connection rate-limit state: one fixed window per operation class.
#[derive(Clone, Copy, Debug, PartialEq, Eq, Structural)]
pub struct RateLimiter {
    /// Authentication attempts.
    pub auth: RateWindow,
    /// Input frames.
    pub input: RateWindow,
    /// Reducer calls.
    pub reducer: RateWindow,
    /// Subscriptions.
    pub subscribe: RateWindow,
    /// Resyncs.
    pub resync: RateWindow,
}

impl RateLimiter {
    /// The window of a bucket.
    pub open spec fn window(self, bucket: RateBucket) -> RateWindow {
        match bucket {
            RateBucket::Auth => self.auth,
            RateBucket::Input => self.input,
            RateBucket::Reducer => self.reducer,
            RateBucket::Subscribe => self.subscribe,
            RateBucket::Resync => self.resync,
        }
    }

    /// The state after a use of a bucket: the other buckets are untouched.
    pub open spec fn taken(self, bucket: RateBucket, now: u64) -> RateLimiter {
        let window = self.window(bucket).taken(now);
        match bucket {
            RateBucket::Auth => RateLimiter { auth: window, ..self },
            RateBucket::Input => RateLimiter { input: window, ..self },
            RateBucket::Reducer => RateLimiter { reducer: window, ..self },
            RateBucket::Subscribe => RateLimiter { subscribe: window, ..self },
            RateBucket::Resync => RateLimiter { resync: window, ..self },
        }
    }

    /// The state of a fresh connection.
    pub open spec fn fresh(config: RateLimitConfig) -> RateLimiter {
        RateLimiter {
            auth: RateWindow {
                start: None,
                used: 0,
                limit: config.auth_per_window,
                window_secs: config.auth_window_secs,
            },
            input: RateWindow { start: None, used: 0, limit: config.input_per_sec, window_secs: 1 },
            reducer: RateWindow {
                start: None,
                used: 0,
                limit: config.reducer_per_sec,
                window_secs: 1,
            },
            subscribe: RateWindow {
                start: None,
                used: 0,
                limit: config.subscribe_per_window,
                window_secs: config.subscribe_window_secs,
            },
            resync: RateWindow {
                start: None,
                used: 0,
                limit: config.resync_per_window,
                window_secs: config.resync_window_secs,
            },
        }
    }

    /// The state of a fresh connection.
    pub fn new(config: &RateLimitConfig) -> (limiter: RateLimiter)
        ensures
            limiter == RateLimiter::fresh(*config),
    {
        RateLimiter {
            auth: RateWindow::new(config.auth_per_window, config.auth_window_secs),
            input: RateWindow::new(config.input_per_sec, 1),
            reducer: RateWindow::new(config.reducer_per_sec, 1),
            subscribe: RateWindow::new(config.subscribe_per_window, config.subscribe_window_secs),
            resync: RateWindow::new(config.resync_per_window, config.resync_window_secs),
        }
    }

    /// Tries to take one slot of a bucket. Yields whether the operation is
    /// allowed.
    pub fn try_take(&mut self, bucket: RateBucket, now: u64) -> (allowed: bool)
        ensures
            allowed == old(self).window(bucket).allows(now),
            *final(self) == old(self).taken(bucket, now),
    {
        match bucket {
            RateBucket::Auth => self.auth.try_take(now),
            RateBucket::Input => self.input.try_take(now),
            RateBucket::Reducer => self.reducer.try_take(now),
            RateBucket::Subscribe => self.subscribe.try_take(now),
            RateBucket::Resync => self.resync.try_take(now),
        }
    }
}

/// Each class of operations has its own limit and its own window: a fresh
/// connection's are the configured ones, unused, and a use of one class counts
/// towards no other.
pub proof fn classes_are_limited_apart(
    config: RateLimitConfig,
    limiter: RateLimiter,
    bucket: RateBucket,
    other: RateBucket,
    now: u64,
)
    ensures
        ({
            let fresh = RateLimiter::fresh(config);
            &&& fresh.window(RateBucket::Auth).limit == config.auth_per_window
            &&& fresh.window(RateBucket::Auth).window_secs == config.auth_window_secs
            &&& fresh.window(RateBucket::Input).limit == config.input_per_sec
            &&& fresh.window(RateBucket::Input).window_secs == 1
            &&& fresh.window(RateBucket::Reducer).limit == config.reducer_per_sec
            &&& fresh.window(RateBucket::Reducer).window_secs == 1
            &&& fresh.window(RateBucket::Subscribe).limit == config.subscribe_per_window
            &&& fresh.window(RateBucket::Subscribe).window_secs == config.subscribe_window_secs
            &&& fresh.window(RateBucket::Resync).limit == config.resync_per_window
            &&& fresh.window(RateBucket::Resync).window_secs == config.resync_window_secs
            &&& fresh.window(bucket).start is None && fresh.window(bucket).used == 0
        }),
        limiter.taken(bucket, now).window(bucket) == limiter.window(bucket).taken(now),
        other != bucket ==> limiter.taken(bucket, now).window(other) == limiter.window(other),
        limiter.auth == limiter.window(RateBucket::Auth),
        limiter.input == limiter.window(RateBucket::Input),
        limiter.reducer == limiter.window(RateBucket::Reducer),
        limiter.subscribe == limiter.window(RateBucket::Subscribe),
        limiter.resync == limiter.window(RateBucket::Resync),
{
}

/// The rate-limit configuration.
#[derive(Clone, Copy, Debug, PartialEq, Eq, Structural)]
pub struct RateLimitConfig {
    /// Maximum authentication attempts per connection per window.
    pub auth_per_window: u32,
    /// The authentication window length in seconds.
    pub auth_window_secs: u64,
    /// Maximum input frames per connection per second.
    pub input_per_sec: u32,
    /// Maximum reducer calls per connection per second.
    pub reducer_per_sec: u32,
    /// Maximum subscriptions created per session per window.
    pub subscribe_per_window: u32,
    /// The subscription window length in seconds.
    pub subscribe_window_secs: u64,
    /// Maximum resyncs per connection per window.
    pub resync_per_window: u32,
    /// The resync window length in seconds.
    pub resync_window_secs: u64,
}

impl RateLimitConfig {
    /// The default limits.
    pub open spec fn standard() -> RateLimitConfig {
        RateLimitConfig {
            auth_per_window: 10,
            auth_window_secs: 60,
            input_per_sec: 120,
            reducer_per_sec: 60,
            subscribe_per_window: 16,
            subscribe_window_secs: 60,
            resync_per_window: 8,
            resync_window_secs: 60,
        }
    }

    /// What is wrong with the limits, if anything.
    pub open spec fn violation(self) -> Option<Seq<char>> {
        if self.auth_per_window == 0 {
            Some("auth_per_window must be at least 1"@)
        } else if self.auth_window_secs == 0 {
            Some("auth_window_secs must be at least 1"@)
        } else if self.input_per_sec == 0 {
            Some("input_per_sec must be at least 1"@)
        } else if self.reducer_per_sec == 0 {
            Some("reducer_per_sec must be at least 1"@)
        } else if self.subscribe_per_window == 0 {
            Some("subscribe_per_window must be at least 1"@)
        } else if self.subscribe_window_secs == 0 {
            Some("subscribe_window_secs must be at least 1"@)
        } else if self.resync_per_window == 0 {
            Some("resync_per_window must be at least 1"@)
        } else if self.resync_window_secs == 0 {
            Some("resync_window_secs must be at least 1"@)
        } else {
            None
        }
    }

    /// Creates a default configuration.
    pub fn new() -> (config: RateLimitConfig)
        ensures
            config == RateLimitConfig::standard(),
    {
        RateLimitConfig {
            auth_per_window: 10,
            auth_window_secs: 60,
            input_per_sec: 120,
            reducer_per_sec: 60,
            subscribe_per_window: 16,
            subscribe_window_secs: 60,
            resync_per_window: 8,
            resync_window_secs: 60,
        }
    }

    /// Sets the authentication attempt limit per window.
    pub fn with_auth_per_window(self, limit: u32, window_secs: u64) -> (config: Self)
        ensures
            config == (RateLimitConfig { auth_per_window: limit, auth_window_secs: window_secs, ..self }),
    {
        let mut config = self;
        config.auth_per_window = limit;
        config.auth_window_secs = window_secs;
        config
    }

    /// Sets the input frame limit per second.
    pub fn with_input_per_sec(self, limit: u32) -> (config: Self)
        ensures
            config == (RateLimitConfig { input_per_sec: limit, ..self }),
    {
        let mut config = self;
        config.input_per_sec = limit;
        config
    }

    /// Sets the reducer call limit per second.
    pub fn with_reducer_per_sec(self, limit: u32) -> (config: Self)
        ensures
            config == (RateLimitConfig { reducer_per_sec: limit, ..self }),
    {
        let mut config = self;
        config.reducer_per_sec = limit;
        config
    }

    /// Sets the subscription limit per window.
    pub fn with_subscribe_per_window(self, limit: u32, window_secs: u64) -> (config: Self)
        ensures
            config == (RateLimitConfig { subscribe_per_window: limit, subscribe_window_secs: window_secs, ..self }),
    {
        let mut config = self;
        config.subscribe_per_window = limit;
        config.subscribe_window_secs = window_secs;
        config
    }

    /// Sets the resync limit per window.
    pub fn with_resync_per_window(self, limit: u32, window_secs: u64) -> (config: Self)
        ensures
            config == (RateLimitConfig { resync_per_window: limit, resync_window_secs: window_secs, ..self }),
    {
        let mut config = self;
        config.resync_per_window = limit;
        config.resync_window_secs = window_secs;
        config
    }

    /// Validates the configuration: every bound and window is at least 1.
    pub fn validate(&self) -> (verdict: Result<(), String>)
        ensures
            match verdict {
                Ok(_) => self.violation() is None,
                Err(message) => self.violation() == Some(message@),
            },
    {
        if self.auth_per_window == 0 {
            return Err("auth_per_window must be at least 1".to_owned());
        }
        if self.auth_window_secs == 0 {
            return Err("auth_window_secs must be at least 1".to_owned());
        }
        if self.input_per_sec == 0 {
            return Err("input_per_sec must be at least 1".to_owned());
        }
        if self.reducer_per_sec == 0 {
            return Err("reducer_per_sec must be at least 1".to_owned());
        }
        if self.subscribe_per_window == 0 {
            return Err("subscribe_per_window must be at least 1".to_owned());
        }
        if self.subscribe_window_secs == 0 {
            return Err("subscribe_window_secs must be at least 1".to_owned());
        }
        if self.resync_per_window == 0 {
            return Err("resync_per_window must be at least 1".to_owned());
        }
        if self.resync_window_secs == 0 {
            return Err("resync_window_secs must be at least 1".to_owned());
        }
        Ok(())
    }
}

impl Default for RateLimitConfig {
    fn default() -> (config: Self)
        ensures
            config == RateLimitConfig::standard(),
    {
        RateLimitConfig::new()
    }
}

/// The limits are accepted if, and only if, every bound and every window is at
/// least 1; the defaults are.
pub proof fn limits_must_be_positive(config: RateLimitConfig)
    ensures
        config.violation() is None <==> config.auth_per_window > 0 && config.auth_window_secs > 0
            && config.input_per_sec > 0 && config.reducer_per_sec > 0
            && config.subscribe_per_window > 0 && config.subscribe_window_secs > 0
            && config.resync_per_window > 0 && config.resync_window_secs > 0,
        RateLimitConfig::standard().violation() is None,
{
}

/// What a connection may do unless it is told otherwise: in a second 120 input
/// frames and 60 calls, and in a minute 10 attempts to authenticate, 16
/// subscriptions and 8 resyncs.
pub proof fn standard_limits(limiter: RateLimiter)
    requires
        limiter == RateLimiter::fresh(RateLimitConfig::standard()),
    ensures
        limiter.input.limit == 120 && limiter.input.window_secs == 1,
        limiter.reducer.limit == 60 && limiter.reducer.window_secs == 1,
        limiter.auth.limit == 10 && limiter.auth.window_secs == 60,
        limiter.subscribe.limit == 16 && limiter.subscribe.window_secs == 60,
        limiter.resync.limit == 8 && limiter.resync.window_secs == 60,
        limiter.input.start is None && limiter.reducer.start is None && limiter.auth.start is None,
        limiter.subscribe.start is None && limiter.resync.start is None,
{
}

} // verus!

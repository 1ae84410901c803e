//! The limiter in front of the listing service: so many requests at once and
//! no more, each held back a fixed time before it goes out. The limiter keeps
//! the count; waiting and sleeping are the caller's part.

use vstd::prelude::*;

verus! {

/// How many requests may be under way at once, unless told otherwise.
pub const MAX_CONCURRENT_REQUESTS: usize = 30;

/// How many seconds a request is held back, unless told otherwise.
pub const SECONDS_TO_WAIT: u64 = 2;

/// What a request is told at the limiter.
#[derive(Debug, Clone, Copy, PartialEq, Eq)]
pub enum Admission {
    /// It holds a permit: it sleeps `delay_secs` seconds and goes out.
    Start { delay_secs: u64 },
    /// No permit is free: it waits until one is handed to it.
    Wait,
}

/// The limiter.
pub struct RateLimiter {
    capacity: usize,
    delay_secs: u64,
    in_flight: usize,
    waiting: usize,
}

/// The limiter as numbers: how many permits there are, how long a request is
/// held back, how many requests hold a permit, how many wait for one.
pub struct LimiterView {
    pub capacity: nat,
    pub delay_secs: nat,
    pub in_flight: nat,
    pub waiting: nat,
}

/// No more requests hold a permit than there are permits, and none waits
/// while a permit is free.
pub open spec fn sound(limiter: LimiterView) -> bool {
    &&& limiter.in_flight <= limiter.capacity
    &&& limiter.waiting > 0 ==> limiter.in_flight == limiter.capacity
}

/// The limiter after one more request has come to it.
pub open spec fn after_request(limiter: LimiterView) -> LimiterView {
    if limiter.in_flight < limiter.capacity {
        LimiterView { in_flight: limiter.in_flight + 1, ..limiter }
    } else {
        LimiterView { waiting: limiter.waiting + 1, ..limiter }
    }
}

/// The limiter after a request that held a permit has finished: the permit
/// goes to a waiting request if there is one, else it is free again. Where
/// no request held a permit nothing changes.
pub open spec fn after_release(limiter: LimiterView) -> LimiterView {
    if limiter.in_flight == 0 {
        limiter
    } else if limiter.waiting > 0 {
        LimiterView { waiting: (limiter.waiting - 1) as nat, ..limiter }
    } else {
        LimiterView { in_flight: (limiter.in_flight - 1) as nat, ..limiter }
    }
}

/// A request that comes to a sound limiter leaves it sound.
pub proof fn lemma_request_keeps_sound(limiter: LimiterView)
    requires
        sound(limiter),
    ensures
        sound(after_request(limiter)),
        after_request(limiter).in_flight <= limiter.capacity,
{
}

/// A request that finishes leaves a sound limiter sound, and a waiting request
/// starts only then: the number under way never grows by a release.
pub proof fn lemma_release_keeps_sound(limiter: LimiterView)
    requires
        sound(limiter),
    ensures
        sound(after_release(limiter)),
        after_release(limiter).in_flight <= limiter.in_flight,
{
}

impl View for RateLimiter {
    type V = LimiterView;

    closed spec fn view(&self) -> LimiterView {
        LimiterView {
            capacity: self.capacity as nat,
            delay_secs: self.delay_secs as nat,
            in_flight: self.in_flight as nat,
            waiting: self.waiting as nat,
        }
    }
}

impl RateLimiter {
    #[verifier::type_invariant]
    spec fn is_sound(&self) -> bool {
        sound(self@)
    }

    /// A limiter with `capacity` permits that holds each request back
    /// `delay_secs` seconds; nothing is under way.
    pub fn new(capacity: usize, delay_secs: u64) -> (limiter: RateLimiter)
        ensures
            limiter@ == (LimiterView {
                capacity: capacity as nat,
                delay_secs: delay_secs as nat,
                in_flight: 0,
                waiting: 0,
            }),
            sound(limiter@),
    {
        RateLimiter { capacity, delay_secs, in_flight: 0, waiting: 0 }
    }

    /// How many permits there are.
    pub fn capacity(&self) -> (n: usize)
        ensures
            n == self@.capacity,
    {
        self.capacity
    }

    /// How many seconds a request is held back.
    pub fn delay_secs(&self) -> (n: u64)
        ensures
            n == self@.delay_secs,
    {
        self.delay_secs
    }

    /// How many requests hold a permit.
    pub fn in_flight(&self) -> (n: usize)
        ensures
            n == self@.in_flight,
            n <= self@.capacity,
    {
        proof {
            use_type_invariant(self);
        }
        self.in_flight
    }

    /// How many requests wait for a permit.
    pub fn waiting(&self) -> (n: usize)
        ensures
            n == self@.waiting,
            n > 0 ==> self@.in_flight == self@.capacity,
    {
        proof {
            use_type_invariant(self);
        }
        self.waiting
    }

    /// How many permits are free.
    pub fn available_permits(&self) -> (n: usize)
        ensures
            n == self@.capacity - self@.in_flight,
    {
        proof {
            use_type_invariant(self);
        }
        self.capacity - self.in_flight
    }

    /// A request comes to the limiter. It starts if a permit is free, and
    /// waits if none is.
    pub fn request(&mut self) -> (told: Admission)
        requires
            old(self)@.waiting < usize::MAX,
        ensures
            final(self)@ == after_request(old(self)@),
            sound(final(self)@),
            told == if old(self)@.in_flight < old(self)@.capacity {
                Admission::Start { delay_secs: old(self)@.delay_secs as u64 }
            } else {
                Admission::Wait
            },
    {
        proof {
            use_type_invariant(&*self);
        }
        if self.in_flight < self.capacity {
            self.in_flight = self.in_flight + 1;
            Admission::Start { delay_secs: self.delay_secs }
        } else {
            self.waiting = self.waiting + 1;
            Admission::Wait
        }
    }

    /// A request that held a permit has finished. Where a request waits,
    /// the permit is handed to it, and it is told to start.
    pub fn release(&mut self) -> (next: Option<Admission>)
        ensures
            final(self)@ == after_release(old(self)@),
            sound(final(self)@),
            next == if old(self)@.in_flight > 0 && old(self)@.waiting > 0 {
                Some(Admission::Start { delay_secs: old(self)@.delay_secs as u64 })
            } else {
                None
            },
    {
        proof {
            use_type_invariant(&*self);
        }
        if self.in_flight == 0 {
            None
        } else if self.waiting > 0 {
            self.waiting = self.waiting - 1;
            Some(Admission::Start { delay_secs: self.delay_secs })
        } else {
            self.in_flight = self.in_flight - 1;
            None
        }
    }
}

impl Default for RateLimiter {
    /// The limiter as it stands in front of the listing service.
    fn default() -> (limiter: RateLimiter)
        ensures
            limiter@ == (LimiterView {
                capacity: MAX_CONCURRENT_REQUESTS as nat,
                delay_secs: SECONDS_TO_WAIT as nat,
                in_flight: 0,
                waiting: 0,
            }),
    {
        RateLimiter::new(MAX_CONCURRENT_REQUESTS, SECONDS_TO_WAIT)
    }
}

} // verus!

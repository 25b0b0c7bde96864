//! The usage record kept for one identity on one endpoint, and the
//! fixed-window decision that is taken on it at every hit.

use vstd::prelude::*;
use crate::endpoint::Endpoint;
use crate::endpoint::EndpointView;

verus! {

/// Counter and cooldown state of one identity on one endpoint.
#[derive(Hash, Eq, PartialEq, Debug)]
pub struct Usage {
    /// Hits admitted in the current window.
    pub num_times_used: u32,
    /// Seconds since the epoch before which every hit is refused.
    pub next_use_allowed: u64,
    /// Whether the last hit was admitted.
    pub allowed: bool,
    pub endpoint: Endpoint,
}

/// The mathematical content of a [`Usage`].
pub struct UsageView {
    pub num_times_used: nat,
    pub next_use_allowed: nat,
    pub allowed: bool,
    pub endpoint: EndpointView,
}

impl UsageView {
    /// The record of an endpoint that was never hit.
    pub open spec fn fresh(endpoint: EndpointView) -> UsageView {
        UsageView { num_times_used: 0, next_use_allowed: 0, allowed: true, endpoint }
    }

    /// The counter never exceeds the endpoint's quota.
    pub open spec fn within_quota(self) -> bool {
        self.num_times_used <= self.endpoint.req_before_cooldown
    }

    /// A cooldown is running at time `now`.
    pub open spec fn cooling(self, now: nat) -> bool {
        self.next_use_allowed > now
    }

    /// The quota of the current window is used up.
    pub open spec fn exhausted(self) -> bool {
        self.num_times_used >= self.endpoint.req_before_cooldown
    }

    /// Whether a hit at time `now` is admitted.
    pub open spec fn admits(self, now: nat) -> bool {
        !self.cooling(now) && !self.exhausted()
    }

    /// Whether a cooldown that starts at time `now` ends at a time that
    /// `u64` can hold.
    pub open spec fn cooldown_fits(self, now: nat) -> bool {
        now + self.endpoint.cooldown_secs() <= u64::MAX
    }

    /// The record after a hit at time `now`: a hit during a cooldown only
    /// clears the flag; a hit on an exhausted quota starts a cooldown and a
    /// new window, unless the cooldown would end later than `u64` can hold,
    /// and then the record stays as it is; any other hit is counted.
    pub open spec fn after_hit(self, now: nat) -> UsageView {
        if self.cooling(now) {
            UsageView { allowed: false, ..self }
        } else if self.exhausted() {
            if self.cooldown_fits(now) {
                UsageView {
                    num_times_used: 0,
                    next_use_allowed: now + self.endpoint.cooldown_secs(),
                    allowed: false,
                    ..self
                }
            } else {
                self
            }
        } else {
            UsageView { num_times_used: self.num_times_used + 1, allowed: true, ..self }
        }
    }

    /// The record after one hit at each of `times`, in their order.
    pub open spec fn after_hits(self, times: Seq<nat>) -> UsageView
        decreases times.len(),
    {
        if times.len() == 0 {
            self
        } else {
            self.after_hits(times.drop_last()).after_hit(times.last())
        }
    }

    /// Whether the hit at `times[k]` is admitted, after the hits before it.
    pub open spec fn admits_nth(self, times: Seq<nat>, k: int) -> bool {
        self.after_hits(times.take(k)).admits(times[k])
    }

    /// Seconds left at time `now` until the cooldown is over.
    pub open spec fn wait(self, now: nat) -> nat {
        if self.cooling(now) {
            (self.next_use_allowed - now) as nat
        } else {
            0
        }
    }

    /// Hits left in the current window, none after a refused hit.
    pub open spec fn hits_left(self) -> nat {
        if self.allowed {
            (self.endpoint.req_before_cooldown - self.num_times_used) as nat
        } else {
            0
        }
    }
}

/// A hit keeps the counter within the quota, keeps the endpoint, and never
/// moves the end of the cooldown back.
pub proof fn lemma_hit_keeps_invariants(record: UsageView, now: nat)
    ensures
        record.within_quota() ==> record.after_hit(now).within_quota(),
        record.after_hit(now).endpoint == record.endpoint,
        record.after_hit(now).next_use_allowed >= record.next_use_allowed,
        record.cooling(now) || !record.exhausted() || record.cooldown_fits(now)
            ==> record.after_hit(now).allowed == record.admits(now),
{
}

/// Any number of hits keeps the counter within the quota, keeps the endpoint,
/// and never moves the end of the cooldown back.
pub proof fn lemma_hits_keep_invariants(record: UsageView, times: Seq<nat>)
    ensures
        record.within_quota() ==> record.after_hits(times).within_quota(),
        record.after_hits(times).endpoint == record.endpoint,
        record.after_hits(times).next_use_allowed >= record.next_use_allowed,
    decreases times.len(),
{
    if times.len() > 0 {
        lemma_hits_keep_invariants(record, times.drop_last());
        lemma_hit_keeps_invariants(record.after_hits(times.drop_last()), times.last());
    }
}

/// While no cooldown is running and the quota lasts, every hit is admitted
/// and counted.
pub proof fn lemma_hits_within_quota(record: UsageView, times: Seq<nat>)
    requires
        forall|k: int| 0 <= k < times.len() ==> record.next_use_allowed <= times[k],
        record.num_times_used + times.len() <= record.endpoint.req_before_cooldown,
    ensures
        forall|k: int| 0 <= k < times.len() ==> #[trigger] record.admits_nth(times, k),
        record.after_hits(times) == (UsageView {
            num_times_used: record.num_times_used + times.len(),
            allowed: times.len() > 0 || record.allowed,
            ..record
        }),
    decreases times.len(),
{
    if times.len() > 0 {
        let earlier = times.drop_last();
        lemma_hits_within_quota(record, earlier);
        assert forall|k: int| 0 <= k < times.len() implies #[trigger] record.admits_nth(
            times,
            k,
        ) by {
            if k < earlier.len() {
                assert(times.take(k) =~= earlier.take(k));
                assert(record.admits_nth(earlier, k));
            } else {
                assert(times.take(k) =~= earlier);
            }
        }
    }
}

/// While a cooldown is running, every hit is refused, and none of them
/// changes the counter or the end of the cooldown.
pub proof fn lemma_hits_during_cooldown(record: UsageView, times: Seq<nat>)
    requires
        forall|k: int| 0 <= k < times.len() ==> times[k] < record.next_use_allowed,
    ensures
        forall|k: int| 0 <= k < times.len() ==> !#[trigger] record.admits_nth(times, k),
        record.after_hits(times) == (UsageView {
            allowed: times.len() == 0 && record.allowed,
            ..record
        }),
    decreases times.len(),
{
    if times.len() > 0 {
        let earlier = times.drop_last();
        lemma_hits_during_cooldown(record, earlier);
        assert forall|k: int| 0 <= k < times.len() implies !#[trigger] record.admits_nth(
            times,
            k,
        ) by {
            if k < earlier.len() {
                assert(times.take(k) =~= earlier.take(k));
                assert(!record.admits_nth(earlier, k));
            } else {
                assert(times.take(k) =~= earlier);
            }
        }
    }
}

/// Hits one after another add up: the record after `first + second` is the
/// record after `second`, taken from the record after `first`.
pub proof fn lemma_hits_add_up(record: UsageView, first: Seq<nat>, second: Seq<nat>)
    ensures
        record.after_hits(first + second) == record.after_hits(first).after_hits(second),
    decreases second.len(),
{
    if second.len() == 0 {
        assert(first + second =~= first);
    } else {
        lemma_hits_add_up(record, first, second.drop_last());
        assert((first + second).drop_last() =~= first + second.drop_last());
    }
}

impl View for Usage {
    type V = UsageView;

    open spec fn view(&self) -> UsageView {
        UsageView {
            num_times_used: self.num_times_used as nat,
            next_use_allowed: self.next_use_allowed as nat,
            allowed: self.allowed,
            endpoint: self.endpoint@,
        }
    }
}

impl Usage {
    pub fn new(name: String, req_before_cooldown: u16, cooldown_time: u16) -> (usage: Self)
        ensures
            usage@ == UsageView::fresh(
                EndpointView {
                    name: name@,
                    req_before_cooldown: req_before_cooldown as nat,
                    cooldown_time: cooldown_time as nat,
                },
            ),
    {
        Self {
            num_times_used: 0,
            next_use_allowed: 0,
            allowed: true,
            endpoint: Endpoint::new(name, req_before_cooldown, cooldown_time),
        }
    }

    /// Takes the decision for a hit at time `now` and records it. A hit that
    /// would start a cooldown ending later than `u64` can hold is refused and
    /// leaves the record as it is.
    pub fn hit(&mut self, now: u64) -> (allowed: bool)
        ensures
            allowed == old(self)@.admits(now as nat),
            final(self)@ == old(self)@.after_hit(now as nat),
    {
        if self.next_use_allowed > now {
            self.allowed = false;
            false
        } else if self.num_times_used >= self.endpoint.req_before_cooldown as u32 {
            match now.checked_add(self.endpoint.cooldown_secs()) {
                Some(cooldown_end) => {
                    self.next_use_allowed = cooldown_end;
                    self.allowed = false;
                    self.num_times_used = 0;
                },
                None => {},
            }
            false
        } else {
            self.allowed = true;
            self.num_times_used += 1;
            true
        }
    }

    /// Seconds left at time `now` until the cooldown is over.
    pub fn time_until_allowed(&self, now: u64) -> (secs: u64)
        ensures
            secs == self@.wait(now as nat),
    {
        if self.next_use_allowed > now {
            self.next_use_allowed - now
        } else {
            0
        }
    }

    /// Hits left in the current window, none after a refused hit.
    pub fn hits_left(&self) -> (hits: u32)
        requires
            self@.within_quota(),
        ensures
            hits == self@.hits_left(),
    {
        if self.allowed {
            self.endpoint.req_before_cooldown as u32 - self.num_times_used
        } else {
            0
        }
    }
}

} // verus!

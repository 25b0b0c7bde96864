//! Rate-limited endpoints and their limits.

use vstd::prelude::*;

verus! {

/// A named endpoint together with its limits: how many hits it takes before
/// a cooldown starts, and how many minutes that cooldown lasts.
#[derive(Hash, Eq, PartialEq, Debug)]
pub struct Endpoint {
    pub name: String,
    pub req_before_cooldown: u16,
    pub cooldown_time: u16,
}

/// The mathematical content of an [`Endpoint`].
pub struct EndpointView {
    pub name: Seq<char>,
    pub req_before_cooldown: nat,
    pub cooldown_time: nat,
}

impl EndpointView {
    /// The length of the cooldown in seconds.
    pub open spec fn cooldown_secs(self) -> nat {
        self.cooldown_time * 60
    }
}

impl View for Endpoint {
    type V = EndpointView;

    open spec fn view(&self) -> EndpointView {
        EndpointView {
            name: self.name@,
            req_before_cooldown: self.req_before_cooldown as nat,
            cooldown_time: self.cooldown_time as nat,
        }
    }
}

impl Endpoint {
    pub fn new(name: String, req_before_cooldown: u16, cooldown_time: u16) -> (endpoint: Self)
        ensures
            endpoint@ == (EndpointView {
                name: name@,
                req_before_cooldown: req_before_cooldown as nat,
                cooldown_time: cooldown_time as nat,
            }),
    {
        Self { name, req_before_cooldown, cooldown_time }
    }

    /// The length of the cooldown in seconds.
    pub fn cooldown_secs(&self) -> (secs: u64)
        ensures
            secs == self@.cooldown_secs(),
    {
        let minutes: u64 = self.cooldown_time as u64;
        minutes * 60
    }
}

} // verus!

//! The registry as a mathematical value: which identities were issued, for
//! which role, and what is recorded of their hits on every endpoint.

use vstd::prelude::*;
use crate::catalog;
use crate::endpoint::EndpointView;
use crate::role::Role;
use crate::usage::UsageView;

verus! {

/// The limits that an identity of `role` is given on the endpoint `entry`:
/// an administrator gets the largest quota and no cooldown, anyone else the
/// limits of the table.
pub open spec fn limits_for(role: Role, entry: EndpointView) -> EndpointView {
    match role {
        Role::Admin => EndpointView {
            name: entry.name,
            req_before_cooldown: u16::MAX as nat,
            cooldown_time: 0,
        },
        _ => entry,
    }
}

/// What the registry holds for one identity.
#[verifier::ext_equal]
pub struct AccountView {
    pub role: Role,
    /// The usage record of every endpoint, by the endpoint's name.
    pub usage: Map<Seq<char>, UsageView>,
}

/// The mathematical content of an [`Ids`]: the issued identities, each with
/// its role and its usage records.
#[verifier::ext_equal]
pub struct IdsView {
    pub accounts: Map<u128, AccountView>,
}

impl AccountView {
    /// The account of an identity of `role` that has not hit anything yet.
    pub open spec fn start(role: Role) -> AccountView {
        AccountView {
            role,
            usage: Map::new(
                |name: Seq<char>| catalog::has(name),
                |name: Seq<char>|
                    UsageView::fresh(limits_for(role, catalog::entries()[catalog::index_of(name)])),
            ),
        }
    }

    /// The account holds one record for every endpoint of the table, with the
    /// limits of its role, and no counter is over its quota.
    pub open spec fn valid(self) -> bool {
        &&& self.role.may_hold_identity()
        &&& forall|name: Seq<char>| #[trigger] self.usage.contains_key(name) <==> catalog::has(name)
        &&& forall|name: Seq<char>| #[trigger]
            catalog::has(name) ==> {
                &&& self.usage[name].endpoint == limits_for(
                    self.role,
                    catalog::entries()[catalog::index_of(name)],
                )
                &&& self.usage[name].within_quota()
            }
    }
}

impl IdsView {
    /// The registry without any identity.
    pub open spec fn empty() -> IdsView {
        IdsView { accounts: Map::empty() }
    }

    /// Whether `id` was issued.
    pub open spec fn contains(self, id: u128) -> bool {
        self.accounts.contains_key(id)
    }

    /// The role of `id`; an identity that was never issued has none.
    pub open spec fn role_of(self, id: u128) -> Role {
        if self.contains(id) {
            self.accounts[id].role
        } else {
            Role::Unauthenticated
        }
    }

    /// The usage record of `id` on the endpoint called `name`, if both exist.
    pub open spec fn record(self, id: u128, name: Seq<char>) -> Option<UsageView> {
        if self.contains(id) && self.accounts[id].usage.contains_key(name) {
            Some(self.accounts[id].usage[name])
        } else {
            None
        }
    }

    /// The registry after `id` was issued for `role`.
    pub open spec fn with_identity(self, id: u128, role: Role) -> IdsView {
        IdsView { accounts: self.accounts.insert(id, AccountView::start(role)) }
    }

    /// Whether a hit of `id` on `name` at time `now` is admitted.
    pub open spec fn admits(self, id: u128, name: Seq<char>, now: nat) -> bool {
        match self.record(id, name) {
            Some(record) => record.admits(now),
            None => false,
        }
    }

    /// The registry after a hit of `id` on `name` at time `now`: the record
    /// of that pair takes the hit, and nothing else changes.
    pub open spec fn after_hit(self, id: u128, name: Seq<char>, now: nat) -> IdsView {
        match self.record(id, name) {
            Some(record) => IdsView {
                accounts: self.accounts.insert(
                    id,
                    AccountView {
                        role: self.accounts[id].role,
                        usage: self.accounts[id].usage.insert(name, record.after_hit(now)),
                    },
                ),
            },
            None => self,
        }
    }

    /// The registry after one hit of `id` on `name` at each of `times`, in
    /// their order.
    pub open spec fn after_hits(self, id: u128, name: Seq<char>, times: Seq<nat>) -> IdsView
        decreases times.len(),
    {
        if times.len() == 0 {
            self
        } else {
            self.after_hits(id, name, times.drop_last()).after_hit(id, name, times.last())
        }
    }

    /// Whether the hit of `id` on `name` at `times[k]` is admitted, after the
    /// hits before it.
    pub open spec fn admits_nth(self, id: u128, name: Seq<char>, times: Seq<nat>, k: int) -> bool {
        self.after_hits(id, name, times.take(k)).admits(id, name, times[k])
    }

    /// A window of `id` on `name` starts with the hits at `times`: nothing
    /// is used of the quota, and no cooldown is running at any of them.
    pub open spec fn window_starts(self, id: u128, name: Seq<char>, times: Seq<nat>) -> bool {
        match self.record(id, name) {
            Some(record) => {
                &&& record.num_times_used == 0
                &&& forall|k: int| 0 <= k < times.len() ==> record.next_use_allowed <= times[k]
            },
            None => false,
        }
    }

    /// The registry after the identities `ids` were issued for `roles`, one
    /// after the other.
    pub open spec fn with_identities(self, ids: Seq<u128>, roles: Seq<Role>) -> IdsView
        decreases ids.len(),
    {
        if ids.len() == 0 {
            self
        } else {
            self.with_identities(ids.drop_last(), roles.drop_last()).with_identity(
                ids.last(),
                roles.last(),
            )
        }
    }

    /// Seconds that `id` has to wait at time `now` before `name` admits it.
    pub open spec fn wait(self, id: u128, name: Seq<char>, now: nat) -> Option<nat> {
        match self.record(id, name) {
            Some(record) => Some(record.wait(now)),
            None => None,
        }
    }

    /// Hits that `id` has left on `name` in the current window.
    pub open spec fn hits_left(self, id: u128, name: Seq<char>) -> Option<nat> {
        match self.record(id, name) {
            Some(record) => Some(record.hits_left()),
            None => None,
        }
    }

    /// Every account is valid.
    pub open spec fn valid(self) -> bool {
        forall|id: u128| #[trigger] self.accounts.contains_key(id) ==> self.accounts[id].valid()
    }
}

/// The records that an identity of `role` starts with, row by row.
pub open spec fn start_records(role: Role) -> Seq<UsageView> {
    if role.may_hold_identity() {
        Seq::new(
            catalog::entries().len(),
            |i: int| UsageView::fresh(limits_for(role, catalog::entries()[i])),
        )
    } else {
        Seq::empty()
    }
}

} // verus!

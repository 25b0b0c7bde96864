//! The registry of identities and of their usage records.

use vstd::prelude::*;
use std::collections::hash_map::Entry;
use std::collections::HashMap;
use crate::catalog;
use crate::clock::get_unix_epoch;
use crate::model::limits_for;
use crate::model::start_records;
use crate::model::AccountView;
use crate::model::IdsView;
use crate::random::draw_id;
use crate::role::Role;
use crate::usage::Usage;
use crate::usage::UsageView;

verus! {

/// The most identities that are drawn at random for one new identity.
pub const MAX_DRAWS: u32 = 64;

/// The registry: every issued identity with its role, and the usage records
/// of every identity, one for each endpoint of the table and in its order.
pub struct Ids {
    id_list: HashMap<u128, Role>,
    usage_list: HashMap<u128, Vec<Usage>>,
}

/// The records of one identity as a map from the endpoint's name.
spec fn by_name(records: Seq<Usage>) -> Map<Seq<char>, UsageView> {
    Map::new(
        |name: Seq<char>| catalog::has(name),
        |name: Seq<char>| records[catalog::index_of(name)]@,
    )
}

/// The records are those of the table, row by row, with the limits of `role`.
spec fn follows(role: Role, records: Seq<Usage>) -> bool {
    &&& records.len() == catalog::entries().len()
    &&& forall|i: int|
        0 <= i < records.len() ==> {
            &&& (#[trigger] records[i])@.endpoint == limits_for(role, catalog::entries()[i])
            &&& records[i]@.within_quota()
        }
}

impl View for Ids {
    type V = IdsView;

    closed spec fn view(&self) -> IdsView {
        IdsView {
            accounts: Map::new(
                |id: u128| self.id_list@.contains_key(id),
                |id: u128|
                    AccountView {
                        role: self.id_list@[id],
                        usage: by_name(self.usage_list@[id]@),
                    },
            ),
        }
    }
}

/// Replacing the record at row `i` by one of the same endpoint replaces the
/// record under that endpoint's name, and no other.
proof fn lemma_by_name_update(before: Seq<Usage>, after: Seq<Usage>, i: int)
    requires
        before.len() == catalog::entries().len(),
        0 <= i < before.len(),
        before[i]@.endpoint.name == catalog::entries()[i].name,
        after.len() == before.len(),
        forall|j: int| 0 <= j < before.len() && j != i ==> after[j] == before[j],
    ensures
        by_name(after) == by_name(before).insert(catalog::entries()[i].name, after[i]@),
        by_name(before)[catalog::entries()[i].name] == before[i]@,
{
    catalog::lemma_index_of_row(i);
    assert(by_name(after) =~= by_name(before).insert(catalog::entries()[i].name, after[i]@));
}

/// Records that follow the table hold no endpoint outside of it.
proof fn lemma_by_name_misses(role: Role, records: Seq<Usage>, name: Seq<char>)
    requires
        follows(role, records),
        forall|i: int| 0 <= i < records.len() ==> (#[trigger] records[i])@.endpoint.name != name,
    ensures
        !catalog::has(name),
        !by_name(records).contains_key(name),
{
    if catalog::has(name) {
        let i = catalog::index_of(name);
        assert(records[i]@.endpoint.name == name);
    }
}

/// All identities below `n`.
spec fn below(n: nat) -> Set<u128> {
    Set::new(|id: u128| id < n)
}

/// There are `n` identities below `n`.
proof fn lemma_below_len(n: nat)
    requires
        n <= u128::MAX,
    ensures
        below(n).finite(),
        below(n).len() == n,
    decreases n,
{
    if n == 0 {
        assert(below(n) =~= Set::empty());
    } else {
        lemma_below_len((n - 1) as nat);
        assert(below(n) =~= below((n - 1) as nat).insert((n - 1) as u128));
    }
}

/// A finite set that holds every identity below `n` has at least `n`
/// members.
proof fn lemma_holds_all_below(ids: Set<u128>, n: nat)
    requires
        ids.finite(),
        n <= u128::MAX,
        forall|id: u128| id < n ==> ids.contains(id),
    ensures
        n <= ids.len(),
{
    lemma_below_len(n);
    vstd::set_lib::lemma_len_subset(below(n), ids);
}

/// The row of the record called `key`, if there is one.
fn find_usage(records: &Vec<Usage>, key: &String) -> (found: Option<usize>)
    ensures
        match found {
            Some(i) => i < records.len() && records[i as int]@.endpoint.name == key@,
            None => forall|i: int|
                0 <= i < records.len() ==> (#[trigger] records[i])@.endpoint.name != key@,
        },
{
    let mut i: usize = 0;
    while i < records.len()
        invariant
            i <= records.len(),
            forall|j: int| 0 <= j < i ==> (#[trigger] records[j])@.endpoint.name != key@,
        decreases records.len() - i,
    {
        if records[i].endpoint.name == *key {
            return Some(i);
        }
        i += 1;
    }
    None
}

impl Ids {
    /// The registry's invariant: both tables hold the same identities, none
    /// of them without privilege, and every identity's records follow the
    /// table of endpoints.
    pub closed spec fn wf(&self) -> bool {
        &&& self.id_list@.dom() =~= self.usage_list@.dom()
        &&& forall|id: u128| #[trigger]
            self.id_list@.contains_key(id) ==> {
                &&& self.id_list@[id].may_hold_identity()
                &&& follows(self.id_list@[id], self.usage_list@[id]@)
            }
    }

    /// The registry without any identity.
    pub fn new() -> (ids: Self)
        ensures
            ids.wf(),
            ids@ == IdsView::empty(),
    {
        let ids = Self { id_list: HashMap::new(), usage_list: HashMap::new() };
        assert(ids@.accounts =~= Map::empty());
        ids
    }

    /// The role of `user`; an identity that was never issued has none.
    pub fn get_role(&self, user: u128) -> (role: Role)
        ensures
            role == self@.role_of(user),
    {
        match self.id_list.get(&user) {
            Some(role) => *role,
            None => Role::Unauthenticated,
        }
    }

    /// The records that an identity of `role` starts with: one for every
    /// endpoint of the table, none for a role without privilege.
    pub fn gen_start_hashmap(role: Role) -> (records: Vec<Usage>)
        ensures
            records@.map_values(|usage: Usage| usage@) == start_records(role),
    {
        let mut records: Vec<Usage> = Vec::new();
        match role {
            Role::Standered => {
                let mut i: usize = 0;
                while i < catalog::API_LIMITS.len()
                    invariant
                        i <= catalog::API_LIMITS@.len(),
                        records@.len() == i,
                        forall|j: int|
                            0 <= j < i ==> (#[trigger] records@[j])@ == UsageView::fresh(
                                catalog::entries()[j],
                            ),
                    decreases catalog::API_LIMITS@.len() - i,
                {
                    let limits = catalog::API_LIMITS[i];
                    records.push(Usage::new(limits.0.to_owned(), limits.1, limits.2));
                    i += 1;
                }
            },
            Role::Admin => {
                let mut i: usize = 0;
                while i < catalog::API_LIMITS.len()
                    invariant
                        i <= catalog::API_LIMITS@.len(),
                        records@.len() == i,
                        forall|j: int|
                            0 <= j < i ==> (#[trigger] records@[j])@ == UsageView::fresh(
                                limits_for(Role::Admin, catalog::entries()[j]),
                            ),
                    decreases catalog::API_LIMITS@.len() - i,
                {
                    let limits = catalog::API_LIMITS[i];
                    records.push(Usage::new(limits.0.to_owned(), u16::MAX, 0));
                    i += 1;
                }
            },
            Role::Unauthenticated => {},
        }
        assert(records@.map_values(|usage: Usage| usage@) =~= start_records(role));
        records
    }

    /// Issues `id` for `role`, unless the role may not hold an identity or
    /// `id` is taken already, and says whether it did.
    pub fn insert_id(&mut self, id: u128, role: Role) -> (inserted: bool)
        requires
            old(self).wf(),
        ensures
            final(self).wf(),
            inserted == (role.may_hold_identity() && !old(self)@.contains(id)),
            final(self)@ == if inserted {
                old(self)@.with_identity(id, role)
            } else {
                old(self)@
            },
    {
        if role == Role::Unauthenticated {
            return false;
        }
        match self.id_list.entry(id) {
            Entry::Vacant(slot) => {
                slot.insert(role);
            },
            Entry::Occupied(_) => {
                assert(self.id_list@ =~= old(self).id_list@);
                return false;
            },
        }
        let records = Self::gen_start_hashmap(role);
        self.usage_list.insert(id, records);
        proof {
            let views = records@.map_values(|usage: Usage| usage@);
            assert(views.len() == records@.len());
            assert forall|i: int| 0 <= i < records@.len() implies (#[trigger] records@[i])@
                == start_records(role)[i] by {
                assert(views[i] == records@[i]@);
            }
            assert(follows(role, records@));
            assert(by_name(records@) =~= AccountView::start(role).usage);
            assert(self@.accounts =~= old(self)@.with_identity(id, role).accounts);
        }
        true
    }

    /// The lowest identity that was not issued yet.
    pub fn lowest_vacant_id(&self) -> (id: u128)
        ensures
            !self@.contains(id),
            forall|lower: u128| lower < id ==> self@.contains(lower),
    {
        let mut id: u128 = 0;
        let issued: usize = self.id_list.len();
        while self.id_list.contains_key(&id)
            invariant
                issued == self.id_list@.dom().len(),
                id <= issued,
                forall|lower: u128| lower < id ==> self.id_list@.contains_key(lower),
            decreases issued - id,
        {
            proof {
                lemma_holds_all_below(self.id_list@.dom(), (id + 1) as nat);
            }
            id += 1;
        }
        id
    }

    /// Issues a new identity for `role`. A role without privilege gets none.
    /// The identity is drawn at random until one is found that was not
    /// issued before; should every draw be taken, the lowest identity that
    /// is left is issued.
    pub fn gen_new_id(&mut self, role: Role) -> (issued: Option<u128>)
        requires
            old(self).wf(),
        ensures
            final(self).wf(),
            match issued {
                Some(id) => {
                    &&& role.may_hold_identity()
                    &&& !old(self)@.contains(id)
                    &&& final(self)@ == old(self)@.with_identity(id, role)
                },
                None => !role.may_hold_identity() && final(self)@ == old(self)@,
            },
    {
        if role == Role::Unauthenticated {
            return None;
        }
        let mut rng = rand::thread_rng();
        let mut draws: u32 = 0;
        while draws < MAX_DRAWS
            invariant
                self.wf(),
                self@ == old(self)@,
                role.may_hold_identity(),
            decreases MAX_DRAWS - draws,
        {
            let id: u128 = draw_id(&mut rng);
            if self.insert_id(id, role) {
                return Some(id);
            }
            draws += 1;
        }
        let id: u128 = self.lowest_vacant_id();
        self.insert_id(id, role);
        Some(id)
    }

    /// Registers a hit of `user` on `endpoint` at time `now`, in seconds
    /// since the epoch, and says whether it is admitted, together with the
    /// role of `user`.
    pub fn register_hit_at(&mut self, user: u128, endpoint: &str, now: u64) -> (hit: (bool, Role))
        requires
            old(self).wf(),
        ensures
            final(self).wf(),
            final(self)@ == old(self)@.after_hit(user, endpoint@, now as nat),
            hit.0 == old(self)@.admits(user, endpoint@, now as nat),
            hit.1 == old(self)@.role_of(user),
            old(self)@.record(user, endpoint@) is None ==> !hit.0 && final(self)@ == old(self)@,
    {
        let role = self.get_role(user);
        let key = endpoint.to_owned();
        let mut allowed = false;
        match self.usage_list.entry(user) {
            Entry::Occupied(slot) => {
                let records = slot.into_mut();
                let ghost before = records@;
                match find_usage(records, &key) {
                    Some(i) => {
                        proof {
                            catalog::lemma_index_of_row(i as int);
                        }
                        allowed = records[i].hit(now);
                        proof {
                            lemma_by_name_update(before, records@, i as int);
                        }
                    },
                    None => {
                        proof {
                            lemma_by_name_misses(role, before, endpoint@);
                        }
                    },
                }
            },
            Entry::Vacant(_) => {},
        }
        assert(self.usage_list@.dom() =~= old(self).usage_list@.dom());
        assert(self@.accounts =~= old(self)@.after_hit(user, endpoint@, now as nat).accounts);
        (allowed, role)
    }

    /// Registers a hit of `user` on `endpoint` at the time that the clock
    /// shows, and says whether it is admitted, together with the role of
    /// `user`. Whatever the clock shows, a hit on a record that never cooled
    /// down and has quota left is admitted, a hit on a used-up quota is
    /// refused, and nothing is done for an identity or an endpoint that does
    /// not exist.
    pub fn register_hit(&mut self, user: u128, endpoint: &str) -> (hit: (bool, Role))
        requires
            old(self).wf(),
        ensures
            final(self).wf(),
            hit.1 == old(self)@.role_of(user),
            exists|now: nat|
                {
                    &&& now <= u64::MAX
                    &&& hit.0 == old(self)@.admits(user, endpoint@, now)
                    &&& final(self)@ == #[trigger] old(self)@.after_hit(user, endpoint@, now)
                },
            old(self)@.record(user, endpoint@) is None ==> !hit.0 && final(self)@ == old(self)@,
            old(self)@.record(user, endpoint@) matches Some(record) ==> {
                &&& record.exhausted() ==> !hit.0
                &&& record.next_use_allowed == 0 && !record.exhausted() ==> hit.0 && final(self)@
                    == old(self)@.after_hit(user, endpoint@, 0)
            },
    {
        let current_time: u64 = get_unix_epoch();
        let hit = self.register_hit_at(user, endpoint, current_time);
        proof {
            let found = old(self)@.record(user, endpoint@);
            if found is Some {
                let record = found.unwrap();
                if record.next_use_allowed == 0 && !record.exhausted() {
                    assert(record.after_hit(current_time as nat) == record.after_hit(0));
                }
            }
        }
        hit
    }

    /// The usage record of `user` on the endpoint called `key`, if both
    /// exist.
    fn usage_of(&self, user: u128, key: &String) -> (found: Option<&Usage>)
        requires
            self.wf(),
        ensures
            match found {
                Some(usage) => self@.record(user, key@) == Some(usage@) && usage@.within_quota(),
                None => self@.record(user, key@) is None,
            },
    {
        match self.usage_list.get(&user) {
            Some(records) => match find_usage(records, key) {
                Some(i) => {
                    proof {
                        catalog::lemma_index_of_row(i as int);
                    }
                    Some(&records[i])
                },
                None => {
                    proof {
                        lemma_by_name_misses(self.id_list@[user], records@, key@);
                    }
                    None
                },
            },
            None => None,
        }
    }

    /// Seconds that `user` has to wait at time `now`, in seconds since the
    /// epoch, before `endpoint` admits a hit again; `None` for an identity
    /// or an endpoint that does not exist.
    pub fn time_until_next_allowed_hit_at(&self, user: u128, endpoint: &str, now: u64) -> (wait:
        Option<u64>)
        requires
            self.wf(),
        ensures
            match wait {
                Some(secs) => self@.wait(user, endpoint@, now as nat) == Some(secs as nat),
                None => self@.wait(user, endpoint@, now as nat) is None,
            },
    {
        let key = endpoint.to_owned();
        match self.usage_of(user, &key) {
            Some(usage) => Some(usage.time_until_allowed(now)),
            None => None,
        }
    }

    /// Seconds that `user` has to wait, at the time that the clock shows,
    /// before `endpoint` admits a hit again; `None` for an identity or an
    /// endpoint that does not exist. Whatever the clock shows, there is
    /// nothing to wait for on a record that never cooled down.
    pub fn time_until_next_allowed_hit(&self, user: u128, endpoint: &str) -> (wait: Option<u64>)
        requires
            self.wf(),
        ensures
            match wait {
                Some(secs) => exists|now: nat| #[trigger]
                    self@.wait(user, endpoint@, now) == Some(secs as nat) && now <= u64::MAX,
                None => self@.record(user, endpoint@) is None,
            },
            self@.record(user, endpoint@) matches Some(record) && record.next_use_allowed == 0
                ==> wait == Some(0u64),
    {
        let current_time: u64 = get_unix_epoch();
        self.time_until_next_allowed_hit_at(user, endpoint, current_time)
    }

    /// Hits that `user` has left on `endpoint` before a cooldown starts,
    /// none after a hit that was refused; `None` for an identity or an
    /// endpoint that does not exist.
    pub fn num_hits_untill_timeout(&self, user: u128, endpoint: &str) -> (left: Option<u32>)
        requires
            self.wf(),
        ensures
            match left {
                Some(hits) => self@.hits_left(user, endpoint@) == Some(hits as nat),
                None => self@.hits_left(user, endpoint@) is None,
            },
    {
        let key = endpoint.to_owned();
        match self.usage_of(user, &key) {
            Some(usage) => Some(usage.hits_left()),
            None => None,
        }
    }

    /// A registry that meets its invariant holds valid accounts only.
    pub proof fn lemma_valid(&self)
        requires
            self.wf(),
        ensures
            self@.valid(),
    {
        assert forall|id: u128| #[trigger]
            self@.accounts.contains_key(id) implies self@.accounts[id].valid() by {
            let records = self.usage_list@[id]@;
            let role = self.id_list@[id];
            assert(self.id_list@.contains_key(id));
            assert forall|name: Seq<char>| #[trigger] catalog::has(name) implies {
                &&& by_name(records)[name].endpoint == limits_for(
                    role,
                    catalog::entries()[catalog::index_of(name)],
                )
                &&& by_name(records)[name].within_quota()
            } by {
                let i = catalog::index_of(name);
                assert(records[i]@.within_quota());
            }
        }
    }
}

} // verus!

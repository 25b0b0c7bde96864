//! What the registry guarantees over runs of calls: identities are never
//! issued twice, quotas and cooldowns are enforced as the table of endpoints
//! says, and nothing is done for an identity or an endpoint that does not
//! exist.

use vstd::prelude::*;
use crate::catalog;
use crate::model::limits_for;
use crate::model::IdsView;
use crate::role::Role;
use crate::usage::lemma_hits_add_up;
use crate::usage::lemma_hits_during_cooldown;
use crate::usage::lemma_hits_keep_invariants;
use crate::usage::lemma_hits_within_quota;
use crate::usage::UsageView;

verus! {

/// Every endpoint of the table admits at least one hit in a window, for
/// every role.
pub proof fn lemma_quotas_positive(role: Role, i: int)
    requires
        0 <= i < catalog::entries().len(),
    ensures
        limits_for(role, catalog::entries()[i]).req_before_cooldown > 0,
{
}

/// Hits of one identity on one endpoint change the record of that pair
/// alone, as hits on that record do; they are admitted as that record
/// admits them.
pub proof fn lemma_hits_touch_one_record(
    ids: IdsView,
    id: u128,
    name: Seq<char>,
    times: Seq<nat>,
)
    ensures
        ids.record(id, name) is None ==> ids.after_hits(id, name, times) == ids,
        ids.record(id, name) matches Some(record) ==> ids.after_hits(id, name, times).record(
            id,
            name,
        ) == Some(record.after_hits(times)),
        forall|other: u128| ids.after_hits(id, name, times).role_of(other) == ids.role_of(other),
        forall|other: u128, endpoint: Seq<char>|
            other != id || endpoint != name ==> ids.after_hits(id, name, times).record(
                other,
                endpoint,
            ) == ids.record(other, endpoint),
    decreases times.len(),
{
    if times.len() > 0 {
        lemma_hits_touch_one_record(ids, id, name, times.drop_last());
    }
}

/// The hit at `times[k]` is admitted exactly if the record of the pair
/// admits it.
pub proof fn lemma_admitted_as_record(
    ids: IdsView,
    id: u128,
    name: Seq<char>,
    times: Seq<nat>,
    k: int,
)
    requires
        0 <= k < times.len(),
    ensures
        ids.admits_nth(id, name, times, k) == match ids.record(id, name) {
            Some(record) => record.admits_nth(times, k),
            None => false,
        },
{
    lemma_hits_touch_one_record(ids, id, name, times.take(k));
}

/// Hits and new identities keep every account valid.
pub proof fn lemma_calls_keep_valid(ids: IdsView, id: u128, name: Seq<char>, now: nat, role: Role)
    requires
        ids.valid(),
    ensures
        ids.after_hit(id, name, now).valid(),
        role.may_hold_identity() ==> ids.with_identity(id, role).valid(),
{
    let after = ids.after_hit(id, name, now);
    assert forall|other: u128| #[trigger] after.accounts.contains_key(other) implies after.accounts[other].valid() by {
        assert(ids.accounts.contains_key(other));
        assert(ids.accounts[other].valid());
    }
    if role.may_hold_identity() {
        let issued = ids.with_identity(id, role);
        assert forall|other: u128| #[trigger] issued.accounts.contains_key(other) implies issued.accounts[other].valid() by {
            if other != id {
                assert(ids.accounts.contains_key(other));
                assert(ids.accounts[other].valid());
            }
        }
    }
}

/// Right after an identity is issued, it has a record for every endpoint of
/// the table, with the limits of its role and nothing used: a window starts
/// with its first hits, whenever they come.
pub proof fn lemma_issued_starts_windows(
    ids: IdsView,
    id: u128,
    role: Role,
    name: Seq<char>,
    times: Seq<nat>,
)
    requires
        catalog::has(name),
    ensures
        ids.with_identity(id, role).role_of(id) == role,
        ids.with_identity(id, role).record(id, name) == Some(
            UsageView::fresh(limits_for(role, catalog::entry(name).unwrap())),
        ),
        ids.with_identity(id, role).window_starts(id, name, times),
{
}

/// Identities that were each unknown to the registry when they were issued
/// are pairwise distinct, and none of them was in the registry before.
pub proof fn lemma_issued_ids_distinct(start: IdsView, ids: Seq<u128>, roles: Seq<Role>)
    requires
        ids.len() == roles.len(),
        forall|k: int|
            0 <= k < ids.len() ==> !start.with_identities(ids.take(k), roles.take(k)).contains(
                #[trigger] ids[k],
            ),
    ensures
        forall|i: int, j: int| 0 <= i < j < ids.len() ==> ids[i] != ids[j],
        forall|k: int| 0 <= k < ids.len() ==> !start.contains(ids[k]),
{
    assert forall|i: int, j: int| 0 <= i < j < ids.len() implies ids[i] != ids[j] by {
        lemma_issued_are_known(start, ids.take(j), roles.take(j), i);
        assert(ids.take(j)[i] == ids[i]);
    }
    assert forall|k: int| 0 <= k < ids.len() implies !start.contains(ids[k]) by {
        lemma_known_stay_known(start, ids.take(k), roles.take(k), ids[k]);
    }
}

/// An identity is in the registry once it was issued.
pub proof fn lemma_issued_are_known(start: IdsView, ids: Seq<u128>, roles: Seq<Role>, i: int)
    requires
        0 <= i < ids.len(),
    ensures
        start.with_identities(ids, roles).contains(ids[i]),
    decreases ids.len(),
{
    if i < ids.len() - 1 {
        lemma_issued_are_known(start, ids.drop_last(), roles.drop_last(), i);
    }
}

/// No identity leaves the registry when others are issued.
pub proof fn lemma_known_stay_known(start: IdsView, ids: Seq<u128>, roles: Seq<Role>, id: u128)
    ensures
        start.contains(id) ==> start.with_identities(ids, roles).contains(id),
    decreases ids.len(),
{
    if ids.len() > 0 {
        lemma_known_stay_known(start, ids.drop_last(), roles.drop_last(), id);
    }
}

/// Quota exhaustion. At the start of a window of a standard identity on an
/// endpoint that admits `quota` hits, the first `quota` hits are admitted and
/// the next one is refused; that hit starts a cooldown of the length that the
/// table gives, and a new window. The cooldown is to end at a time that `u64`
/// can hold.
pub proof fn lemma_quota_exhaustion(ids: IdsView, id: u128, name: Seq<char>, times: Seq<nat>)
    requires
        ids.valid(),
        ids.role_of(id) == Role::Standered,
        catalog::has(name),
        ids.window_starts(id, name, times),
        times.len() == catalog::entry(name).unwrap().req_before_cooldown + 1,
        times.last() + catalog::entry(name).unwrap().cooldown_secs() <= u64::MAX,
    ensures
        forall|k: int| 0 <= k < times.len() - 1 ==> #[trigger] ids.admits_nth(id, name, times, k),
        !ids.admits_nth(id, name, times, times.len() - 1),
        ids.after_hits(id, name, times).record(id, name) == Some(
            UsageView {
                num_times_used: 0,
                next_use_allowed: times.last() + catalog::entry(name).unwrap().cooldown_secs(),
                allowed: false,
                endpoint: catalog::entry(name).unwrap(),
            },
        ),
{
    assert(ids.accounts[id].valid());
    lemma_window(ids, id, name, times);
}

/// At the start of a window on an endpoint that admits `quota` hits, the
/// first `quota` hits are admitted and the next one is refused; that hit
/// starts a cooldown and a new window. The cooldown is to end at a time that
/// `u64` can hold.
pub proof fn lemma_window(ids: IdsView, id: u128, name: Seq<char>, times: Seq<nat>)
    requires
        ids.window_starts(id, name, times),
        times.len() == ids.record(id, name).unwrap().endpoint.req_before_cooldown + 1,
        ids.record(id, name).unwrap().cooldown_fits(times.last()),
    ensures
        forall|k: int| 0 <= k < times.len() - 1 ==> #[trigger] ids.admits_nth(id, name, times, k),
        !ids.admits_nth(id, name, times, times.len() - 1),
        ids.after_hits(id, name, times).record(id, name) == Some(
            UsageView {
                num_times_used: 0,
                next_use_allowed: times.last() + ids.record(
                    id,
                    name,
                ).unwrap().endpoint.cooldown_secs(),
                allowed: false,
                endpoint: ids.record(id, name).unwrap().endpoint,
            },
        ),
{
    let record = ids.record(id, name).unwrap();
    let admitted = times.drop_last();
    lemma_hits_within_quota(record, admitted);
    lemma_hits_touch_one_record(ids, id, name, times);
    assert forall|k: int| 0 <= k < times.len() - 1 implies #[trigger] ids.admits_nth(
        id,
        name,
        times,
        k,
    ) by {
        lemma_admitted_as_record(ids, id, name, times, k);
        assert(times.take(k) =~= admitted.take(k));
        assert(record.admits_nth(admitted, k));
    }
    lemma_admitted_as_record(ids, id, name, times, times.len() - 1);
    assert(times.take(times.len() - 1) =~= admitted);
}

/// Cooldown enforcement. While the cooldown of a record is running, every
/// hit on it is refused, however many there are, and none of them moves the
/// end of the cooldown or touches the counter.
pub proof fn lemma_cooldown_enforced(ids: IdsView, id: u128, name: Seq<char>, times: Seq<nat>)
    requires
        ids.record(id, name) matches Some(record) && forall|k: int|
            0 <= k < times.len() ==> times[k] < record.next_use_allowed,
    ensures
        forall|k: int| 0 <= k < times.len() ==> !#[trigger] ids.admits_nth(id, name, times, k),
        ids.after_hits(id, name, times).record(id, name) == Some(
            UsageView {
                allowed: times.len() == 0 && ids.record(id, name).unwrap().allowed,
                ..ids.record(id, name).unwrap()
            },
        ),
{
    let record = ids.record(id, name).unwrap();
    lemma_hits_during_cooldown(record, times);
    lemma_hits_touch_one_record(ids, id, name, times);
    assert forall|k: int| 0 <= k < times.len() implies !#[trigger] ids.admits_nth(
        id,
        name,
        times,
        k,
    ) by {
        lemma_admitted_as_record(ids, id, name, times, k);
        assert(!record.admits_nth(times, k));
    }
}

/// Cooldown release. Let a hit at `exhausted_at` find the quota used up and
/// start a cooldown, which ends at a time that `u64` can hold, and let any
/// hits follow while it runs. Then the first
/// hit at or after the end of the cooldown is admitted, and it is the first
/// of a new window: one hit is used, and the rest of the quota is left.
pub proof fn lemma_cooldown_release(
    ids: IdsView,
    id: u128,
    name: Seq<char>,
    exhausted_at: nat,
    during: Seq<nat>,
    now: nat,
)
    requires
        ids.valid(),
        ids.record(id, name) matches Some(record) && {
            &&& record.exhausted()
            &&& !record.cooling(exhausted_at)
            &&& record.cooldown_fits(exhausted_at)
            &&& forall|k: int|
                0 <= k < during.len() ==> during[k] < exhausted_at
                    + record.endpoint.cooldown_secs()
            &&& now >= exhausted_at + record.endpoint.cooldown_secs()
        },
    ensures
        ({
            let cooled = ids.after_hit(id, name, exhausted_at).after_hits(id, name, during);
            let quota = ids.record(id, name).unwrap().endpoint.req_before_cooldown;
            &&& !ids.admits(id, name, exhausted_at)
            &&& forall|k: int|
                0 <= k < during.len() ==> !#[trigger] ids.after_hit(
                    id,
                    name,
                    exhausted_at,
                ).admits_nth(id, name, during, k)
            &&& cooled.admits(id, name, now)
            &&& cooled.after_hit(id, name, now).record(id, name).unwrap().num_times_used == 1
            &&& cooled.after_hit(id, name, now).hits_left(id, name) == Some((quota - 1) as nat)
        }),
{
    let record = ids.record(id, name).unwrap();
    let armed = ids.after_hit(id, name, exhausted_at);
    assert(ids.accounts[id].valid());
    assert(catalog::has(name));
    lemma_quotas_positive(ids.accounts[id].role, catalog::index_of(name));
    lemma_cooldown_enforced(armed, id, name, during);
}

/// An administrator is not throttled. At the start of a window of an
/// administrator, on any endpoint of the table, `u16::MAX` hits in a row are
/// admitted, whenever they come.
pub proof fn lemma_admin_not_throttled(ids: IdsView, id: u128, name: Seq<char>, times: Seq<nat>)
    requires
        ids.valid(),
        ids.role_of(id) == Role::Admin,
        catalog::has(name),
        ids.window_starts(id, name, times),
        times.len() <= u16::MAX,
    ensures
        forall|k: int| 0 <= k < times.len() ==> #[trigger] ids.admits_nth(id, name, times, k),
{
    let record = ids.record(id, name).unwrap();
    assert(ids.accounts[id].valid());
    lemma_hits_within_quota(record, times);
    assert forall|k: int| 0 <= k < times.len() implies #[trigger] ids.admits_nth(
        id,
        name,
        times,
        k,
    ) by {
        lemma_admitted_as_record(ids, id, name, times, k);
        assert(record.admits_nth(times, k));
    }
}

/// Nothing is done for an identity that was never issued, or on an endpoint
/// that the table does not hold: a hit is refused and changes nothing, and
/// no waiting time and no number of hits left are known.
pub proof fn lemma_unknown_key(ids: IdsView, id: u128, name: Seq<char>, now: nat)
    requires
        !ids.contains(id) || (ids.valid() && !catalog::has(name)),
    ensures
        ids.record(id, name) is None,
        !ids.admits(id, name, now),
        ids.after_hit(id, name, now) == ids,
        ids.wait(id, name, now) is None,
        ids.hits_left(id, name) is None,
{
    if ids.contains(id) {
        assert(ids.accounts[id].valid());
    }
}

/// A burst of hits. Let `quota + extra` hits come at the start of a window,
/// all of those after the first refused one before the cooldown that it
/// starts is over, at a time that `u64` can hold. Then the first `quota` hits are admitted and the `extra`
/// ones are refused, in whatever order the hits are taken, and the counter
/// stays within the quota after every one of them.
pub proof fn lemma_burst(ids: IdsView, id: u128, name: Seq<char>, times: Seq<nat>, extra: nat)
    requires
        ids.valid(),
        extra > 0,
        ids.window_starts(id, name, times),
        ({
            let limits = ids.record(id, name).unwrap().endpoint;
            let cooldown_ends = times[limits.req_before_cooldown as int] + limits.cooldown_secs();
            &&& times.len() == limits.req_before_cooldown + extra
            &&& cooldown_ends <= u64::MAX
            &&& forall|k: int|
                limits.req_before_cooldown < k < times.len() ==> #[trigger] times[k]
                    < cooldown_ends
        }),
    ensures
        ({
            let quota = ids.record(id, name).unwrap().endpoint.req_before_cooldown;
            &&& forall|k: int| 0 <= k < quota ==> #[trigger] ids.admits_nth(id, name, times, k)
            &&& forall|k: int|
                quota <= k < times.len() ==> !#[trigger] ids.admits_nth(id, name, times, k)
            &&& forall|k: int|
                0 <= k <= times.len() ==> (#[trigger] ids.after_hits(
                    id,
                    name,
                    times.take(k),
                )).record(id, name).unwrap().num_times_used <= quota
        }),
{
    let record = ids.record(id, name).unwrap();
    let quota = record.endpoint.req_before_cooldown as int;
    let window = times.take(quota + 1);
    let rest = times.skip(quota + 1);
    assert(ids.accounts[id].valid());
    assert(window + rest =~= times);
    lemma_window(ids, id, name, window);
    let armed = ids.after_hits(id, name, window);
    assert(window.last() == times[quota]);
    lemma_hits_during_cooldown(armed.record(id, name).unwrap(), rest);
    assert forall|k: int| 0 <= k < times.len() implies (ids.admits_nth(id, name, times, k) <==> k
        < quota) by {
        lemma_admitted_as_record(ids, id, name, times, k);
        if k <= quota {
            assert(times.take(k) =~= window.take(k));
            lemma_admitted_as_record(ids, id, name, window, k);
        } else {
            let late = k - (quota + 1);
            assert(times.take(k) =~= window + rest.take(late));
            lemma_hits_add_up(record, window, rest.take(late));
            lemma_hits_touch_one_record(ids, id, name, window);
            assert(armed.record(id, name).unwrap().admits_nth(rest, late) == record.admits_nth(
                times,
                k,
            ));
        }
    }
    assert forall|k: int| 0 <= k <= times.len() implies (#[trigger] ids.after_hits(
        id,
        name,
        times.take(k),
    )).record(id, name).unwrap().num_times_used <= quota by {
        lemma_hits_touch_one_record(ids, id, name, times.take(k));
        lemma_hits_keep_invariants(record, times.take(k));
    }
}

} // verus!

//! The fixed table of rate-limited endpoints.

use vstd::prelude::*;
use crate::endpoint::Endpoint;
use crate::endpoint::EndpointView;

verus! {

/// Name, hits before a cooldown starts, and minutes of cooldown of every
/// endpoint.
pub const API_LIMITS: [(&'static str, u16, u16); 5] = [
    ("short_wait", 10, 1),
    ("/long_wait", 1, 100),
    ("/add_to_list", 60, 1),
    ("/echo", 60, 1),
    ("/add_KV_pair", 60, 1),
];

/// The table as a sequence of endpoints.
pub open spec fn entries() -> Seq<EndpointView> {
    Seq::new(
        API_LIMITS@.len(),
        |i: int|
            EndpointView {
                name: API_LIMITS@[i].0@,
                req_before_cooldown: API_LIMITS@[i].1 as nat,
                cooldown_time: API_LIMITS@[i].2 as nat,
            },
    )
}

/// Whether the table holds an endpoint called `name`.
pub open spec fn has(name: Seq<char>) -> bool {
    exists|i: int| 0 <= i < entries().len() && (#[trigger] entries()[i]).name == name
}

/// The row of the endpoint called `name`, where the table holds one.
pub open spec fn index_of(name: Seq<char>) -> int {
    choose|i: int| 0 <= i < entries().len() && (#[trigger] entries()[i]).name == name
}

/// The endpoint called `name`, where the table holds one.
pub open spec fn entry(name: Seq<char>) -> Option<EndpointView> {
    if has(name) {
        Some(entries()[index_of(name)])
    } else {
        None
    }
}

/// No two rows of the table share a name.
pub proof fn lemma_names_distinct()
    ensures
        forall|i: int, j: int|
            0 <= i < j < entries().len() ==> (#[trigger] entries()[i]).name != (
            #[trigger] entries()[j]).name,
{
    reveal_strlit("short_wait");
    reveal_strlit("/long_wait");
    reveal_strlit("/add_to_list");
    reveal_strlit("/echo");
    reveal_strlit("/add_KV_pair");
    assert("short_wait"@.len() == 10);
    assert("/long_wait"@.len() == 10);
    assert("/add_to_list"@.len() == 12);
    assert("/echo"@.len() == 5);
    assert("/add_KV_pair"@.len() == 12);
    assert("short_wait"@[0] != "/long_wait"@[0]);
    assert("/add_to_list"@[5] != "/add_KV_pair"@[5]);
}

/// Every row is found again under its own name.
pub proof fn lemma_index_of_row(i: int)
    requires
        0 <= i < entries().len(),
    ensures
        has(entries()[i].name),
        index_of(entries()[i].name) == i,
        entry(entries()[i].name) == Some(entries()[i]),
{
    lemma_names_distinct();
}

/// The row of the table at `i`, as an endpoint.
pub fn row(i: usize) -> (endpoint: Endpoint)
    requires
        i < entries().len(),
    ensures
        endpoint@ == entries()[i as int],
{
    let limits = API_LIMITS[i];
    Endpoint::new(limits.0.to_owned(), limits.1, limits.2)
}

/// All endpoints, in the order of the table.
pub fn all() -> (list: Vec<Endpoint>)
    ensures
        list@.map_values(|e: Endpoint| e@) == entries(),
{
    let mut list: Vec<Endpoint> = Vec::new();
    let mut i: usize = 0;
    while i < API_LIMITS.len()
        invariant
            i <= API_LIMITS@.len(),
            list@.len() == i,
            forall|j: int| 0 <= j < i ==> (#[trigger] list@[j])@ == entries()[j],
        decreases API_LIMITS@.len() - i,
    {
        list.push(row(i));
        i += 1;
    }
    assert(list@.map_values(|e: Endpoint| e@) =~= entries());
    list
}

/// The endpoint called `name`, if the table holds one.
pub fn describe(name: &str) -> (found: Option<Endpoint>)
    ensures
        match found {
            Some(endpoint) => entry(name@) == Some(endpoint@),
            None => entry(name@) is None,
        },
{
    let key = name.to_owned();
    let mut i: usize = 0;
    while i < API_LIMITS.len()
        invariant
            i <= API_LIMITS@.len(),
            key@ == name@,
            forall|j: int| 0 <= j < i ==> (#[trigger] entries()[j]).name != name@,
        decreases API_LIMITS@.len() - i,
    {
        let endpoint = row(i);
        if endpoint.name == key {
            proof {
                lemma_index_of_row(i as int);
            }
            return Some(endpoint);
        }
        i += 1;
    }
    None
}

} // verus!

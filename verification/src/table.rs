//! The sharded map of `dashmap` that the service keeps its per-instrument state in,
//! with what its methods do.

use dashmap::DashMap;
use vstd::prelude::*;

use crate::types::BookMessage;

verus! {

/// `dashmap::DashMap`, a map that is split into separately locked shards.
#[verifier::external_type_specification]
#[verifier::external_body]
#[verifier::reject_recursive_types(K)]
#[verifier::reject_recursive_types(V)]
#[verifier::reject_recursive_types(S)]
pub struct ExDashMap<K, V, S>(DashMap<K, V, S>);

/// The books that a map holds, by the bytes of the FIGI.
pub uninterp spec fn books_in(map: DashMap<[u8; 12], BookMessage>) -> Map<Seq<u8>, BookMessage>;

/// Calls `dashmap::DashMap::new`. The claim: the new map is empty.
#[verifier::external_body]
pub(crate) fn new_books() -> (map: DashMap<[u8; 12], BookMessage>)
    ensures
        books_in(map).dom() == Set::<Seq<u8>>::empty(),
{
    DashMap::new()
}

/// Calls `dashmap::DashMap::insert`, which hands back the value it replaced; that is
/// dropped here. The claim: `key` now has the value `book`, all other keys are as
/// before.
#[verifier::external_body]
pub(crate) fn insert_book(map: &mut DashMap<[u8; 12], BookMessage>, key: [u8; 12], book: BookMessage)
    ensures
        books_in(*final(map)) == books_in(*old(map)).insert(key@, book),
{
    map.insert(key, book);
}

/// Calls `dashmap::DashMap::get` and copies the value out of the guard. The claim: it
/// is the value of `key`, and there is none exactly when the map does not hold `key`.
#[verifier::external_body]
pub(crate) fn find_book(map: &DashMap<[u8; 12], BookMessage>, key: &[u8; 12]) -> (found: Option<BookMessage>)
    ensures
        found is Some <==> books_in(*map).contains_key(key@),
        found is Some ==> found->Some_0 == books_in(*map)[key@],
{
    map.get(key).map(|entry| *entry.value())
}

/// Calls `dashmap::DashMap::len`. The claim: the result is the number of keys.
#[verifier::external_body]
pub(crate) fn count_books(map: &DashMap<[u8; 12], BookMessage>) -> (count: usize)
    ensures
        count == books_in(*map).len(),
{
    map.len()
}

/// Calls `dashmap::DashMap::is_empty`. The claim: it is true exactly when the map
/// holds no key.
#[verifier::external_body]
pub(crate) fn no_books(map: &DashMap<[u8; 12], BookMessage>) -> (empty: bool)
    ensures
        empty <==> books_in(*map).dom() == Set::<Seq<u8>>::empty(),
{
    map.is_empty()
}

/// The numbers that a map holds, by the bytes of the FIGI.
pub uninterp spec fn slots_in(map: DashMap<[u8; 12], usize>) -> Map<Seq<u8>, usize>;

/// Calls `dashmap::DashMap::new`. The claim: the new map is empty.
#[verifier::external_body]
pub(crate) fn new_slots() -> (map: DashMap<[u8; 12], usize>)
    ensures
        slots_in(map).dom() == Set::<Seq<u8>>::empty(),
{
    DashMap::new()
}

/// Calls `dashmap::DashMap::insert`, which hands back the value it replaced; that is
/// dropped here. The claim: `key` now has the value `slot`, all other keys are as
/// before.
#[verifier::external_body]
pub(crate) fn insert_slot(map: &mut DashMap<[u8; 12], usize>, key: [u8; 12], slot: usize)
    ensures
        slots_in(*final(map)) == slots_in(*old(map)).insert(key@, slot),
{
    map.insert(key, slot);
}

/// Calls `dashmap::DashMap::get` and copies the value out of the guard. The claim: it
/// is the value of `key`, and there is none exactly when the map does not hold `key`.
#[verifier::external_body]
pub(crate) fn find_slot(map: &DashMap<[u8; 12], usize>, key: &[u8; 12]) -> (found: Option<usize>)
    ensures
        found is Some <==> slots_in(*map).contains_key(key@),
        found is Some ==> found->Some_0 == slots_in(*map)[key@],
{
    map.get(key).map(|entry| *entry.value())
}

} // verus!

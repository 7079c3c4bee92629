//! What the server leaves to chance.
use vstd::prelude::*;
use vstd::set_lib::lemma_len_subset;
use rand::seq::SliceRandom;
use std::collections::HashMap;
use crate::keys::UserKey;

verus! {

/// Draws one user from a list, with `rand::seq::SliceRandom::choose` and the
/// random number generator of the thread. Trusted: an empty list gives
/// `None`, and any other list one of its entries. Which entry it is, and how
/// likely, is left open.
#[verifier::external_body]
pub(crate) fn draw_user(users: &Vec<UserKey>) -> (r: Option<UserKey>)
    ensures
        r is None <==> users@.len() == 0,
        r matches Some(key) ==> users@.contains(key),
{
    users.choose(&mut rand::thread_rng()).copied()
}

/// The form of a random id: the four bits that give the version read 4, and
/// the two bits of the variant read 10.
pub open spec fn is_v4(id: u128) -> bool {
    (id / 0x1000_0000_0000_0000_0000) % 16 == 4 && (id / 0x4000_0000_0000_0000) % 4 == 2
}

/// Draws a random id, with `uuid::Uuid::new_v4`. Trusted: the id has the form
/// of [`is_v4`]; the other bits are left to chance.
#[verifier::external_body]
pub(crate) fn new_v4() -> (r: u128)
    ensures
        is_v4(r),
{
    uuid::Uuid::new_v4().as_u128()
}

/// Finds an id that is not taken yet. It draws until it has one; should every
/// draw of a long series be taken, it goes through the ids in order.
pub fn vacant_entry<V>(taken: &HashMap<u128, V>) -> (r: u128)
    ensures
        !taken@.contains_key(r),
        is_v4(r),
{
    let mut left: u64 = u64::MAX;
    while left > 0
        decreases left,
    {
        let id: u128 = new_v4();
        if let Some(fresh) = vacant(taken, id) {
            return fresh;
        }
        left = left - 1;
    }
    first_vacant(taken)
}

/// The ids of the form of [`is_v4`], in order, as far as they are counted here.
#[verifier::opaque]
spec fn v4_at(i: int) -> int {
    0x4000_8000_0000_0000_0000 + i % 0x4000_0000_0000_0000 + (i / 0x4000_0000_0000_0000)
        * 0x1_0000_0000_0000_0000
}

proof fn lemma_v4_rises(i: int)
    ensures
        v4_at(i) < v4_at(i + 1),
{
    reveal(v4_at);
}

fn v4_id(i: u128) -> (r: u128)
    requires
        i <= u64::MAX,
    ensures
        r == v4_at(i as int),
        is_v4(r),
{
    reveal(v4_at);
    let low: u128 = i % 0x4000_0000_0000_0000;
    let high: u128 = i / 0x4000_0000_0000_0000;
    let r: u128 = 0x4000_8000_0000_0000_0000 + low + high * 0x1_0000_0000_0000_0000;
    assert(high <= 3);
    assert(r / 0x1000_0000_0000_0000_0000 == 4);
    assert(r / 0x4000_0000_0000_0000 == 0x10002 + high * 4);
    r
}

/// Finds an id that is not taken by going through the ids in order. There is
/// one, since a map has fewer entries than there are ids.
pub fn first_vacant<V>(taken: &HashMap<u128, V>) -> (r: u128)
    ensures
        !taken@.contains_key(r),
        is_v4(r),
{
    let len: u128 = taken.len() as u128;
    let mut i: u128 = 0;
    let ghost mut tried = Set::<u128>::empty();
    while i <= len
        invariant
            i <= len + 1,
            len <= u64::MAX,
            len == taken@.dom().len(),
            tried.finite(),
            tried.len() == i,
            tried.subset_of(taken@.dom()),
            forall|id: u128| #[trigger] tried.contains(id) ==> id < v4_at(i as int),
        decreases len + 1 - i,
    {
        let id: u128 = v4_id(i);
        if let Some(fresh) = vacant(taken, id) {
            return fresh;
        }
        proof {
            lemma_v4_rises(i as int);
            assert(!tried.contains(id));
            tried = tried.insert(id);
        }
        i = i + 1;
    }
    proof {
        lemma_len_subset(tried, taken@.dom());
    }
    assert(false);
    0
}

/// Hands an id back if it is not taken.
pub fn vacant<V>(taken: &HashMap<u128, V>, id: u128) -> (r: Option<u128>)
    ensures
        r == if taken@.contains_key(id) {
            None
        } else {
            Some(id)
        },
{
    if taken.contains_key(&id) {
        None
    } else {
        Some(id)
    }
}

} // verus!

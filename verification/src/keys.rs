//! Lists of users, each of whom is named by a key.
use vstd::prelude::*;

verus! {

/// The name of a user on the server. Two users who are there at the same time
/// have different keys, even if they are the same person.
pub type UserKey = u64;

/// Where `key` first stands in `list`.
pub open spec fn position(list: Seq<UserKey>, key: UserKey) -> Option<nat>
    decreases list.len(),
{
    if list.len() == 0 {
        None
    } else if list[0] == key {
        Some(0)
    } else {
        match position(list.drop_first(), key) {
            Some(i) => Some(i + 1),
            None => None,
        }
    }
}

/// What `position` finds: the first place of an entry that the list has.
pub proof fn lemma_position(list: Seq<UserKey>, key: UserKey)
    ensures
        position(list, key) is Some <==> list.contains(key),
        position(list, key) matches Some(i) ==> i < list.len() && list[i as int] == key && (forall|
            j: int,
        |
            0 <= j < i ==> list[j] != key),
    decreases list.len(),
{
    if list.len() > 0 && list[0] != key {
        let rest = list.drop_first();
        lemma_position(rest, key);
        if list.contains(key) {
            let i = choose|i: int| 0 <= i < list.len() && list[i] == key;
            assert(rest[i - 1] == key);
        }
        if let Some(i) = position(rest, key) {
            assert forall|j: int| 0 <= j < i + 1 implies list[j] != key by {
                if j > 0 {
                    assert(list[j] == rest[j - 1]);
                }
            }
        }
    }
}

/// How many times a list has an entry.
pub open spec fn times(list: Seq<UserKey>, key: UserKey) -> nat
    decreases list.len(),
{
    if list.len() == 0 {
        0
    } else if list.last() == key {
        times(list.drop_last(), key) + 1
    } else {
        times(list.drop_last(), key)
    }
}

/// A list has an entry some time exactly if it is on it, and never more often
/// than the list is long.
pub proof fn lemma_times(list: Seq<UserKey>, key: UserKey)
    ensures
        times(list, key) > 0 <==> list.contains(key),
        times(list, key) <= list.len(),
    decreases list.len(),
{
    if list.len() > 0 {
        let rest = list.drop_last();
        lemma_times(rest, key);
        assert(rest.push(list.last()) =~= list);
        lemma_push_contains(rest, list.last());
    }
}

/// What an entry more changes about what a list has.
pub proof fn lemma_push_contains(list: Seq<UserKey>, key: UserKey)
    ensures
        forall|x: UserKey| #[trigger]
            list.push(key).contains(x) <==> list.contains(x) || x == key,
{
    assert forall|x: UserKey| #[trigger] list.push(key).contains(x) <==> list.contains(x) || x
        == key by {
        if list.contains(x) {
            let i = choose|i: int| 0 <= i < list.len() && list[i] == x;
            assert(list.push(key)[i] == x);
        }
        assert(list.push(key)[list.len() as int] == key);
    }
}

/// Copies a list.
pub fn copy_keys(list: &Vec<UserKey>) -> (r: Vec<UserKey>)
    ensures
        r@ == list@,
{
    let r: Vec<UserKey> = list.clone();
    assert(r@ =~= list@);
    r
}

/// One list behind another.
pub fn chain_keys(first: &Vec<UserKey>, second: &Vec<UserKey>) -> (r: Vec<UserKey>)
    ensures
        r@ == first@ + second@,
{
    let mut r: Vec<UserKey> = copy_keys(first);
    let mut i: usize = 0;
    assert(r@ =~= first@ + second@.take(0));
    while i < second.len()
        invariant
            i <= second.len(),
            r@ == first@ + second@.take(i as int),
        decreases second.len() - i,
    {
        r.push(second[i]);
        assert(second@.take(i + 1) =~= second@.take(i as int).push(second@[i as int]));
        i = i + 1;
        assert(r@ =~= first@ + second@.take(i as int));
    }
    assert(second@.take(i as int) =~= second@);
    r
}

/// Finds the first place of `key` on the list.
pub fn find_key(list: &Vec<UserKey>, key: UserKey) -> (r: Option<usize>)
    ensures
        match r {
            Some(i) => position(list@, key) == Some(i as nat),
            None => position(list@, key) is None,
        },
{
    let mut i: usize = 0;
    proof {
        lemma_position(list@, key);
    }
    while i < list.len()
        invariant
            i <= list.len(),
            forall|j: int| 0 <= j < i ==> list@[j] != key,
            position(list@, key) is Some <==> list@.contains(key),
            position(list@, key) matches Some(k) ==> k < list@.len() && list@[k as int] == key && (
            forall|j: int| 0 <= j < k ==> list@[j] != key),
        decreases list.len() - i,
    {
        if list[i] == key {
            assert(list@[i as int] == key);
            assert(list@.contains(key));
            return Some(i);
        }
        i = i + 1;
    }
    None
}

} // verus!

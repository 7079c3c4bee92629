//! The users who are there.
//!
//! A user is there as long as something holds them: the server, which knows
//! them by their id, or an open connection, a wait, a request under way or the
//! host's list of players. So a user whom the server has let go can still be
//! there, and the same person can be there twice.
use vstd::prelude::*;
use std::collections::{HashMap, HashSet};
use crate::keys::{lemma_push_contains, lemma_times, times, UserKey};
use crate::protocol::{UserInfo, NO_GAME_TIME};
use crate::text::texts;

verus! {

/// The only user who may watch a room as a monitor.
pub const MONITOR_USER: i32 = 2;

/// A user.
///
/// `room` is the place of the user's room in the server's list of rooms, and
/// `session` the id of the connection on which they can be reached. While the
/// server waits for a lost user to come back, `dangle_mark` holds the mark of
/// the wait that counts. `registered` says that the server knows the user by
/// their id, `listings` counts how many times the panels of rooms list them, and
/// `holds` counts what else holds them: connections, waits and requests.
#[derive(Debug)]
pub struct User {
    pub id: i32,
    pub name: String,
    pub lang: String,
    pub session: Option<u128>,
    pub room: Option<usize>,
    pub monitor: bool,
    pub game_time: u32,
    pub dangle_mark: Option<u64>,
    pub registered: bool,
    pub holds: u64,
    pub listings: u128,
}

/// What others see of a user.
pub open spec fn info_of(u: User) -> UserInfo {
    UserInfo { id: u.id, name: u.name, monitor: u.monitor }
}

/// The count of holds with one more. At its end the count stays.
pub open spec fn one_more(holds: u64) -> u64 {
    if holds < u64::MAX {
        (holds + 1) as u64
    } else {
        holds
    }
}

/// The count of holds with one less. At its end the count stays.
pub open spec fn one_less(holds: u64) -> u64 {
    if 0 < holds < u64::MAX {
        (holds - 1) as u64
    } else {
        holds
    }
}

impl User {
    /// A user who has just come in: in no room, on no connection.
    pub fn new(id: i32, name: String, lang: String) -> (r: Self)
        ensures
            r == (User {
                id,
                name,
                lang,
                session: None,
                room: None,
                monitor: false,
                game_time: 0,
                dangle_mark: None,
                registered: false,
                holds: 0,
                listings: 0,
            }),
    {
        User {
            id,
            name,
            lang,
            session: None,
            room: None,
            monitor: false,
            game_time: 0,
            dangle_mark: None,
            registered: false,
            holds: 0,
            listings: 0,
        }
    }

    /// What others see of the user.
    pub fn to_info(&self) -> (r: UserInfo)
        ensures
            r == info_of(*self),
    {
        UserInfo { id: self.id, name: self.name.clone(), monitor: self.monitor }
    }

    /// Tells whether the user may watch a room as a monitor.
    pub fn can_monitor(&self) -> (r: bool)
        ensures
            r == (self.id == MONITOR_USER),
    {
        self.id == MONITOR_USER
    }

    /// Puts the user on a connection, which ends any wait for them.
    pub fn set_session(&mut self, session: u128)
        ensures
            *final(self) == (User { session: Some(session), dangle_mark: None, ..*old(self) }),
    {
        self.session = Some(session);
        self.dangle_mark = None;
    }

    /// The connection that a command to the user goes to. A user without one
    /// is dangling, and the command is dropped.
    pub fn try_send(&self) -> (r: Option<u128>)
        ensures
            r == self.session,
    {
        self.session
    }
}

/// Users are equal if their ids are.
impl PartialEq for User {
    fn eq(&self, other: &Self) -> (r: bool) {
        self.id == other.id
    }
}

impl vstd::std_specs::cmp::PartialEqSpecImpl for User {
    open spec fn obeys_eq_spec() -> bool {
        true
    }

    open spec fn eq_spec(&self, other: &Self) -> bool {
        self.id == other.id
    }
}

/// The users who are there, by key.
pub type Users = Map<UserKey, User>;

/// The id of a user; zero for one who is not there.
pub open spec fn id_of(users: Users, key: UserKey) -> i32 {
    if users.contains_key(key) {
        users[key].id
    } else {
        0
    }
}

/// The name of a user; empty for one who is not there.
pub open spec fn name_of(users: Users, key: UserKey) -> Seq<char> {
    if users.contains_key(key) {
        users[key].name@
    } else {
        Seq::empty()
    }
}

/// Tells whether a user is there as a monitor.
pub open spec fn is_monitor(users: Users, key: UserKey) -> bool {
    users.contains_key(key) && users[key].monitor
}

/// The users, with `key` in `room`.
pub open spec fn with_room(users: Users, key: UserKey, room: Option<usize>) -> Users {
    if users.contains_key(key) {
        users.insert(key, User { room, ..users[key] })
    } else {
        users
    }
}

/// The users, with the monitor flag of `key` set.
pub open spec fn with_monitor(users: Users, key: UserKey, monitor: bool) -> Users {
    if users.contains_key(key) {
        users.insert(key, User { monitor, ..users[key] })
    } else {
        users
    }
}

/// The users, with the game time of `key` set.
pub open spec fn with_game_time(users: Users, key: UserKey, game_time: u32) -> Users {
    if users.contains_key(key) {
        users.insert(key, User { game_time, ..users[key] })
    } else {
        users
    }
}

/// The users, with the game time of everyone on the list taken back.
pub open spec fn with_times_reset(users: Users, list: Seq<UserKey>) -> Users {
    users.map_entries(
        |key: UserKey, u: User|
            if list.contains(key) {
                User { game_time: NO_GAME_TIME, ..u }
            } else {
                u
            },
    )
}

/// The users, with one more hold on `key`.
pub open spec fn with_hold(users: Users, key: UserKey) -> Users {
    if users.contains_key(key) {
        users.insert(key, User { holds: one_more(users[key].holds), ..users[key] })
    } else {
        users
    }
}

/// The users, with one hold less on `key`. Who is held by nothing any more is
/// gone.
pub open spec fn without_hold(users: Users, key: UserKey) -> Users {
    if users.contains_key(key) {
        let u = users[key];
        if u.registered || one_less(u.holds) > 0 || u.listings > 0 {
            users.insert(key, User { holds: one_less(u.holds), ..u })
        } else {
            users.remove(key)
        }
    } else {
        users
    }
}

/// The users, with `key` listed once more. At its end the count stays.
pub open spec fn with_listing(users: Users, key: UserKey) -> Users {
    if users.contains_key(key) && users[key].listings < u128::MAX {
        users.insert(key, User { listings: (users[key].listings + 1) as u128, ..users[key] })
    } else {
        users
    }
}

/// The users, with `key` listed once less. Who is held by nothing any more is
/// gone.
pub open spec fn without_listing(users: Users, key: UserKey) -> Users {
    if users.contains_key(key) {
        let u = users[key];
        let left: u128 = if 0 < u.listings < u128::MAX {
            (u.listings - 1) as u128
        } else {
            u.listings
        };
        if u.registered || u.holds > 0 || left > 0 {
            users.insert(key, User { listings: left, ..u })
        } else {
            users.remove(key)
        }
    } else {
        users
    }
}

/// The users, with everyone on the list listed once more.
pub open spec fn with_listings(users: Users, list: Seq<UserKey>) -> Users
    decreases list.len(),
{
    if list.len() == 0 {
        users
    } else {
        with_listing(with_listings(users, list.drop_last()), list.last())
    }
}

/// The users, with everyone on the list listed once less.
pub open spec fn without_listings(users: Users, list: Seq<UserKey>) -> Users
    decreases list.len(),
{
    if list.len() == 0 {
        users
    } else {
        without_listing(without_listings(users, list.drop_last()), list.last())
    }
}

/// The users, once the server has let `key` go.
pub open spec fn unregistered(users: Users, key: UserKey) -> Users {
    if users.contains_key(key) {
        if users[key].holds > 0 || users[key].listings > 0 {
            users.insert(key, User { registered: false, ..users[key] })
        } else {
            users.remove(key)
        }
    } else {
        users
    }
}

/// Those on a list who are there and whose ids are not in `gone`, in order.
pub open spec fn others(users: Users, list: Seq<UserKey>, gone: Set<i32>) -> Seq<UserKey> {
    list.filter(|key: UserKey| users.contains_key(key) && !gone.contains(users[key].id))
}

/// Those on a list who are there, in order.
pub open spec fn alive(users: Users, list: Seq<UserKey>) -> Seq<UserKey> {
    others(users, list, Set::empty())
}

/// The ids of those on a list who are there.
pub open spec fn ids_of(users: Users, list: Seq<UserKey>) -> Set<i32> {
    alive(users, list).map_values(|key: UserKey| users[key].id).to_set()
}

/// Someone with this id is on a list and there.
pub open spec fn has_id(users: Users, list: Seq<UserKey>, id: i32) -> bool {
    exists|key: UserKey| #[trigger]
        list.contains(key) && users.contains_key(key) && users[key].id == id
}

/// Someone who is there is in the room at place `room`.
pub open spec fn anyone_in(users: Users, room: usize) -> bool {
    exists|key: UserKey| #[trigger] users.contains_key(key) && users[key].room == Some(room)
}

/// What others see of those on a list who are there, in its order.
pub open spec fn infos(users: Users, list: Seq<UserKey>) -> Seq<UserInfo>
    decreases list.len(),
{
    if list.len() == 0 {
        Seq::empty()
    } else if users.contains_key(list.last()) {
        infos(users, list.drop_last()).push(info_of(users[list.last()]))
    } else {
        infos(users, list.drop_last())
    }
}

/// The connections of the users on a list, in its order. Who is not there or
/// has no connection is left out.
pub open spec fn sessions_of(users: Users, list: Seq<UserKey>) -> Seq<u128>
    decreases list.len(),
{
    if list.len() == 0 {
        Seq::empty()
    } else if users.contains_key(list.last()) && users[list.last()].session is Some {
        sessions_of(users, list.drop_last()).push(users[list.last()].session->0)
    } else {
        sessions_of(users, list.drop_last())
    }
}

/// The names of the users on a list.
pub open spec fn names_of(users: Users, list: Seq<UserKey>) -> Seq<Seq<char>> {
    list.map_values(|key: UserKey| name_of(users, key))
}

/// Appending one entry to a list.
pub proof fn lemma_others_push(users: Users, list: Seq<UserKey>, gone: Set<i32>, key: UserKey)
    ensures
        others(users, list.push(key), gone) == if users.contains_key(key) && !gone.contains(
            users[key].id,
        ) {
            others(users, list, gone).push(key)
        } else {
            others(users, list, gone)
        },
{
    reveal(Seq::filter);
    assert(list.push(key).drop_last() =~= list);
}

/// What `others` keeps.
pub proof fn lemma_others(users: Users, list: Seq<UserKey>, gone: Set<i32>)
    ensures
        others(users, list, gone).len() <= list.len(),
        forall|key: UserKey| #[trigger]
            others(users, list, gone).contains(key) <==> list.contains(key) && users.contains_key(
                key,
            ) && !gone.contains(users[key].id),
        forall|i: int|
            0 <= i < others(users, list, gone).len() ==> {
                &&& list.contains(#[trigger] others(users, list, gone)[i])
                &&& users.contains_key(others(users, list, gone)[i])
                &&& !gone.contains(users[others(users, list, gone)[i]].id)
            },
    decreases list.len(),
{
    reveal(Seq::filter);
    let all = others(users, list, gone);
    if list.len() == 0 {
        assert(all =~= Seq::empty());
    } else {
        let rest = list.drop_last();
        let key = list.last();
        lemma_others(users, rest, gone);
        assert(rest.push(key) =~= list);
        lemma_others_push(users, rest, gone, key);
        lemma_push_contains(rest, key);
        lemma_push_contains(others(users, rest, gone), key);
        assert forall|x: UserKey| #[trigger] all.contains(x) <==> list.contains(x)
            && users.contains_key(x) && !gone.contains(users[x].id) by {
            assert(rest.push(key).contains(x) <==> rest.contains(x) || x == key);
            assert(others(users, rest, gone).contains(x) <==> rest.contains(x)
                && users.contains_key(x) && !gone.contains(users[x].id));
        }
        assert forall|i: int| 0 <= i < all.len() implies {
            &&& list.contains(#[trigger] all[i])
            &&& users.contains_key(all[i])
            &&& !gone.contains(users[all[i]].id)
        } by {
            assert(all.contains(all[i]));
        }
    }
}

/// Whose ids `ids_of` collects.
pub proof fn lemma_ids_of(users: Users, list: Seq<UserKey>)
    ensures
        forall|id: i32| #[trigger]
            ids_of(users, list).contains(id) <==> has_id(users, list, id),
{
    lemma_others(users, list, Set::empty());
    let there = alive(users, list);
    let ids = there.map_values(|key: UserKey| users[key].id);
    assert forall|id: i32| #[trigger] ids_of(users, list).contains(id) <==> has_id(
        users,
        list,
        id,
    ) by {
        if ids.contains(id) {
            let i = choose|i: int| 0 <= i < ids.len() && ids[i] == id;
            assert(there.contains(there[i]));
            assert(list.contains(there[i]));
        }
        if has_id(users, list, id) {
            let key = choose|key: UserKey| #[trigger]
                list.contains(key) && users.contains_key(key) && users[key].id == id;
            assert(there.contains(key));
            let i = choose|i: int| 0 <= i < there.len() && there[i] == key;
            assert(ids[i] == id);
        }
    }
}

/// Listing users counts them, and changes nothing else.
pub proof fn lemma_with_listings(users: Users, list: Seq<UserKey>, key: UserKey)
    requires
        users.contains_key(key) ==> users[key].listings + list.len() <= u128::MAX,
    ensures
        with_listings(users, list).contains_key(key) <==> users.contains_key(key),
        users.contains_key(key) ==> with_listings(users, list)[key] == (User {
            listings: (users[key].listings + times(list, key)) as u128,
            ..users[key]
        }),
    decreases list.len(),
{
    if list.len() > 0 {
        lemma_with_listings(users, list.drop_last(), key);
        lemma_times(list.drop_last(), key);
    }
}

/// Taking listings back counts down. Who is then held by nothing is gone, and
/// nobody else.
pub proof fn lemma_without_listings(users: Users, list: Seq<UserKey>, key: UserKey)
    requires
        users.contains_key(key) ==> times(list, key) <= users[key].listings < u128::MAX,
    ensures
        without_listings(users, list).contains_key(key) <==> users.contains_key(key) && (times(
            list,
            key,
        ) == 0 || users[key].registered || users[key].holds > 0 || times(list, key)
            < users[key].listings),
        without_listings(users, list).contains_key(key) ==> without_listings(users, list)[key] == (
        User { listings: (users[key].listings - times(list, key)) as u128, ..users[key] }),
    decreases list.len(),
{
    if list.len() > 0 {
        lemma_without_listings(users, list.drop_last(), key);
    }
}

/// One id more on a list is one more in the set of its ids.
pub proof fn lemma_take_to_set(ids: Seq<i32>, i: int)
    requires
        0 <= i < ids.len(),
    ensures
        ids.take(i + 1).to_set() == ids.take(i).to_set().insert(ids[i]),
{
    let before = ids.take(i);
    let after = ids.take(i + 1);
    assert forall|x: i32| #[trigger] after.contains(x) <==> before.contains(x) || x == ids[i] by {
        if before.contains(x) {
            let j = choose|j: int| 0 <= j < before.len() && before[j] == x;
            assert(after[j] == x);
        }
        if after.contains(x) && x != ids[i] {
            let j = choose|j: int| 0 <= j < after.len() && after[j] == x;
            assert(before[j] == x);
        }
        assert(after[i] == ids[i]);
    }
    assert(after.to_set() =~= before.to_set().insert(ids[i]));
}

/// The table of the users who are there, by key.
pub struct UserTable {
    pub entries: HashMap<UserKey, User>,
}

impl View for UserTable {
    type V = Users;

    open spec fn view(&self) -> Users {
        self.entries@
    }
}

impl UserTable {
    /// A table without users.
    pub fn new() -> (r: Self)
        ensures
            r@ == Map::<UserKey, User>::empty(),
    {
        UserTable { entries: HashMap::new() }
    }

    /// Looks a user up.
    pub fn get(&self, key: UserKey) -> (r: Option<&User>)
        ensures
            match r {
                Some(u) => self@.contains_key(key) && self@[key] == *u,
                None => !self@.contains_key(key),
            },
    {
        self.entries.get(&key)
    }

    /// Adds a user, in place of one with the same key.
    pub fn insert(&mut self, key: UserKey, user: User)
        ensures
            final(self)@ == old(self)@.insert(key, user),
    {
        self.entries.insert(key, user);
    }

    /// Takes a user out.
    pub fn remove(&mut self, key: UserKey) -> (r: Option<User>)
        ensures
            final(self)@ == old(self)@.remove(key),
            match r {
                Some(u) => old(self)@.contains_key(key) && old(self)@[key] == u,
                None => !old(self)@.contains_key(key),
            },
    {
        self.entries.remove(&key)
    }

    /// The id of a user; zero for one who is not there.
    pub fn id(&self, key: UserKey) -> (r: i32)
        ensures
            r == id_of(self@, key),
    {
        match self.get(key) {
            Some(u) => u.id,
            None => 0,
        }
    }

    /// The name of a user; empty for one who is not there.
    pub fn name(&self, key: UserKey) -> (r: String)
        ensures
            r@ == name_of(self@, key),
            self@.contains_key(key) ==> r == self@[key].name,
    {
        match self.get(key) {
            Some(u) => u.name.clone(),
            None => String::new(),
        }
    }

    /// Tells whether a user is there as a monitor.
    pub fn monitor(&self, key: UserKey) -> (r: bool)
        ensures
            r == is_monitor(self@, key),
    {
        match self.get(key) {
            Some(u) => u.monitor,
            None => false,
        }
    }

    /// The room that a user is in.
    pub fn room(&self, key: UserKey) -> (r: Option<usize>)
        ensures
            r == if self@.contains_key(key) {
                self@[key].room
            } else {
                None
            },
    {
        match self.get(key) {
            Some(u) => u.room,
            None => None,
        }
    }

    /// Puts a user into a room, or out of any.
    pub fn set_room(&mut self, key: UserKey, room: Option<usize>)
        ensures
            final(self)@ == with_room(old(self)@, key, room),
    {
        match self.remove(key) {
            Some(u) => {
                let mut u: User = u;
                u.room = room;
                self.insert(key, u);
            },
            None => {},
        }
        assert(self@ =~= with_room(old(self)@, key, room));
    }

    /// Sets the monitor flag of a user.
    pub fn set_monitor(&mut self, key: UserKey, monitor: bool)
        ensures
            final(self)@ == with_monitor(old(self)@, key, monitor),
    {
        match self.remove(key) {
            Some(u) => {
                let mut u: User = u;
                u.monitor = monitor;
                self.insert(key, u);
            },
            None => {},
        }
        assert(self@ =~= with_monitor(old(self)@, key, monitor));
    }

    /// Sets the game time of a user.
    pub fn set_game_time(&mut self, key: UserKey, game_time: u32)
        ensures
            final(self)@ == with_game_time(old(self)@, key, game_time),
    {
        match self.remove(key) {
            Some(u) => {
                let mut u: User = u;
                u.game_time = game_time;
                self.insert(key, u);
            },
            None => {},
        }
        assert(self@ =~= with_game_time(old(self)@, key, game_time));
    }

    /// Puts a user on a connection.
    pub fn set_session(&mut self, key: UserKey, session: u128)
        ensures
            final(self)@ == if old(self)@.contains_key(key) {
                old(self)@.insert(
                    key,
                    User { session: Some(session), dangle_mark: None, ..old(self)@[key] },
                )
            } else {
                old(self)@
            },
    {
        match self.remove(key) {
            Some(u) => {
                let mut u: User = u;
                u.set_session(session);
                self.insert(key, u);
            },
            None => {},
        }
        assert(self@ =~= if old(self)@.contains_key(key) {
            old(self)@.insert(
                key,
                User { session: Some(session), dangle_mark: None, ..old(self)@[key] },
            )
        } else {
            old(self)@
        });
    }

    /// Takes a user off their connection.
    pub fn clear_session(&mut self, key: UserKey)
        ensures
            final(self)@ == if old(self)@.contains_key(key) {
                old(self)@.insert(key, User { session: None, ..old(self)@[key] })
            } else {
                old(self)@
            },
    {
        match self.remove(key) {
            Some(u) => {
                let mut u: User = u;
                u.session = None;
                self.insert(key, u);
            },
            None => {},
        }
        assert(self@ =~= if old(self)@.contains_key(key) {
            old(self)@.insert(key, User { session: None, ..old(self)@[key] })
        } else {
            old(self)@
        });
    }

    /// Gives a user the mark of the wait for them that counts.
    pub fn set_mark(&mut self, key: UserKey, mark: u64)
        ensures
            final(self)@ == if old(self)@.contains_key(key) {
                old(self)@.insert(key, User { dangle_mark: Some(mark), ..old(self)@[key] })
            } else {
                old(self)@
            },
    {
        match self.remove(key) {
            Some(u) => {
                let mut u: User = u;
                u.dangle_mark = Some(mark);
                self.insert(key, u);
            },
            None => {},
        }
        assert(self@ =~= if old(self)@.contains_key(key) {
            old(self)@.insert(key, User { dangle_mark: Some(mark), ..old(self)@[key] })
        } else {
            old(self)@
        });
    }

    /// Holds a user once more.
    pub fn hold(&mut self, key: UserKey)
        ensures
            final(self)@ == with_hold(old(self)@, key),
    {
        match self.remove(key) {
            Some(u) => {
                let mut u: User = u;
                if u.holds < u64::MAX {
                    u.holds = u.holds + 1;
                }
                self.insert(key, u);
            },
            None => {},
        }
        assert(self@ =~= with_hold(old(self)@, key));
    }

    /// Holds a user once less.
    pub fn release(&mut self, key: UserKey)
        ensures
            final(self)@ == without_hold(old(self)@, key),
    {
        match self.remove(key) {
            Some(u) => {
                let mut u: User = u;
                if 0 < u.holds && u.holds < u64::MAX {
                    u.holds = u.holds - 1;
                }
                if u.registered || u.holds > 0 || u.listings > 0 {
                    self.insert(key, u);
                }
            },
            None => {},
        }
        assert(self@ =~= without_hold(old(self)@, key));
    }

    /// Lets a user go whom the server knew.
    pub fn unregister(&mut self, key: UserKey)
        ensures
            final(self)@ == unregistered(old(self)@, key),
    {
        match self.remove(key) {
            Some(u) => {
                let mut u: User = u;
                u.registered = false;
                if u.holds > 0 || u.listings > 0 {
                    self.insert(key, u);
                }
            },
            None => {},
        }
        assert(self@ =~= unregistered(old(self)@, key));
    }

    /// Lists a user once more.
    pub fn list(&mut self, key: UserKey)
        ensures
            final(self)@ == with_listing(old(self)@, key),
    {
        match self.remove(key) {
            Some(u) => {
                let mut u: User = u;
                if u.listings < u128::MAX {
                    u.listings = u.listings + 1;
                }
                self.insert(key, u);
            },
            None => {},
        }
        assert(self@ =~= with_listing(old(self)@, key));
    }

    /// Lists a user once less.
    pub fn unlist(&mut self, key: UserKey)
        ensures
            final(self)@ == without_listing(old(self)@, key),
    {
        match self.remove(key) {
            Some(u) => {
                let mut u: User = u;
                if 0 < u.listings && u.listings < u128::MAX {
                    u.listings = u.listings - 1;
                }
                if u.registered || u.holds > 0 || u.listings > 0 {
                    self.insert(key, u);
                }
            },
            None => {},
        }
        assert(self@ =~= without_listing(old(self)@, key));
    }

    /// Lists everyone on a list once more.
    pub fn list_all(&mut self, list: &Vec<UserKey>)
        ensures
            final(self)@ == with_listings(old(self)@, list@),
    {
        let mut i: usize = 0;
        assert(list@.take(0) =~= Seq::empty());
        while i < list.len()
            invariant
                i <= list.len(),
                self@ == with_listings(old(self)@, list@.take(i as int)),
            decreases list.len() - i,
        {
            assert(list@.take(i + 1).drop_last() =~= list@.take(i as int));
            self.list(list[i]);
            i = i + 1;
        }
        assert(list@.take(i as int) =~= list@);
    }

    /// Lists everyone on a list once less.
    pub fn unlist_all(&mut self, list: &Vec<UserKey>)
        ensures
            final(self)@ == without_listings(old(self)@, list@),
    {
        let mut i: usize = 0;
        assert(list@.take(0) =~= Seq::empty());
        while i < list.len()
            invariant
                i <= list.len(),
                self@ == without_listings(old(self)@, list@.take(i as int)),
            decreases list.len() - i,
        {
            assert(list@.take(i + 1).drop_last() =~= list@.take(i as int));
            self.unlist(list[i]);
            i = i + 1;
        }
        assert(list@.take(i as int) =~= list@);
    }

    /// Takes the game time of everyone on the list back.
    pub fn reset_times(&mut self, list: &Vec<UserKey>)
        ensures
            final(self)@ == with_times_reset(old(self)@, list@),
    {
        let mut i: usize = 0;
        assert(self@ =~= with_times_reset(old(self)@, list@.take(0)));
        while i < list.len()
            invariant
                i <= list.len(),
                self@ == with_times_reset(old(self)@, list@.take(i as int)),
            decreases list.len() - i,
        {
            let key: UserKey = list[i];
            let ghost before = list@.take(i as int);
            self.set_game_time(key, NO_GAME_TIME);
            i = i + 1;
            proof {
                assert(list@.take(i as int) =~= before.push(key));
                lemma_push_contains(before, key);
            }
            assert(self@ =~= with_times_reset(old(self)@, list@.take(i as int)));
        }
        assert(list@.take(i as int) =~= list@);
    }

    /// Those on a list who are there and whose ids are not in `gone`.
    pub fn others(&self, list: &Vec<UserKey>, gone: &HashSet<i32>) -> (r: Vec<UserKey>)
        ensures
            r@ == others(self@, list@, gone@),
    {
        let mut r: Vec<UserKey> = Vec::new();
        let mut i: usize = 0;
        proof {
            reveal(Seq::filter);
        }
        assert(r@ =~= others(self@, list@.take(0), gone@));
        while i < list.len()
            invariant
                i <= list.len(),
                r@ == others(self@, list@.take(i as int), gone@),
            decreases list.len() - i,
        {
            let key: UserKey = list[i];
            proof {
                lemma_others_push(self@, list@.take(i as int), gone@, key);
                assert(list@.take(i + 1) =~= list@.take(i as int).push(key));
            }
            match self.get(key) {
                Some(u) => if !gone.contains(&u.id) {
                    r.push(key);
                },
                None => {},
            }
            i = i + 1;
        }
        assert(list@.take(i as int) =~= list@);
        r
    }

    /// Those on a list who are there.
    pub fn alive(&self, list: &Vec<UserKey>) -> (r: Vec<UserKey>)
        ensures
            r@ == alive(self@, list@),
    {
        let nobody: HashSet<i32> = HashSet::new();
        self.others(list, &nobody)
    }

    /// Those on a list who are there, but for everyone with one id.
    pub fn without_id(&self, list: &Vec<UserKey>, id: i32) -> (r: Vec<UserKey>)
        ensures
            r@ == others(self@, list@, set![id]),
    {
        let mut gone: HashSet<i32> = HashSet::new();
        gone.insert(id);
        assert(gone@ =~= set![id]);
        self.others(list, &gone)
    }

    /// The ids of those on a list who are there.
    pub fn ids(&self, list: &Vec<UserKey>) -> (r: HashSet<i32>)
        ensures
            r@ == ids_of(self@, list@),
    {
        let there: Vec<UserKey> = self.alive(list);
        let ghost ids = there@.map_values(|key: UserKey| self@[key].id);
        let mut r: HashSet<i32> = HashSet::new();
        let mut i: usize = 0;
        proof {
            lemma_others(self@, list@, Set::empty());
        }
        assert(ids.take(0).to_set() =~= Set::empty());
        while i < there.len()
            invariant
                i <= there.len(),
                there@ == alive(self@, list@),
                ids == there@.map_values(|key: UserKey| self@[key].id),
                r@ == ids.take(i as int).to_set(),
                forall|j: int| 0 <= j < there@.len() ==> self@.contains_key(#[trigger] there@[j]),
            decreases there.len() - i,
        {
            proof {
                lemma_take_to_set(ids, i as int);
            }
            assert(self@.contains_key(there@[i as int]));
            match self.get(there[i]) {
                Some(u) => {
                    r.insert(u.id);
                },
                None => {},
            }
            i = i + 1;
        }
        assert(ids.take(i as int) =~= ids);
        r
    }

    /// Tells whether someone with this id is on a list and there.
    pub fn has_id(&self, list: &Vec<UserKey>, id: i32) -> (r: bool)
        ensures
            r == has_id(self@, list@, id),
    {
        proof {
            lemma_ids_of(self@, list@);
        }
        self.ids(list).contains(&id)
    }

    /// Tells whether someone is in the room at place `room`.
    pub fn anyone_in(&self, room: usize) -> (r: bool)
        ensures
            r == anyone_in(self@, room),
    {
        let mut found: bool = false;
        let ghost mut seen: Seq<UserKey> = Seq::empty();
        for key in it: self.entries.keys()
            invariant
                it.seq().unref().to_set() == self@.dom(),
                seen == it.seq().unref().take(it.index() as int),
                it.index() == it.seq().len() ==> seen.to_set() == self@.dom(),
                found <==> exists|i: int|
                    0 <= i < seen.len() && self@[#[trigger] seen[i]].room == Some(room),
        {
            let ghost before = seen;
            proof {
                seen = seen.push(*key);
                assert(it.seq().unref()[it.index() as int] == *key);
                assert(it.seq().unref().contains(*key));
                assert(self@.dom().contains(*key));
                assert(seen =~= it.seq().unref().take(it.index() + 1));
                assert(it.index() + 1 == it.seq().len() ==> seen =~= it.seq().unref());
            }
            if self.room(*key) == Some(room) {
                found = true;
                assert(seen[before.len() as int] == *key);
            } else if found {
                let ghost i = choose|i: int|
                    0 <= i < before.len() && self@[#[trigger] before[i]].room == Some(room);
                assert(seen[i] == before[i]);
            } else {
                assert forall|i: int| 0 <= i < seen.len() implies self@[#[trigger] seen[i]].room
                    != Some(room) by {
                    if i < before.len() {
                        assert(seen[i] == before[i]);
                    }
                }
            }
        }
        proof {
            if anyone_in(self@, room) {
                let key = choose|key: UserKey| #[trigger]
                    self@.contains_key(key) && self@[key].room == Some(room);
                assert(seen.to_set().contains(key));
                let i = choose|i: int| 0 <= i < seen.len() && seen[i] == key;
                assert(self@[seen[i]].room == Some(room));
            }
            if found {
                let i = choose|i: int|
                    0 <= i < seen.len() && self@[#[trigger] seen[i]].room == Some(room);
                assert(seen.contains(seen[i]));
                assert(seen.to_set().contains(seen[i]));
                assert(self@.contains_key(seen[i]));
            }
        }
        found
    }

    /// What others see of the users on a list.
    pub fn infos(&self, list: &Vec<UserKey>) -> (r: Vec<UserInfo>)
        ensures
            r@ == infos(self@, list@),
    {
        let mut r: Vec<UserInfo> = Vec::new();
        let mut i: usize = 0;
        assert(list@.take(0) =~= Seq::empty());
        while i < list.len()
            invariant
                i <= list.len(),
                r@ == infos(self@, list@.take(i as int)),
            decreases list.len() - i,
        {
            assert(list@.take(i + 1).drop_last() =~= list@.take(i as int));
            match self.get(list[i]) {
                Some(u) => r.push(u.to_info()),
                None => {},
            }
            i = i + 1;
        }
        assert(list@.take(i as int) =~= list@);
        r
    }

    /// The connections on which the users on a list can be reached.
    pub fn sessions(&self, list: &Vec<UserKey>) -> (r: Vec<u128>)
        ensures
            r@ == sessions_of(self@, list@),
    {
        let mut r: Vec<u128> = Vec::new();
        let mut i: usize = 0;
        assert(list@.take(0) =~= Seq::empty());
        while i < list.len()
            invariant
                i <= list.len(),
                r@ == sessions_of(self@, list@.take(i as int)),
            decreases list.len() - i,
        {
            assert(list@.take(i + 1).drop_last() =~= list@.take(i as int));
            match self.get(list[i]) {
                Some(u) => match u.try_send() {
                    Some(session) => r.push(session),
                    None => {},
                },
                None => {},
            }
            i = i + 1;
        }
        assert(list@.take(i as int) =~= list@);
        r
    }

    /// The names of the users on a list.
    pub fn names(&self, list: &Vec<UserKey>) -> (r: Vec<String>)
        ensures
            texts(r@) == names_of(self@, list@),
    {
        let mut r: Vec<String> = Vec::new();
        let mut i: usize = 0;
        while i < list.len()
            invariant
                i <= list.len(),
                r@.len() == i,
                forall|j: int| 0 <= j < i ==> (#[trigger] r@[j])@ == name_of(self@, list@[j]),
            decreases list.len() - i,
        {
            r.push(self.name(list[i]));
            i = i + 1;
        }
        assert(texts(r@) =~= names_of(self@, list@));
        r
    }
}

} // verus!

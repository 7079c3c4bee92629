//! What every command keeps in order.
use vstd::prelude::*;
use crate::keeping::{is_held, most};
use crate::keys::{lemma_times, times, UserKey};
use crate::protocol::ClientCommand;
use crate::ranking::Record;
use crate::room::{Chart, Fault, RoomView, ROOM_MAX_USERS};
use crate::scene::Scene;
use crate::users::{anyone_in, id_of, lemma_without_listings, with_room, User};
use crate::world::{is_custom, kept, lemma_kept, listings, lookup, room_id, SlotView, World};

verus! {

/// What [`lookup`] finds is listed under the id, and if it finds nothing then
/// no room is.
pub proof fn lemma_lookup(rooms: Seq<SlotView>, id: Seq<char>)
    requires
        rooms.len() <= usize::MAX,
    ensures
        lookup(rooms, id) matches Some(k) ==> k < rooms.len() && rooms[k as int].listed
            && rooms[k as int].room.id == id,
        lookup(rooms, id) is None ==> forall|j: int|
            0 <= j < rooms.len() && (#[trigger] rooms[j]).listed ==> rooms[j].room.id != id,
    decreases rooms.len(),
{
    if rooms.len() > 0 {
        let front = rooms.drop_last();
        lemma_lookup(front, id);
        if lookup(rooms, id) is None {
            assert forall|j: int|
                0 <= j < rooms.len() && (#[trigger] rooms[j]).listed implies rooms[j].room.id
                != id by {
                if j < front.len() {
                    assert(front[j] == rooms[j]);
                }
            }
        }
    }
}

/// Changing one room changes the count of listings by what its panel lists.
proof fn lemma_listings_update(rooms: Seq<SlotView>, k: int, slot: SlotView, user: UserKey)
    requires
        0 <= k < rooms.len(),
    ensures
        listings(rooms.update(k, slot), user) + times(rooms[k].room.panel.users, user) == listings(
            rooms,
            user,
        ) + times(slot.room.panel.users, user),
        times(rooms[k].room.panel.users, user) <= listings(rooms, user),
    decreases rooms.len(),
{
    let after = rooms.update(k, slot);
    if k == rooms.len() - 1 {
        assert(after.drop_last() =~= rooms.drop_last());
    } else {
        assert(after.drop_last() =~= rooms.drop_last().update(k, slot));
        lemma_listings_update(rooms.drop_last(), k, slot, user);
    }
}

/// Nobody is listed more often than full rooms can.
proof fn lemma_listings_bound(rooms: Seq<SlotView>, user: UserKey)
    requires
        forall|k: int| 0 <= k < rooms.len() ==> (#[trigger] rooms[k]).room.wf(),
    ensures
        listings(rooms, user) <= rooms.len() * ROOM_MAX_USERS,
    decreases rooms.len(),
{
    if rooms.len() > 0 {
        let front = rooms.drop_last();
        assert forall|k: int| 0 <= k < front.len() implies (#[trigger] front[k]).room.wf() by {
            assert(front[k] == rooms[k]);
        }
        lemma_listings_bound(front, user);
        assert(rooms[rooms.len() - 1].room.wf());
        lemma_times(rooms.last().room.panel.users, user);
    }
}

impl World {
    /// Whoever is there is held by something, and counts how many times the
    /// panels of all rooms list them. They are in a room that exists, if in any.
    /// If they are registered, the server knows them by their id.
    pub open spec fn user_sound(self, u: UserKey) -> bool {
        &&& u < self.next_key
        &&& is_held(self.users[u])
        &&& self.users[u].listings == listings(self.rooms, u)
        &&& self.users[u].room matches Some(k) ==> k < self.rooms.len()
            && !self.rooms[k as int].given_up
        &&& self.users[u].registered ==> self.registry.contains_key(self.users[u].id)
            && self.registry[self.users[u].id] == u
    }

    /// Whom the server knows by an id is there, has that id, and is registered.
    pub open spec fn id_sound(self, id: i32) -> bool {
        &&& self.users.contains_key(self.registry[id])
        &&& self.users[self.registry[id]].id == id
        &&& self.users[self.registry[id]].registered
    }

    /// Every room is in order and no two rooms are listed under one id. Of a
    /// room that was given up nothing is left, and nothing leads to it. Panels
    /// list nobody who is gone. Keys were handed out in order.
    pub open spec fn sound(self) -> bool {
        &&& self.rooms.len() <= usize::MAX
        &&& forall|k: int| 0 <= k < self.rooms.len() ==> (#[trigger] self.rooms[k]).room.wf()
        &&& forall|k: int|
            0 <= k < self.rooms.len() && (#[trigger] self.rooms[k]).given_up ==> {
                &&& !self.rooms[k].listed
                &&& self.rooms[k].requests == 0
                &&& self.rooms[k].room == RoomView::nothing()
            }
        &&& forall|i: int, j: int|
            0 <= i < j < self.rooms.len() && (#[trigger] self.rooms[i]).listed && (
            #[trigger] self.rooms[j]).listed ==> self.rooms[i].room.id != self.rooms[j].room.id
        &&& forall|u: UserKey| #[trigger] self.users.contains_key(u) ==> self.user_sound(u)
        &&& forall|u: UserKey|
            !self.users.contains_key(u) ==> #[trigger] listings(self.rooms, u) == 0
        &&& forall|id: i32| #[trigger] self.registry.contains_key(id) ==> self.id_sound(id)
    }

    /// Every room that nothing leads to any more was given up.
    pub open spec fn tidy(self) -> bool {
        forall|k: int|
            #![trigger self.rooms[k]]
            0 <= k < self.rooms.len() ==> !self.idle(k)
    }

    /// All is in order.
    pub open spec fn wf(self) -> bool {
        &&& self.sound()
        &&& self.tidy()
    }

    /// What the panel of a room lists is counted.
    pub proof fn lemma_counted(self, k: int)
        requires
            self.sound(),
            0 <= k < self.rooms.len(),
        ensures
            self.at(k).counted(),
    {
        let list = self.rooms[k].room.panel.users;
        assert forall|u: UserKey| #[trigger] self.users.contains_key(u) implies times(list, u)
            <= self.users[u].listings <= times(list, u) + most() by {
            lemma_listings_update(self.rooms, k, self.rooms[k], u);
            lemma_listings_bound(self.rooms, u);
        }
        assert forall|u: UserKey| !self.users.contains_key(u) implies #[trigger] times(list, u)
            == 0 by {
            lemma_listings_update(self.rooms, k, self.rooms[k], u);
            assert(listings(self.rooms, u) == 0);
        }
    }

    /// A step in one room that keeps it in order keeps all in order.
    pub proof fn lemma_back_keeps(self, k: usize, s: Scene)
        requires
            self.sound(),
            k < self.rooms.len(),
            !self.rooms[k as int].given_up,
            self.at(k as int).keeps(k, s),
        ensures
            self.back(k as int, s).sound(),
    {
        let w = self.back(k as int, s);
        self.lemma_counted(k as int);
        assert forall|u: UserKey| #[trigger] w.users.contains_key(u) implies w.user_sound(u) by {
            assert(self.users.contains_key(u));
            lemma_listings_update(self.rooms, k as int, w.rooms[k as int], u);
        }
        assert forall|u: UserKey| !w.users.contains_key(u) implies #[trigger] listings(w.rooms, u)
            == 0 by {
            lemma_listings_update(self.rooms, k as int, w.rooms[k as int], u);
            assert(times(s.room.panel.users, u) == 0);
            if self.users.contains_key(u) {
                assert(self.users[u].listings == times(self.rooms[k as int].room.panel.users, u));
            } else {
                assert(listings(self.rooms, u) == 0);
            }
        }
        assert forall|id: i32| #[trigger] w.registry.contains_key(id) implies w.id_sound(id) by {
            assert(self.registry.contains_key(id));
            assert(self.users.contains_key(self.registry[id]));
            assert(w.users.contains_key(w.registry[id]));
        }
    }

    /// Changes to what leads to a room, but not to the room, keep all in order.
    proof fn lemma_slot_keeps(self, k: int, slot: SlotView)
        requires
            self.sound(),
            0 <= k < self.rooms.len(),
            slot.room == self.rooms[k].room,
            slot.listed ==> self.rooms[k].listed,
            slot.given_up == self.rooms[k].given_up,
            slot.given_up ==> slot.requests == 0,
        ensures
            (World { rooms: self.rooms.update(k, slot), ..self }).sound(),
    {
        let w = World { rooms: self.rooms.update(k, slot), ..self };
        assert forall|u: UserKey| #[trigger] listings(w.rooms, u) == listings(self.rooms, u) by {
            lemma_listings_update(self.rooms, k, slot, u);
        }
        assert forall|u: UserKey| #[trigger] w.users.contains_key(u) implies w.user_sound(u) by {
            assert(self.users.contains_key(u));
            assert(listings(w.rooms, u) == listings(self.rooms, u));
        }
        assert forall|id: i32| #[trigger] w.registry.contains_key(id) implies w.id_sound(id) by {
            assert(self.registry.contains_key(id));
        }
    }

    /// Taking a room off the list keeps all in order.
    pub proof fn lemma_unlist_keeps(self, id: Seq<char>)
        requires
            self.sound(),
        ensures
            self.unlist(id).sound(),
            self.unlist(id).rooms.len() == self.rooms.len(),
    {
        lemma_lookup(self.rooms, id);
        if let Some(k) = lookup(self.rooms, id) {
            let slot = SlotView { listed: false, ..self.rooms[k as int] };
            self.lemma_slot_keeps(k as int, slot);
        }
    }

    /// Asking another service keeps all in order, and so does its answer.
    pub proof fn lemma_asked_keeps(self, k: int)
        requires
            self.sound(),
            0 <= k < self.rooms.len(),
            !self.rooms[k].given_up,
        ensures
            self.asked(k).sound(),
            self.answered(k).sound(),
    {
        self.lemma_slot_keeps(k, self.asked(k).rooms[k]);
        self.lemma_slot_keeps(k, self.answered(k).rooms[k]);
    }

    /// [`World::first_idle`] finds a room that nothing leads to any more, if
    /// there is one.
    pub proof fn lemma_first_idle(self, n: int)
        ensures
            self.first_idle(n) matches Some(k) ==> 0 <= k < n && self.idle(k),
            self.first_idle(n) is None ==> forall|k: int|
                #![trigger self.rooms[k]]
                0 <= k < n ==> !self.idle(k),
        decreases n,
    {
        if n > 0 {
            self.lemma_first_idle(n - 1);
        }
    }

    /// What [`World::first_idle`] found stays the first.
    pub proof fn lemma_first_idle_stays(self, m: int, n: int)
        requires
            self.first_idle(m) is Some,
            0 <= m <= n,
        ensures
            self.first_idle(n) == self.first_idle(m),
        decreases n,
    {
        if m < n {
            self.lemma_first_idle_stays(m, n - 1);
        }
    }

    /// Giving a room up that nothing leads to any more keeps all in order.
    pub proof fn lemma_give_up_keeps(self, k: int)
        requires
            self.sound(),
            0 <= k < self.rooms.len(),
            self.idle(k),
        ensures
            self.give_up(k).sound(),
            self.only_gave_up(self.give_up(k)),
    {
        let w = self.give_up(k);
        let list = self.rooms[k].room.panel.users;
        self.lemma_counted(k);
        assert(self.rooms[k].room.wf());
        assert(RoomView::nothing().wf());
        assert forall|u: UserKey|
            #![trigger w.users.contains_key(u)]
            #![trigger self.users.contains_key(u)]
            {
                &&& w.users.contains_key(u) ==> self.users.contains_key(u) && w.users[u] == (User {
                    listings: w.users[u].listings,
                    ..self.users[u]
                })
                &&& w.users.contains_key(u) ==> w.users[u].listings == self.users[u].listings
                    - times(list, u)
                &&& self.users.contains_key(u) && !w.users.contains_key(u)
                    ==> !self.users[u].registered && self.users[u].holds == 0
                    && self.users[u].listings == times(list, u)
            } by {
            if self.users.contains_key(u) {
                assert(self.at(k).users.contains_key(u));
                assert(times(list, u) <= self.users[u].listings);
                lemma_times(list, u);
                assert(self.users[u].listings <= ROOM_MAX_USERS + most());
            }
            lemma_without_listings(self.users, list, u);
        }
        assert forall|u: UserKey| #[trigger] w.users.contains_key(u) implies w.user_sound(u) by {
            assert(self.users.contains_key(u));
            assert(self.user_sound(u));
            lemma_listings_update(self.rooms, k, w.rooms[k], u);
            assert(self.at(k).users.contains_key(u));
            lemma_times(list, u);
            assert(self.users[u].listings <= ROOM_MAX_USERS + most());
            lemma_without_listings(self.users, list, u);
            assert(times(w.rooms[k].room.panel.users, u) == 0);
            assert(self.users[u].room != Some(k as usize));
            if times(list, u) == 0 {
                assert(is_held(self.users[u]));
            }
        }
        assert forall|u: UserKey| !w.users.contains_key(u) implies #[trigger] listings(w.rooms, u)
            == 0 by {
            lemma_listings_update(self.rooms, k, w.rooms[k], u);
            assert(times(w.rooms[k].room.panel.users, u) == 0);
            if self.users.contains_key(u) {
                assert(self.user_sound(u));
            } else {
                assert(listings(self.rooms, u) == 0);
            }
        }
        assert forall|id: i32| #[trigger] w.registry.contains_key(id) implies w.id_sound(id) by {
            assert(self.registry.contains_key(id));
            assert(self.users.contains_key(self.registry[id]));
            assert(w.users.contains_key(w.registry[id]));
        }
    }

    /// From here to `next` rooms were given up at most, and with them users who
    /// were held by nothing but their panels.
    pub open spec fn only_gave_up(self, next: World) -> bool {
        &&& next.rooms.len() == self.rooms.len()
        &&& forall|k: int| 0 <= k < self.rooms.len() ==> {
            let slot = #[trigger] next.rooms[k];
            &&& slot.listed == self.rooms[k].listed
            &&& slot.requests == self.rooms[k].requests
            &&& !slot.given_up ==> slot == self.rooms[k]
            &&& slot.given_up && !self.rooms[k].given_up ==> !self.rooms[k].listed
            &&& self.rooms[k].given_up ==> slot.given_up
        }
        &&& forall|u: UserKey| #[trigger]
            next.users.contains_key(u) ==> self.users.contains_key(u) && next.users[u] == (User {
                listings: next.users[u].listings,
                ..self.users[u]
            }) && next.users[u].listings <= self.users[u].listings
        &&& forall|u: UserKey| #[trigger]
            self.users.contains_key(u) && !next.users.contains_key(u)
                ==> !self.users[u].registered && self.users[u].holds == 0
                && self.users[u].listings > 0
        &&& next == (World { users: next.users, rooms: next.rooms, ..self })
    }

    /// Once all rooms that nothing leads to any more are given up, all is in
    /// order.
    pub proof fn lemma_settled(self)
        requires
            self.sound(),
        ensures
            self.settled().wf(),
            self.only_gave_up(self.settled()),
            self.tidy() ==> self.settled() == self,
        decreases kept(self.rooms),
    {
        self.lemma_first_idle(self.rooms.len() as int);
        if let Some(k) = self.first_idle(self.rooms.len() as int) {
            let mid = self.give_up(k);
            let next = mid.settled();
            assert(self.idle(k) && self.rooms[k].room.wf());
            lemma_kept(self.rooms, k, mid.rooms[k]);
            self.lemma_give_up_keeps(k);
            mid.lemma_settled();
            assert forall|u: UserKey| #[trigger] next.users.contains_key(u) implies (
            self.users.contains_key(u) && next.users[u] == (User {
                listings: next.users[u].listings,
                ..self.users[u]
            }) && next.users[u].listings <= self.users[u].listings) by {
                assert(mid.users.contains_key(u));
            }
            assert forall|u: UserKey| #[trigger]
                self.users.contains_key(u) && !next.users.contains_key(u) implies (
            !self.users[u].registered && self.users[u].holds == 0 && self.users[u].listings > 0) by {
                if mid.users.contains_key(u) {
                    assert(mid.users[u].listings <= self.users[u].listings);
                }
            }
            assert forall|j: int| 0 <= j < self.rooms.len() implies {
                let slot = #[trigger] next.rooms[j];
                &&& slot.listed == self.rooms[j].listed
                &&& slot.requests == self.rooms[j].requests
                &&& !slot.given_up ==> slot == self.rooms[j]
                &&& slot.given_up && !self.rooms[j].given_up ==> !self.rooms[j].listed
                &&& self.rooms[j].given_up ==> slot.given_up
            } by {
                assert(mid.rooms[j].listed == self.rooms[j].listed);
            }
        }
    }

    /// As long as nobody goes or leaves their room, no room is given up.
    pub proof fn lemma_stays_tidy(self, next: World)
        requires
            self.tidy(),
            next.rooms == self.rooms,
            forall|u: UserKey| #[trigger]
                self.users.contains_key(u) ==> next.users.contains_key(u) && next.users[u].room
                    == self.users[u].room,
        ensures
            next.tidy(),
            next.settled() == next,
    {
        assert forall|k: int|
            #![trigger next.rooms[k]]
            0 <= k < next.rooms.len() implies !next.idle(k) by {
            assert(self.rooms[k] == next.rooms[k]);
            assert(!self.idle(k));
            if anyone_in(self.users, k as usize) {
                let u = choose|u: UserKey| #[trigger]
                    self.users.contains_key(u) && self.users[u].room == Some(k as usize);
                assert(next.users.contains_key(u));
            }
        }
        next.lemma_first_idle(next.rooms.len() as int);
    }

    /// A fault changes nothing about which rooms are given up.
    pub proof fn lemma_settled_fault(self, fault: Option<Fault>)
        ensures
            (World { fault, ..self }).settled() == (World { fault, ..self.settled() }),
        decreases kept(self.rooms),
    {
        let w = World { fault, ..self };
        let n = self.rooms.len() as int;
        self.lemma_same_idle(w, n);
        self.lemma_first_idle(n);
        if let Some(k) = self.first_idle(n) {
            lemma_kept(self.rooms, k, self.give_up(k).rooms[k]);
            assert(w.give_up(k) == (World { fault, ..self.give_up(k) }));
            self.give_up(k).lemma_settled_fault(fault);
        }
    }

    proof fn lemma_same_idle(self, w: World, n: int)
        requires
            w.users == self.users,
            w.rooms == self.rooms,
        ensures
            w.first_idle(n) == self.first_idle(n),
        decreases n,
    {
        if n > 0 {
            self.lemma_same_idle(w, n - 1);
        }
    }

    /// A fault has no part in the order.
    pub proof fn lemma_without_fault_sound(self)
        requires
            self.sound(),
        ensures
            (World { fault: None, ..self }).sound(),
    {
        let w = World { fault: None, ..self };
        assert forall|u: UserKey| #[trigger] w.users.contains_key(u) implies w.user_sound(u) by {
            assert(self.user_sound(u));
        }
        assert forall|id: i32| #[trigger] w.registry.contains_key(id) implies w.id_sound(id) by {
            assert(self.id_sound(id));
        }
    }

    /// A fault has no part in the order.
    pub proof fn lemma_without_fault_wf(self)
        requires
            self.wf(),
        ensures
            (World { fault: None, ..self }).wf(),
    {
        let w = World { fault: None, ..self };
        self.lemma_without_fault_sound();
        assert forall|k: int|
            #![trigger w.rooms[k]]
            0 <= k < w.rooms.len() implies !w.idle(k) by {
            assert(!self.idle(k));
        }
    }

    /// Whoever leaves, all stays in order.
    pub proof fn lemma_leave_at_keeps(self, user: UserKey, k: usize, pick: nat, now: u64)
        requires
            self.sound(),
            k < self.rooms.len(),
            !self.rooms[k as int].given_up,
        ensures
            self.leave_at(user, k as int, pick, now).sound(),
    {
        let s = self.at(k as int).leave(user, pick, now);
        let id = self.rooms[k as int].room.id;
        assert(self.rooms[k as int].room.wf());
        self.at(k as int).lemma_leave_keeps(user, pick, now);
        self.at(k as int).lemma_company_keeps(k, s);
        self.lemma_back_keeps(k, s);
        self.back(k as int, s).lemma_unlist_keeps(id);
    }

    /// Changing what is known of one user, but not who they are or where, keeps
    /// all in order.
    pub proof fn lemma_change_keeps(self, key: UserKey, u: User)
        requires
            self.sound(),
            self.users.contains_key(key),
            u.id == self.users[key].id,
            u.registered == self.users[key].registered,
            u.room == self.users[key].room,
            u.listings == self.users[key].listings,
            is_held(u),
        ensures
            (World { users: self.users.insert(key, u), ..self }).sound(),
    {
        let w = World { users: self.users.insert(key, u), ..self };
        assert forall|x: UserKey| #[trigger] w.users.contains_key(x) implies w.user_sound(x) by {
            assert(self.users.contains_key(x));
            assert(self.user_sound(key));
        }
        assert forall|id: i32| #[trigger] w.registry.contains_key(id) implies w.id_sound(id) by {
            assert(self.registry.contains_key(id));
        }
    }

    /// One hold more or less keeps all in order.
    pub proof fn lemma_hold_keeps(self, user: UserKey)
        requires
            self.sound(),
        ensures
            self.hold(user).sound(),
            self.release(user).sound(),
    {
        if self.users.contains_key(user) {
            let held = self.hold(user);
            self.lemma_change_keeps(user, held.users[user]);
            let w = self.release(user);
            if w.users.contains_key(user) {
                self.lemma_change_keeps(user, w.users[user]);
            } else {
                assert(self.user_sound(user));
                assert forall|id: i32| #[trigger] w.registry.contains_key(id) implies w.id_sound(
                    id,
                ) by {
                    assert(self.registry.contains_key(id));
                }
                assert forall|x: UserKey| #[trigger] w.users.contains_key(x) implies w.user_sound(
                    x,
                ) by {
                    assert(self.users.contains_key(x));
                }
            }
        }
    }

    /// Letting a user go keeps all in order.
    pub proof fn lemma_unregister_keeps(self, id: i32)
        requires
            self.sound(),
        ensures
            self.unregister(id).sound(),
    {
        let w = self.unregister(id);
        if self.registry.contains_key(id) {
            let gone = self.registry[id];
            assert(self.id_sound(id));
            assert(self.user_sound(gone));
            assert forall|x: UserKey| #[trigger] w.users.contains_key(x) implies w.user_sound(
                x,
            ) by {
                assert(self.users.contains_key(x));
                assert(self.user_sound(x));
            }
            assert forall|i: i32| #[trigger] w.registry.contains_key(i) implies w.id_sound(i) by {
                assert(self.registry.contains_key(i));
                assert(self.id_sound(i));
                assert(self.registry[i] != gone);
            }
        }
    }

    /// Putting a user out for good keeps all in order.
    pub proof fn lemma_expel_keeps(self, user: UserKey, k: usize, pick: nat, now: u64)
        requires
            self.sound(),
            k < self.rooms.len(),
            !self.rooms[k as int].given_up,
        ensures
            self.expel(user, k as int, pick, now).sound(),
    {
        let id = id_of(self.users, user);
        self.lemma_unregister_keeps(id);
        self.unregister(id).lemma_leave_at_keeps(user, k, pick, now);
    }

    /// A new room keeps all in order.
    pub proof fn lemma_create_room_keeps(self, user: UserKey, id: Seq<char>, now: u64)
        requires
            self.sound(),
            self.create_room(user, id, now).0.rooms.len() <= usize::MAX,
            self.users.contains_key(user),
        ensures
            self.create_room(user, id, now).0.sound(),
    {
        let w = self.create_room(user, id, now).0;
        lemma_lookup(self.rooms, room_id(id));
        if self.room_of(user) is None && lookup(self.rooms, room_id(id)) is None {
            let n = self.rooms.len() as usize;
            assert(w.users == with_room(self.users, user, Some(n)));
            assert(w.rooms.drop_last() =~= self.rooms);
            let new = w.rooms[n as int].room;
            assert(new == RoomView { host_time: now, ..RoomView::fresh(room_id(id), user) });
            assert forall|u: UserKey| #[trigger] listings(w.rooms, u) == listings(
                self.rooms,
                u,
            ) by {
                assert(times(new.panel.users, u) == 0);
            }
            assert forall|u: UserKey| #[trigger] w.users.contains_key(u) implies w.user_sound(
                u,
            ) by {
                assert(self.users.contains_key(u));
                assert(self.user_sound(u));
                assert(listings(w.rooms, u) == listings(self.rooms, u));
                if let Some(j) = self.users[u].room {
                    assert(w.rooms[j as int] == self.rooms[j as int]);
                }
            }
            assert forall|i: i32| #[trigger] w.registry.contains_key(i) implies w.id_sound(i) by {
                assert(self.registry.contains_key(i));
            }
            assert forall|j: int| 0 <= j < w.rooms.len() implies (
            #[trigger] w.rooms[j]).room.wf() by {
                if j < n {
                    assert(w.rooms[j] == self.rooms[j]);
                }
            }
            assert forall|j: int| 0 <= j < w.rooms.len() && (#[trigger] w.rooms[j]).given_up implies {
                &&& !w.rooms[j].listed
                &&& w.rooms[j].requests == 0
                &&& w.rooms[j].room == RoomView::nothing()
            } by {
                assert(w.rooms[j] == self.rooms[j]);
            }
            assert forall|i: int, j: int|
                0 <= i < j < w.rooms.len() && (#[trigger] w.rooms[i]).listed && (
                #[trigger] w.rooms[j]).listed implies w.rooms[i].room.id != w.rooms[j].room.id by {
                assert(w.rooms[i] == self.rooms[i]);
                if j < n {
                    assert(w.rooms[j] == self.rooms[j]);
                }
            }
        }
    }

    /// Every command keeps all in order, whatever chance decides, as long as
    /// there are places left to count.
    pub proof fn law_process_keeps(
        self,
        user: UserKey,
        cmd: ClientCommand,
        picks: Seq<nat>,
        now: u64,
    )
        requires
            self.wf(),
            self.users.contains_key(user),
            self.process(user, cmd, picks, now).0.rooms.len() <= usize::MAX,
        ensures
            self.process(user, cmd, picks, now).0.wf(),
    {
        let w = self.serve(user, cmd, picks, now).0;
        w.lemma_settled_len();
        self.lemma_serve_keeps(user, cmd, picks, now);
        w.lemma_settled();
    }

    proof fn lemma_settled_len(self)
        ensures
            self.settled().rooms.len() == self.rooms.len(),
        decreases kept(self.rooms),
    {
        self.lemma_first_idle(self.rooms.len() as int);
        if let Some(k) = self.first_idle(self.rooms.len() as int) {
            lemma_kept(self.rooms, k, self.give_up(k).rooms[k]);
            self.give_up(k).lemma_settled_len();
        }
    }

    /// So does carrying a command out, but for rooms that nothing leads to any
    /// more.
    pub proof fn lemma_serve_keeps(
        self,
        user: UserKey,
        cmd: ClientCommand,
        picks: Seq<nat>,
        now: u64,
    )
        requires
            self.sound(),
            self.users.contains_key(user),
            self.serve(user, cmd, picks, now).0.rooms.len() <= usize::MAX,
        ensures
            self.serve(user, cmd, picks, now).0.sound(),
    {
        self.lemma_hold_keeps(user);
        if let ClientCommand::CreateRoom { id } = cmd {
            self.lemma_create_room_keeps(user, id@, now);
        }
        if let ClientCommand::JoinRoom { id, monitor } = cmd {
            lemma_lookup(self.rooms, room_id(id@));
            if let Some(k) = lookup(self.rooms, room_id(id@)) {
                let s = self.at(k as int);
                assert(self.rooms[k as int].room.wf());
                let public = !is_custom(id@);
                s.lemma_join_keeps(k, user, monitor, public, picks, now);
                self.lemma_back_keeps(k, s.join(user, k, monitor, public, picks, now).0);
            }
        }
        if let Some(k) = self.room_of(user) {
            let s = self.at(k as int);
            assert(self.user_sound(user));
            assert(self.rooms[k as int].room.wf());
            self.lemma_asked_keeps(k as int);
            self.asked(k as int).lemma_hold_keeps(user);
            match cmd {
                ClientCommand::Chat { message } => {
                    self.lemma_back_keeps(k, s.chat(user, message@));
                },
                ClientCommand::Touches { frames } => {
                    s.lemma_touches_keeps(k, user, frames@);
                    self.lemma_back_keeps(k, s.touches(user, frames@));
                },
                ClientCommand::Judges { judges } => self.lemma_back_keeps(
                    k,
                    s.judges(user, judges@),
                ),
                ClientCommand::LeaveRoom => {
                    self.lemma_leave_at_keeps(user, k, picks[0], now);
                },
                ClientCommand::LockRoom { .. } => {
                    s.lemma_press_keeps(k, user, false);
                    self.lemma_back_keeps(k, s.press(user, false).0);
                },
                ClientCommand::CycleRoom { .. } => {
                    s.lemma_press_keeps(k, user, true);
                    self.lemma_back_keeps(k, s.press(user, true).0);
                },
                ClientCommand::RequestStart => {
                    s.lemma_request_start_keeps(k, user, picks[0], now);
                    self.lemma_back_keeps(k, s.request_start(user, picks[0], now).0);
                },
                ClientCommand::Ready => {
                    s.lemma_ready_keeps(k, user, picks, now);
                    self.lemma_back_keeps(k, s.ready(user, picks, now).0);
                },
                ClientCommand::CancelReady => {
                    self.lemma_back_keeps(k, s.cancel_ready(user, now).0);
                },
                ClientCommand::Abort => {
                    s.lemma_abort_keeps(k, user, picks, now);
                    self.lemma_back_keeps(k, s.abort(user, picks, now).0);
                },
                _ => {},
            }
        }
    }

    /// So does the arrival of what a command asked another service for.
    pub proof fn law_fetched_keeps(
        self,
        user: UserKey,
        k: usize,
        chart: Result<Chart, Seq<char>>,
        record: Result<Record, Seq<char>>,
        picks: Seq<nat>,
        now: u64,
    )
        requires
            self.sound(),
            k < self.rooms.len(),
            !self.rooms[k as int].given_up,
        ensures
            self.chart_fetched(user, k as int, chart).0.wf(),
            self.record_fetched(user, k as int, record, picks, now).0.wf(),
    {
        let s = self.at(k as int);
        assert(self.rooms[k as int].room.wf());
        self.lemma_request_over_keeps(user, k as int);
        if let Ok(chart) = chart {
            self.lemma_back_keeps(k, s.select(user, chart));
            self.back(k as int, s.select(user, chart)).lemma_request_over_keeps(user, k as int);
        }
        if let Ok(record) = record {
            let t = s.played(user, record, picks, now).0;
            s.lemma_played_keeps(k, user, record, picks, now);
            self.lemma_back_keeps(k, t);
            self.back(k as int, t).lemma_request_over_keeps(user, k as int);
        }
    }

    proof fn lemma_request_over_keeps(self, user: UserKey, k: int)
        requires
            self.sound(),
            0 <= k < self.rooms.len(),
            !self.rooms[k].given_up,
        ensures
            self.answered(k).release(user).settled().wf(),
    {
        self.lemma_asked_keeps(k);
        self.answered(k).lemma_hold_keeps(user);
        self.answered(k).release(user).lemma_settled();
    }

    /// So do coming in, and being lost.
    pub proof fn law_sessions_keep(
        self,
        session: u128,
        id: i32,
        name: String,
        lang: String,
        user: UserKey,
        mark: u64,
        pick: nat,
        now: u64,
    )
        requires
            self.wf(),
            self.next_key < u64::MAX,
        ensures
            self.sign_in(session, id, name, lang).wf(),
            self.dangle(user, pick, now).0.wf(),
            self.dangle_expired(user, mark, pick, now).wf(),
            self.hang_up(user, session, pick, now).0.wf(),
    {
        self.lemma_sign_in_keeps(session, id, name, lang);
        self.lemma_dangle_keeps(user, pick, now);
        self.lemma_dangle_expired_keeps(user, mark, pick, now);
        self.lemma_hang_up_keeps(user, session, pick, now);
    }

    /// Coming in keeps all in order.
    pub proof fn lemma_sign_in_keeps(self, session: u128, id: i32, name: String, lang: String)
        requires
            self.wf(),
            self.next_key < u64::MAX,
        ensures
            self.sign_in(session, id, name, lang).wf(),
            self.sign_in(session, id, name, lang).users.contains_key(self.key_for(id)),
    {
        let key = self.key_for(id);
        let w = self.sign_in(session, id, name, lang);
        if self.registry.contains_key(id) {
            assert(self.id_sound(id));
            self.lemma_change_keeps(key, w.users[key]);
        } else {
            if self.users.contains_key(key) {
                assert(self.user_sound(key));
            }
            assert(listings(self.rooms, key) == 0);
            assert forall|x: UserKey| #[trigger] w.users.contains_key(x) implies w.user_sound(
                x,
            ) by {
                if x != key {
                    assert(self.users.contains_key(x));
                    assert(self.user_sound(x));
                }
            }
            assert forall|i: i32| #[trigger] w.registry.contains_key(i) implies w.id_sound(i) by {
                if i != id {
                    assert(self.registry.contains_key(i));
                    assert(self.id_sound(i));
                }
            }
        }
        assert forall|k: int|
            #![trigger w.rooms[k]]
            0 <= k < w.rooms.len() implies !w.idle(k) by {
            assert(!self.idle(k));
            if anyone_in(self.users, k as usize) {
                let u = choose|u: UserKey| #[trigger]
                    self.users.contains_key(u) && self.users[u].room == Some(k as usize);
                assert(w.users.contains_key(u));
            }
        }
    }

    /// Being lost keeps all in order, but for rooms that nothing leads to any
    /// more.
    pub proof fn lemma_lose_keeps(self, user: UserKey, pick: nat, now: u64)
        requires
            self.sound(),
        ensures
            self.lose(user, pick, now).0.sound(),
    {
        if self.users.contains_key(user) {
            let w = self.hold(user);
            self.lemma_hold_keeps(user);
            assert(self.user_sound(user));
            if let Some(k) = self.users[user].room {
                w.lemma_expel_keeps(user, k, pick, now);
                w.expel(user, k as int, pick, now).lemma_hold_keeps(user);
            }
            let u = User { dangle_mark: Some(self.next_mark), ..w.users[user] };
            w.lemma_change_keeps(user, u);
            let waiting = World { users: w.users.insert(user, u), ..w };
            let after = self.lose(user, pick, now).0;
            if after == (World { next_mark: after.next_mark, ..waiting }) {
                after.lemma_same_sound(waiting);
            }
        }
    }

    /// The mark of the next wait has no part in the order.
    proof fn lemma_same_sound(self, w: World)
        requires
            w.sound(),
            self == (World { next_mark: self.next_mark, ..w }),
        ensures
            self.sound(),
    {
        assert forall|u: UserKey| #[trigger] self.users.contains_key(u) implies self.user_sound(
            u,
        ) by {
            assert(w.user_sound(u));
        }
        assert forall|id: i32| #[trigger] self.registry.contains_key(id) implies self.id_sound(
            id,
        ) by {
            assert(w.id_sound(id));
        }
    }

    /// Being lost keeps all in order.
    pub proof fn lemma_dangle_keeps(self, user: UserKey, pick: nat, now: u64)
        requires
            self.sound(),
        ensures
            self.dangle(user, pick, now).0.wf(),
    {
        self.lemma_lose_keeps(user, pick, now);
        self.lose(user, pick, now).0.lemma_settled();
    }

    /// The end of a wait keeps all in order.
    pub proof fn lemma_dangle_expired_keeps(self, user: UserKey, mark: u64, pick: nat, now: u64)
        requires
            self.sound(),
        ensures
            self.dangle_expired(user, mark, pick, now).wf(),
    {
        self.lemma_hold_keeps(user);
        self.release(user).lemma_settled();
        if self.users.contains_key(user) {
            assert(self.user_sound(user));
            if let Some(k) = self.users[user].room {
                let w = self.expel(user, k as int, pick, now);
                self.lemma_expel_keeps(user, k, pick, now);
                w.lemma_hold_keeps(user);
                w.release(user).lemma_settled();
            }
        }
    }

    /// The loss of a connection keeps all in order.
    pub proof fn lemma_hang_up_keeps(self, user: UserKey, session: u128, pick: nat, now: u64)
        requires
            self.sound(),
        ensures
            self.hang_up(user, session, pick, now).0.wf(),
    {
        self.lemma_hold_keeps(user);
        self.release(user).lemma_settled();
        if self.users.contains_key(user) {
            let u = User { session: None, ..self.users[user] };
            assert(self.user_sound(user));
            self.lemma_change_keeps(user, u);
            let w = World { users: self.users.insert(user, u), ..self };
            w.lemma_lose_keeps(user, pick, now);
            let lost = w.lose(user, pick, now).0;
            lost.lemma_hold_keeps(user);
            lost.release(user).lemma_settled();
        }
    }
}

} // verus!

//! The server: the users whom it knows, the rooms, and what it does at each
//! command.
use vstd::prelude::*;
use std::collections::HashMap;
use crate::commands::join_view;
use crate::keys::{copy_keys, UserKey};
use crate::order::lemma_lookup;
use crate::outbox::{Effect, Outbox};
use crate::protocol::{
    answer_view, refuse, ClientCommand, ClientRoomState, JoinRoomResponse, JudgeEvent, Message,
    Refusal, RefusalView, ServerCommand, ServerCommandView, TextKey, TouchFrame, UserInfo,
};
use crate::ranking::Record;
use crate::room::{Chart, Fault, InternalRoomState, Room};
use crate::scene::{scene, scene_after, Scene};
use crate::text::{join_texts, same_text, texts};
use crate::users::{User, UserTable};
use crate::world::{
    is_custom, kept, lemma_kept, lookup, public_ids, public_rooms_text, quoted, room_id,
    OutcomeView, SlotView, World,
};

verus! {

/// A room, whether it can still be found by its id, how many requests to other
/// services are under way for it, and whether it was given up.
pub struct Slot {
    pub room: Room,
    pub listed: bool,
    pub requests: u64,
    pub given_up: bool,
}

impl View for Slot {
    type V = SlotView;

    open spec fn view(&self) -> SlotView {
        SlotView {
            room: self.room@,
            listed: self.listed,
            requests: self.requests,
            given_up: self.given_up,
        }
    }
}

/// The state of the server: the users who are there, those whom it knows by
/// their ids, the rooms, and what it is about to do.
pub struct ServerState {
    pub users: UserTable,
    pub registry: HashMap<i32, UserKey>,
    pub next_key: UserKey,
    pub rooms: Vec<Slot>,
    pub next_mark: u64,
    pub out: Outbox,
}

impl View for ServerState {
    type V = World;

    open spec fn view(&self) -> World {
        World {
            users: self.users@,
            registry: self.registry@,
            next_key: self.next_key,
            rooms: self.rooms@.map_values(|slot: Slot| slot@),
            next_mark: self.next_mark,
            out: self.out@,
            fault: None,
        }
    }
}

/// The world after a call that can fail.
pub open spec fn world_after<T>(server: ServerState, r: Result<T, Fault>) -> World {
    World {
        fault: match r {
            Ok(_) => None,
            Err(fault) => Some(fault),
        },
        ..server@
    }
}

/// What a command leads to: a reply, or a request to another service whose
/// answer decides.
#[derive(Debug, PartialEq, Eq)]
pub enum Outcome {
    /// This goes back to the client, if anything does.
    Reply(Option<ServerCommand>),
    /// The chart with this id is to be fetched and handed to
    /// [`ServerState::chart_fetched`], for the room at this place.
    FetchChart { id: i32, room: usize },
    /// The record with this id is to be fetched and handed to
    /// [`ServerState::record_fetched`], for the room at this place.
    FetchRecord { id: i32, room: usize },
}

impl View for Outcome {
    type V = OutcomeView;

    open spec fn view(&self) -> OutcomeView {
        match *self {
            Outcome::Reply(Some(cmd)) => OutcomeView::Reply(Some(cmd@)),
            Outcome::Reply(None) => OutcomeView::Reply(None),
            Outcome::FetchChart { id, room } => OutcomeView::FetchChart { id, room },
            Outcome::FetchRecord { id, room } => OutcomeView::FetchRecord { id, room },
        }
    }
}

/// The text of a failed request to another service.
pub open spec fn fetched_view<T>(r: Result<T, String>) -> Result<T, Seq<char>> {
    match r {
        Ok(t) => Ok(t),
        Err(text) => Err(text@),
    }
}

/// Tells whether an id is one that users may give to a room of their own.
fn custom(id: &str) -> (r: bool)
    ensures
        r == is_custom(id@),
{
    if id.unicode_len() < 3 {
        return false;
    }
    assert(id@.subrange(0, 3) =~= id@.take(3));
    same_text(id.substring_char(0, 3), "cus")
}

/// The id of the room that a user gets who asks for `id`.
fn target(id: &str) -> (r: String)
    ensures
        r@ == room_id(id@),
{
    if custom(id) {
        id.to_string()
    } else {
        "public".to_string()
    }
}

impl ServerState {
    /// The scene in the room at place `k` after a call that can fail.
    pub open spec fn scene_in<T>(self, k: int, r: Result<T, Fault>) -> Scene {
        scene_after(self.rooms@[k].room, self.users, self.out, r)
    }

    /// A server that knows nobody.
    pub fn new() -> (r: Self)
        ensures
            r@ == (World {
                users: Map::empty(),
                registry: Map::empty(),
                next_key: 0,
                rooms: Seq::empty(),
                next_mark: 0,
                out: Seq::empty(),
                fault: None,
            }),
            r@.wf(),
    {
        let r = ServerState {
            users: UserTable::new(),
            registry: HashMap::new(),
            next_key: 0,
            rooms: Vec::new(),
            next_mark: 0,
            out: Outbox::new(),
        };
        assert(r@.rooms =~= Seq::empty());
        r
    }

    /// The place of the room that is listed under an id.
    pub fn find(&self, id: &str) -> (r: Option<usize>)
        ensures
            r == lookup(self@.rooms, id@),
    {
        let ghost all = self@.rooms;
        let mut r: Option<usize> = None;
        let mut i: usize = 0;
        assert(all.take(0) =~= Seq::empty());
        while i < self.rooms.len()
            invariant
                i <= self.rooms.len(),
                all == self@.rooms,
                r == lookup(all.take(i as int), id@),
            decreases self.rooms.len() - i,
        {
            assert(all.take(i + 1).drop_last() =~= all.take(i as int));
            assert(all.take(i + 1).last() == all[i as int]);
            if r.is_none() && self.rooms[i].listed && same_text(self.rooms[i].room.id.as_str(), id) {
                r = Some(i);
            }
            i = i + 1;
        }
        assert(all.take(i as int) =~= all);
        r
    }

    /// Takes the room that is listed under an id off the list.
    fn unlist(&mut self, id: &str)
        requires
            old(self)@.sound(),
        ensures
            final(self)@ == old(self)@.unlist(id@),
    {
        proof {
            lemma_lookup(self@.rooms, id@);
        }
        match self.find(id) {
            Some(k) => {
                self.rooms[k].listed = false;
            },
            None => {},
        }
        assert(self@ =~= old(self)@.unlist(id@));
    }

    /// Finds a room that nothing leads to any more.
    fn find_idle(&self) -> (r: Option<usize>)
        ensures
            match r {
                Some(k) => self@.first_idle(self@.rooms.len() as int) == Some(k as int),
                None => self@.first_idle(self@.rooms.len() as int) is None,
            },
    {
        let mut i: usize = 0;
        while i < self.rooms.len()
            invariant
                i <= self.rooms.len(),
                self@.rooms.len() == self.rooms.len(),
                self@.first_idle(i as int) is None,
            decreases self.rooms.len() - i,
        {
            let slot: &Slot = &self.rooms[i];
            assert(self@.rooms[i as int] == slot@);
            if !slot.given_up && !slot.listed && slot.requests == 0 && !self.users.anyone_in(i) {
                proof {
                    assert(self@.first_idle(i + 1) == Some(i as int));
                    self@.lemma_first_idle_stays(i + 1, self@.rooms.len() as int);
                }
                return Some(i);
            }
            i = i + 1;
        }
        None
    }

    /// Gives the room at place `k` up.
    fn give_up(&mut self, k: usize)
        requires
            k < old(self)@.rooms.len(),
        ensures
            final(self)@ == old(self)@.give_up(k as int),
    {
        let ghost w0 = self@;
        let list: Vec<UserKey> = copy_keys(&self.rooms[k].room.panel.users);
        self.users.unlist_all(&list);
        self.rooms[k].room = Room::nothing();
        self.rooms[k].given_up = true;
        assert(self@ =~= w0.give_up(k as int));
    }

    /// Gives every room up that nothing leads to any more.
    fn settle(&mut self)
        ensures
            final(self)@ == old(self)@.settled(),
    {
        loop
            invariant
                self@.settled() == old(self)@.settled(),
            decreases kept(self@.rooms),
        {
            proof {
                self@.lemma_first_idle(self@.rooms.len() as int);
            }
            match self.find_idle() {
                Some(k) => {
                    proof {
                        lemma_kept(self@.rooms, k as int, self@.give_up(k as int).rooms[k as int]);
                    }
                    self.give_up(k);
                },
                None => {
                    return;
                },
            }
        }
    }

    /// The key of the user whom the server knows by an id.
    pub fn key_of(&self, id: i32) -> (r: Option<UserKey>)
        ensures
            r == if self@.registry.contains_key(id) {
                Some(self@.registry[id])
            } else {
                None
            },
    {
        match self.registry.get(&id) {
            Some(key) => Some(*key),
            None => None,
        }
    }

    /// Lets the user go whom the server knows by an id.
    fn unregister(&mut self, id: i32)
        ensures
            final(self)@ == old(self)@.unregister(id),
    {
        match self.registry.remove(&id) {
            Some(key) => self.users.unregister(key),
            None => {},
        }
        assert(self@ =~= old(self)@.unregister(id));
    }

    /// Says what a user says.
    fn chat(&mut self, user: UserKey, message: &str) -> (r: Result<(), Refusal>)
        requires
            old(self)@.sound(),
        ensures
            (final(self)@, answer_view(r)) == old(self)@.chat(user, message@),
    {
        match self.users.room(user) {
            None => Err(refuse("no room")),
            Some(k) => {
                assert(self@.user_sound(user));
                self.rooms[k].room.chat(&self.users, &mut self.out, user, message);
                assert(self@ =~= old(self)@.back(k as int, self.scene_in::<()>(k as int, Ok(()))));
                Ok(())
            },
        }
    }

    /// Shows what a user touched to the monitors.
    fn touches(&mut self, user: UserKey, frames: Vec<TouchFrame>)
        requires
            old(self)@.sound(),
        ensures
            final(self)@ == match old(self)@.room_of(user) {
                None => old(self)@,
                Some(k) => old(self)@.back(
                    k as int,
                    old(self)@.at(k as int).touches(user, frames@),
                ),
            },
    {
        match self.users.room(user) {
            None => {},
            Some(k) => {
                self.rooms[k].room.touches(&mut self.users, &mut self.out, user, frames);
                assert(self@ =~= old(self)@.back(k as int, self.scene_in::<()>(k as int, Ok(()))));
            },
        }
    }

    /// Shows how a user's notes were judged to the monitors.
    fn judges(&mut self, user: UserKey, judges: Vec<JudgeEvent>)
        requires
            old(self)@.sound(),
        ensures
            final(self)@ == match old(self)@.room_of(user) {
                None => old(self)@,
                Some(k) => old(self)@.back(
                    k as int,
                    old(self)@.at(k as int).judges(user, judges@),
                ),
            },
    {
        match self.users.room(user) {
            None => {},
            Some(k) => {
                self.rooms[k].room.judges(&self.users, &mut self.out, user, judges);
                assert(self@ =~= old(self)@.back(k as int, self.scene_in::<()>(k as int, Ok(()))));
            },
        }
    }

    /// Lets a user create a room.
    fn create_room(&mut self, user: UserKey, id: &str, now: u64) -> (r: Result<(), Refusal>)
        requires
            old(self)@.sound(),
            old(self)@.users.contains_key(user),
        ensures
            (final(self)@, answer_view(r)) == old(self)@.create_room(user, id@, now),
    {
        let ghost w0 = self@;
        let public: bool = !custom(id);
        let id2: String = target(id);
        if self.users.room(user).is_some() {
            return Err(refuse("你已经在房间中了"));
        }
        if self.find(id2.as_str()).is_some() {
            if public {
                return Err(refuse("用户创建的房间ID必须以cus开头"));
            }
            return Err(Refusal::Localized(TextKey::CreateIdOccupied));
        }
        let mut room: Room = Room::new(id2, user);
        room.send(&self.users, Message::CreateRoom { user: self.users.id(user) }, &mut self.out);
        if public {
            room.send_as_server(
                &self.users,
                "感谢创建该服务器的public房间! 本服务器使用由BZLZHH修改的服务端\n若您不想创建public房间,请重新创建一个房间号以cus开头的房间".to_string(),
                &mut self.out,
            );
        } else {
            room.send_as_server(
                &self.users,
                "欢迎创建房间! 本服务器使用由BZLZHH修改的服务端".to_string(),
                &mut self.out,
            );
            room.send_as_server(
                &self.users,
                "提示:使用房主面板开启公开房间,可以让其他人看到此房间哦".to_string(),
                &mut self.out,
            );
        }
        let hinted = room.send_as_server_to_host(
            &self.users,
            "\n[重要] 房主面板(开始游戏=确定;锁定房间=↑;循环模式=↓):\n".to_string(),
            &mut self.out,
        );
        assert(hinted is Ok);
        room.reset_host_time(now);
        let k: usize = self.rooms.len();
        self.rooms.push(Slot { room, listed: true, requests: 0, given_up: false });
        self.users.set_room(user, Some(k));
        assert(self@ =~= w0.create_room(user, id@, now).0);
        Ok(())
    }

    /// Lets a user join a room.
    fn join_room(&mut self, user: UserKey, id: &str, monitor: bool, now: u64) -> (r: Result<
        Result<JoinRoomResponse, Refusal>,
        Fault,
    >)
        requires
            old(self)@.sound(),
            old(self)@.users.contains_key(user),
        ensures
            exists|picks: Seq<nat>|
                world_after(*final(self), r) == (#[trigger] old(self)@.join_room(
                    user,
                    id@,
                    monitor,
                    picks,
                    now,
                )).0 && (r matches Ok(answer) ==> join_view(answer) == old(self)@.join_room(
                    user,
                    id@,
                    monitor,
                    picks,
                    now,
                ).1),
    {
        let ghost w0 = self@;
        let ghost none = Seq::<nat>::empty();
        let public: bool = !custom(id);
        let id2: String = target(id);
        if self.users.room(user).is_some() {
            assert(w0.join_room(user, id@, monitor, none, now).0 == w0);
            return Ok(Err(refuse("你已经在房间中了")));
        }
        proof {
            lemma_lookup(self@.rooms, id2@);
        }
        match self.find(id2.as_str()) {
            None => {
                assert(w0.join_room(user, id@, monitor, none, now).0 == w0);
                Ok(
                    Err(
                        refuse(
                            "房间不存在\n你也可以输入不以cus开头的任意房间ID以加入公共房间\n(若你尝试加入public房间仍提示不存在,请创建public房间)",
                        ),
                    ),
                )
            },
            Some(k) => {
                let ghost s0 = w0.at(k as int);
                let room: &mut Room = &mut self.rooms[k].room;
                let r = room.join(
                    &mut self.users,
                    &mut self.out,
                    user,
                    k,
                    monitor,
                    public,
                    now,
                );
                proof {
                    let s1 = self.scene_in(k as int, r);
                    let picks = choose|picks: Seq<nat>|
                        s1 == (#[trigger] s0.join(user, k, monitor, public, picks, now)).0 && (
                        r matches Ok(answer) ==> join_view(answer) == s0.join(
                            user,
                            k,
                            monitor,
                            public,
                            picks,
                            now,
                        ).1);
                    assert(world_after(*self, r) =~= w0.back(k as int, s1));
                    assert(world_after(*self, r) == w0.join_room(
                        user,
                        id@,
                        monitor,
                        picks,
                        now,
                    ).0);
                }
                r
            },
        }
    }

    /// Takes a user out of the room at place `k`.
    fn leave_at(&mut self, user: UserKey, k: usize, now: u64) -> (r: Result<(), Fault>)
        requires
            old(self)@.sound(),
            k < old(self)@.rooms.len(),
            !old(self)@.rooms[k as int].given_up,
        ensures
            exists|pick: nat|
                world_after(*final(self), r) == #[trigger] old(self)@.leave_at(
                    user,
                    k as int,
                    pick,
                    now,
                ),
    {
        let ghost w0 = self@;
        let ghost s0 = w0.at(k as int);
        let id: String = self.rooms[k].room.id.clone();
        let room: &mut Room = &mut self.rooms[k].room;
        let gone = room.on_user_leave(&mut self.users, &mut self.out, user, now);
        let ghost s1 = self.scene_in(k as int, gone);
        let ghost pick = choose|pick: nat| s1 == #[trigger] s0.leave(user, pick, now);
        proof {
            assert(w0.rooms[k as int].room.wf());
            s0.lemma_leave_keeps(user, pick, now);
            s0.lemma_company_keeps(k, s1);
            w0.lemma_back_keeps(k, s1);
            w0.back(k as int, s1).lemma_without_fault_sound();
            assert(world_after(*self, gone) =~= w0.back(k as int, s1));
        }
        match gone {
            Err(fault) => {
                assert(world_after(*self, gone) == w0.leave_at(user, k as int, pick, now));
                Err(fault)
            },
            Ok(dropped) => {
                assert(self@ == w0.back(k as int, s1));
                if dropped {
                    proof {
                        self@.lemma_unlist_keeps(id@);
                    }
                    self.unlist(id.as_str());
                }
                assert(self@ == w0.leave_at(user, k as int, pick, now));
                Ok(())
            },
        }
    }

    /// Takes a user out of their room.
    fn leave_room(&mut self, user: UserKey, now: u64) -> (r: Result<Result<(), Refusal>, Fault>)
        requires
            old(self)@.sound(),
        ensures
            exists|pick: nat|
                world_after(*final(self), r) == (#[trigger] old(self)@.leave_room(
                    user,
                    pick,
                    now,
                )).0 && (r matches Ok(answer) ==> answer_view(answer) == old(self)@.leave_room(
                    user,
                    pick,
                    now,
                ).1),
    {
        let ghost w0 = self@;
        match self.users.room(user) {
            None => {
                assert(w0.leave_room(user, 0, now).0 == w0);
                Ok(Err(refuse("no room")))
            },
            Some(k) => {
                assert(w0.user_sound(user));
                let gone = self.leave_at(user, k, now);
                let ghost w1 = world_after(*self, gone);
                let ghost pick = choose|pick: nat|
                    w1 == #[trigger] w0.leave_at(user, k as int, pick, now);
                match gone {
                    Err(fault) => {
                        assert(w1 == w0.leave_room(user, pick, now).0);
                        Err(fault)
                    },
                    Ok(()) => {
                        self.out.push(Effect::RefreshPublicRooms);
                        assert(self@ =~= w0.leave_room(user, pick, now).0);
                        Ok(Ok(()))
                    },
                }
            },
        }
    }

    /// Takes a key that moves the pointer of the panel.
    fn press(&mut self, user: UserKey, down: bool) -> (r: Result<Result<(), Refusal>, Fault>)
        requires
            old(self)@.sound(),
        ensures
            world_after(*final(self), r) == old(self)@.press(user, down).0,
            r matches Ok(answer) ==> answer_view(answer) == old(self)@.press(user, down).1,
    {
        let ghost w0 = self@;
        match self.users.room(user) {
            None => Ok(Err(refuse("no room"))),
            Some(k) => {
                assert(w0.rooms[k as int].room.wf());
                let room: &mut Room = &mut self.rooms[k].room;
                let r = room.press(&mut self.users, &mut self.out, user, down);
                assert(world_after(*self, r) =~= w0.back(k as int, self.scene_in(k as int, r)));
                r
            },
        }
    }

    /// Tells whether a user may choose a chart now, and in which room.
    fn may_select(&self, user: UserKey) -> (r: Result<usize, Refusal>)
        requires
            self@.sound(),
        ensures
            match r {
                Ok(k) => self@.may_select(user) is Ok && self@.room_of(user) == Some(k),
                Err(e) => self@.may_select(user) == Err::<(), RefusalView>(e@),
            },
    {
        match self.users.room(user) {
            None => Err(refuse("no room")),
            Some(k) => {
                let ghost s = self@.at(k as int);
                match self.rooms[k].room.may_select(&self.users, user) {
                    Ok(()) => {
                        assert(s.may_select(user) is Ok);
                        Ok(k)
                    },
                    Err(refusal) => {
                        assert(s.may_select(user) == Err::<(), RefusalView>(refusal@));
                        Err(refusal)
                    },
                }
            },
        }
    }

    /// Takes the key that confirms.
    fn request_start(&mut self, user: UserKey, now: u64) -> (r: Result<Result<(), Refusal>, Fault>)
        requires
            old(self)@.sound(),
        ensures
            exists|pick: nat|
                world_after(*final(self), r) == (#[trigger] old(self)@.request_start(
                    user,
                    pick,
                    now,
                )).0 && (r matches Ok(answer) ==> answer_view(answer) == old(self)@.request_start(
                    user,
                    pick,
                    now,
                ).1),
    {
        let ghost w0 = self@;
        match self.users.room(user) {
            None => {
                assert(w0.request_start(user, 0, now).0 == w0);
                Ok(Err(refuse("no room")))
            },
            Some(k) => {
                let ghost s0 = w0.at(k as int);
                assert(w0.rooms[k as int].room.wf());
                let room: &mut Room = &mut self.rooms[k].room;
                let r = room.request_start(&mut self.users, &mut self.out, user, now);
                proof {
                    let s1 = self.scene_in(k as int, r);
                    let pick = choose|pick: nat|
                        s1 == (#[trigger] s0.request_start(user, pick, now)).0 && (r matches Ok(
                            answer,
                        ) ==> answer_view(answer) == s0.request_start(user, pick, now).1);
                    assert(world_after(*self, r) =~= w0.back(k as int, s1));
                    assert(world_after(*self, r) == w0.request_start(user, pick, now).0);
                }
                r
            },
        }
    }

    /// Takes note that a user is ready.
    fn ready(&mut self, user: UserKey, now: u64) -> (r: Result<Result<(), Refusal>, Fault>)
        requires
            old(self)@.sound(),
        ensures
            exists|picks: Seq<nat>|
                world_after(*final(self), r) == (#[trigger] old(self)@.ready(
                    user,
                    picks,
                    now,
                )).0 && (r matches Ok(answer) ==> answer_view(answer) == old(self)@.ready(
                    user,
                    picks,
                    now,
                ).1),
    {
        let ghost w0 = self@;
        match self.users.room(user) {
            None => {
                assert(w0.ready(user, Seq::empty(), now).0 == w0);
                Ok(Err(refuse("no room")))
            },
            Some(k) => {
                let ghost s0 = w0.at(k as int);
                let room: &mut Room = &mut self.rooms[k].room;
                let r = room.ready(&mut self.users, &mut self.out, user, now);
                proof {
                    let s1 = self.scene_in(k as int, r);
                    let picks = choose|picks: Seq<nat>|
                        s1 == (#[trigger] s0.ready(user, picks, now)).0 && (r matches Ok(
                            answer,
                        ) ==> answer_view(answer) == s0.ready(user, picks, now).1);
                    assert(world_after(*self, r) =~= w0.back(k as int, s1));
                    assert(world_after(*self, r) == w0.ready(user, picks, now).0);
                }
                r
            },
        }
    }

    /// Takes note that a user is not ready after all.
    fn cancel_ready(&mut self, user: UserKey, now: u64) -> (r: Result<(), Refusal>)
        requires
            old(self)@.sound(),
        ensures
            (final(self)@, answer_view(r)) == old(self)@.cancel_ready(user, now),
    {
        let ghost w0 = self@;
        match self.users.room(user) {
            None => Err(refuse("no room")),
            Some(k) => {
                assert(w0.user_sound(user));
                let room: &mut Room = &mut self.rooms[k].room;
                let r = room.cancel_ready(&self.users, &mut self.out, user, now);
                assert(self@ =~= w0.back(k as int, self.scene_in::<()>(k as int, Ok(()))));
                r
            },
        }
    }

    /// Takes note that a user gives up.
    fn abort(&mut self, user: UserKey, now: u64) -> (r: Result<Result<(), Refusal>, Fault>)
        requires
            old(self)@.sound(),
        ensures
            exists|picks: Seq<nat>|
                world_after(*final(self), r) == (#[trigger] old(self)@.abort(
                    user,
                    picks,
                    now,
                )).0 && (r matches Ok(answer) ==> answer_view(answer) == old(self)@.abort(
                    user,
                    picks,
                    now,
                ).1),
    {
        let ghost w0 = self@;
        match self.users.room(user) {
            None => {
                assert(w0.abort(user, Seq::empty(), now).0 == w0);
                Ok(Err(refuse("no room")))
            },
            Some(k) => {
                let ghost s0 = w0.at(k as int);
                let room: &mut Room = &mut self.rooms[k].room;
                let r = room.abort(&mut self.users, &mut self.out, user, now);
                proof {
                    let s1 = self.scene_in(k as int, r);
                    let picks = choose|picks: Seq<nat>|
                        s1 == (#[trigger] s0.abort(user, picks, now)).0 && (r matches Ok(
                            answer,
                        ) ==> answer_view(answer) == s0.abort(user, picks, now).1);
                    assert(world_after(*self, r) =~= w0.back(k as int, s1));
                    assert(world_after(*self, r) == w0.abort(user, picks, now).0);
                }
                r
            },
        }
    }

    /// Takes note of a request to another service for the room at place `k`.
    fn ask(&mut self, k: usize)
        requires
            k < old(self)@.rooms.len(),
        ensures
            final(self)@ == old(self)@.asked(k as int),
    {
        let requests: u64 = self.rooms[k].requests;
        if requests < u64::MAX {
            self.rooms[k].requests = requests + 1;
        }
        assert(self@ =~= old(self)@.asked(k as int));
    }

    /// Takes note that a request for the room at place `k` is answered.
    fn answer(&mut self, k: usize)
        requires
            k < old(self)@.rooms.len(),
        ensures
            final(self)@ == old(self)@.answered(k as int),
    {
        let requests: u64 = self.rooms[k].requests;
        if 0 < requests && requests < u64::MAX {
            self.rooms[k].requests = requests - 1;
        }
        assert(self@ =~= old(self)@.answered(k as int));
    }

    /// Takes the chart that a user asked for, or the text of the failure to
    /// fetch it.
    pub fn chart_fetched(&mut self, user: UserKey, room: usize, fetched: Result<Chart, String>) -> (r:
        Outcome)
        requires
            old(self)@.wf(),
            old(self)@.users.contains_key(user),
            room < old(self)@.rooms.len(),
            old(self)@.rooms[room as int].requests > 0,
        ensures
            final(self)@ == old(self)@.chart_fetched(user, room as int, fetched_view(fetched)).0,
            r@ == OutcomeView::Reply(
                Some(
                    ServerCommandView::SelectChart(
                        old(self)@.chart_fetched(user, room as int, fetched_view(fetched)).1,
                    ),
                ),
            ),
            final(self)@.wf(),
    {
        let ghost w0 = self@;
        let ghost got = fetched_view(fetched);
        proof {
            let record: Result<Record, Seq<char>> = Err(Seq::empty());
            assert(w0.rooms[room as int].room.wf());
            w0.law_fetched_keeps(user, room, got, record, Seq::empty(), 0);
        }
        let answer: Result<(), Refusal> = match fetched {
            Err(text) => Err(Refusal::Text(text)),
            Ok(chart) => {
                let ghost s0 = w0.at(room as int);
                let place: &mut Room = &mut self.rooms[room].room;
                place.select(&self.users, &mut self.out, user, chart);
                assert(self@ =~= w0.back(room as int, s0.select(user, chart)));
                Ok(())
            },
        };
        let ghost w1 = self@;
        self.answer(room);
        self.users.release(user);
        assert(self@ =~= w1.answered(room as int).release(user));
        self.settle();
        Outcome::Reply(Some(ServerCommand::SelectChart(answer)))
    }

    /// Takes the record of what a user played, or the text of the failure to
    /// fetch it.
    pub fn record_fetched(
        &mut self,
        user: UserKey,
        room: usize,
        fetched: Result<Record, String>,
        now: u64,
    ) -> (r: Result<Outcome, Fault>)
        requires
            old(self)@.wf(),
            old(self)@.users.contains_key(user),
            room < old(self)@.rooms.len(),
            old(self)@.rooms[room as int].requests > 0,
        ensures
            exists|picks: Seq<nat>|
                world_after(*final(self), r) == (#[trigger] old(self)@.record_fetched(
                    user,
                    room as int,
                    fetched_view(fetched),
                    picks,
                    now,
                )).0 && (r matches Ok(outcome) ==> outcome@ == OutcomeView::Reply(
                    Some(
                        ServerCommandView::Played(
                            old(self)@.record_fetched(
                                user,
                                room as int,
                                fetched_view(fetched),
                                picks,
                                now,
                            ).1,
                        ),
                    ),
                )),
            final(self)@.wf(),
    {
        let ghost w0 = self@;
        let ghost got = fetched_view(fetched);
        let ghost mut picks = Seq::<nat>::empty();
        let r: Result<Outcome, Fault> = match fetched {
            Err(text) => Ok(
                Outcome::Reply(Some(ServerCommand::Played(Err(Refusal::Text(text))))),
            ),
            Ok(record) => {
                let ghost s0 = w0.at(room as int);
                let place: &mut Room = &mut self.rooms[room].room;
                let played = place.played(&mut self.users, &mut self.out, user, record, now);
                proof {
                    let s1 = self.scene_in(room as int, played);
                    picks = choose|picks: Seq<nat>|
                        s1 == (#[trigger] s0.played(user, record, picks, now)).0 && (
                        played matches Ok(answer) ==> answer_view(answer) == s0.played(
                            user,
                            record,
                            picks,
                            now,
                        ).1);
                    assert(world_after(*self, played) =~= w0.back(room as int, s1));
                }
                match played {
                    Ok(answer) => Ok(Outcome::Reply(Some(ServerCommand::Played(answer)))),
                    Err(fault) => Err(fault),
                }
            },
        };
        let ghost w1 = world_after(*self, r);
        self.answer(room);
        self.users.release(user);
        assert(world_after(*self, r) =~= w1.answered(room as int).release(user));
        let ghost w2 = self@;
        self.settle();
        proof {
            w2.lemma_settled_fault(w1.fault);
            assert(world_after(*self, r) == w0.record_fetched(
                user,
                room as int,
                got,
                picks,
                now,
            ).0);
            assert(w0.rooms[room as int].room.wf());
            let chart: Result<Chart, Seq<char>> = Err(Seq::empty());
            w0.law_fetched_keeps(user, room, chart, got, picks, now);
            world_after(*self, r).lemma_without_fault_wf();
        }
        r
    }

    /// Puts a user, who is held for the time being, out of the room at place
    /// `k`, and lets go whom the server knows by their id.
    fn expel(&mut self, user: UserKey, k: usize, now: u64) -> (r: Result<(), Fault>)
        requires
            old(self)@.sound(),
            k < old(self)@.rooms.len(),
            !old(self)@.rooms[k as int].given_up,
        ensures
            exists|pick: nat|
                world_after(*final(self), r) == #[trigger] old(self)@.expel(
                    user,
                    k as int,
                    pick,
                    now,
                ),
            final(self)@.sound(),
    {
        let ghost w0 = self@;
        let id: i32 = self.users.id(user);
        self.unregister(id);
        let ghost w1 = self@;
        proof {
            w0.lemma_unregister_keeps(id);
        }
        let r = self.leave_at(user, k, now);
        let ghost pick = choose|pick: nat|
            world_after(*self, r) == #[trigger] w1.leave_at(user, k as int, pick, now);
        assert(world_after(*self, r) == w0.expel(user, k as int, pick, now));
        proof {
            w0.lemma_expel_keeps(user, k, pick, now);
            w0.expel(user, k as int, pick, now).lemma_without_fault_sound();
        }
        r
    }

    /// Takes note that a wait for a lost user is over.
    pub fn dangle_expired(&mut self, user: UserKey, mark: u64, now: u64) -> (r: Result<(), Fault>)
        requires
            old(self)@.wf(),
        ensures
            exists|pick: nat|
                world_after(*final(self), r) == #[trigger] old(self)@.dangle_expired(
                    user,
                    mark,
                    pick,
                    now,
                ),
            final(self)@.wf(),
    {
        let ghost w0 = self@;
        let ghost mut pick: nat = 0;
        let due: bool = match self.users.get(user) {
            Some(u) => match u.dangle_mark {
                Some(current) => current == mark,
                None => false,
            },
            None => false,
        };
        let mut r: Result<(), Fault> = Ok(());
        if due {
            if let Some(k) = self.users.room(user) {
                r = self.expel(user, k, now);
                proof {
                    pick = choose|pick: nat|
                        world_after(*self, r) == #[trigger] w0.expel(user, k as int, pick, now);
                }
            }
        }
        let ghost w1 = world_after(*self, r);
        self.users.release(user);
        assert(world_after(*self, r) =~= w1.release(user));
        let ghost w2 = self@;
        self.settle();
        proof {
            w2.lemma_settled_fault(w1.fault);
            assert(world_after(*self, r) == w0.dangle_expired(user, mark, pick, now));
            w0.lemma_dangle_expired_keeps(user, mark, pick, now);
            world_after(*self, r).lemma_without_fault_wf();
        }
        r
    }

    /// Takes note that a user cannot be reached any more, without giving any room
    /// up.
    fn lose(&mut self, user: UserKey, now: u64) -> (r: Result<Option<u64>, Fault>)
        requires
            old(self)@.sound(),
        ensures
            exists|pick: nat|
                world_after(*final(self), r) == (#[trigger] old(self)@.lose(user, pick, now)).0 && (
                r matches Ok(mark) ==> mark == old(self)@.lose(user, pick, now).1),
    {
        let ghost w0 = self@;
        let room: Option<usize> = self.users.room(user);
        self.users.hold(user);
        let ghost w1 = w0.hold(user);
        proof {
            assert(self@ =~= w1);
            w0.lemma_hold_keeps(user);
        }
        if let Some(k) = room {
            assert(w0.users.contains_key(user));
            let playing: bool = match &self.rooms[k].room.state {
                InternalRoomState::Playing { .. } => true,
                _ => false,
            };
            assert(playing == (w0.rooms[k as int].room.state is Playing));
            if playing {
                let r = self.expel(user, k, now);
                let ghost pick = choose|pick: nat|
                    world_after(*self, r) == #[trigger] w1.expel(user, k as int, pick, now);
                self.users.release(user);
                proof {
                    assert(world_after(*self, r) =~= w0.lose(user, pick, now).0);
                }
                return match r {
                    Ok(()) => Ok(None),
                    Err(fault) => Err(fault),
                };
            }
        }
        if self.users.get(user).is_none() {
            assert(self@ =~= w0);
            assert(w0.lose(user, 0, now).0 == w0);
            return Ok(None);
        }
        let mark: u64 = self.next_mark;
        self.users.set_mark(user, mark);
        self.next_mark = mark.wrapping_add(1);
        proof {
            assert(self@ =~= w0.lose(user, 0, now).0);
        }
        Ok(Some(mark))
    }

    /// Takes note that a connection is gone. If the server now waits for its
    /// user, the mark of the wait is handed out; when the wait is over it goes
    /// to [`ServerState::dangle_expired`].
    pub fn hang_up(&mut self, user: UserKey, session: u128, now: u64) -> (r: Result<
        Option<u64>,
        Fault,
    >)
        requires
            old(self)@.wf(),
        ensures
            exists|pick: nat|
                world_after(*final(self), r) == (#[trigger] old(self)@.hang_up(
                    user,
                    session,
                    pick,
                    now,
                )).0 && (r matches Ok(mark) ==> mark == old(self)@.hang_up(
                    user,
                    session,
                    pick,
                    now,
                ).1),
            final(self)@.wf(),
    {
        let ghost w0 = self@;
        let current: bool = match self.users.get(user) {
            Some(u) => match u.session {
                Some(s) => s == session,
                None => false,
            },
            None => false,
        };
        if !current {
            self.users.release(user);
            assert(self@ =~= w0.release(user));
            self.settle();
            proof {
                assert(self@ == w0.hang_up(user, session, 0, now).0);
                w0.lemma_hang_up_keeps(user, session, 0, now);
            }
            return Ok(None);
        }
        self.users.clear_session(user);
        let ghost w1 = World {
            users: w0.users.insert(user, User { session: None, ..w0.users[user] }),
            ..w0
        };
        assert(self@ =~= w1);
        proof {
            w0.lemma_change_keeps(user, w1.users[user]);
        }
        let r = self.lose(user, now);
        let ghost pick = choose|pick: nat|
            world_after(*self, r) == (#[trigger] w1.lose(user, pick, now)).0 && (r matches Ok(mark)
                ==> mark == w1.lose(user, pick, now).1);
        let ghost w2 = world_after(*self, r);
        self.users.release(user);
        assert(world_after(*self, r) =~= w2.release(user));
        let ghost w3 = self@;
        self.settle();
        proof {
            w3.lemma_settled_fault(w2.fault);
            assert(world_after(*self, r) == w0.hang_up(user, session, pick, now).0);
            w0.lemma_hang_up_keeps(user, session, pick, now);
            world_after(*self, r).lemma_without_fault_wf();
        }
        r
    }

    /// Takes a user in, or back in, on a connection, and greets them. The key
    /// of the user is handed out too.
    pub fn sign_in(&mut self, session: u128, id: i32, name: String, lang: String) -> (r: (
        UserKey,
        ServerCommand,
    ))
        requires
            old(self)@.wf(),
            old(self)@.next_key < u64::MAX,
        ensures
            final(self)@ == old(self)@.sign_in(session, id, name, lang),
            r.0 == old(self)@.key_for(id),
            final(self)@.users.contains_key(r.0),
            r.1@ == ServerCommandView::Authenticate(Ok(final(self)@.greeting(r.0))),
            final(self)@.wf(),
    {
        let ghost w0 = self@;
        let key: UserKey = match self.key_of(id) {
            Some(key) => key,
            None => {
                let key: UserKey = self.next_key;
                let mut u: User = User::new(id, name, lang);
                u.registered = true;
                self.users.insert(key, u);
                self.registry.insert(id, key);
                self.next_key = key + 1;
                key
            },
        };
        self.users.hold(key);
        self.users.set_session(key, session);
        proof {
            assert(self@ =~= w0.sign_in(session, id, name, lang));
            w0.lemma_sign_in_keeps(session, id, name, lang);
        }
        let info: UserInfo = match self.users.get(key) {
            Some(u) => u.to_info(),
            None => UserInfo { id, name: String::new(), monitor: false },
        };
        let room: Option<ClientRoomState> = match self.users.room(key) {
            Some(k) => Some(self.rooms[k].room.client_state(&self.users, key)),
            None => None,
        };
        (key, ServerCommand::Authenticate(Ok((info, room))))
    }
}

impl User {
    /// Takes note that a user cannot be reached any more. In a game that goes
    /// on they are put out; otherwise the mark of the wait for them is handed
    /// out.
    pub fn dangle(server: &mut ServerState, user: UserKey, now: u64) -> (r: Result<
        Option<u64>,
        Fault,
    >)
        requires
            old(server)@.wf(),
        ensures
            exists|pick: nat|
                world_after(*final(server), r) == (#[trigger] old(server)@.dangle(
                    user,
                    pick,
                    now,
                )).0 && (r matches Ok(mark) ==> mark == old(server)@.dangle(user, pick, now).1),
            final(server)@.wf(),
    {
        let ghost w0 = server@;
        let r = server.lose(user, now);
        let ghost pick = choose|pick: nat|
            world_after(*server, r) == (#[trigger] w0.lose(user, pick, now)).0 && (r matches Ok(mark)
                ==> mark == w0.lose(user, pick, now).1);
        let ghost w1 = world_after(*server, r);
        let ghost w2 = server@;
        server.settle();
        proof {
            w2.lemma_settled_fault(w1.fault);
            assert(world_after(*server, r) == w0.dangle(user, pick, now).0);
            w0.lemma_dangle_keeps(user, pick, now);
            world_after(*server, r).lemma_without_fault_wf();
        }
        r
    }
}

impl Room {
    /// The list of public rooms as it is handed out.
    pub fn refresh_public_rooms(server: &ServerState) -> (r: String)
        ensures
            r@ == public_rooms_text(server@.rooms),
    {
        let ghost all = server@.rooms;
        let mut list: Vec<String> = Vec::new();
        let mut i: usize = 0;
        assert(all.take(0) =~= Seq::empty());
        assert(texts(list@) =~= Seq::empty());
        while i < server.rooms.len()
            invariant
                i <= server.rooms.len(),
                all == server@.rooms,
                texts(list@) == public_ids(all.take(i as int)).map_values(
                    |id: Seq<char>| quoted(id),
                ),
            decreases server.rooms.len() - i,
        {
            assert(all.take(i + 1).drop_last() =~= all.take(i as int));
            assert(all.take(i + 1).last() == all[i as int]);
            let slot: &Slot = &server.rooms[i];
            let ghost before = list@;
            if slot.listed && slot.room.is_public_enabled() {
                list.push("\"".to_string().concat(slot.room.id.as_str()).concat("\""));
                assert(texts(list@) =~= texts(before).push(quoted(slot.room.id@)));
                assert(public_ids(all.take(i + 1)).map_values(|id: Seq<char>| quoted(id))
                    =~= public_ids(all.take(i as int)).map_values(
                    |id: Seq<char>| quoted(id),
                ).push(quoted(slot.room.id@)));
            }
            i = i + 1;
        }
        assert(all.take(i as int) =~= all);
        "[".to_string().concat(join_texts(&list, ", ").as_str()).concat("]")
    }
}

/// Carries out a command that passes something on.
fn serve_talk(server: &mut ServerState, user: UserKey, cmd: ClientCommand, now: u64) -> (r: Result<
    Outcome,
    Fault,
>)
    requires
        old(server)@.sound(),
        old(server)@.users.contains_key(user),
        cmd is Authenticate || cmd is Chat || cmd is Touches || cmd is Judges,
    ensures
        exists|picks: Seq<nat>|
            world_after(*final(server), r) == (#[trigger] old(server)@.serve(
                user,
                cmd,
                picks,
                now,
            )).0 && (r matches Ok(outcome) ==> outcome@ == old(server)@.serve(
                user,
                cmd,
                picks,
                now,
            ).1),
{
    let ghost w0 = server@;
    let ghost mut picks = Seq::<nat>::empty();
    let r: Result<Outcome, Fault> = match cmd {
        ClientCommand::Authenticate { .. } => Ok(
            Outcome::Reply(
                Some(ServerCommand::Authenticate(Err(refuse("repeated authenticate")))),
            ),
        ),
        ClientCommand::Chat { message } => {
            let answer = server.chat(user, message.as_str());
            Ok(Outcome::Reply(Some(ServerCommand::Chat(answer))))
        },
        ClientCommand::Touches { frames } => {
            server.touches(user, frames);
            Ok(Outcome::Reply(None))
        },
        ClientCommand::Judges { judges } => {
            server.judges(user, judges);
            Ok(Outcome::Reply(None))
        },
        _ => {
            assert(false);
            Ok(Outcome::Reply(None))
        },
    };
    proof {
        let w1 = world_after(*server, r);
        assert(w1 == w0.serve(user, cmd, picks, now).0);
        assert(r matches Ok(outcome) ==> outcome@ == w0.serve(user, cmd, picks, now).1);
    }
    r
}

/// Carries out a command that takes a user from place to place.
fn serve_place(server: &mut ServerState, user: UserKey, cmd: ClientCommand, now: u64) -> (r: Result<
    Outcome,
    Fault,
>)
    requires
        old(server)@.sound(),
        old(server)@.users.contains_key(user),
        cmd is CreateRoom || cmd is JoinRoom || cmd is LeaveRoom,
    ensures
        exists|picks: Seq<nat>|
            world_after(*final(server), r) == (#[trigger] old(server)@.serve(
                user,
                cmd,
                picks,
                now,
            )).0 && (r matches Ok(outcome) ==> outcome@ == old(server)@.serve(
                user,
                cmd,
                picks,
                now,
            ).1),
{
    let ghost w0 = server@;
    let ghost mut picks = Seq::<nat>::empty();
    let r: Result<Outcome, Fault> = match cmd {
        ClientCommand::CreateRoom { id } => {
            let answer = server.create_room(user, id.as_str(), now);
            Ok(Outcome::Reply(Some(ServerCommand::CreateRoom(answer))))
        },
        ClientCommand::JoinRoom { id, monitor } => {
            let done = server.join_room(user, id.as_str(), monitor, now);
            proof {
                picks = choose|picks: Seq<nat>|
                    world_after(*server, done) == (#[trigger] w0.join_room(
                        user,
                        id@,
                        monitor,
                        picks,
                        now,
                    )).0 && (done matches Ok(answer) ==> join_view(answer) == w0.join_room(
                        user,
                        id@,
                        monitor,
                        picks,
                        now,
                    ).1);
            }
            match done {
                Ok(answer) => Ok(Outcome::Reply(Some(ServerCommand::JoinRoom(answer)))),
                Err(fault) => Err(fault),
            }
        },
        ClientCommand::LeaveRoom => {
            let done = server.leave_room(user, now);
            proof {
                let pick = choose|pick: nat|
                    world_after(*server, done) == (#[trigger] w0.leave_room(user, pick, now)).0 && (
                    done matches Ok(answer) ==> answer_view(answer) == w0.leave_room(
                        user,
                        pick,
                        now,
                    ).1);
                picks = seq![pick];
                assert(picks[0] == pick);
            }
            match done {
                Ok(answer) => Ok(Outcome::Reply(Some(ServerCommand::LeaveRoom(answer)))),
                Err(fault) => Err(fault),
            }
        },
        _ => {
            assert(false);
            Ok(Outcome::Reply(None))
        },
    };
    proof {
        let w1 = world_after(*server, r);
        assert(w1 == w0.serve(user, cmd, picks, now).0);
        assert(r matches Ok(outcome) ==> outcome@ == w0.serve(user, cmd, picks, now).1);
    }
    r
}

/// Carries out a command that works the panel.
fn serve_panel(server: &mut ServerState, user: UserKey, cmd: ClientCommand, now: u64) -> (r: Result<
    Outcome,
    Fault,
>)
    requires
        old(server)@.sound(),
        old(server)@.users.contains_key(user),
        cmd is LockRoom || cmd is CycleRoom || cmd is SelectChart || cmd is RequestStart,
    ensures
        exists|picks: Seq<nat>|
            world_after(*final(server), r) == (#[trigger] old(server)@.serve(
                user,
                cmd,
                picks,
                now,
            )).0 && (r matches Ok(outcome) ==> outcome@ == old(server)@.serve(
                user,
                cmd,
                picks,
                now,
            ).1),
{
    let ghost w0 = server@;
    let ghost mut picks = Seq::<nat>::empty();
    let r: Result<Outcome, Fault> = match cmd {
        ClientCommand::LockRoom { .. } => match server.press(user, false) {
            Ok(answer) => Ok(Outcome::Reply(Some(ServerCommand::LockRoom(answer)))),
            Err(fault) => Err(fault),
        },
        ClientCommand::CycleRoom { .. } => match server.press(user, true) {
            Ok(answer) => Ok(Outcome::Reply(Some(ServerCommand::CycleRoom(answer)))),
            Err(fault) => Err(fault),
        },
        ClientCommand::SelectChart { id } => match server.may_select(user) {
            Ok(room) => {
                server.ask(room);
                server.users.hold(user);
                assert(server@ =~= w0.asked(room as int).hold(user));
                Ok(Outcome::FetchChart { id, room })
            },
            Err(refusal) => Ok(Outcome::Reply(Some(ServerCommand::SelectChart(Err(refusal))))),
        },
        ClientCommand::RequestStart => {
            let done = server.request_start(user, now);
            proof {
                let pick = choose|pick: nat|
                    world_after(*server, done) == (#[trigger] w0.request_start(
                        user,
                        pick,
                        now,
                    )).0 && (done matches Ok(answer) ==> answer_view(answer) == w0.request_start(
                        user,
                        pick,
                        now,
                    ).1);
                picks = seq![pick];
                assert(picks[0] == pick);
            }
            match done {
                Ok(answer) => Ok(Outcome::Reply(Some(ServerCommand::RequestStart(answer)))),
                Err(fault) => Err(fault),
            }
        },
        _ => {
            assert(false);
            Ok(Outcome::Reply(None))
        },
    };
    proof {
        let w1 = world_after(*server, r);
        assert(w1 == w0.serve(user, cmd, picks, now).0);
        assert(r matches Ok(outcome) ==> outcome@ == w0.serve(user, cmd, picks, now).1);
    }
    r
}

/// Carries out a command of the game.
fn serve_game(server: &mut ServerState, user: UserKey, cmd: ClientCommand, now: u64) -> (r: Result<
    Outcome,
    Fault,
>)
    requires
        old(server)@.sound(),
        old(server)@.users.contains_key(user),
        cmd is Ready || cmd is CancelReady || cmd is Played || cmd is Abort,
    ensures
        exists|picks: Seq<nat>|
            world_after(*final(server), r) == (#[trigger] old(server)@.serve(
                user,
                cmd,
                picks,
                now,
            )).0 && (r matches Ok(outcome) ==> outcome@ == old(server)@.serve(
                user,
                cmd,
                picks,
                now,
            ).1),
{
    let ghost w0 = server@;
    let ghost mut picks = Seq::<nat>::empty();
    let r: Result<Outcome, Fault> = match cmd {
        ClientCommand::Ready => {
            let done = server.ready(user, now);
            proof {
                picks = choose|picks: Seq<nat>|
                    world_after(*server, done) == (#[trigger] w0.ready(user, picks, now)).0 && (
                    done matches Ok(answer) ==> answer_view(answer) == w0.ready(
                        user,
                        picks,
                        now,
                    ).1);
            }
            match done {
                Ok(answer) => Ok(Outcome::Reply(Some(ServerCommand::Ready(answer)))),
                Err(fault) => Err(fault),
            }
        },
        ClientCommand::CancelReady => {
            let answer = server.cancel_ready(user, now);
            Ok(Outcome::Reply(Some(ServerCommand::CancelReady(answer))))
        },
        ClientCommand::Played { id } => match server.users.room(user) {
            Some(room) => {
                server.ask(room);
                server.users.hold(user);
                assert(server@ =~= w0.asked(room as int).hold(user));
                Ok(Outcome::FetchRecord { id, room })
            },
            None => Ok(Outcome::Reply(Some(ServerCommand::Played(Err(refuse("no room")))))),
        },
        ClientCommand::Abort => {
            let done = server.abort(user, now);
            proof {
                picks = choose|picks: Seq<nat>|
                    world_after(*server, done) == (#[trigger] w0.abort(user, picks, now)).0 && (
                    done matches Ok(answer) ==> answer_view(answer) == w0.abort(
                        user,
                        picks,
                        now,
                    ).1);
            }
            match done {
                Ok(answer) => Ok(Outcome::Reply(Some(ServerCommand::Abort(answer)))),
                Err(fault) => Err(fault),
            }
        },
        _ => {
            assert(false);
            Ok(Outcome::Reply(None))
        },
    };
    proof {
        let w1 = world_after(*server, r);
        assert(w1 == w0.serve(user, cmd, picks, now).0);
        assert(r matches Ok(outcome) ==> outcome@ == w0.serve(user, cmd, picks, now).1);
    }
    r
}

/// Carries out a command, without giving any room up.
fn serve(server: &mut ServerState, user: UserKey, cmd: ClientCommand, now: u64) -> (r: Result<
    Outcome,
    Fault,
>)
    requires
        old(server)@.sound(),
        old(server)@.users.contains_key(user),
        cmd !is Ping,
    ensures
        exists|picks: Seq<nat>|
            world_after(*final(server), r) == (#[trigger] old(server)@.serve(
                user,
                cmd,
                picks,
                now,
            )).0 && (r matches Ok(outcome) ==> outcome@ == old(server)@.serve(
                user,
                cmd,
                picks,
                now,
            ).1),
{
    match &cmd {
        ClientCommand::Ping => {
            assert(false);
            Ok(Outcome::Reply(None))
        },
        ClientCommand::Authenticate { .. } | ClientCommand::Chat { .. } | ClientCommand::Touches { .. }
        | ClientCommand::Judges { .. } => serve_talk(server, user, cmd, now),
        ClientCommand::CreateRoom { .. } | ClientCommand::JoinRoom { .. }
        | ClientCommand::LeaveRoom => serve_place(server, user, cmd, now),
        ClientCommand::LockRoom { .. } | ClientCommand::CycleRoom { .. }
        | ClientCommand::SelectChart { .. } | ClientCommand::RequestStart => serve_panel(
            server,
            user,
            cmd,
            now,
        ),
        ClientCommand::Ready | ClientCommand::CancelReady | ClientCommand::Played { .. }
        | ClientCommand::Abort => serve_game(server, user, cmd, now),
    }
}

/// Carries out a command of a user who is there.
pub fn process(server: &mut ServerState, user: UserKey, cmd: ClientCommand, now: u64) -> (r: Result<
    Outcome,
    Fault,
>)
    requires
        old(server)@.wf(),
        old(server)@.users.contains_key(user),
        cmd !is Ping,
    ensures
        exists|picks: Seq<nat>|
            world_after(*final(server), r) == (#[trigger] old(server)@.process(
                user,
                cmd,
                picks,
                now,
            )).0 && (r matches Ok(outcome) ==> outcome@ == old(server)@.process(
                user,
                cmd,
                picks,
                now,
            ).1),
        final(server)@.wf(),
{
    let ghost w0 = server@;
    let r = serve(server, user, cmd, now);
    let ghost picks = choose|picks: Seq<nat>|
        world_after(*server, r) == (#[trigger] w0.serve(user, cmd, picks, now)).0 && (r matches Ok(
            outcome,
        ) ==> outcome@ == w0.serve(user, cmd, picks, now).1);
    let ghost w1 = world_after(*server, r);
    let ghost w2 = server@;
    server.settle();
    proof {
        w2.lemma_settled_fault(w1.fault);
        assert(world_after(*server, r) == w0.process(user, cmd, picks, now).0);
        assert(server@.rooms.len() == server.rooms.len());
        w0.law_process_keeps(user, cmd, picks, now);
        world_after(*server, r).lemma_without_fault_wf();
    }
    r
}

} // verus!

//! The mathematics of the whole server: who is there, which rooms there are,
//! and what each command makes of them.
use vstd::prelude::*;
use crate::commands::refused;
use crate::keys::{times, UserKey};
use crate::outbox::EffectView;
use crate::protocol::{
    ClientCommand, ClientRoomStateView, JoinRoomResponseView, MessageView, RefusalView,
    ServerCommandView, TextKey, UserInfo,
};
use crate::ranking::Record;
use crate::room::{Chart, Fault, RoomView};
use crate::scene::{host_hint, Scene};
use crate::text::joined;
use crate::users::{
    anyone_in, id_of, info_of, one_less, one_more, unregistered, with_hold, with_room, without_hold,
    without_listings, User, Users,
};

verus! {

/// A room, whether it can still be found by its id, how many requests to other
/// services are under way for it, and whether it was given up.
#[verifier::ext_equal]
pub struct SlotView {
    pub room: RoomView,
    pub listed: bool,
    pub requests: u64,
    pub given_up: bool,
}

/// The users who are there, those whom the server knows by their ids, the key
/// of the next user, the rooms in the order in which they were created, the
/// mark for the next wait for a lost user, the effects so far, and the fault
/// that ended the last command.
#[verifier::ext_equal]
pub struct World {
    pub users: Users,
    pub registry: Map<i32, UserKey>,
    pub next_key: UserKey,
    pub rooms: Seq<SlotView>,
    pub next_mark: u64,
    pub out: Seq<EffectView>,
    pub fault: Option<Fault>,
}

/// What a command leads to: a reply, or a request to another service whose
/// answer decides.
pub enum OutcomeView {
    Reply(Option<ServerCommandView>),
    FetchChart { id: i32, room: usize },
    FetchRecord { id: i32, room: usize },
}

/// The outcome of a request that carries no data, and the world after it.
pub type Answered = (World, Result<(), RefusalView>);

/// The place of the room that is listed under `id`.
pub open spec fn lookup(rooms: Seq<SlotView>, id: Seq<char>) -> Option<usize>
    decreases rooms.len(),
{
    if rooms.len() == 0 {
        None
    } else if lookup(rooms.drop_last(), id) is Some {
        lookup(rooms.drop_last(), id)
    } else if rooms.last().listed && rooms.last().room.id == id {
        Some((rooms.len() - 1) as usize)
    } else {
        None
    }
}

/// The ids of the rooms that anyone may see, oldest first.
pub open spec fn public_ids(rooms: Seq<SlotView>) -> Seq<Seq<char>>
    decreases rooms.len(),
{
    if rooms.len() == 0 {
        Seq::empty()
    } else if rooms.last().listed && rooms.last().room.public_enabled {
        public_ids(rooms.drop_last()).push(rooms.last().room.id)
    } else {
        public_ids(rooms.drop_last())
    }
}

/// How many times the panels of all rooms list a user.
pub open spec fn listings(rooms: Seq<SlotView>, user: UserKey) -> nat
    decreases rooms.len(),
{
    if rooms.len() == 0 {
        0
    } else {
        listings(rooms.drop_last(), user) + times(rooms.last().room.panel.users, user)
    }
}

/// How many rooms were not given up.
pub open spec fn kept(rooms: Seq<SlotView>) -> nat
    decreases rooms.len(),
{
    if rooms.len() == 0 {
        0
    } else if rooms.last().given_up {
        kept(rooms.drop_last())
    } else {
        kept(rooms.drop_last()) + 1
    }
}

/// Giving a room up leaves one room less.
pub proof fn lemma_kept(rooms: Seq<SlotView>, k: int, slot: SlotView)
    requires
        0 <= k < rooms.len(),
        !rooms[k].given_up,
        slot.given_up,
    ensures
        kept(rooms.update(k, slot)) < kept(rooms),
    decreases rooms.len(),
{
    let after = rooms.update(k, slot);
    if k == rooms.len() - 1 {
        assert(after.drop_last() =~= rooms.drop_last());
    } else {
        assert(after.drop_last() =~= rooms.drop_last().update(k, slot));
        lemma_kept(rooms.drop_last(), k, slot);
    }
}

/// A text in double quotes.
pub open spec fn quoted(text: Seq<char>) -> Seq<char> {
    "\""@ + text + "\""@
}

/// The list of public rooms as it is handed out.
pub open spec fn public_rooms_text(rooms: Seq<SlotView>) -> Seq<char> {
    "["@ + joined(public_ids(rooms).map_values(|id: Seq<char>| quoted(id)), ", "@) + "]"@
}

/// Tells whether an id is one that users may give to a room of their own.
pub open spec fn is_custom(id: Seq<char>) -> bool {
    id.len() >= 3 && id.take(3) == "cus"@
}

/// The id of the room that a user gets who asks for `id`: their own, or the
/// one room that is open to everyone.
pub open spec fn room_id(id: Seq<char>) -> Seq<char> {
    if is_custom(id) {
        id
    } else {
        "public"@
    }
}

/// What a user is told who asks for a room that does not exist.
pub open spec fn missing_text() -> Seq<char> {
    "房间不存在\n你也可以输入不以cus开头的任意房间ID以加入公共房间\n(若你尝试加入public房间仍提示不存在,请创建public房间)"@
}

impl World {
    /// Nothing has gone wrong.
    pub open spec fn ok(self) -> bool {
        self.fault is None
    }

    /// The room that a user is in.
    pub open spec fn room_of(self, user: UserKey) -> Option<usize> {
        if self.users.contains_key(user) {
            self.users[user].room
        } else {
            None
        }
    }

    /// The world as the room at place `k` sees it.
    pub open spec fn at(self, k: int) -> Scene {
        Scene { room: self.rooms[k].room, users: self.users, out: self.out, fault: self.fault }
    }

    /// The world once the scene in the room at place `k` has changed.
    pub open spec fn back(self, k: int, s: Scene) -> World {
        World {
            users: s.users,
            rooms: self.rooms.update(k, SlotView { room: s.room, ..self.rooms[k] }),
            out: s.out,
            fault: s.fault,
            ..self
        }
    }

    /// The room that is listed under `id` can no longer be found.
    pub open spec fn unlist(self, id: Seq<char>) -> World {
        match lookup(self.rooms, id) {
            Some(k) => World {
                rooms: self.rooms.update(
                    k as int,
                    SlotView { listed: false, ..self.rooms[k as int] },
                ),
                ..self
            },
            None => self,
        }
    }

    /// A user is held once more.
    pub open spec fn hold(self, user: UserKey) -> World {
        World { users: with_hold(self.users, user), ..self }
    }

    /// A user is held once less, and is gone if nothing holds them any more.
    pub open spec fn release(self, user: UserKey) -> World {
        World { users: without_hold(self.users, user), ..self }
    }

    /// The server lets the user go whom it knows by `id`.
    pub open spec fn unregister(self, id: i32) -> World {
        if self.registry.contains_key(id) {
            World {
                users: unregistered(self.users, self.registry[id]),
                registry: self.registry.remove(id),
                ..self
            }
        } else {
            self
        }
    }

    /// A request to another service is made for the room at place `k`.
    pub open spec fn asked(self, k: int) -> World {
        World {
            rooms: self.rooms.update(
                k,
                SlotView { requests: one_more(self.rooms[k].requests), ..self.rooms[k] },
            ),
            ..self
        }
    }

    /// A request for the room at place `k` is answered.
    pub open spec fn answered(self, k: int) -> World {
        World {
            rooms: self.rooms.update(
                k,
                SlotView { requests: one_less(self.rooms[k].requests), ..self.rooms[k] },
            ),
            ..self
        }
    }

    /// Nothing leads to the room at place `k` any more: it cannot be found,
    /// nobody is in it, and no request is under way for it.
    pub open spec fn idle(self, k: int) -> bool {
        &&& !self.rooms[k].given_up
        &&& !self.rooms[k].listed
        &&& self.rooms[k].requests == 0
        &&& !anyone_in(self.users, k as usize)
    }

    /// The first of the first `n` rooms that nothing leads to any more.
    pub open spec fn first_idle(self, n: int) -> Option<int>
        decreases n,
    {
        if n <= 0 {
            None
        } else if self.first_idle(n - 1) is Some {
            self.first_idle(n - 1)
        } else if self.idle(n - 1) {
            Some(n - 1)
        } else {
            None
        }
    }

    /// The room at place `k` is given up, and its panel no longer holds those
    /// whom it lists.
    pub open spec fn give_up(self, k: int) -> World {
        World {
            users: without_listings(self.users, self.rooms[k].room.panel.users),
            rooms: self.rooms.update(
                k,
                SlotView { room: RoomView::nothing(), given_up: true, ..self.rooms[k] },
            ),
            ..self
        }
    }

    /// Every room that nothing leads to any more is given up, one after the
    /// other, as long as there is one.
    pub open spec fn settled(self) -> World
        decreases kept(self.rooms),
    {
        match self.first_idle(self.rooms.len() as int) {
            Some(k) if 0 <= k < self.rooms.len() && !self.rooms[k].given_up => {
                proof {
                    lemma_kept(self.rooms, k, self.give_up(k).rooms[k]);
                }
                self.give_up(k).settled()
            },
            _ => self,
        }
    }

    /// A user leaves the room at place `k`, which is taken off the list if
    /// that leaves it empty.
    pub open spec fn leave_at(self, user: UserKey, k: int, pick: nat, now: u64) -> World {
        let s = self.at(k).leave(user, pick, now);
        let w = self.back(k, s);
        if s.ok() && self.at(k).drops(user) {
            w.unlist(self.rooms[k].room.id)
        } else {
            w
        }
    }

    /// A user says something.
    pub open spec fn chat(self, user: UserKey, message: Seq<char>) -> Answered {
        match self.room_of(user) {
            None => (self, refused("no room"@)),
            Some(k) => (self.back(k as int, self.at(k as int).chat(user, message)), Ok(())),
        }
    }

    /// A user creates a room.
    pub open spec fn create_room(self, user: UserKey, id: Seq<char>, now: u64) -> Answered {
        let custom = is_custom(id);
        if self.room_of(user) is Some {
            (self, refused("你已经在房间中了"@))
        } else if lookup(self.rooms, room_id(id)) is Some {
            (
                self,
                if custom {
                    Err(RefusalView::Localized(TextKey::CreateIdOccupied))
                } else {
                    refused("用户创建的房间ID必须以cus开头"@)
                },
            )
        } else {
            let s = Scene {
                room: RoomView::fresh(room_id(id), user),
                users: self.users,
                out: self.out,
                fault: self.fault,
            }.send(MessageView::CreateRoom { user: id_of(self.users, user) });
            let s = if custom {
                s.say("欢迎创建房间! 本服务器使用由BZLZHH修改的服务端"@).say(
                    "提示:使用房主面板开启公开房间,可以让其他人看到此房间哦"@,
                )
            } else {
                s.say(
                    "感谢创建该服务器的public房间! 本服务器使用由BZLZHH修改的服务端\n若您不想创建public房间,请重新创建一个房间号以cus开头的房间"@,
                )
            };
            let s = s.say_to_host(host_hint());
            (
                World {
                    users: with_room(s.users, user, Some(self.rooms.len() as usize)),
                    rooms: self.rooms.push(
                        SlotView {
                            room: RoomView { host_time: now, ..s.room },
                            listed: true,
                            requests: 0,
                            given_up: false,
                        },
                    ),
                    out: s.out,
                    fault: s.fault,
                    ..self
                },
                Ok(()),
            )
        }
    }

    /// A user joins a room, as a player or as a monitor.
    pub open spec fn join_room(
        self,
        user: UserKey,
        id: Seq<char>,
        monitor: bool,
        picks: Seq<nat>,
        now: u64,
    ) -> (World, Result<JoinRoomResponseView, RefusalView>) {
        if self.room_of(user) is Some {
            (self, Err(RefusalView::Text("你已经在房间中了"@)))
        } else {
            match lookup(self.rooms, room_id(id)) {
                None => (self, Err(RefusalView::Text(missing_text()))),
                Some(k) => {
                    let (s, answer) = self.at(k as int).join(
                        user,
                        k,
                        monitor,
                        !is_custom(id),
                        picks,
                        now,
                    );
                    (self.back(k as int, s), answer)
                },
            }
        }
    }

    /// A user leaves their room.
    pub open spec fn leave_room(self, user: UserKey, pick: nat, now: u64) -> Answered {
        match self.room_of(user) {
            None => (self, refused("no room"@)),
            Some(k) => {
                let w = self.leave_at(user, k as int, pick, now);
                if w.ok() {
                    (World { out: w.out.push(EffectView::RefreshPublicRooms), ..w }, Ok(()))
                } else {
                    (w, Ok(()))
                }
            },
        }
    }

    /// A user presses a key that moves the pointer of the panel.
    pub open spec fn press(self, user: UserKey, down: bool) -> Answered {
        match self.room_of(user) {
            None => (self, refused("no room"@)),
            Some(k) => {
                let (s, answer) = self.at(k as int).press(user, down);
                (self.back(k as int, s), answer)
            },
        }
    }

    /// Whether a user may choose a chart now.
    pub open spec fn may_select(self, user: UserKey) -> Result<(), RefusalView> {
        match self.room_of(user) {
            None => refused("no room"@),
            Some(k) => self.at(k as int).may_select(user),
        }
    }

    /// The chart that a user of the room at place `k` asked for has come in,
    /// or could not be had. The request no longer holds the user and the room.
    pub open spec fn chart_fetched(
        self,
        user: UserKey,
        k: int,
        fetched: Result<Chart, Seq<char>>,
    ) -> Answered {
        match fetched {
            Err(text) => (self.answered(k).release(user).settled(), refused(text)),
            Ok(chart) => (
                self.back(k, self.at(k).select(user, chart)).answered(k).release(user).settled(),
                Ok(()),
            ),
        }
    }

    /// A user presses the key that confirms.
    pub open spec fn request_start(self, user: UserKey, pick: nat, now: u64) -> Answered {
        match self.room_of(user) {
            None => (self, refused("no room"@)),
            Some(k) => {
                let (s, answer) = self.at(k as int).request_start(user, pick, now);
                (self.back(k as int, s), answer)
            },
        }
    }

    /// A user is ready.
    pub open spec fn ready(self, user: UserKey, picks: Seq<nat>, now: u64) -> Answered {
        match self.room_of(user) {
            None => (self, refused("no room"@)),
            Some(k) => {
                let (s, answer) = self.at(k as int).ready(user, picks, now);
                (self.back(k as int, s), answer)
            },
        }
    }

    /// A user is not ready after all.
    pub open spec fn cancel_ready(self, user: UserKey, now: u64) -> Answered {
        match self.room_of(user) {
            None => (self, refused("no room"@)),
            Some(k) => {
                let (s, answer) = self.at(k as int).cancel_ready(user, now);
                (self.back(k as int, s), answer)
            },
        }
    }

    /// The record that a user of the room at place `k` uploaded has come in,
    /// or could not be had. The request no longer holds the user and the room.
    pub open spec fn record_fetched(
        self,
        user: UserKey,
        k: int,
        fetched: Result<Record, Seq<char>>,
        picks: Seq<nat>,
        now: u64,
    ) -> Answered {
        match fetched {
            Err(text) => (self.answered(k).release(user).settled(), refused(text)),
            Ok(record) => {
                let (s, answer) = self.at(k).played(user, record, picks, now);
                (self.back(k, s).answered(k).release(user).settled(), answer)
            },
        }
    }

    /// A user gives up.
    pub open spec fn abort(self, user: UserKey, picks: Seq<nat>, now: u64) -> Answered {
        match self.room_of(user) {
            None => (self, refused("no room"@)),
            Some(k) => {
                let (s, answer) = self.at(k as int).abort(user, picks, now);
                (self.back(k as int, s), answer)
            },
        }
    }

    /// A user who is there sends a command. `picks` stands for what chance
    /// decides.
    pub open spec fn process(self, user: UserKey, cmd: ClientCommand, picks: Seq<nat>, now: u64) -> (
        World,
        OutcomeView,
    ) {
        let (w, outcome) = self.serve(user, cmd, picks, now);
        (w.settled(), outcome)
    }

    /// The command of a user is carried out. A request to another service holds
    /// the user and the room.
    pub open spec fn serve(self, user: UserKey, cmd: ClientCommand, picks: Seq<nat>, now: u64) -> (
        World,
        OutcomeView,
    ) {
        match cmd {
            ClientCommand::Ping => (self, OutcomeView::Reply(None)),
            ClientCommand::Authenticate { .. } => (
                self,
                OutcomeView::Reply(
                    Some(
                        ServerCommandView::Authenticate(
                            Err(RefusalView::Text("repeated authenticate"@)),
                        ),
                    ),
                ),
            ),
            ClientCommand::Chat { message } => {
                let (w, a) = self.chat(user, message@);
                (w, OutcomeView::Reply(Some(ServerCommandView::Chat(a))))
            },
            ClientCommand::Touches { frames } => (
                match self.room_of(user) {
                    None => self,
                    Some(k) => self.back(k as int, self.at(k as int).touches(user, frames@)),
                },
                OutcomeView::Reply(None),
            ),
            ClientCommand::Judges { judges } => (
                match self.room_of(user) {
                    None => self,
                    Some(k) => self.back(k as int, self.at(k as int).judges(user, judges@)),
                },
                OutcomeView::Reply(None),
            ),
            ClientCommand::CreateRoom { id } => {
                let (w, a) = self.create_room(user, id@, now);
                (w, OutcomeView::Reply(Some(ServerCommandView::CreateRoom(a))))
            },
            ClientCommand::JoinRoom { id, monitor } => {
                let (w, a) = self.join_room(user, id@, monitor, picks, now);
                (w, OutcomeView::Reply(Some(ServerCommandView::JoinRoom(a))))
            },
            ClientCommand::LeaveRoom => {
                let (w, a) = self.leave_room(user, picks[0], now);
                (w, OutcomeView::Reply(Some(ServerCommandView::LeaveRoom(a))))
            },
            ClientCommand::LockRoom { .. } => {
                let (w, a) = self.press(user, false);
                (w, OutcomeView::Reply(Some(ServerCommandView::LockRoom(a))))
            },
            ClientCommand::CycleRoom { .. } => {
                let (w, a) = self.press(user, true);
                (w, OutcomeView::Reply(Some(ServerCommandView::CycleRoom(a))))
            },
            ClientCommand::SelectChart { id } => match self.may_select(user) {
                Ok(()) => (
                    self.asked(self.room_of(user)->0 as int).hold(user),
                    OutcomeView::FetchChart { id, room: self.room_of(user)->0 },
                ),
                Err(e) => (
                    self,
                    OutcomeView::Reply(Some(ServerCommandView::SelectChart(Err(e)))),
                ),
            },
            ClientCommand::RequestStart => {
                let (w, a) = self.request_start(user, picks[0], now);
                (w, OutcomeView::Reply(Some(ServerCommandView::RequestStart(a))))
            },
            ClientCommand::Ready => {
                let (w, a) = self.ready(user, picks, now);
                (w, OutcomeView::Reply(Some(ServerCommandView::Ready(a))))
            },
            ClientCommand::CancelReady => {
                let (w, a) = self.cancel_ready(user, now);
                (w, OutcomeView::Reply(Some(ServerCommandView::CancelReady(a))))
            },
            ClientCommand::Played { id } => match self.room_of(user) {
                Some(k) => (
                    self.asked(k as int).hold(user),
                    OutcomeView::FetchRecord { id, room: k },
                ),
                None => (
                    self,
                    OutcomeView::Reply(Some(ServerCommandView::Played(refused("no room"@)))),
                ),
            },
            ClientCommand::Abort => {
                let (w, a) = self.abort(user, picks, now);
                (w, OutcomeView::Reply(Some(ServerCommandView::Abort(a))))
            },
        }
    }

    /// A user who cannot be reached any more, and is held for the time being, is
    /// put out of the room at place `k`, and the server lets go whom it knows by
    /// their id.
    pub open spec fn expel(self, user: UserKey, k: int, pick: nat, now: u64) -> World {
        self.unregister(id_of(self.users, user)).leave_at(user, k, pick, now)
    }

    /// The connection of a user is gone. In a game that goes on they are put
    /// out at once; otherwise the server waits for them, which holds them, and
    /// hands out the mark of the wait.
    pub open spec fn dangle(self, user: UserKey, pick: nat, now: u64) -> (World, Option<u64>) {
        let (w, mark) = self.lose(user, pick, now);
        (w.settled(), mark)
    }

    /// What the loss of a connection leads to, before any room is given up.
    pub open spec fn lose(self, user: UserKey, pick: nat, now: u64) -> (World, Option<u64>) {
        let w = self.hold(user);
        match self.room_of(user) {
            Some(k) if self.rooms[k as int].room.state is Playing => (
                w.expel(user, k as int, pick, now).release(user),
                None,
            ),
            _ => if self.users.contains_key(user) {
                let mark = self.next_mark;
                (
                    World {
                        users: w.users.insert(
                            user,
                            User { dangle_mark: Some(mark), ..w.users[user] },
                        ),
                        next_mark: if mark == u64::MAX {
                            0
                        } else {
                            (mark + 1) as u64
                        },
                        ..w
                    },
                    Some(mark),
                )
            } else {
                (self, None)
            },
        }
    }

    /// A wait for a user is over. If it is still the one that counts, and the
    /// user is in a room, they are put out. The wait no longer holds the user.
    pub open spec fn dangle_expired(self, user: UserKey, mark: u64, pick: nat, now: u64) -> World {
        let w = if self.users.contains_key(user) && self.users[user].dangle_mark == Some(mark) {
            match self.users[user].room {
                Some(k) => self.expel(user, k as int, pick, now),
                None => self,
            }
        } else {
            self
        };
        w.release(user).settled()
    }

    /// The key of the user who comes in with `id`: that of the user whom the
    /// server knows, or a new one.
    pub open spec fn key_for(self, id: i32) -> UserKey {
        if self.registry.contains_key(id) {
            self.registry[id]
        } else {
            self.next_key
        }
    }

    /// A user comes in, or comes back, on a connection, which holds them.
    pub open spec fn sign_in(self, session: u128, id: i32, name: String, lang: String) -> World {
        let key = self.key_for(id);
        if self.registry.contains_key(id) {
            let u = self.users[key];
            World {
                users: self.users.insert(
                    key,
                    User {
                        session: Some(session),
                        dangle_mark: None,
                        holds: one_more(u.holds),
                        ..u
                    },
                ),
                ..self
            }
        } else {
            World {
                users: self.users.insert(
                    key,
                    User {
                        id,
                        name,
                        lang,
                        session: Some(session),
                        room: None,
                        monitor: false,
                        game_time: 0,
                        dangle_mark: None,
                        registered: true,
                        holds: 1,
                        listings: 0,
                    },
                ),
                registry: self.registry.insert(id, key),
                next_key: (key + 1) as u64,
                ..self
            }
        }
    }

    /// What a user gets to see when they come in: themselves, and the room that
    /// they are still in.
    pub open spec fn greeting(self, user: UserKey) -> (UserInfo, Option<ClientRoomStateView>) {
        (
            info_of(self.users[user]),
            match self.users[user].room {
                Some(k) => Some(self.rooms[k as int].room.client_state(self.users, user)),
                None => None,
            },
        )
    }

    /// A connection is gone, and no longer holds its user. Only a user who has
    /// not come back on another one is waited for, or put out.
    pub open spec fn hang_up(self, user: UserKey, session: u128, pick: nat, now: u64) -> (
        World,
        Option<u64>,
    ) {
        if self.users.contains_key(user) && self.users[user].session == Some(session) {
            let (w, mark) = World {
                users: self.users.insert(user, User { session: None, ..self.users[user] }),
                ..self
            }.lose(user, pick, now);
            (w.release(user).settled(), mark)
        } else {
            (self.release(user).settled(), None)
        }
    }
}

} // verus!

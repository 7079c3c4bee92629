//! The course of a game in a room: who leaves, who is late, when it begins
//! and when it ends.
use vstd::arithmetic::div_mod::{lemma_mod_self_0, lemma_small_mod};
use vstd::prelude::*;
use std::collections::{HashMap, HashSet};
use crate::chance::draw_user;
use crate::keys::{chain_keys, find_key, lemma_position, UserKey};
use crate::outbox::{EffectView, Outbox};
use crate::protocol::{Message, MessageView, ServerCommand, ServerCommandView, SERVER_USER};
use crate::ranking::{law_ranking, rank, ranked, result_text, UserPlayedResult};
use crate::room::{Fault, InternalRoomState, Room, RoomView, StateView};
use crate::scene::{elapsed, host_hint, result_ids, scene, scene_after, Scene};
use crate::text::{marked, texts};
use crate::users::{
    alive, id_of, lemma_others, lemma_take_to_set, with_times_reset, UserTable,
};

verus! {

/// The seconds from `since` to `now`, on a clock of 64 bits.
pub fn seconds_between(now: u64, since: u64) -> (r: u64)
    ensures
        r == elapsed(now, since),
{
    now.wrapping_sub(since)
}

/// Every string, with `mark` in front of it.
fn mark_texts(parts: &Vec<String>, mark: &str) -> (r: String)
    ensures
        r@ == marked(texts(parts@), mark@),
{
    let ghost all = texts(parts@);
    let mut r: String = String::new();
    let mut i: usize = 0;
    assert(all.take(0) =~= Seq::empty());
    while i < parts.len()
        invariant
            i <= parts.len(),
            all == texts(parts@),
            r@ == marked(all.take(i as int), mark@),
        decreases parts.len() - i,
    {
        assert(all.take(i + 1).drop_last() =~= all.take(i as int));
        r.append(mark);
        r.append(parts[i].as_str());
        i = i + 1;
    }
    assert(all.take(i as int) =~= all);
    r
}

/// The ids of those who have a result.
fn played_ids(results: &Vec<UserPlayedResult>) -> (r: HashSet<i32>)
    ensures
        r@ == result_ids(results@),
{
    let ghost ids = results@.map_values(|r: UserPlayedResult| r.id);
    let mut r: HashSet<i32> = HashSet::new();
    let mut i: usize = 0;
    assert(ids.take(0).to_set() =~= Set::empty());
    while i < results.len()
        invariant
            i <= results.len(),
            ids == results@.map_values(|r: UserPlayedResult| r.id),
            r@ == ids.take(i as int).to_set(),
        decreases results.len() - i,
    {
        proof {
            lemma_take_to_set(ids, i as int);
        }
        r.insert(results[i].id);
        i = i + 1;
    }
    assert(ids.take(i as int) =~= ids);
    r
}

impl Room {
    /// Sends a command to everyone in the room.
    pub fn broadcast(&self, users: &UserTable, cmd: ServerCommand, out: &mut Outbox)
        ensures
            final(out)@ == old(out)@.push(
                EffectView::Send { to: self@.audience(users@), cmd: cmd@ },
            ),
    {
        out.send(self.audience(users), cmd);
    }

    /// Sends a command to the monitors.
    pub fn broadcast_monitors(&self, users: &UserTable, cmd: ServerCommand, out: &mut Outbox)
        ensures
            final(out)@ == old(out)@.push(
                EffectView::Send { to: alive(users@, self@.monitors), cmd: cmd@ },
            ),
    {
        out.send(self.monitors(users), cmd);
    }

    /// Adds a line to the room's log.
    pub fn send(&self, users: &UserTable, msg: Message, out: &mut Outbox)
        ensures
            final(out)@ == old(out)@.push(
                EffectView::Send {
                    to: self@.audience(users@),
                    cmd: ServerCommandView::Message(msg@),
                },
            ),
    {
        self.broadcast(users, ServerCommand::Message(msg), out);
    }

    /// Says something in the name of the server.
    pub fn send_as_server(&self, users: &UserTable, content: String, out: &mut Outbox)
        ensures
            final(out)@ == old(out)@.push(
                EffectView::Send {
                    to: self@.audience(users@),
                    cmd: ServerCommandView::Message(
                        MessageView::Chat { user: SERVER_USER, content: content@ },
                    ),
                },
            ),
    {
        self.send(users, Message::Chat { user: SERVER_USER, content }, out);
    }

    /// Says something in the name of a user.
    pub fn send_as(&self, users: &UserTable, user: UserKey, content: String, out: &mut Outbox)
        ensures
            final(out)@ == old(out)@.push(
                EffectView::Send {
                    to: self@.audience(users@),
                    cmd: ServerCommandView::Message(
                        MessageView::Chat { user: id_of(users@, user), content: content@ },
                    ),
                },
            ),
    {
        self.send(users, Message::Chat { user: users.id(user), content }, out);
    }

    /// Says something to the host, in the name of the server.
    pub fn send_as_server_to_host(&self, users: &UserTable, content: String, out: &mut Outbox) -> (r:
        Result<(), Fault>)
        ensures
            if users@.contains_key(self@.host) {
                r is Ok && final(out)@ == old(out)@.push(
                    EffectView::Send {
                        to: seq![self@.host],
                        cmd: ServerCommandView::Message(
                            MessageView::Chat { user: SERVER_USER, content: content@ },
                        ),
                    },
                )
            } else {
                r == Err::<(), Fault>(Fault::HostGone) && final(out)@ == old(out)@
            },
    {
        if users.get(self.host).is_none() {
            return Err(Fault::HostGone);
        }
        out.send_to(
            self.host,
            ServerCommand::Message(Message::Chat { user: SERVER_USER, content }),
        );
        Ok(())
    }

    /// Tells everyone what the room does now.
    pub fn on_state_change(&self, users: &UserTable, out: &mut Outbox)
        ensures
            final(out)@ == old(out)@.push(
                EffectView::Send {
                    to: self@.audience(users@),
                    cmd: ServerCommandView::ChangeState(self@.client_room_state()),
                },
            ),
    {
        self.broadcast(users, ServerCommand::ChangeState(self.client_room_state()), out);
    }

    /// Takes the game time of every player back.
    pub fn reset_game_time(&self, users: &mut UserTable)
        ensures
            final(users)@ == with_times_reset(old(users)@, self@.players(old(users)@)),
    {
        let players: Vec<UserKey> = self.users(users);
        users.reset_times(&players);
    }

    /// Makes a user the host and tells everyone.
    fn appoint(&mut self, users: &UserTable, host: UserKey, out: &mut Outbox, now: u64)
        ensures
            scene(*final(self), *users, *final(out)) == scene(
                *old(self),
                *users,
                *old(out),
            ).appoint(host, now),
    {
        self.host = host;
        self.reset_host_time(now);
        assert(self@ =~= RoomView { host, host_time: now, ..old(self)@ });
        self.send(users, Message::NewHost { user: users.id(host) }, out);
    }

    /// Makes the next player the host.
    pub(crate) fn pass_host(
        &mut self,
        users: &UserTable,
        out: &mut Outbox,
        now: u64,
        announce: bool,
    ) -> (r: Result<UserKey, Fault>)
        ensures
            scene_after(*final(self), *users, *final(out), r) == scene(
                *old(self),
                *users,
                *old(out),
            ).pass_host(now, announce),
            r matches Ok(new) ==> new == old(self)@.next_host(users@),
    {
        let ghost s0 = scene(*self, *users, *out);
        let players: Vec<UserKey> = self.users(users);
        if players.len() == 0 {
            return Err(Fault::EmptyRoom);
        }
        let old_host: UserKey = self.host;
        let index: usize = match find_key(&players, old_host) {
            Some(i) => {
                proof {
                    let len = players@.len() as int;
                    lemma_position(players@, old_host);
                    if i + 1 < len {
                        lemma_small_mod((i + 1) as nat, len as nat);
                    } else {
                        lemma_mod_self_0(len);
                    }
                }
                if i + 1 == players.len() {
                    0
                } else {
                    i + 1
                }
            },
            None => 0,
        };
        let new: UserKey = players[index];
        assert(new == s0.room.next_host(users@));
        proof {
            lemma_others(users@, self.users@, Set::empty());
            assert(users@.contains_key(players@[index as int]));
        }
        self.appoint(users, new, out, now);
        if users.get(old_host).is_some() {
            out.send_to(old_host, ServerCommand::ChangeHost(false));
            if announce {
                self.send_as_server(
                    users,
                    "原房主 ".to_string().concat(users.name(old_host).as_str()).concat(
                        " 已将房主转移至 ",
                    ).concat(users.name(new).as_str()),
                    out,
                );
            }
        }
        out.send_to(new, ServerCommand::ChangeHost(true));
        let hinted = self.send_as_server_to_host(
            users,
            "\n[重要] 房主面板(开始游戏=确定;锁定房间=↑;循环模式=↓):\n".to_string(),
            out,
        );
        assert(hinted is Ok);
        Ok(new)
    }

    /// Reads the results of the game out.
    fn say_results(&self, users: &UserTable, out: &mut Outbox)
        ensures
            scene(*self, *users, *final(out)) == scene(*self, *users, *old(out)).say_results(
                self@.users_played_result.len(),
            ),
    {
        let ghost s0 = scene(*self, *users, *out);
        let results: Vec<UserPlayedResult> = rank(&self.users_played_result);
        proof {
            law_ranking(self.users_played_result@);
        }
        let mut i: usize = 0;
        while i < results.len()
            invariant
                i <= results.len(),
                s0.room == self@,
                results@ == ranked(self@.users_played_result),
                scene(*self, *users, *out) == s0.say_results(i as nat),
            decreases results.len() - i,
        {
            let rank: u64 = i as u64 + 1;
            self.send_as_server(users, result_text(rank, &results[i]), out);
            i = i + 1;
            assert(scene(*self, *users, *out) =~= s0.say_results(i as nat));
        }
    }

    fn start_game(&mut self, users: &mut UserTable, out: &mut Outbox, now: u64)
        ensures
            scene(*final(self), *final(users), *final(out)) == scene(
                *old(self),
                *old(users),
                *old(out),
            ).start_game(now),
    {
        self.send(users, Message::StartPlaying, out);
        self.reset_host_time(0);
        self.reset_game_time(users);
        self.users_played_result = Vec::new();
        self.state = InternalRoomState::Playing {
            results: HashMap::new(),
            aborted: HashSet::new(),
            start_time: now,
        };
        self.on_state_change(users, out);
        assert(scene(*self, *users, *out) =~= scene(*old(self), *old(users), *old(out)).start_game(
            now,
        ));
    }

    fn end_game(&mut self, users: &UserTable, out: &mut Outbox, now: u64) -> (r: Result<(), Fault>)
        ensures
            scene_after(*final(self), *users, *final(out), r) == scene(
                *old(self),
                *users,
                *old(out),
            ).end_game(now),
    {
        let ghost s0 = scene(*self, *users, *out);
        self.send(users, Message::GameEnd, out);
        self.send_as_server(users, "游戏结束, 结果如下:".to_string(), out);
        self.say_results(users, out);
        if self.users_played_result.len() == 0 {
            self.send_as_server(users, "没有结果吗(⊙_⊙)？".to_string(), out);
        }
        proof {
            s0.send(MessageView::GameEnd).say("游戏结束, 结果如下:"@).lemma_say_results(
                s0.room.users_played_result.len(),
            );
        }
        self.clear_waiting_users();
        self.state = InternalRoomState::SelectChart;
        if self.is_cycle() {
            match self.pass_host(users, out, now, false) {
                Ok(_) => {},
                Err(fault) => {
                    return Err(fault);
                },
            }
        }
        self.on_state_change(users, out);
        Ok(())
    }

    /// Begins the game if everyone is ready, and ends it if everyone is done.
    pub fn check_all_ready(&mut self, users: &mut UserTable, out: &mut Outbox, now: u64) -> (r: Result<
        (),
        Fault,
    >)
        ensures
            scene_after(*final(self), *final(users), *final(out), r) == scene(
                *old(self),
                *old(users),
                *old(out),
            ).check_all_ready(now),
    {
        let active: Vec<UserKey> = self.active(users);
        match &self.state {
            InternalRoomState::WaitForReady { started, .. } => {
                let everyone: Vec<UserKey> = chain_keys(&active, &self.monitors(users));
                let mut i: usize = 0;
                while i < everyone.len()
                    invariant
                        i <= everyone.len(),
                        everyone@ == self@.active(users@) + alive(users@, self@.monitors),
                        self@.state matches StateView::WaitForReady { started: s, .. } && s
                            == started@,
                        forall|j: int|
                            0 <= j < i ==> started@.contains(
                                id_of(users@, #[trigger] everyone@[j]),
                            ),
                    decreases everyone.len() - i,
                {
                    if !started.contains(&users.id(everyone[i])) {
                        assert(!started@.contains(id_of(users@, everyone@[i as int])));
                        assert(!self@.all_ready(users@));
                        return Ok(());
                    }
                    i = i + 1;
                }
                assert(self@.all_ready(users@));
                self.start_game(users, out, now);
                Ok(())
            },
            InternalRoomState::Playing { results, aborted, .. } => {
                let mut i: usize = 0;
                while i < active.len()
                    invariant
                        i <= active.len(),
                        active@ == self@.active(users@),
                        self@.state matches StateView::Playing { results: rs, aborted: ab, .. } && rs
                            == results@ && ab == aborted@,
                        forall|j: int|
                            0 <= j < i ==> results@.contains_key(
                                id_of(users@, #[trigger] active@[j]),
                            ) || aborted@.contains(id_of(users@, active@[j])),
                    decreases active.len() - i,
                {
                    let id: i32 = users.id(active[i]);
                    if !results.contains_key(&id) && !aborted.contains(&id) {
                        assert(id == id_of(users@, active@[i as int]));
                        assert(!self@.all_done(users@));
                        return Ok(());
                    }
                    i = i + 1;
                }
                assert(self@.all_done(users@));
                self.end_game(users, out, now)
            },
            InternalRoomState::SelectChart => Ok(()),
        }
    }

    /// Takes a user out of the room, and lets the player at place `pick`, taken
    /// around in a circle, follow a host who leaves. Returns whether the room
    /// is to be dropped.
    #[must_use]
    pub fn on_user_leave_with(
        &mut self,
        users: &mut UserTable,
        out: &mut Outbox,
        user: UserKey,
        pick: usize,
        now: u64,
    ) -> (r: Result<bool, Fault>)
        ensures
            scene_after(*final(self), *final(users), *final(out), r) == scene(
                *old(self),
                *old(users),
                *old(out),
            ).leave(user, pick as nat, now),
            r matches Ok(dropped) ==> dropped == scene(*old(self), *old(users), *old(out)).drops(
                user,
            ),
    {
        self.depart(users, out, user);
        if self.is_host(users, users.id(user)) {
            let players: Vec<UserKey> = self.users(users);
            if players.len() == 0 && self.users_waiting(users).len() == 0 {
                return Ok(true);
            }
            if players.len() == 0 {
                return Err(Fault::NoCandidate);
            }
            let index: usize = pick % players.len();
            let new: UserKey = players[index];
            proof {
                lemma_others(users@, self.users@, Set::empty());
                assert(users@.contains_key(players@[index as int]));
            }
            self.succeed(users, out, new, now);
        }
        match self.check_all_ready(users, out, now) {
            Ok(()) => Ok(false),
            Err(fault) => Err(fault),
        }
    }

    /// Takes a user out of the room. A random player follows a host who
    /// leaves. Returns whether the room is to be dropped.
    #[must_use]
    pub fn on_user_leave(
        &mut self,
        users: &mut UserTable,
        out: &mut Outbox,
        user: UserKey,
        now: u64,
    ) -> (r: Result<bool, Fault>)
        ensures
            exists|pick: nat|
                scene_after(*final(self), *final(users), *final(out), r) == #[trigger] scene(
                    *old(self),
                    *old(users),
                    *old(out),
                ).leave(user, pick, now),
            r matches Ok(dropped) ==> dropped == scene(*old(self), *old(users), *old(out)).drops(
                user,
            ),
    {
        let mut pick: usize = 0;
        if self.is_host(users, users.id(user)) {
            let left: Vec<UserKey> = if users.monitor(user) {
                self.users(users)
            } else {
                users.without_id(&self.users, users.id(user))
            };
            if let Some(new) = draw_user(&left) {
                if let Some(i) = find_key(&left, new) {
                    pick = i;
                    assert(left@[pick as int] == new) by {
                        lemma_position(left@, new);
                    }
                }
            }
        }
        self.on_user_leave_with(users, out, user, pick, now)
    }

    fn depart(&mut self, users: &mut UserTable, out: &mut Outbox, user: UserKey)
        ensures
            scene(*final(self), *final(users), *final(out)) == scene(
                *old(self),
                *old(users),
                *old(out),
            ).departed(user),
    {
        let id: i32 = users.id(user);
        self.send(users, Message::LeaveRoom { user: id, name: users.name(user) }, out);
        if users.monitor(user) {
            self.monitors = users.without_id(&self.monitors, id);
        } else {
            self.users = users.without_id(&self.users, id);
        }
        users.set_room(user, None);
        assert(scene(*self, *users, *out) =~= scene(*old(self), *old(users), *old(out)).departed(
            user,
        ));
    }

    fn succeed(&mut self, users: &UserTable, out: &mut Outbox, new: UserKey, now: u64)
        requires
            users@.contains_key(new),
        ensures
            scene(*final(self), *users, *final(out)) == scene(
                *old(self),
                *users,
                *old(out),
            ).appoint(new, now).say_to_host(host_hint()).post(
                seq![new],
                ServerCommandView::ChangeHost(true),
            ),
    {
        self.appoint(users, new, out, now);
        let hinted = self.send_as_server_to_host(
            users,
            "\n[重要] 房主面板(开始游戏=确定;锁定房间=↑;循环模式=↓):\n".to_string(),
            out,
        );
        assert(hinted is Ok);
        out.send_to(new, ServerCommand::ChangeHost(true));
    }

    /// Puts the users on a list out.
    fn kick_all(&mut self, users: &mut UserTable, out: &mut Outbox, list: &Vec<UserKey>, now: u64) -> (r:
        Result<(), Fault>)
        ensures
            exists|picks: Seq<nat>|
                picks.len() == list@.len() && scene_after(
                    *final(self),
                    *final(users),
                    *final(out),
                    r,
                ) == #[trigger] scene(*old(self), *old(users), *old(out)).kick_all(list@, picks, now),
    {
        let ghost s0 = scene(*self, *users, *out);
        let ghost mut picks: Seq<nat> = Seq::empty();
        let mut i: usize = 0;
        assert(list@.take(0) =~= Seq::empty());
        while i < list.len()
            invariant
                i <= list.len(),
                picks.len() == i,
                s0 == scene(*old(self), *old(users), *old(out)),
                scene(*self, *users, *out) == s0.kick_all(list@.take(i as int), picks, now),
            decreases list.len() - i,
        {
            let ghost s1 = scene(*self, *users, *out);
            let key: UserKey = list[i];
            let gone = self.on_user_leave(users, out, key, now);
            let ghost pick = choose|pick: nat|
                scene_after(*self, *users, *out, gone) == #[trigger] s1.leave(key, pick, now);
            proof {
                let before = picks;
                picks = picks.push(pick);
                assert(picks.drop_last() =~= before);
                assert(list@.take(i + 1).drop_last() =~= list@.take(i as int));
                assert(scene_after(*self, *users, *out, gone) == s0.kick_all(
                    list@.take(i + 1),
                    picks,
                    now,
                ));
            }
            i = i + 1;
            match gone {
                Ok(_) => {},
                Err(fault) => {
                    proof {
                        let rest = Seq::new((list@.len() - i) as nat, |j: int| 0nat);
                        s0.lemma_kick_stops(list@, picks, rest, i as int, now);
                        assert(s0.kick_all(list@, picks + rest, now) == scene_after::<()>(
                            *self,
                            *users,
                            *out,
                            Err(fault),
                        ));
                    }
                    return Err(fault);
                },
            }
        }
        assert(list@.take(i as int) =~= list@);
        Ok(())
    }

    /// Puts out a host who has let the time for choosing a chart run out.
    pub fn check_host_time_proper(&mut self, users: &mut UserTable, out: &mut Outbox, now: u64) -> (r:
        Result<(), Fault>)
        ensures
            exists|pick: nat|
                scene_after(*final(self), *final(users), *final(out), r) == #[trigger] scene(
                    *old(self),
                    *old(users),
                    *old(out),
                ).check_host_time(pick, now),
    {
        let ghost s0 = scene(*self, *users, *out);
        if self.host_time != 0 && seconds_between(now, self.host_time) >= 360 {
            let host: UserKey = self.host;
            if users.get(host).is_none() {
                assert(s0.check_host_time(0, now) == s0.failed(Fault::HostGone));
                return Err(Fault::HostGone);
            }
            self.send_as_server(
                users,
                "房主 ".to_string().concat(users.name(host).as_str()).concat(
                    " 选择谱面超时,已被踢出",
                ),
                out,
            );
            let ghost s1 = scene(*self, *users, *out);
            let gone = self.on_user_leave(users, out, host, now);
            let ghost pick = choose|pick: nat|
                scene_after(*self, *users, *out, gone) == #[trigger] s1.leave(host, pick, now);
            assert(scene_after(*self, *users, *out, gone) == s0.check_host_time(pick, now));
            match gone {
                Ok(_) => Ok(()),
                Err(fault) => Err(fault),
            }
        } else {
            assert(s0.check_host_time(0, now) == s0);
            Ok(())
        }
    }

    /// Puts out those who should have been ready by now.
    pub fn check_ready_time_proper(&mut self, users: &mut UserTable, out: &mut Outbox, now: u64) -> (r:
        Result<(), Fault>)
        ensures
            exists|picks: Seq<nat>|
                scene_after(*final(self), *final(users), *final(out), r) == #[trigger] scene(
                    *old(self),
                    *old(users),
                    *old(out),
                ).check_ready_time(picks, now),
    {
        let ghost s0 = scene(*self, *users, *out);
        let active: Vec<UserKey> = self.active(users);
        let (start_time, late): (u64, Vec<UserKey>) = match &self.state {
            InternalRoomState::WaitForReady { start_time, started } => (
                *start_time,
                users.others(&active, started),
            ),
            _ => {
                let nobody: HashSet<i32> = HashSet::new();
                (0, users.others(&active, &nobody))
            },
        };
        if seconds_between(now, start_time) >= 90 {
            assert(s0.late_for_ready(now) == Some(late@));
            let names: Vec<String> = users.names(&late);
            match self.kick_all(users, out, &late, now) {
                Ok(()) => {
                    let ghost s1 = scene(*self, *users, *out);
                    let ghost picks = choose|picks: Seq<nat>|
                        picks.len() == late@.len() && s1 == #[trigger] s0.kick_all(
                            late@,
                            picks,
                            now,
                        );
                    self.send_as_server(
                        users,
                        "以下玩家未准备且已超时,被踢出: ".to_string().concat(
                            mark_texts(&names, "、").as_str(),
                        ),
                        out,
                    );
                    assert(scene(*self, *users, *out) == s0.check_ready_time(picks, now));
                    Ok(())
                },
                Err(fault) => {
                    let ghost s1 = scene_after::<()>(*self, *users, *out, Err(fault));
                    let ghost picks = choose|picks: Seq<nat>|
                        picks.len() == late@.len() && s1 == #[trigger] s0.kick_all(
                            late@,
                            picks,
                            now,
                        );
                    assert(s1 == s0.check_ready_time(picks, now));
                    Err(fault)
                },
            }
        } else {
            assert(s0 == s0.check_ready_time(Seq::empty(), now));
            Ok(())
        }
    }

    /// Puts out those who should have finished playing by now. Returns whether
    /// there is time left.
    pub fn check_game_time_proper(&mut self, users: &mut UserTable, out: &mut Outbox, now: u64) -> (r:
        Result<bool, Fault>)
        ensures
            exists|picks: Seq<nat>|
                scene_after(*final(self), *final(users), *final(out), r) == #[trigger] scene(
                    *old(self),
                    *old(users),
                    *old(out),
                ).check_game_time(picks, now),
            r matches Ok(in_time) ==> in_time == (scene(
                *old(self),
                *old(users),
                *old(out),
            ).late_for_end(now) is None),
    {
        let ghost s0 = scene(*self, *users, *out);
        let active: Vec<UserKey> = self.active(users);
        let (over, late): (bool, Vec<UserKey>) = if self.users_played_result.len() < 1 {
            let start_time: u64 = match &self.state {
                InternalRoomState::Playing { start_time, .. } => *start_time,
                _ => 0,
            };
            (seconds_between(now, start_time) >= 480, active)
        } else {
            let played: HashSet<i32> = played_ids(&self.users_played_result);
            (
                seconds_between(now, self.users_played_result[0].finish_time) >= 120,
                users.others(&active, &played),
            )
        };
        if over {
            assert(s0.late_for_end(now) == Some(late@));
            let names: Vec<String> = users.names(&late);
            match self.kick_all(users, out, &late, now) {
                Ok(()) => {
                    let ghost s1 = scene(*self, *users, *out);
                    let ghost picks = choose|picks: Seq<nat>|
                        picks.len() == late@.len() && s1 == #[trigger] s0.kick_all(
                            late@,
                            picks,
                            now,
                        );
                    self.send_as_server(
                        users,
                        "(以下玩家游玩超时,已被踢出: ? ".to_string().concat(
                            mark_texts(&names, "、").as_str(),
                        ).concat(")"),
                        out,
                    );
                    assert(scene(*self, *users, *out) == s0.check_game_time(picks, now));
                    Ok(false)
                },
                Err(fault) => {
                    let ghost s1 = scene_after::<()>(*self, *users, *out, Err(fault));
                    let ghost picks = choose|picks: Seq<nat>|
                        picks.len() == late@.len() && s1 == #[trigger] s0.kick_all(
                            late@,
                            picks,
                            now,
                        );
                    assert(s1 == s0.check_game_time(picks, now));
                    Err(fault)
                },
            }
        } else {
            assert(s0 == s0.check_game_time(Seq::empty(), now));
            Ok(true)
        }
    }
}

impl Scene {
    /// Nobody else is put out once something has gone wrong.
    proof fn lemma_kick_stops(
        self,
        list: Seq<UserKey>,
        picks: Seq<nat>,
        rest: Seq<nat>,
        n: int,
        now: u64,
    )
        requires
            0 <= n <= list.len(),
            picks.len() == n,
            rest.len() == list.len() - n,
            !self.kick_all(list.take(n), picks, now).ok(),
        ensures
            self.kick_all(list, picks + rest, now) == self.kick_all(list.take(n), picks, now),
        decreases list.len() - n,
    {
        if n == list.len() {
            assert(list.take(n) =~= list);
            assert(picks + rest =~= picks);
        } else {
            let more = picks.push(rest[0]);
            assert(more.drop_last() =~= picks);
            assert(list.take(n + 1).drop_last() =~= list.take(n));
            assert(self.kick_all(list.take(n + 1), more, now) == self.kick_all(
                list.take(n),
                picks,
                now,
            ));
            self.lemma_kick_stops(list, more, rest.drop_first(), n + 1, now);
            assert(more + rest.drop_first() =~= picks + rest);
        }
    }

    /// Reading results out changes nothing but the effects.
    pub proof fn lemma_say_results(self, n: nat)
        ensures
            self.say_results(n).room == self.room,
            self.say_results(n).users == self.users,
            self.say_results(n).fault == self.fault,
            self.say_results(n).out.len() == self.out.len() + n,
        decreases n,
    {
        if n > 0 {
            self.lemma_say_results((n - 1) as nat);
        }
    }
}

} // verus!

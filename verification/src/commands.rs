//! What users can do in a room.
use vstd::prelude::*;
use std::collections::HashSet;
use crate::game::seconds_between;
use crate::keys::UserKey;
use crate::outbox::Outbox;
use crate::protocol::{
    answer_view, refuse, JoinRoomResponse, JoinRoomResponseView, JudgeEvent, Message, MessageView,
    Refusal, RefusalView, RoomState, ServerCommand, ServerCommandView, TextKey, TouchFrame,
};
use crate::ranking::{Record, UserPlayedResult};
use crate::room::{Chart, Fault, InternalRoomState, Room, RoomView, StateView};
use crate::scene::{elapsed, overdue_text, scene, scene_after, time_text, Scene};
use crate::text::decimal_text;
use crate::users::{
    id_of, info_of, infos, name_of, with_game_time, with_monitor, with_room, with_times_reset,
    UserTable, MONITOR_USER,
};

verus! {

/// What a command on a room leads to: the scene, and the answer to the user.
pub type Turn = (Scene, Result<(), RefusalView>);

/// Refused, with a fixed text.
pub open spec fn refused(text: Seq<char>) -> Result<(), RefusalView> {
    Err(RefusalView::Text(text))
}

/// What only the host may do is refused to anyone else.
pub open spec fn host_only() -> Result<(), RefusalView> {
    refused("只有房主才能进行此操作"@)
}

/// The outcome of a request to join.
pub open spec fn join_view(r: Result<JoinRoomResponse, Refusal>) -> Result<
    JoinRoomResponseView,
    RefusalView,
> {
    match r {
        Ok(response) => Ok(response@),
        Err(e) => Err(e@),
    }
}

/// How the server greets a user who joins.
pub open spec fn welcome_text(name: Seq<char>, public: bool) -> Seq<char> {
    "欢迎用户 "@ + name + if public {
        " 进入此服务器的public房间! 本服务器使用由BZLZHH修改的服务端"@
    } else {
        " 进入此房间! 本服务器使用由BZLZHH修改的服务端"@
    }
}

impl Scene {
    /// The state of the room is set.
    pub open spec fn with_state(self, state: StateView) -> Scene {
        Scene { room: RoomView { state, ..self.room }, ..self }
    }

    /// `user` says something.
    pub open spec fn chat(self, user: UserKey, message: Seq<char>) -> Scene {
        self.send(
            MessageView::Chat { user: id_of(self.users, user), content: "[测试版] "@ + message },
        )
    }

    /// What `user` touched is shown to the monitors of a live room.
    pub open spec fn touches(self, user: UserKey, frames: Seq<TouchFrame>) -> Scene {
        if self.room.live {
            let s = if frames.len() > 0 {
                Scene { users: with_game_time(self.users, user, frames.last().time), ..self }
            } else {
                self
            };
            s.broadcast_monitors(
                ServerCommandView::Touches { player: id_of(self.users, user), frames },
            )
        } else {
            self
        }
    }

    /// How the notes of `user` were judged is shown to the monitors of a live
    /// room.
    pub open spec fn judges(self, user: UserKey, judges: Seq<JudgeEvent>) -> Scene {
        if self.room.live {
            self.broadcast_monitors(
                ServerCommandView::Judges { player: id_of(self.users, user), judges },
            )
        } else {
            self
        }
    }

    /// `user` presses a key that moves the pointer of the panel.
    pub open spec fn press(self, user: UserKey, down: bool) -> Turn {
        if !self.hosted_by(user) {
            (self, host_only())
        } else if down {
            (self.pointer_down(), Ok(()))
        } else {
            (self.pointer_up(), Ok(()))
        }
    }

    /// Whether `user` may choose a chart now.
    pub open spec fn may_select(self, user: UserKey) -> Result<(), RefusalView> {
        if self.room.state !is SelectChart {
            refused("invalid state"@)
        } else if !self.hosted_by(user) {
            host_only()
        } else {
            Ok(())
        }
    }

    /// `user` has chosen a chart.
    pub open spec fn select(self, user: UserKey, chart: Chart) -> Scene {
        let s = self.send(
            MessageView::SelectChart {
                user: id_of(self.users, user),
                name: chart.name@,
                id: chart.id,
            },
        );
        Scene { room: RoomView { chart: Some(chart), ..s.room }, ..s }.state_change()
    }

    /// The room waits until everyone is ready for the game that `user` starts.
    pub open spec fn call_players(self, user: UserKey, now: u64) -> Scene {
        let id = id_of(self.users, user);
        let s = Scene {
            users: with_times_reset(self.users, self.room.players(self.users)),
            ..self
        };
        let s = s.send(MessageView::GameStart { user: id }).with_state(
            StateView::WaitForReady { start_time: now, started: set![id] },
        ).state_change();
        Scene { room: RoomView { host_time: 0, ..s.room }, ..s }.check_all_ready(now)
    }

    /// `user` presses the key that confirms, which starts the game if the
    /// pointer stands on the entry for it.
    pub open spec fn request_start(self, user: UserKey, pick: nat, now: u64) -> Turn {
        if self.may_select(user) is Err {
            (self, self.may_select(user))
        } else {
            let (s, action) = self.pointer_ok(user, pick, now);
            if !action.0 {
                (s, refused(action.1))
            } else if s.room.chart is None {
                (s, Err(RefusalView::Localized(TextKey::StartNoChartSelected)))
            } else {
                (s.call_players(user, now), Ok(()))
            }
        }
    }

    /// `user` is ready.
    pub open spec fn ready(self, user: UserKey, picks: Seq<nat>, now: u64) -> Turn {
        let id = id_of(self.users, user);
        match self.room.state {
            StateView::WaitForReady { start_time, started } => if started.contains(id) {
                (self, refused("already ready"@))
            } else {
                (
                    self.with_state(
                        StateView::WaitForReady { start_time, started: started.insert(id) },
                    ).send(MessageView::Ready { user: id }).check_ready_time(
                        picks,
                        now,
                    ).check_all_ready(now),
                    Ok(()),
                )
            },
            _ => (self, Ok(())),
        }
    }

    /// `user` is not ready after all. If they are the host, the game is called
    /// off.
    pub open spec fn cancel_ready(self, user: UserKey, now: u64) -> Turn {
        let id = id_of(self.users, user);
        match self.room.state {
            StateView::WaitForReady { start_time, started } => if !started.contains(id) {
                (self, refused("not ready"@))
            } else if self.hosted_by(user) {
                let s = Scene { room: RoomView { host_time: now, ..self.room }, ..self };
                let s = s.send(MessageView::CancelGame { user: id }).with_state(
                    StateView::SelectChart,
                ).state_change();
                (
                    Scene { room: RoomView { users_waiting: Seq::empty(), ..s.room }, ..s },
                    Ok(()),
                )
            } else {
                (
                    self.with_state(
                        StateView::WaitForReady { start_time, started: started.remove(id) },
                    ).send(MessageView::CancelReady { user: id }),
                    Ok(()),
                )
            },
            _ => (self, Ok(())),
        }
    }

    /// The record of what `user` played has come in.
    pub open spec fn played(self, user: UserKey, record: Record, picks: Seq<nat>, now: u64) -> Turn {
        let id = id_of(self.users, user);
        if record.player != id {
            (self, refused("invalid record"@))
        } else {
            let s = self.scored(user, record, now).send(
                MessageView::Played {
                    user: id,
                    score: record.score,
                    accuracy: record.accuracy.bits,
                    full_combo: record.full_combo,
                },
            );
            match s.room.state {
                StateView::Playing { results, aborted, start_time } => if aborted.contains(id) {
                    (s, refused("aborted"@))
                } else {
                    let s1 = s.with_state(
                        StateView::Playing {
                            results: results.insert(id, record),
                            aborted,
                            start_time,
                        },
                    );
                    if results.contains_key(id) {
                        (s1, refused("already uploaded"@))
                    } else {
                        (s1.check_game_time(picks, now).check_all_ready(now), Ok(()))
                    }
                },
                _ => (s, Ok(())),
            }
        }
    }

    /// What `user` reached is noted.
    pub open spec fn scored(self, user: UserKey, record: Record, now: u64) -> Scene {
        Scene {
            room: RoomView {
                users_played_result: self.room.users_played_result.push(
                    UserPlayedResult {
                        id: self.users[user].id,
                        user_name: self.users[user].name,
                        score: record.score,
                        accuracy: record.accuracy,
                        fc_state: record.full_combo,
                        finish_time: now,
                    },
                ),
                ..self.room
            },
            ..self
        }
    }

    /// `user` gives up.
    pub open spec fn abort(self, user: UserKey, picks: Seq<nat>, now: u64) -> Turn {
        let id = id_of(self.users, user);
        let s = Scene {
            room: RoomView { users_waiting: self.room.users_waiting.push(user), ..self.room },
            ..self
        };
        match s.room.state {
            StateView::Playing { results, aborted, start_time } => if results.contains_key(id) {
                (s, refused("already uploaded"@))
            } else if aborted.contains(id) {
                (s, refused("aborted"@))
            } else {
                (
                    s.with_state(
                        StateView::Playing { results, aborted: aborted.insert(id), start_time },
                    ).send(MessageView::Abort { user: id }).check_game_time(
                        picks,
                        now,
                    ).check_all_ready(now),
                    Ok(()),
                )
            },
            _ => (s, Ok(())),
        }
    }

    /// Why `user` may not join, whether or not there is space left.
    pub open spec fn bars(self, user: UserKey, monitor: bool) -> Option<TextKey> {
        if self.room.locked {
            Some(TextKey::JoinRoomLocked)
        } else if monitor && id_of(self.users, user) != MONITOR_USER {
            Some(TextKey::JoinCantMonitor)
        } else {
            None
        }
    }

    /// `user` is let in, and everyone hears of it.
    pub open spec fn welcome(self, user: UserKey, monitor: bool, public: bool, now: u64) -> Scene {
        let waiting = self.room.state !is SelectChart;
        let room = self.room.add_user(self.users, user, monitor, waiting, now).0;
        let s = Scene {
            room: RoomView { live: true, ..room },
            users: with_monitor(self.users, user, monitor),
            ..self
        };
        s.broadcast(ServerCommandView::OnJoinRoom(info_of(s.users[user]))).send(
            MessageView::JoinRoom { user: id_of(s.users, user), name: name_of(s.users, user) },
        ).say(welcome_text(name_of(s.users, user), public))
    }

    /// A user who has just joined is told what the room is doing, and those
    /// who are late with it are put out.
    pub open spec fn brief(self, user: UserKey, picks: Seq<nat>, now: u64) -> Scene {
        match self.room.state {
            StateView::Playing { start_time, .. } => self.say(
                "游戏还在进行中(已开始"@ + time_text(elapsed(now, start_time) as nat)
                    + "),请耐心等待其他玩家游玩结束"@,
            ).check_game_time(picks, now),
            StateView::WaitForReady { .. } => self.say(
                "游戏已经在准备中了,请等待下一局游戏或请房主重新开始游戏"@,
            ).check_ready_time(picks, now),
            StateView::SelectChart => if self.room.host == user && self.host_overdue(now) {
                let name = name_of(self.users, user);
                self.say(overdue_text(name)).send(
                    MessageView::LeaveRoom { user: id_of(self.users, user), name },
                ).failed(Fault::SelfEviction)
            } else {
                self.check_host_time(picks[0], now)
            },
        }
    }

    /// `user` joins the room at place `key`.
    pub open spec fn join(
        self,
        user: UserKey,
        key: usize,
        monitor: bool,
        public: bool,
        picks: Seq<nat>,
        now: u64,
    ) -> (Scene, Result<JoinRoomResponseView, RefusalView>) {
        let waiting = self.room.state !is SelectChart;
        match self.bars(user, monitor) {
            Some(key) => (self, Err(RefusalView::Localized(key))),
            None => {
                let (room, fits) = self.room.add_user(self.users, user, monitor, waiting, now);
                if !fits {
                    (Scene { room, ..self }, Err(RefusalView::Localized(TextKey::JoinRoomFull)))
                } else {
                    let s = self.welcome(user, monitor, public, now).brief(user, picks, now);
                    let s = if s.ok() {
                        Scene { users: with_room(s.users, user, Some(key)), ..s }
                    } else {
                        s
                    };
                    (
                        s,
                        Ok(
                            JoinRoomResponseView {
                                state: if waiting {
                                    RoomState::SelectChart(Some(1))
                                } else {
                                    s.room.client_room_state()
                                },
                                users: infos(s.users, s.room.audience(s.users)),
                                live: s.room.live,
                            },
                        ),
                    )
                }
            },
        }
    }
}

/// Writes a stretch of time in words.
fn time_string(seconds: u64) -> (r: String)
    ensures
        r@ == time_text(seconds as nat),
{
    let time_second: u64 = seconds % 60;
    let time_minute: u64 = (seconds - time_second) / 60;
    assert(time_minute == seconds / 60);
    if time_minute > 0 {
        decimal_text(time_minute).concat("分").concat(decimal_text(time_second).as_str()).concat(
            "秒",
        )
    } else {
        decimal_text(time_second).concat("秒")
    }
}

impl Room {
    /// Says what a user says.
    pub fn chat(&self, users: &UserTable, out: &mut Outbox, user: UserKey, message: &str)
        ensures
            scene(*self, *users, *final(out)) == scene(*self, *users, *old(out)).chat(
                user,
                message@,
            ),
    {
        self.send_as(users, user, "[测试版] ".to_string().concat(message), out);
    }

    /// Shows what a user touched to the monitors.
    pub fn touches(
        &self,
        users: &mut UserTable,
        out: &mut Outbox,
        user: UserKey,
        frames: Vec<TouchFrame>,
    )
        ensures
            scene(*self, *final(users), *final(out)) == scene(*self, *old(users), *old(out)).touches(
                user,
                frames@,
            ),
    {
        if self.is_live() {
            if frames.len() > 0 {
                users.set_game_time(user, frames[frames.len() - 1].time);
            }
            let player: i32 = users.id(user);
            self.broadcast_monitors(users, ServerCommand::Touches { player, frames }, out);
        }
    }

    /// Shows how a user's notes were judged to the monitors.
    pub fn judges(&self, users: &UserTable, out: &mut Outbox, user: UserKey, judges: Vec<JudgeEvent>)
        ensures
            scene(*self, *users, *final(out)) == scene(*self, *users, *old(out)).judges(
                user,
                judges@,
            ),
    {
        if self.is_live() {
            let player: i32 = users.id(user);
            self.broadcast_monitors(users, ServerCommand::Judges { player, judges }, out);
        }
    }

    /// Takes a key that moves the pointer of the panel.
    pub fn press(&mut self, users: &mut UserTable, out: &mut Outbox, user: UserKey, down: bool) -> (r:
        Result<Result<(), Refusal>, Fault>)
        requires
            old(self)@.wf(),
        ensures
            scene_after(*final(self), *final(users), *final(out), r) == scene(
                *old(self),
                *old(users),
                *old(out),
            ).press(user, down).0,
            r matches Ok(answer) ==> answer_view(answer) == scene(
                *old(self),
                *old(users),
                *old(out),
            ).press(user, down).1,
    {
        match self.check_host(users, user) {
            Err(refusal) => Ok(Err(refusal)),
            Ok(()) => {
                let moved = if down {
                    self.panel_pointer_down(users, out)
                } else {
                    self.panel_pointer_up(users, out)
                };
                match moved {
                    Ok(_) => Ok(Ok(())),
                    Err(fault) => Err(fault),
                }
            },
        }
    }

    /// Tells whether a user may choose a chart now.
    pub fn may_select(&self, users: &UserTable, user: UserKey) -> (r: Result<(), Refusal>)
        ensures
            forall|s: Scene|
                #![trigger s.may_select(user)]
                s.room == self@ && s.users == users@ ==> answer_view(r) == s.may_select(user),
    {
        match &self.state {
            InternalRoomState::SelectChart => self.check_host(users, user),
            _ => Err(refuse("invalid state")),
        }
    }

    /// Takes the chart that a user has chosen.
    pub fn select(&mut self, users: &UserTable, out: &mut Outbox, user: UserKey, chart: Chart)
        ensures
            scene(*final(self), *users, *final(out)) == scene(*old(self), *users, *old(out)).select(
                user,
                chart,
            ),
    {
        self.send(
            users,
            Message::SelectChart { user: users.id(user), name: chart.name.clone(), id: chart.id },
            out,
        );
        self.chart = Some(chart);
        assert(self@ =~= RoomView { chart: Some(chart), ..old(self)@ });
        self.on_state_change(users, out);
    }

    fn call_players(&mut self, users: &mut UserTable, out: &mut Outbox, user: UserKey, now: u64) -> (r:
        Result<(), Fault>)
        ensures
            scene_after(*final(self), *final(users), *final(out), r) == scene(
                *old(self),
                *old(users),
                *old(out),
            ).call_players(user, now),
    {
        let id: i32 = users.id(user);
        self.reset_game_time(users);
        self.send(users, Message::GameStart { user: id }, out);
        let mut started: HashSet<i32> = HashSet::new();
        started.insert(id);
        assert(started@ =~= set![id]);
        self.state = InternalRoomState::WaitForReady { start_time: now, started };
        assert(self@ =~= RoomView {
            state: StateView::WaitForReady { start_time: now, started: set![id] },
            ..old(self)@
        });
        self.on_state_change(users, out);
        self.reset_host_time(0);
        self.check_all_ready(users, out, now)
    }

    /// Takes the key that confirms.
    pub fn request_start(
        &mut self,
        users: &mut UserTable,
        out: &mut Outbox,
        user: UserKey,
        now: u64,
    ) -> (r: Result<Result<(), Refusal>, Fault>)
        requires
            old(self)@.wf(),
        ensures
            exists|pick: nat|
                scene_after(*final(self), *final(users), *final(out), r) == (#[trigger] scene(
                    *old(self),
                    *old(users),
                    *old(out),
                ).request_start(user, pick, now)).0 && (r matches Ok(answer) ==> answer_view(answer)
                    == scene(*old(self), *old(users), *old(out)).request_start(user, pick, now).1),
    {
        let ghost s0 = scene(*self, *users, *out);
        match self.may_select(users, user) {
            Err(refusal) => {
                assert(s0.request_start(user, 0, now) == (s0, s0.may_select(user)));
                return Ok(Err(refusal));
            },
            Ok(()) => {},
        }
        let done = self.panel_pointer_ok(users, out, user, now);
        let ghost s1 = scene_after(*self, *users, *out, done);
        let ghost pick = choose|pick: nat| s1 == (#[trigger] s0.pointer_ok(user, pick, now)).0;
        assert(s0.pointer_ok(user, pick, now).1 == s0.pointer_ok(user, 0, now).1);
        match done {
            Err(fault) => {
                assert(s1 == s0.request_start(user, pick, now).0);
                Err(fault)
            },
            Ok(action) => if !action.0 {
                assert(s1 == s0.request_start(user, pick, now).0);
                Ok(Err(Refusal::Text(action.1)))
            } else if self.chart.is_none() {
                assert(s1 == s0.request_start(user, pick, now).0);
                Ok(Err(Refusal::Localized(TextKey::StartNoChartSelected)))
            } else {
                let called = self.call_players(users, out, user, now);
                assert(scene_after(*self, *users, *out, called) == s0.request_start(
                    user,
                    pick,
                    now,
                ).0);
                match called {
                    Ok(()) => Ok(Ok(())),
                    Err(fault) => Err(fault),
                }
            },
        }
    }

    /// Takes note that a user is ready.
    pub fn ready(&mut self, users: &mut UserTable, out: &mut Outbox, user: UserKey, now: u64) -> (r: Result<
        Result<(), Refusal>,
        Fault,
    >)
        ensures
            exists|picks: Seq<nat>|
                scene_after(*final(self), *final(users), *final(out), r) == (#[trigger] scene(
                    *old(self),
                    *old(users),
                    *old(out),
                ).ready(user, picks, now)).0 && (r matches Ok(answer) ==> answer_view(answer)
                    == scene(*old(self), *old(users), *old(out)).ready(user, picks, now).1),
    {
        let ghost s0 = scene(*self, *users, *out);
        let id: i32 = users.id(user);
        match &mut self.state {
            InternalRoomState::WaitForReady { started, .. } => {
                if !started.insert(id) {
                    assert(self@ =~= old(self)@);
                    assert(s0.ready(user, Seq::empty(), now).0 == s0);
                    return Ok(Err(refuse("already ready")));
                }
            },
            _ => {
                assert(s0.ready(user, Seq::empty(), now).0 == s0);
                return Ok(Ok(()));
            },
        }
        self.send(users, Message::Ready { user: id }, out);
        let ghost s1 = scene(*self, *users, *out);
        let checked = self.check_ready_time_proper(users, out, now);
        let ghost s2 = scene_after(*self, *users, *out, checked);
        let ghost picks = choose|picks: Seq<nat>| s2 == #[trigger] s1.check_ready_time(picks, now);
        match checked {
            Err(fault) => {
                assert(s0.ready(user, picks, now).0 == s2);
                Err(fault)
            },
            Ok(()) => {
                let begun = self.check_all_ready(users, out, now);
                assert(s0.ready(user, picks, now).0 == scene_after(*self, *users, *out, begun));
                match begun {
                    Ok(()) => Ok(Ok(())),
                    Err(fault) => Err(fault),
                }
            },
        }
    }

    /// Takes note that a user is not ready after all.
    pub fn cancel_ready(&mut self, users: &UserTable, out: &mut Outbox, user: UserKey, now: u64) -> (r:
        Result<(), Refusal>)
        ensures
            (scene(*final(self), *users, *final(out)), answer_view(r)) == scene(
                *old(self),
                *users,
                *old(out),
            ).cancel_ready(user, now),
    {
        let id: i32 = users.id(user);
        let host: bool = self.is_host(users, id);
        match &mut self.state {
            InternalRoomState::WaitForReady { started, .. } => {
                if !started.remove(&id) {
                    assert(self@ =~= old(self)@);
                    return Err(refuse("not ready"));
                }
            },
            _ => {
                return Ok(());
            },
        }
        if host {
            self.reset_host_time(now);
            self.send(users, Message::CancelGame { user: id }, out);
            self.state = InternalRoomState::SelectChart;
            assert(self@ =~= RoomView {
                host_time: now,
                state: StateView::SelectChart,
                ..old(self)@
            });
            self.on_state_change(users, out);
            self.clear_waiting_users();
        } else {
            self.send(users, Message::CancelReady { user: id }, out);
        }
        Ok(())
    }

    /// Takes the record of what a user played.
    pub fn played(
        &mut self,
        users: &mut UserTable,
        out: &mut Outbox,
        user: UserKey,
        record: Record,
        now: u64,
    ) -> (r: Result<Result<(), Refusal>, Fault>)
        requires
            old(users)@.contains_key(user),
        ensures
            exists|picks: Seq<nat>|
                scene_after(*final(self), *final(users), *final(out), r) == (#[trigger] scene(
                    *old(self),
                    *old(users),
                    *old(out),
                ).played(user, record, picks, now)).0 && (r matches Ok(answer) ==> answer_view(
                    answer,
                ) == scene(*old(self), *old(users), *old(out)).played(user, record, picks, now).1),
    {
        let ghost s0 = scene(*self, *users, *out);
        let ghost none = Seq::<nat>::empty();
        let id: i32 = users.id(user);
        if record.player != id {
            assert(s0.played(user, record, none, now).0 == s0);
            return Ok(Err(refuse("invalid record")));
        }
        self.add_score(
            id,
            users.name(user),
            record.score,
            record.accuracy.clone(),
            record.full_combo,
            now,
        );
        assert(scene(*self, *users, *out) =~= s0.scored(user, record, now));
        self.send(
            users,
            Message::Played {
                user: id,
                score: record.score,
                accuracy: record.accuracy.bits,
                full_combo: record.full_combo,
            },
            out,
        );
        let ghost s1 = scene(*self, *users, *out);
        match &mut self.state {
            InternalRoomState::Playing { results, aborted, .. } => {
                if aborted.contains(&id) {
                    assert(self@ =~= s1.room);
                    assert(s0.played(user, record, none, now).0 == s1);
                    return Ok(Err(refuse("aborted")));
                }
                if results.insert(id, record).is_some() {
                    assert(scene(*self, *users, *out) =~= s0.played(user, record, none, now).0);
                    return Ok(Err(refuse("already uploaded")));
                }
            },
            _ => {
                assert(s0.played(user, record, none, now).0 == s1);
                return Ok(Ok(()));
            },
        }
        let ghost s2 = scene(*self, *users, *out);
        let checked = self.check_game_time_proper(users, out, now);
        let ghost s3 = scene_after(*self, *users, *out, checked);
        let ghost picks = choose|picks: Seq<nat>| s3 == #[trigger] s2.check_game_time(picks, now);
        match checked {
            Err(fault) => {
                assert(s0.played(user, record, picks, now).0 == s3);
                Err(fault)
            },
            Ok(_) => {
                let ended = self.check_all_ready(users, out, now);
                assert(s0.played(user, record, picks, now).0 == scene_after(
                    *self,
                    *users,
                    *out,
                    ended,
                ));
                match ended {
                    Ok(()) => Ok(Ok(())),
                    Err(fault) => Err(fault),
                }
            },
        }
    }

    /// Takes note that a user gives up. They are listed as waiting, so that
    /// nobody puts them out for being late.
    pub fn abort(&mut self, users: &mut UserTable, out: &mut Outbox, user: UserKey, now: u64) -> (r: Result<
        Result<(), Refusal>,
        Fault,
    >)
        ensures
            exists|picks: Seq<nat>|
                scene_after(*final(self), *final(users), *final(out), r) == (#[trigger] scene(
                    *old(self),
                    *old(users),
                    *old(out),
                ).abort(user, picks, now)).0 && (r matches Ok(answer) ==> answer_view(answer)
                    == scene(*old(self), *old(users), *old(out)).abort(user, picks, now).1),
    {
        let ghost s0 = scene(*self, *users, *out);
        let ghost none = Seq::<nat>::empty();
        let id: i32 = users.id(user);
        self.users_waiting.push(user);
        let ghost s1 = scene(*self, *users, *out);
        match &mut self.state {
            InternalRoomState::Playing { results, aborted, .. } => {
                if results.contains_key(&id) {
                    assert(self@ =~= s1.room);
                    assert(s0.abort(user, none, now).0 == s1);
                    return Ok(Err(refuse("already uploaded")));
                }
                if !aborted.insert(id) {
                    assert(self@ =~= s1.room);
                    assert(s0.abort(user, none, now).0 == s1);
                    return Ok(Err(refuse("aborted")));
                }
            },
            _ => {
                assert(s0.abort(user, none, now).0 == s1);
                return Ok(Ok(()));
            },
        }
        self.send(users, Message::Abort { user: id }, out);
        let ghost s2 = scene(*self, *users, *out);
        let checked = self.check_game_time_proper(users, out, now);
        let ghost s3 = scene_after(*self, *users, *out, checked);
        let ghost picks = choose|picks: Seq<nat>| s3 == #[trigger] s2.check_game_time(picks, now);
        match checked {
            Err(fault) => {
                assert(s0.abort(user, picks, now).0 == s3);
                Err(fault)
            },
            Ok(_) => {
                let ended = self.check_all_ready(users, out, now);
                assert(s0.abort(user, picks, now).0 == scene_after(*self, *users, *out, ended));
                match ended {
                    Ok(()) => Ok(Ok(())),
                    Err(fault) => Err(fault),
                }
            },
        }
    }

    /// Lets a user in, and tells everyone.
    fn welcome(
        &mut self,
        users: &mut UserTable,
        out: &mut Outbox,
        user: UserKey,
        monitor: bool,
        public: bool,
        now: u64,
    ) -> (r: bool)
        requires
            old(users)@.contains_key(user),
        ensures
            r == old(self)@.add_user(
                old(users)@,
                user,
                monitor,
                old(self)@.state !is SelectChart,
                now,
            ).1,
            r ==> scene(*final(self), *final(users), *final(out)) == scene(
                *old(self),
                *old(users),
                *old(out),
            ).welcome(user, monitor, public, now),
            !r ==> scene(*final(self), *final(users), *final(out)) == (Scene {
                room: old(self)@.add_user(
                old(users)@,
                user,
                monitor,
                old(self)@.state !is SelectChart,
                now,
            ).0,
                ..scene(*old(self), *old(users), *old(out))
            }),
    {
        let waiting: bool = match &self.state {
            InternalRoomState::SelectChart => false,
            _ => true,
        };
        if !self.add_user(users, user, monitor, waiting, now) {
            return false;
        }
        users.set_monitor(user, monitor);
        self.live = true;
        let name: String = users.name(user);
        let info = match users.get(user) {
            Some(u) => u.to_info(),
            None => {
                return true;
            },
        };
        self.broadcast(users, ServerCommand::OnJoinRoom(info), out);
        let id: i32 = users.id(user);
        self.send(users, Message::JoinRoom { user: id, name: name.clone() }, out);
        let place: &str = if public {
            " 进入此服务器的public房间! 本服务器使用由BZLZHH修改的服务端"
        } else {
            " 进入此房间! 本服务器使用由BZLZHH修改的服务端"
        };
        self.send_as_server(
            users,
            "欢迎用户 ".to_string().concat(name.as_str()).concat(place),
            out,
        );
        assert(scene(*self, *users, *out) =~= scene(*old(self), *old(users), *old(out)).welcome(
            user,
            monitor,
            public,
            now,
        ));
        true
    }

    /// Tells a user who has just joined what the room is doing.
    fn brief(&mut self, users: &mut UserTable, out: &mut Outbox, user: UserKey, now: u64) -> (r: Result<
        (),
        Fault,
    >)
        ensures
            exists|picks: Seq<nat>|
                scene_after(*final(self), *final(users), *final(out), r) == #[trigger] scene(
                    *old(self),
                    *old(users),
                    *old(out),
                ).brief(user, picks, now),
    {
        let ghost s0 = scene(*self, *users, *out);
        match &self.state {
            InternalRoomState::Playing { start_time, .. } => {
                let time: String = time_string(seconds_between(now, *start_time));
                self.send_as_server(
                    users,
                    "游戏还在进行中(已开始".to_string().concat(time.as_str()).concat(
                        "),请耐心等待其他玩家游玩结束",
                    ),
                    out,
                );
                let ghost s1 = scene(*self, *users, *out);
                let checked = self.check_game_time_proper(users, out, now);
                let ghost s2 = scene_after(*self, *users, *out, checked);
                let ghost picks = choose|picks: Seq<nat>|
                    s2 == #[trigger] s1.check_game_time(picks, now);
                assert(s0.brief(user, picks, now) == s2);
                match checked {
                    Ok(_) => Ok(()),
                    Err(fault) => Err(fault),
                }
            },
            InternalRoomState::WaitForReady { .. } => {
                self.send_as_server(
                    users,
                    "游戏已经在准备中了,请等待下一局游戏或请房主重新开始游戏".to_string(),
                    out,
                );
                let ghost s1 = scene(*self, *users, *out);
                let checked = self.check_ready_time_proper(users, out, now);
                let ghost s2 = scene_after(*self, *users, *out, checked);
                let ghost picks = choose|picks: Seq<nat>|
                    s2 == #[trigger] s1.check_ready_time(picks, now);
                assert(s0.brief(user, picks, now) == s2);
                checked
            },
            InternalRoomState::SelectChart => {
                if self.host == user && self.host_time != 0 && seconds_between(now, self.host_time)
                    >= 360 {
                    let name: String = users.name(user);
                    self.send_as_server(
                        users,
                        "房主 ".to_string().concat(name.as_str()).concat(" 选择谱面超时,已被踢出"),
                        out,
                    );
                    self.send(users, Message::LeaveRoom { user: users.id(user), name }, out);
                    assert(s0.brief(user, Seq::empty(), now) == scene_after::<()>(
                        *self,
                        *users,
                        *out,
                        Err(Fault::SelfEviction),
                    ));
                    return Err(Fault::SelfEviction);
                }
                let checked = self.check_host_time_proper(users, out, now);
                let ghost s2 = scene_after(*self, *users, *out, checked);
                let ghost pick = choose|pick: nat| s2 == #[trigger] s0.check_host_time(pick, now);
                assert(seq![pick][0] == pick);
                assert(s0.brief(user, seq![pick], now) == s2);
                checked
            },
        }
    }

    /// Lets a user join the room, which is at place `key`.
    pub fn join(
        &mut self,
        users: &mut UserTable,
        out: &mut Outbox,
        user: UserKey,
        key: usize,
        monitor: bool,
        public: bool,
        now: u64,
    ) -> (r: Result<Result<JoinRoomResponse, Refusal>, Fault>)
        requires
            old(users)@.contains_key(user),
        ensures
            exists|picks: Seq<nat>|
                scene_after(*final(self), *final(users), *final(out), r) == (#[trigger] scene(
                    *old(self),
                    *old(users),
                    *old(out),
                ).join(user, key, monitor, public, picks, now)).0 && (r matches Ok(answer)
                    ==> join_view(answer) == scene(*old(self), *old(users), *old(out)).join(
                    user,
                    key,
                    monitor,
                    public,
                    picks,
                    now,
                ).1),
    {
        let ghost s0 = scene(*self, *users, *out);
        let ghost none = Seq::<nat>::empty();
        if self.is_locked() {
            assert(s0.join(user, key, monitor, public, none, now).0 == s0);
            return Ok(Err(Refusal::Localized(TextKey::JoinRoomLocked)));
        }
        let can_monitor: bool = match users.get(user) {
            Some(u) => u.can_monitor(),
            None => false,
        };
        if monitor && !can_monitor {
            assert(s0.join(user, key, monitor, public, none, now).0 == s0);
            return Ok(Err(Refusal::Localized(TextKey::JoinCantMonitor)));
        }
        let waiting: bool = match &self.state {
            InternalRoomState::SelectChart => false,
            _ => true,
        };
        if !self.welcome(users, out, user, monitor, public, now) {
            assert(scene(*self, *users, *out) == s0.join(
                user,
                key,
                monitor,
                public,
                none,
                now,
            ).0);
            return Ok(Err(Refusal::Localized(TextKey::JoinRoomFull)));
        }
        let ghost s1 = scene(*self, *users, *out);
        let briefed = self.brief(users, out, user, now);
        let ghost s2 = scene_after(*self, *users, *out, briefed);
        let ghost picks = choose|picks: Seq<nat>| s2 == #[trigger] s1.brief(user, picks, now);
        match briefed {
            Err(fault) => {
                assert(s2 == s0.join(user, key, monitor, public, picks, now).0);
                Err(fault)
            },
            Ok(()) => {
                users.set_room(user, Some(key));
                let state: RoomState = if waiting {
                    RoomState::SelectChart(Some(1))
                } else {
                    self.client_room_state()
                };
                let list: Vec<UserKey> = self.audience(users);
                let r = JoinRoomResponse {
                    state,
                    users: users.infos(&list),
                    live: self.is_live(),
                };
                assert(scene(*self, *users, *out) == s0.join(
                    user,
                    key,
                    monitor,
                    public,
                    picks,
                    now,
                ).0);
                assert(Ok::<_, RefusalView>(r@) == s0.join(
                    user,
                    key,
                    monitor,
                    public,
                    picks,
                    now,
                ).1);
                Ok(Ok(r))
            },
        }
    }
}

} // verus!

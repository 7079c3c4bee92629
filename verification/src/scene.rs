//! The mathematics of what happens in a room.
//!
//! A [`Scene`] is a room together with the users who are there and the effects
//! that were ordered so far. Each function of this module takes a
//! scene to the next one. A scene with a fault is final.
use vstd::prelude::*;
use crate::keys::UserKey;
use crate::outbox::{EffectView, Outbox};
use crate::protocol::{MessageView, ServerCommandView, SERVER_USER};
use crate::ranking::{ranked, result_line, UserPlayedResult};
use crate::room::{Fault, PanelView, Room, RoomView, StateView};
use crate::text::{decimal, joined, marked};
use crate::users::{
    alive, has_id, id_of, is_monitor, name_of, names_of, others, with_listings, with_room,
    with_times_reset, without_listings, UserTable, Users,
};

verus! {

/// A room, the users who are there, the effects so far, and the fault that ended it.
#[verifier::ext_equal]
pub struct Scene {
    pub room: RoomView,
    pub users: Users,
    pub out: Seq<EffectView>,
    pub fault: Option<Fault>,
}

/// The scene that a room, a table of users and an outbox make up.
pub open spec fn scene(room: Room, users: UserTable, out: Outbox) -> Scene {
    Scene { room: room@, users: users@, out: out@, fault: None }
}

/// The scene after a call that can fail.
pub open spec fn scene_after<T>(
    room: Room,
    users: UserTable,
    out: Outbox,
    r: Result<T, Fault>,
) -> Scene {
    Scene {
        room: room@,
        users: users@,
        out: out@,
        fault: match r {
            Ok(_) => None,
            Err(fault) => Some(fault),
        },
    }
}

/// The seconds from `since` to `now`, on a clock of 64 bits.
pub open spec fn elapsed(now: u64, since: u64) -> int {
    if now >= since {
        now - since
    } else {
        now - since + 0x1_0000_0000_0000_0000
    }
}

/// A stretch of time in words.
pub open spec fn time_text(seconds: nat) -> Seq<char> {
    if seconds >= 60 {
        decimal(seconds / 60) + "分"@ + decimal(seconds % 60) + "秒"@
    } else {
        decimal(seconds) + "秒"@
    }
}

/// What a new host is told of the panel.
pub open spec fn host_hint() -> Seq<char> {
    "\n[重要] 房主面板(开始游戏=确定;锁定房间=↑;循环模式=↓):\n"@
}

/// What everyone is told of a host who let the time run out.
pub open spec fn overdue_text(name: Seq<char>) -> Seq<char> {
    "房主 "@ + name + " 选择谱面超时,已被踢出"@
}

/// The text that an action on the panel shows when it was carried out.
pub open spec fn done_text() -> Seq<char> {
    "已操作\n(这不是错误消息)"@
}

/// The entries of the first menu.
pub open spec fn main_menu() -> Seq<Seq<char>> {
    seq![
        "开始游戏"@,
        "锁定房间"@,
        "循环模式"@,
        "踢出玩家"@,
        "转移房主"@,
        "公开房间"@,
    ]
}

/// The entries of the menu that is open.
pub open spec fn menu(users: Users, panel: PanelView) -> Seq<Seq<char>> {
    if panel.interface == 0 {
        main_menu()
    } else {
        seq!["返回"@] + names_of(users, panel.users)
    }
}

/// One line of a menu. An arrow marks the entry that the pointer stands on.
pub open spec fn menu_line(entry: Seq<char>, pointed: bool) -> Seq<char> {
    if pointed {
        "->"@ + entry
    } else {
        "    "@ + entry
    }
}

/// The menu that is open, as text.
pub open spec fn panel_text(users: Users, panel: PanelView) -> Seq<char> {
    let entries = menu(users, panel);
    "\n房主面板:\n"@ + joined(
        Seq::new(
            entries.len(),
            |i: int| menu_line(entries[i], i == panel.pointer_position),
        ),
        "\n"@,
    )
}

/// What the host's choice to list a room, or not to, is called.
pub open spec fn public_text(enabled: bool) -> Seq<char> {
    if enabled {
        "公开此房间.\n所有人都可以在公开网站(pmpl.bzlzhh.top)上查看此房间(若此服务器支持)"@
    } else {
        "取消公开此房间."@
    }
}

/// The ids of those who have a result.
pub open spec fn result_ids(results: Seq<UserPlayedResult>) -> Set<i32> {
    results.map_values(|r: UserPlayedResult| r.id).to_set()
}

impl Scene {
    /// Nothing has gone wrong.
    pub open spec fn ok(self) -> bool {
        self.fault is None
    }

    /// The scene ends with a fault.
    pub open spec fn failed(self, fault: Fault) -> Scene {
        Scene { fault: Some(fault), ..self }
    }

    /// A command goes to a list of users.
    pub open spec fn post(self, to: Seq<UserKey>, cmd: ServerCommandView) -> Scene {
        Scene { out: self.out.push(EffectView::Send { to, cmd }), ..self }
    }

    /// A command goes to everyone in the room.
    pub open spec fn broadcast(self, cmd: ServerCommandView) -> Scene {
        self.post(self.room.audience(self.users), cmd)
    }

    /// A command goes to the monitors.
    pub open spec fn broadcast_monitors(self, cmd: ServerCommandView) -> Scene {
        self.post(alive(self.users, self.room.monitors), cmd)
    }

    /// A line is added to the room's log.
    pub open spec fn send(self, message: MessageView) -> Scene {
        self.broadcast(ServerCommandView::Message(message))
    }

    /// The server says something to everyone in the room.
    pub open spec fn say(self, content: Seq<char>) -> Scene {
        self.send(MessageView::Chat { user: SERVER_USER, content })
    }

    /// The server says something to the host alone.
    pub open spec fn say_to_host(self, content: Seq<char>) -> Scene {
        if self.users.contains_key(self.room.host) {
            self.post(
                seq![self.room.host],
                ServerCommandView::Message(MessageView::Chat { user: SERVER_USER, content }),
            )
        } else {
            self.failed(Fault::HostGone)
        }
    }

    /// Everyone is told what the room does now.
    pub open spec fn state_change(self) -> Scene {
        self.broadcast(ServerCommandView::ChangeState(self.room.client_room_state()))
    }

    /// A user becomes host, and their time to choose a chart begins.
    pub open spec fn appoint(self, host: UserKey, now: u64) -> Scene {
        let s = Scene { room: RoomView { host, host_time: now, ..self.room }, ..self };
        s.send(MessageView::NewHost { user: id_of(s.users, host) })
    }

    /// The next player becomes host. If `announce` is set, everyone hears who
    /// handed over to whom.
    pub open spec fn pass_host(self, now: u64, announce: bool) -> Scene {
        if self.room.players(self.users).len() == 0 {
            self.failed(Fault::EmptyRoom)
        } else {
            let old = self.room.host;
            let new = self.room.next_host(self.users);
            let s1 = self.appoint(new, now);
            let s2 = if self.users.contains_key(old) {
                let s = s1.post(seq![old], ServerCommandView::ChangeHost(false));
                if announce {
                    s.say(
                        "原房主 "@ + name_of(s.users, old) + " 已将房主转移至 "@ + name_of(s.users, new),
                    )
                } else {
                    s
                }
            } else {
                s1
            };
            s2.post(seq![new], ServerCommandView::ChangeHost(true)).say_to_host(host_hint())
        }
    }

    /// The first `n` results of the game are read out.
    pub open spec fn say_results(self, n: nat) -> Scene
        decreases n,
    {
        if n == 0 {
            self
        } else {
            let rest = self.say_results((n - 1) as nat);
            rest.say(result_line(n, ranked(self.room.users_played_result)[n - 1]))
        }
    }

    /// The game begins.
    pub open spec fn start_game(self, now: u64) -> Scene {
        let s = self.send(MessageView::StartPlaying);
        let s = Scene {
            room: RoomView {
                host_time: 0,
                users_played_result: Seq::empty(),
                state: StateView::Playing {
                    results: Map::empty(),
                    aborted: Set::empty(),
                    start_time: now,
                },
                ..s.room
            },
            users: with_times_reset(s.users, s.room.players(s.users)),
            ..s
        };
        s.state_change()
    }

    /// The game ends: the results are read out, nobody waits any more, and in
    /// cycle mode the host moves on.
    pub open spec fn end_game(self, now: u64) -> Scene {
        let n = self.room.users_played_result.len();
        let s1 = self.send(MessageView::GameEnd).say("游戏结束, 结果如下:"@).say_results(n);
        let s2 = if n == 0 {
            s1.say("没有结果吗(⊙_⊙)？"@)
        } else {
            s1
        };
        let s3 = Scene {
            room: RoomView {
                users_waiting: Seq::empty(),
                state: StateView::SelectChart,
                ..s2.room
            },
            ..s2
        };
        let s4 = if self.room.cycle {
            s3.pass_host(now, false)
        } else {
            s3
        };
        if s4.ok() {
            s4.state_change()
        } else {
            s4
        }
    }

    /// The game begins if everyone is ready, and ends if everyone is done.
    pub open spec fn check_all_ready(self, now: u64) -> Scene {
        if !self.ok() {
            self
        } else if self.room.all_ready(self.users) {
            self.start_game(now)
        } else if self.room.all_done(self.users) {
            self.end_game(now)
        } else {
            self
        }
    }

    /// The scene once `user`, and everyone with their id, is off the list that
    /// they are on.
    pub open spec fn departed(self, user: UserKey) -> Scene {
        let id = id_of(self.users, user);
        let s = self.send(
            MessageView::LeaveRoom { user: id, name: name_of(self.users, user) },
        );
        Scene {
            users: with_room(s.users, user, None),
            room: if is_monitor(s.users, user) {
                RoomView { monitors: others(s.users, s.room.monitors, set![id]), ..s.room }
            } else {
                RoomView { users: others(s.users, s.room.users, set![id]), ..s.room }
            },
            ..s
        }
    }

    /// The host has the id of `user`.
    pub open spec fn hosted_by(self, user: UserKey) -> bool {
        self.room.is_host(self.users, id_of(self.users, user))
    }

    /// The room is to be dropped when `user` leaves: they are the host, nobody
    /// plays and nobody waits.
    pub open spec fn drops(self, user: UserKey) -> bool {
        let s = self.departed(user);
        &&& s.hosted_by(user)
        &&& s.room.players(s.users).len() == 0
        &&& alive(s.users, s.room.users_waiting).len() == 0
    }

    /// `user` leaves. If they were the host, the player that chance picks
    /// takes over; `pick` stands for the draw.
    pub open spec fn leave(self, user: UserKey, pick: nat, now: u64) -> Scene {
        if !self.ok() {
            self
        } else {
            let s = self.departed(user);
            let players = s.room.players(s.users);
            if self.drops(user) {
                s
            } else if !s.hosted_by(user) {
                s.check_all_ready(now)
            } else if players.len() == 0 {
                s.failed(Fault::NoCandidate)
            } else {
                let new = players[(pick % players.len()) as int];
                s.appoint(new, now).say_to_host(host_hint()).post(
                    seq![new],
                    ServerCommandView::ChangeHost(true),
                ).check_all_ready(now)
            }
        }
    }

    /// The users on a list are put out one after the other.
    pub open spec fn kick_all(self, list: Seq<UserKey>, picks: Seq<nat>, now: u64) -> Scene
        decreases list.len(),
    {
        if list.len() == 0 {
            self
        } else {
            self.kick_all(list.drop_last(), picks.drop_last(), now).leave(
                list.last(),
                picks.last(),
                now,
            )
        }
    }

    /// The host has let the time for choosing a chart run out.
    pub open spec fn host_overdue(self, now: u64) -> bool {
        self.room.host_time != 0 && elapsed(now, self.room.host_time) >= 360
    }

    /// A host who has let the time run out is put out.
    pub open spec fn check_host_time(self, pick: nat, now: u64) -> Scene {
        if !self.ok() || !self.host_overdue(now) {
            self
        } else if !self.users.contains_key(self.room.host) {
            self.failed(Fault::HostGone)
        } else {
            self.say(overdue_text(name_of(self.users, self.room.host))).leave(
                self.room.host,
                pick,
                now,
            )
        }
    }

    /// Those who should have been ready by now and are not.
    pub open spec fn late_for_ready(self, now: u64) -> Option<Seq<UserKey>> {
        let (start_time, started) = match self.room.state {
            StateView::WaitForReady { start_time, started } => (start_time, started),
            _ => (0u64, Set::empty()),
        };
        if elapsed(now, start_time) >= 90 {
            Some(others(self.users, self.room.active(self.users), started))
        } else {
            None
        }
    }

    /// Those who should have been ready by now are put out.
    pub open spec fn check_ready_time(self, picks: Seq<nat>, now: u64) -> Scene {
        if !self.ok() {
            self
        } else {
            match self.late_for_ready(now) {
                Some(list) => {
                    let s = self.kick_all(list, picks, now);
                    if s.ok() {
                        s.say(
                            "以下玩家未准备且已超时,被踢出: "@ + marked(
                                names_of(self.users, list),
                                "、"@,
                            ),
                        )
                    } else {
                        s
                    }
                },
                None => self,
            }
        }
    }

    /// Those who should have finished playing by now and have not: two minutes
    /// after the first result, or eight minutes into a game without any.
    pub open spec fn late_for_end(self, now: u64) -> Option<Seq<UserKey>> {
        let results = self.room.users_played_result;
        if results.len() == 0 {
            let start_time = match self.room.state {
                StateView::Playing { start_time, .. } => start_time,
                _ => 0u64,
            };
            if elapsed(now, start_time) >= 480 {
                Some(self.room.active(self.users))
            } else {
                None
            }
        } else if elapsed(now, results[0].finish_time) >= 120 {
            Some(others(self.users, self.room.active(self.users), result_ids(results)))
        } else {
            None
        }
    }

    /// Those who should have finished playing by now are put out.
    pub open spec fn check_game_time(self, picks: Seq<nat>, now: u64) -> Scene {
        if !self.ok() {
            self
        } else {
            match self.late_for_end(now) {
                Some(list) => {
                    let s = self.kick_all(list, picks, now);
                    if s.ok() {
                        s.say(
                            "(以下玩家游玩超时,已被踢出: ? "@ + marked(
                                names_of(self.users, list),
                                "、"@,
                            ) + ")"@,
                        )
                    } else {
                        s
                    }
                },
                None => self,
            }
        }
    }

    /// The panel is set.
    pub open spec fn with_panel(self, panel: PanelView) -> Scene {
        Scene { room: RoomView { panel, ..self.room }, ..self }
    }

    /// The panel as it is shown anew: the second menu lists the players of this
    /// moment.
    pub open spec fn fresh_panel(self) -> PanelView {
        if self.room.panel.interface == 0 {
            self.room.panel
        } else {
            PanelView { users: self.room.players(self.users), ..self.room.panel }
        }
    }

    /// What is shown of the panel.
    pub open spec fn shown(self) -> Seq<char> {
        panel_text(self.users, self.fresh_panel())
    }

    /// The panel is shown to the host anew. From then on the second menu holds
    /// those whom it lists, and no longer those whom it listed before.
    pub open spec fn refresh_panel(self) -> Scene {
        let s = self.with_panel(self.fresh_panel());
        if self.room.panel.interface == 0 {
            s.say_to_host(self.shown())
        } else {
            let s = Scene {
                users: with_listings(s.users, s.room.panel.users),
                ..s
            }.say_to_host(self.shown());
            Scene { users: without_listings(s.users, self.room.panel.users), ..s }
        }
    }

    /// The last entry of the menu that is open.
    pub open spec fn menu_end(self) -> int {
        if self.room.panel.interface == 0 {
            5
        } else {
            self.room.players(self.users).len() as int
        }
    }

    /// The pointer stands on another entry.
    pub open spec fn pointed_at(self, entry: int) -> Scene {
        self.with_panel(PanelView { pointer_position: entry as u8, ..self.room.panel })
    }

    /// The pointer moves one entry down, unless it is on the last one.
    pub open spec fn pointer_down(self) -> Scene {
        let entry = self.room.panel.pointer_position;
        if entry + 1 > self.menu_end() {
            self
        } else {
            self.pointed_at(entry + 1).refresh_panel()
        }
    }

    /// The pointer moves one entry up, unless it is on the first one.
    pub open spec fn pointer_up(self) -> Scene {
        let entry = self.room.panel.pointer_position;
        if entry == 0 {
            self
        } else {
            self.pointed_at(entry - 1).refresh_panel()
        }
    }

    /// What moving the pointer to an entry reports: the new panel, or nothing
    /// at an end.
    pub open spec fn pointer_report(self, moved: bool, entry: int) -> (bool, Seq<char>) {
        if moved {
            (true, self.pointed_at(entry).shown())
        } else {
            (false, Seq::empty())
        }
    }

    /// A menu is opened.
    pub open spec fn open_menu(self, interface: u8) -> Scene {
        self.with_panel(
            PanelView { interface, pointer_position: 0, ..self.room.panel },
        ).refresh_panel()
    }

    /// The host locks or unlocks the room.
    pub open spec fn toggle_lock(self) -> (Scene, (bool, Seq<char>)) {
        if self.room.id == "public"@ {
            (self, (false, "公共房间不允许锁定房间"@))
        } else {
            let lock = !self.room.locked;
            let s = Scene { room: RoomView { locked: lock, ..self.room }, ..self };
            (
                s.send(MessageView::LockRoom { lock }),
                (
                    false,
                    "已"@ + (if lock {
                        Seq::empty()
                    } else {
                        "取消"@
                    }) + "锁定\n(这不是错误消息)"@,
                ),
            )
        }
    }

    /// The host switches cycle mode on or off.
    pub open spec fn toggle_cycle(self) -> (Scene, (bool, Seq<char>)) {
        if self.room.id == "public"@ {
            (self, (false, "公共房间不允许修改模式"@))
        } else {
            let cycle = !self.room.cycle;
            let s = Scene { room: RoomView { cycle, ..self.room }, ..self };
            (
                s.send(MessageView::CycleRoom { cycle }),
                (
                    false,
                    "已切换至"@ + (if cycle {
                        "循环"@
                    } else {
                        "普通"@
                    }) + "模式\n(这不是错误消息)"@,
                ),
            )
        }
    }

    /// The host puts the room on the list of public rooms, or takes it off.
    pub open spec fn toggle_public(self) -> (Scene, (bool, Seq<char>)) {
        if self.room.id == "public"@ {
            (self, (false, "公共房间不允许修改房间公开状态"@))
        } else {
            let enabled = !self.room.public_enabled;
            let s = Scene { room: RoomView { public_enabled: enabled, ..self.room }, ..self };
            let s = s.say("房主已"@ + public_text(enabled));
            (
                Scene { out: s.out.push(EffectView::RefreshPublicRooms), ..s },
                (false, "已"@ + public_text(enabled) + "\n(这不是错误消息)"@),
            )
        }
    }

    /// The host hands over to the next player.
    pub open spec fn hand_over(self, now: u64) -> (Scene, (bool, Seq<char>)) {
        (
            self.pass_host(now, true),
            (
                false,
                "已转移至 "@ + name_of(
                    self.users,
                    self.room.next_host(self.users),
                ) + "\n(这不是错误消息)"@,
            ),
        )
    }

    /// The host puts out the player whom the pointer stands on.
    pub open spec fn kick_pointed(self, user: UserKey, pick: nat, now: u64) -> (
        Scene,
        (bool, Seq<char>),
    ) {
        let panel = self.room.panel;
        if panel.pointer_position > panel.users.len() {
            (self.failed(Fault::StaleMenu), (false, Seq::empty()))
        } else {
            let kicked = panel.users[panel.pointer_position - 1];
            let name = name_of(self.users, kicked);
            if !has_id(self.users, self.room.users, id_of(self.users, kicked)) {
                (self, (false, name + " 已离开"@))
            } else {
                let s = self.say(name + " 已被房主 "@ + name_of(self.users, user) + " 踢出"@).leave(
                    kicked,
                    pick,
                    now,
                );
                let s = if s.ok() {
                    s.pointed_at(0).refresh_panel()
                } else {
                    s
                };
                (s, (false, "已踢出 "@ + name + "\n(这不是错误消息)"@))
            }
        }
    }

    /// The host confirms the entry that the pointer stands on.
    pub open spec fn pointer_ok(self, user: UserKey, pick: nat, now: u64) -> (
        Scene,
        (bool, Seq<char>),
    ) {
        let panel = self.room.panel;
        if panel.interface == 0 {
            if panel.pointer_position == 0 {
                (self, (true, Seq::empty()))
            } else if panel.pointer_position == 1 {
                self.toggle_lock()
            } else if panel.pointer_position == 2 {
                self.toggle_cycle()
            } else if panel.pointer_position == 3 {
                (self.open_menu(1), (false, done_text()))
            } else if panel.pointer_position == 4 {
                self.hand_over(now)
            } else {
                self.toggle_public()
            }
        } else if panel.pointer_position == 0 {
            (self.open_menu(0), (false, done_text()))
        } else {
            self.kick_pointed(user, pick, now)
        }
    }
}

} // verus!

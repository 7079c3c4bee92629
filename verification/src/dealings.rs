//! What each command does in a room, in terms of what players see.
use vstd::prelude::*;
use crate::conduct::{
    hearers, law_company, law_shown_state, law_voices, live, logged, said, shown_state,
};
use crate::keys::UserKey;
use crate::laws::no_entry;
use crate::outbox::EffectView;
use crate::protocol::{
    JudgeEvent, MessageView, RefusalView, RoomState, ServerCommandView, TextKey, TouchFrame,
    UserInfo,
};
use crate::ranking::{Record, UserPlayedResult};
use crate::room::{Chart, Fault, RoomView, StateView};
use crate::scene::{elapsed, time_text, Scene};
use crate::users::{infos, lemma_others, with_times_reset, User, Users};

verus! {

/// What a user says reaches everyone in the room under their id, marked as said
/// on a test server.
pub proof fn law_chat(s: Scene, user: UserKey, message: Seq<char>)
    requires
        s.users.contains_key(user),
    ensures
        s.chat(user, message) == (Scene {
            out: s.out.push(
                logged(
                    s,
                    MessageView::Chat {
                        user: s.users[user].id,
                        content: "[测试版] "@ + message,
                    },
                ),
            ),
            ..s
        }),
{
    law_company(s);
}

/// The monitors of a live room, and nobody else, get the touches of a player as
/// they are; the time of the last one is noted. In a room that is not live
/// nothing happens.
pub proof fn law_touches(s: Scene, user: UserKey, frames: Seq<TouchFrame>)
    requires
        s.users.contains_key(user),
    ensures
        ({
            let after = s.touches(user, frames);
            &&& !s.room.live ==> after == s
            &&& s.room.live ==> {
                &&& after.room == s.room
                &&& after.fault == s.fault
                &&& after.users == if frames.len() == 0 {
                    s.users
                } else {
                    s.users.insert(
                        user,
                        User { game_time: frames[frames.len() - 1].time, ..s.users[user] },
                    )
                }
                &&& after.out == s.out.push(
                    EffectView::Send {
                        to: live(s.users, s.room.monitors),
                        cmd: ServerCommandView::Touches { player: s.users[user].id, frames },
                    },
                )
            }
        }),
{
    let noted = Scene {
        users: s.users.insert(
            user,
            User { game_time: frames[frames.len() - 1].time, ..s.users[user] },
        ),
        ..s
    };
    let cmd = ServerCommandView::Touches { player: s.users[user].id, frames };
    law_voices(s, MessageView::GameEnd, Seq::empty(), cmd);
    law_voices(noted, MessageView::GameEnd, Seq::empty(), cmd);
    let here = |key: UserKey| s.users.contains_key(key);
    let there = |key: UserKey| noted.users.contains_key(key);
    assert(here =~= there);
}

/// The same goes for how notes were judged.
pub proof fn law_judges(s: Scene, user: UserKey, judges: Seq<JudgeEvent>)
    requires
        s.users.contains_key(user),
    ensures
        !s.room.live ==> s.judges(user, judges) == s,
        s.room.live ==> s.judges(user, judges) == (Scene {
            out: s.out.push(
                EffectView::Send {
                    to: live(s.users, s.room.monitors),
                    cmd: ServerCommandView::Judges { player: s.users[user].id, judges },
                },
            ),
            ..s
        }),
{
    let cmd = ServerCommandView::Judges { player: s.users[user].id, judges };
    law_voices(s, MessageView::GameEnd, Seq::empty(), cmd);
}

/// Once a chart has come in, it is the chart of the room, whichever was chosen
/// before. Everyone hears who chose it, and in a room that selects everyone is
/// shown it.
pub proof fn law_chart_chosen(s: Scene, user: UserKey, chart: Chart)
    requires
        s.users.contains_key(user),
    ensures
        ({
            let after = s.select(user, chart);
            &&& after.room == (RoomView { chart: Some(chart), ..s.room })
            &&& after.users == s.users
            &&& after.fault == s.fault
            &&& after.out == s.out.push(
                logged(
                    s,
                    MessageView::SelectChart {
                        user: s.users[user].id,
                        name: chart.name@,
                        id: chart.id,
                    },
                ),
            ).push(
                shown_state(
                    s,
                    match s.room.state {
                        StateView::SelectChart => RoomState::SelectChart(Some(chart.id)),
                        StateView::WaitForReady { .. } => RoomState::WaitingForReady,
                        StateView::Playing { .. } => RoomState::Playing,
                    },
                ),
            )
        }),
{
    law_company(s);
    let t = Scene { room: RoomView { chart: Some(chart), ..s.room }, ..s };
    law_company(t);
}

/// Of two charts that come in one after the other, the second counts.
pub proof fn law_last_chart_counts(
    s: Scene,
    first_user: UserKey,
    first: Chart,
    user: UserKey,
    chart: Chart,
)
    ensures
        s.select(first_user, first).select(user, chart).room == s.select(user, chart).room,
        s.select(user, chart).room.chart == Some(chart),
{
    assert(s.select(first_user, first).select(user, chart).room =~= s.select(user, chart).room);
}

/// A chart is chosen, and a game is called for, only while none goes on and only
/// by the host.
pub proof fn law_who_may_select(s: Scene, user: UserKey)
    requires
        s.users.contains_key(user),
    ensures
        s.may_select(user) is Ok <==> s.room.state is SelectChart && s.users.contains_key(
            s.room.host,
        ) && s.users[s.room.host].id == s.users[user].id,
        s.room.state !is SelectChart ==> s.may_select(user) == Err::<(), RefusalView>(
            RefusalView::Text("invalid state"@),
        ),
        s.room.state is SelectChart && s.may_select(user) is Err ==> s.may_select(user) == Err::<
            (),
            RefusalView,
        >(RefusalView::Text("只有房主才能进行此操作"@)),
{
}

/// The users, with the game times of the players of a room taken back.
pub open spec fn times_taken_back(s: Scene, after: Users) -> bool {
    &&& after.dom() == s.users.dom()
    &&& forall|k: UserKey| #[trigger]
        s.users.contains_key(k) ==> after[k] == if s.room.users.contains(k) {
            User { game_time: 0xff80_0000, ..s.users[k] }
        } else {
            s.users[k]
        }
}

/// A host who confirms the first entry of the panel calls for a game if a chart
/// was chosen: everyone hears of it and is shown that the room waits, they
/// themselves count as ready, and the time to choose no longer runs. Without a
/// chart nothing happens.
pub proof fn law_call(s: Scene, user: UserKey, pick: nat, now: u64)
    requires
        s.ok(),
        s.users.contains_key(user),
        s.may_select(user) is Ok,
        s.room.panel.interface == 0,
        s.room.panel.pointer_position == 0,
    ensures
        s.room.chart is None ==> s.request_start(user, pick, now) == (
            s,
            Err::<(), RefusalView>(RefusalView::Localized(TextKey::StartNoChartSelected)),
        ),
        s.room.chart is Some ==> exists|called: Scene|
            s.request_start(user, pick, now) == (called.check_all_ready(now), Ok::<(), RefusalView>(
                (),
            )) && #[trigger] is_called(s, user, now, called),
{
    if s.room.chart is Some {
        let reset = with_times_reset(s.users, s.room.players(s.users));
        let id = s.users[user].id;
        let called = Scene {
            room: RoomView {
                host_time: 0,
                state: StateView::WaitForReady { start_time: now, started: set![id] },
                ..s.room
            },
            users: reset,
            out: s.out.push(logged(s, MessageView::GameStart { user: id })).push(
                shown_state(s, RoomState::WaitingForReady),
            ),
            ..s
        };
        law_company(s);
        lemma_others(s.users, s.room.users, Set::empty());
        assert(reset.dom() =~= s.users.dom());
        let s0 = Scene { users: reset, ..s };
        law_company(s0);
        law_company(called);
        let here = |key: UserKey| s.users.contains_key(key);
        let there = |key: UserKey| reset.contains_key(key);
        assert(here =~= there);
        let s1 = s0.send(MessageView::GameStart { user: id }).with_state(
            StateView::WaitForReady { start_time: now, started: set![id] },
        );
        law_company(s1);
        let s2 = s1.state_change();
        assert(Scene { room: RoomView { host_time: 0, ..s2.room }, ..s2 } =~= called);
        assert(s.request_start(user, pick, now) == (called.check_all_ready(now), Ok::<
            (),
            RefusalView,
        >(())));
        assert(called.ok());
        assert(times_taken_back(s, called.users));
        assert(is_called(s, user, now, called));
    }
}

/// `called` is the scene once `user` has called for a game.
pub open spec fn is_called(s: Scene, user: UserKey, now: u64, called: Scene) -> bool {
    &&& called.ok()
    &&& called.room == (RoomView {
        host_time: 0,
        state: StateView::WaitForReady { start_time: now, started: set![s.users[user].id] },
        ..s.room
    })
    &&& times_taken_back(s, called.users)
    &&& called.out == s.out.push(logged(s, MessageView::GameStart { user: s.users[user].id })).push(
        shown_state(s, RoomState::WaitingForReady),
    )
}

/// What the host confirms on any other entry is answered with the text of what
/// was done, and starts no game.
pub proof fn law_other_entries(s: Scene, user: UserKey, pick: nat, now: u64)
    requires
        s.may_select(user) is Ok,
        s.room.panel.interface <= 1,
        s.room.panel.interface != 0 || s.room.panel.pointer_position != 0,
    ensures
        s.request_start(user, pick, now) == (
            s.pointer_ok(user, pick, now).0,
            Err::<(), RefusalView>(RefusalView::Text(s.pointer_ok(user, pick, now).1.1)),
        ),
{
}

/// Being ready counts once and everyone hears of it; then those who are late are
/// put out, and the game begins if it only waited for this. While no game is
/// prepared nothing happens.
pub proof fn law_ready(s: Scene, user: UserKey, picks: Seq<nat>, now: u64)
    requires
        s.users.contains_key(user),
    ensures
        s.room.state !is WaitForReady ==> s.ready(user, picks, now) == (s, Ok::<(), RefusalView>(
            (),
        )),
        s.room.state matches StateView::WaitForReady { start_time, started } ==> {
            let id = s.users[user].id;
            &&& started.contains(id) ==> s.ready(user, picks, now) == (s, Err::<(), RefusalView>(
                RefusalView::Text("already ready"@),
            ))
            &&& !started.contains(id) ==> s.ready(user, picks, now) == (
                (Scene {
                    room: RoomView {
                        state: StateView::WaitForReady { start_time, started: started.insert(id) },
                        ..s.room
                    },
                    out: s.out.push(logged(s, MessageView::Ready { user: id })),
                    ..s
                }).check_ready_time(picks, now).check_all_ready(now),
                Ok::<(), RefusalView>(()),
            )
        },
{
    law_company(s);
    if let StateView::WaitForReady { start_time, started } = s.room.state {
        let t = s.with_state(
            StateView::WaitForReady { start_time, started: started.insert(s.users[user].id) },
        );
        law_company(t);
    }
}

/// Who takes back that they are ready no longer is, and everyone hears of it. If
/// it is the host, the game is called off: everyone can choose again, nobody
/// waits, and the time to choose begins anew.
pub proof fn law_cancel(s: Scene, user: UserKey, now: u64)
    requires
        s.users.contains_key(user),
    ensures
        s.room.state !is WaitForReady ==> s.cancel_ready(user, now) == (s, Ok::<(), RefusalView>(
            (),
        )),
        s.room.state matches StateView::WaitForReady { start_time, started } ==> {
            let id = s.users[user].id;
            let host = s.users.contains_key(s.room.host) && s.users[s.room.host].id == id;
            &&& !started.contains(id) ==> s.cancel_ready(user, now) == (s, Err::<(), RefusalView>(
                RefusalView::Text("not ready"@),
            ))
            &&& started.contains(id) && !host ==> s.cancel_ready(user, now) == (
                Scene {
                    room: RoomView {
                        state: StateView::WaitForReady { start_time, started: started.remove(id) },
                        ..s.room
                    },
                    out: s.out.push(logged(s, MessageView::CancelReady { user: id })),
                    ..s
                },
                Ok::<(), RefusalView>(()),
            )
            &&& started.contains(id) && host ==> s.cancel_ready(user, now) == (
                Scene {
                    room: RoomView {
                        host_time: now,
                        state: StateView::SelectChart,
                        users_waiting: Seq::empty(),
                        ..s.room
                    },
                    out: s.out.push(logged(s, MessageView::CancelGame { user: id })).push(
                        shown_state(
                            s,
                            RoomState::SelectChart(
                                if s.room.chart is Some {
                                    Some(s.room.chart->0.id)
                                } else {
                                    None
                                },
                            ),
                        ),
                    ),
                    ..s
                },
                Ok::<(), RefusalView>(()),
            )
        },
{
    law_company(s);
    if let StateView::WaitForReady { start_time, started } = s.room.state {
        let id = s.users[user].id;
        law_company(
            s.with_state(StateView::WaitForReady { start_time, started: started.remove(id) }),
        );
        let t = Scene { room: RoomView { host_time: now, ..s.room }, ..s };
        law_company(t);
        law_company(t.with_state(StateView::SelectChart));
        law_shown_state(t.send(MessageView::CancelGame { user: id }).with_state(
            StateView::SelectChart,
        ));
    }
}

/// The scene once a user's own record has come in: the entry that is added to the
/// results has their id and name, exactly what the record says, and the time at
/// which it came; everyone hears what was reached.
pub open spec fn noted(s: Scene, user: UserKey, record: Record, now: u64) -> Scene {
    let u = s.users[user];
    Scene {
        room: RoomView {
            users_played_result: s.room.users_played_result.push(
                UserPlayedResult {
                    id: u.id,
                    user_name: u.name,
                    score: record.score,
                    accuracy: record.accuracy,
                    fc_state: record.full_combo,
                    finish_time: now,
                },
            ),
            ..s.room
        },
        out: s.out.push(
            logged(
                s,
                MessageView::Played {
                    user: u.id,
                    score: record.score,
                    accuracy: record.accuracy.bits,
                    full_combo: record.full_combo,
                },
            ),
        ),
        ..s
    }
}

/// A user's own record is noted in any case. In a game it counts unless they gave
/// up or had one before; then those who are late are put out, and the game ends if
/// it only waited for this. A record of someone else does nothing.
pub proof fn law_record(s: Scene, user: UserKey, record: Record, picks: Seq<nat>, now: u64)
    requires
        s.users.contains_key(user),
    ensures
        ({
            let id = s.users[user].id;
            let with_record = noted(s, user, record, now);
            let (after, answer) = s.played(user, record, picks, now);
            &&& record.player != id ==> after == s && answer == Err::<(), RefusalView>(
                RefusalView::Text("invalid record"@),
            )
            &&& record.player == id && s.room.state !is Playing ==> after == with_record && answer
                == Ok::<(), RefusalView>(())
            &&& record.player == id ==> (s.room.state matches StateView::Playing {
                results,
                aborted,
                start_time,
            } ==> {
                let counted = Scene {
                    room: RoomView {
                        state: StateView::Playing {
                            results: results.insert(id, record),
                            aborted,
                            start_time,
                        },
                        ..with_record.room
                    },
                    ..with_record
                };
                &&& aborted.contains(id) ==> after == with_record && answer == Err::<
                    (),
                    RefusalView,
                >(RefusalView::Text("aborted"@))
                &&& !aborted.contains(id) && results.contains_key(id) ==> after == counted && answer
                    == Err::<(), RefusalView>(RefusalView::Text("already uploaded"@))
                &&& !aborted.contains(id) && !results.contains_key(id) ==> after
                    == counted.check_game_time(picks, now).check_all_ready(now) && answer == Ok::<
                    (),
                    RefusalView,
                >(())
            })
        }),
{
    law_company(s);
    let t = s.scored(user, record, now);
    law_company(t);
    assert(t.send(
        MessageView::Played {
            user: s.users[user].id,
            score: record.score,
            accuracy: record.accuracy.bits,
            full_combo: record.full_combo,
        },
    ) =~= noted(s, user, record, now));
}

/// Who gives up in a game is noted as such and everyone hears of it, unless they
/// have a result or gave up before; then those who are late are put out, and the
/// game ends if it only waited for this. In any case they count as waiting.
pub proof fn law_abort(s: Scene, user: UserKey, picks: Seq<nat>, now: u64)
    requires
        s.users.contains_key(user),
    ensures
        ({
            let id = s.users[user].id;
            let waiting = Scene {
                room: RoomView { users_waiting: s.room.users_waiting.push(user), ..s.room },
                ..s
            };
            let (after, answer) = s.abort(user, picks, now);
            &&& s.room.state !is Playing ==> after == waiting && answer == Ok::<(), RefusalView>(())
            &&& s.room.state matches StateView::Playing { results, aborted, start_time } ==> {
                &&& results.contains_key(id) ==> after == waiting && answer == Err::<
                    (),
                    RefusalView,
                >(RefusalView::Text("already uploaded"@))
                &&& !results.contains_key(id) && aborted.contains(id) ==> after == waiting && answer
                    == Err::<(), RefusalView>(RefusalView::Text("aborted"@))
                &&& !results.contains_key(id) && !aborted.contains(id) ==> after == (Scene {
                    room: RoomView {
                        state: StateView::Playing { results, aborted: aborted.insert(id), start_time },
                        ..waiting.room
                    },
                    out: s.out.push(logged(s, MessageView::Abort { user: id })),
                    ..waiting
                }).check_game_time(picks, now).check_all_ready(now) && answer == Ok::<
                    (),
                    RefusalView,
                >(())
            }
        }),
{
    law_company(s);
    let waiting = Scene {
        room: RoomView { users_waiting: s.room.users_waiting.push(user), ..s.room },
        ..s
    };
    law_company(waiting);
    if let StateView::Playing { results, aborted, start_time } = s.room.state {
        law_company(
            waiting.with_state(
                StateView::Playing {
                    results,
                    aborted: aborted.insert(s.users[user].id),
                    start_time,
                },
            ),
        );
    }
}

/// Who is let into a room, and where they are listed. A room takes a hundred
/// players, and during a game those who wait count twice; monitors are always
/// let in. Those who are gone are struck off. The first player to come into a room
/// without any is its host.
pub proof fn law_let_in(
    room: RoomView,
    users: Users,
    user: UserKey,
    monitor: bool,
    waiting: bool,
    now: u64,
)
    ensures
        ({
            let (after, fits) = room.add_user(users, user, monitor, waiting, now);
            let players = live(users, room.users);
            let waiters = live(users, room.users_waiting);
            let led = if players.len() == 0 {
                RoomView { host: user, host_time: now, ..room }
            } else {
                room
            };
            &&& waiting && players.len() + waiters.len() < 100 ==> fits && after == (RoomView {
                users: players.push(user),
                users_waiting: waiters.push(user),
                ..led
            })
            &&& waiting && players.len() + waiters.len() >= 100 ==> !fits && after == (RoomView {
                users: players,
                users_waiting: waiters,
                ..led
            })
            &&& !waiting && monitor ==> fits && after == (RoomView {
                monitors: live(users, room.monitors).push(user),
                ..led
            })
            &&& !waiting && !monitor && players.len() < 100 ==> fits && after == (RoomView {
                users: players.push(user),
                ..led
            })
            &&& !waiting && !monitor && players.len() >= 100 ==> !fits && after == (RoomView {
                users: players,
                ..led
            })
        }),
{
    let there = |key: UserKey| users.contains_key(key);
    let not_gone = |key: UserKey|
        users.contains_key(key) && !Set::<i32>::empty().contains(users[key].id);
    assert(there =~= not_gone);
}

/// Whoever is let in, in whatever state the room is, everyone in it, the newcomer
/// too, gets what there is to know of them, the line that they joined, and a
/// welcome. The room is live from then on.
pub proof fn law_welcome(s: Scene, user: UserKey, monitor: bool, public: bool, now: u64)
    requires
        s.users.contains_key(user),
    ensures
        ({
            let u = s.users[user];
            let after = s.welcome(user, monitor, public, now);
            let listed = s.room.add_user(
                s.users,
                user,
                monitor,
                s.room.state !is SelectChart,
                now,
            );
            &&& after.room == (RoomView { live: true, ..listed.0 })
            &&& after.users == s.users.insert(user, User { monitor, ..u })
            &&& after.fault == s.fault
            &&& listed.1 ==> hearers(after).contains(user)
            &&& after.out == s.out.push(
                EffectView::Send {
                    to: hearers(after),
                    cmd: ServerCommandView::OnJoinRoom(
                        UserInfo { id: u.id, name: u.name, monitor },
                    ),
                },
            ).push(logged(after, MessageView::JoinRoom { user: u.id, name: u.name@ })).push(
                said(
                    after,
                    "欢迎用户 "@ + u.name@ + if public {
                        " 进入此服务器的public房间! 本服务器使用由BZLZHH修改的服务端"@
                    } else {
                        " 进入此房间! 本服务器使用由BZLZHH修改的服务端"@
                    },
                ),
            )
        }),
{
    let after = s.welcome(user, monitor, public, now);
    let waiting = s.room.state !is SelectChart;
    let quiet = Scene { out: s.out, ..after };
    law_company(quiet);
    law_company(after);
    law_let_in(s.room, s.users, user, monitor, waiting, now);
    if s.room.add_user(s.users, user, monitor, waiting, now).1 {
        lemma_push_live(after.users, live(s.users, s.room.users), user);
        lemma_push_live(after.users, live(s.users, s.room.monitors), user);
        let players = live(after.users, after.room.users);
        let watchers = live(after.users, after.room.monitors);
        if players.contains(user) {
            let i = choose|i: int| 0 <= i < players.len() && players[i] == user;
            assert((players + watchers)[i] == user);
        } else {
            let i = choose|i: int| 0 <= i < watchers.len() && watchers[i] == user;
            assert((players + watchers)[players.len() + i] == user);
        }
    }
}

proof fn lemma_push_live(users: Users, list: Seq<UserKey>, user: UserKey)
    requires
        users.contains_key(user),
    ensures
        live(users, list.push(user)).contains(user),
{
    reveal(Seq::filter);
    assert(list.push(user).drop_last() =~= list);
    let before = live(users, list);
    assert(before.push(user)[before.len() as int] == user);
}

/// A newcomer is told what the room does. During a game that is how long it has
/// been going on, and those who are late with it are put out; while a game is
/// prepared, that the next one is to be waited for, and those who are late are put
/// out; and else a host who never chooses is put out.
pub proof fn law_brief(s: Scene, user: UserKey, picks: Seq<nat>, now: u64)
    requires
        s.ok(),
        s.users.contains_key(user),
    ensures
        s.room.state matches StateView::Playing { start_time, .. } ==> s.brief(user, picks, now) == (
        Scene {
            out: s.out.push(
                said(
                    s,
                    "游戏还在进行中(已开始"@ + time_text(elapsed(now, start_time) as nat)
                        + "),请耐心等待其他玩家游玩结束"@,
                ),
            ),
            ..s
        }).check_game_time(picks, now),
        s.room.state is WaitForReady ==> s.brief(user, picks, now) == (Scene {
            out: s.out.push(
                said(s, "游戏已经在准备中了,请等待下一局游戏或请房主重新开始游戏"@),
            ),
            ..s
        }).check_ready_time(picks, now),
        s.room.state is SelectChart && s.room.host != user ==> s.brief(user, picks, now)
            == s.check_host_time(picks[0], now),
        s.room.state is SelectChart && s.room.host == user && s.room.host_time <= now && (
        s.room.host_time == 0 || now < s.room.host_time + 360) ==> s.brief(user, picks, now) == s,
        s.room.state is SelectChart && s.room.host == user && s.room.host_time != 0 && now
            >= s.room.host_time + 360 ==> s.brief(user, picks, now) == (Scene {
            out: s.out.push(
                said(s, "房主 "@ + s.users[user].name@ + " 选择谱面超时,已被踢出"@),
            ).push(
                logged(
                    s,
                    MessageView::LeaveRoom { user: s.users[user].id, name: s.users[user].name@ },
                ),
            ),
            fault: Some(Fault::SelfEviction),
            ..s
        }),
{
    law_company(s);
    let told = s.say("房主 "@ + s.users[user].name@ + " 选择谱面超时,已被踢出"@);
    law_company(told);
}

/// Joining, in full: a locked room, a monitor who is not the one allowed and a
/// full room refuse; and else the user is welcomed, told what the room does, and
/// in it. They are shown everyone in the room, and its state, but during a game
/// that a chart is chosen.
pub proof fn law_join(
    s: Scene,
    user: UserKey,
    key: usize,
    monitor: bool,
    public: bool,
    picks: Seq<nat>,
    now: u64,
)
    requires
        s.ok(),
        s.users.contains_key(user),
    ensures
        ({
            let waiting = s.room.state !is SelectChart;
            let (room, fits) = s.room.add_user(s.users, user, monitor, waiting, now);
            let (after, answer) = s.join(user, key, monitor, public, picks, now);
            let briefed = s.welcome(user, monitor, public, now).brief(user, picks, now);
            &&& s.room.locked ==> after == s && answer == no_entry(
                TextKey::JoinRoomLocked,
            )
            &&& !s.room.locked && monitor && s.users[user].id != 2 ==> after == s && answer
                == no_entry(TextKey::JoinCantMonitor)
            &&& !s.room.locked && (!monitor || s.users[user].id == 2) && !fits ==> after == (Scene {
                room,
                ..s
            }) && answer == no_entry(TextKey::JoinRoomFull)
            &&& !s.room.locked && (!monitor || s.users[user].id == 2) && fits ==> {
                &&& after.room == briefed.room
                &&& after.out == briefed.out
                &&& after.fault == briefed.fault
                &&& briefed.ok() && briefed.users.contains_key(user) ==> after.users
                    == briefed.users.insert(
                    user,
                    User { room: Some(key), ..briefed.users[user] },
                )
                &&& answer is Ok
                &&& (answer->Ok_0).live == after.room.live
                &&& waiting ==> (answer->Ok_0).state == RoomState::SelectChart(Some(1))
                &&& !waiting && after.room.state is SelectChart ==> (answer->Ok_0).state
                    == RoomState::SelectChart(
                    if after.room.chart is Some {
                        Some(after.room.chart->0.id)
                    } else {
                        None
                    },
                )
                &&& (answer->Ok_0).users == seen(after.users, hearers(after))
            }
        }),
{
    let waiting = s.room.state !is SelectChart;
    let (after, answer) = s.join(user, key, monitor, public, picks, now);
    law_company(after);
    lemma_seen(after.users, hearers(after));
}

/// What others see of users.
pub open spec fn seen(users: Users, list: Seq<UserKey>) -> Seq<UserInfo> {
    list.map_values(
        |k: UserKey|
            UserInfo { id: users[k].id, name: users[k].name, monitor: users[k].monitor },
    )
}

proof fn lemma_seen(users: Users, list: Seq<UserKey>)
    ensures
        (forall|i: int| 0 <= i < list.len() ==> users.contains_key(#[trigger] list[i])) ==> infos(
            users,
            list,
        ) == seen(users, list),
    decreases list.len(),
{
    if list.len() == 0 {
        assert(infos(users, list) =~= seen(users, list));
    } else if forall|i: int| 0 <= i < list.len() ==> users.contains_key(#[trigger] list[i]) {
        let rest = list.drop_last();
        assert forall|i: int| 0 <= i < rest.len() implies users.contains_key(#[trigger] rest[i]) by {
            assert(rest[i] == list[i]);
        }
        lemma_seen(users, rest);
        assert(users.contains_key(list[list.len() - 1]));
        assert(infos(users, list) =~= seen(users, list));
    }
}

} // verus!

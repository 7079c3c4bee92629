//! Who in a room hears what, and what each step in a room leads to.
//!
//! The laws of this module speak of lists, ids, times and texts alone, so that
//! they can be held against what players see.
use vstd::prelude::*;
use crate::keys::{lemma_position, position, UserKey};
use crate::outbox::EffectView;
use crate::protocol::{MessageView, RoomState, ServerCommandView};
use crate::ranking::{ranked, result_line, UserPlayedResult};
use crate::room::{Fault, RoomView, StateView};
use crate::scene::{elapsed, host_hint, result_ids, Scene};
use crate::text::marked;
use crate::users::{
    alive, has_id, id_of, ids_of, lemma_ids_of, lemma_others, names_of, others, User, Users,
};

verus! {

/// Those on a list who are there, in order.
pub open spec fn live(users: Users, list: Seq<UserKey>) -> Seq<UserKey> {
    list.filter(|key: UserKey| users.contains_key(key))
}

/// Everyone in the room, the players first.
pub open spec fn hearers(s: Scene) -> Seq<UserKey> {
    live(s.users, s.room.users) + live(s.users, s.room.monitors)
}

/// Someone with this id waits for the next game.
pub open spec fn waits(s: Scene, id: i32) -> bool {
    exists|w: UserKey| #[trigger]
        s.room.users_waiting.contains(w) && s.users.contains_key(w) && s.users[w].id == id
}

/// The players who do not wait for the next game, in order.
pub open spec fn takers(s: Scene) -> Seq<UserKey> {
    s.room.users.filter(
        |key: UserKey| s.users.contains_key(key) && !waits(s, s.users[key].id),
    )
}

/// A line of the log goes to everyone in the room.
pub open spec fn logged(s: Scene, message: MessageView) -> EffectView {
    EffectView::Send { to: hearers(s), cmd: ServerCommandView::Message(message) }
}

/// The server says something to everyone in the room.
pub open spec fn said(s: Scene, text: Seq<char>) -> EffectView {
    logged(s, MessageView::Chat { user: 195677, content: text })
}

/// The server says something to one user.
pub open spec fn whispered(user: UserKey, text: Seq<char>) -> EffectView {
    EffectView::Send {
        to: seq![user],
        cmd: ServerCommandView::Message(MessageView::Chat { user: 195677, content: text }),
    }
}

/// One user is told whether they are the host.
pub open spec fn crowned(user: UserKey, host: bool) -> EffectView {
    EffectView::Send { to: seq![user], cmd: ServerCommandView::ChangeHost(host) }
}

/// Everyone in the room is told what it does.
pub open spec fn shown_state(s: Scene, state: RoomState) -> EffectView {
    EffectView::Send { to: hearers(s), cmd: ServerCommandView::ChangeState(state) }
}

/// What a new host is told of the keys.
pub open spec fn keys_text() -> Seq<char> {
    "\n[重要] 房主面板(开始游戏=确定;锁定房间=↑;循环模式=↓):\n"@
}

/// The chart that a room shows.
pub open spec fn chart_shown(room: RoomView) -> Option<i32> {
    if room.chart is Some {
        Some(room.chart->0.id)
    } else {
        None
    }
}

/// Players, hearers and those who take part are who their names say: exactly
/// those on the lists who are there, in the order of the lists.
pub proof fn law_company(s: Scene)
    ensures
        s.room.players(s.users) == live(s.users, s.room.users),
        s.room.audience(s.users) == hearers(s),
        s.room.active(s.users) == takers(s),
        forall|id: i32|
            s.room.is_host(s.users, id) <==> s.users.contains_key(s.room.host)
                && s.users[s.room.host].id == id,
{
    let there = |key: UserKey| s.users.contains_key(key);
    let not_gone = |key: UserKey|
        s.users.contains_key(key) && !Set::<i32>::empty().contains(s.users[key].id);
    assert(there =~= not_gone);
    let waiting = ids_of(s.users, s.room.users_waiting);
    lemma_ids_of(s.users, s.room.users_waiting);
    let plays = |key: UserKey| s.users.contains_key(key) && !waiting.contains(s.users[key].id);
    let takes = |key: UserKey| s.users.contains_key(key) && !waits(s, s.users[key].id);
    assert forall|key: UserKey| #[trigger] plays(key) == takes(key) by {
        if s.users.contains_key(key) {
            let id = s.users[key].id;
            if waits(s, id) {
                let w = choose|w: UserKey| #[trigger]
                    s.room.users_waiting.contains(w) && s.users.contains_key(w) && s.users[w].id
                        == id;
                assert(has_id(s.users, s.room.users_waiting, id));
            }
        }
    }
    assert(plays =~= takes);
}

/// What is said or sent in a room adds one effect and changes nothing else: a
/// line to everyone in the room, to the monitors, or to the host alone.
pub proof fn law_voices(s: Scene, message: MessageView, text: Seq<char>, cmd: ServerCommandView)
    ensures
        s.send(message) == (Scene { out: s.out.push(logged(s, message)), ..s }),
        s.say(text) == (Scene { out: s.out.push(said(s, text)), ..s }),
        s.broadcast(cmd) == (Scene {
            out: s.out.push(EffectView::Send { to: hearers(s), cmd }),
            ..s
        }),
        s.broadcast_monitors(cmd) == (Scene {
            out: s.out.push(EffectView::Send { to: live(s.users, s.room.monitors), cmd }),
            ..s
        }),
        s.users.contains_key(s.room.host) ==> s.say_to_host(text) == (Scene {
            out: s.out.push(whispered(s.room.host, text)),
            ..s
        }),
        !s.users.contains_key(s.room.host) ==> s.say_to_host(text) == (Scene {
            fault: Some(Fault::HostGone),
            ..s
        }),
{
    law_company(s);
    let there = |key: UserKey| s.users.contains_key(key);
    let not_gone = |key: UserKey|
        s.users.contains_key(key) && !Set::<i32>::empty().contains(s.users[key].id);
    assert(there =~= not_gone);
}

/// What clients are shown of a room: the chart while one is chosen, and else
/// only that a game is prepared or goes on.
pub proof fn law_shown_state(s: Scene)
    ensures
        s.state_change() == (Scene {
            out: s.out.push(
                shown_state(
                    s,
                    match s.room.state {
                        StateView::SelectChart => RoomState::SelectChart(chart_shown(s.room)),
                        StateView::WaitForReady { .. } => RoomState::WaitingForReady,
                        StateView::Playing { .. } => RoomState::Playing,
                    },
                ),
            ),
            ..s
        }),
{
    law_company(s);
}

/// Time runs forward: the seconds from one moment to a later one are their
/// difference. A clock that was set back makes the difference huge.
pub proof fn law_elapsed(now: u64, since: u64)
    ensures
        now >= since ==> elapsed(now, since) == now - since,
        now < since ==> elapsed(now, since) == now + 0x1_0000_0000_0000_0000 - since,
{
}

/// Handing over is announced in this order: everyone hears of the new host, the
/// old one is told, if asked for everyone hears who handed over to whom, the new
/// one is told, and shown the keys. The time to choose a chart begins anew.
pub proof fn law_hand_over_announced(s: Scene, now: u64, announce: bool)
    requires
        s.ok(),
        live(s.users, s.room.users).len() > 0,
    ensures
        ({
            let after = s.pass_host(now, announce);
            let new = after.room.host;
            let t = Scene { room: after.room, ..s };
            let told_old = if s.users.contains_key(s.room.host) {
                seq![crowned(s.room.host, false)] + if announce {
                    seq![
                        said(
                            t,
                            "原房主 "@ + s.users[s.room.host].name@ + " 已将房主转移至 "@
                                + s.users[new].name@,
                        ),
                    ]
                } else {
                    Seq::empty()
                }
            } else {
                Seq::empty()
            };
            &&& live(s.users, s.room.users).contains(new)
            &&& after == (Scene {
                room: RoomView { host: new, host_time: now, ..s.room },
                out: s.out.push(logged(t, MessageView::NewHost { user: s.users[new].id }))
                    + told_old + seq![crowned(new, true), whispered(new, keys_text())],
                ..s
            })
        }),
{
    law_company(s);
    let new = s.room.next_host(s.users);
    let players = s.room.players(s.users);
    lemma_position(players, s.room.host);
    if let Some(i) = position(players, s.room.host) {
        assert(0 <= (i + 1) % players.len() < players.len());
        assert(players[((i + 1) % players.len()) as int] == new);
    }
    assert(players.contains(players[0]));
    assert(players.contains(new));
    lemma_others(s.users, s.room.users, Set::empty());
    let t = Scene { room: RoomView { host: new, host_time: now, ..s.room }, ..s };
    law_company(t);
    assert(s.pass_host(now, announce).out =~= s.out.push(
        logged(t, MessageView::NewHost { user: s.users[new].id }),
    ) + (if s.users.contains_key(s.room.host) {
        seq![crowned(s.room.host, false)] + if announce {
            seq![
                said(
                    t,
                    "原房主 "@ + s.users[s.room.host].name@ + " 已将房主转移至 "@
                        + s.users[new].name@,
                ),
            ]
        } else {
            Seq::empty()
        }
    } else {
        Seq::empty()
    }) + seq![crowned(new, true), whispered(new, keys_text())]);
}

/// In a room without players nobody can be handed the host.
pub proof fn law_nobody_to_hand_to(s: Scene, now: u64, announce: bool)
    requires
        live(s.users, s.room.users).len() == 0,
    ensures
        s.pass_host(now, announce) == (Scene { fault: Some(Fault::EmptyRoom), ..s }),
{
    law_company(s);
}

/// The lines that read results out, best first.
pub open spec fn result_lines(s: Scene, n: nat) -> Seq<EffectView> {
    Seq::new(
        n,
        |i: int| said(s, result_line((i + 1) as nat, ranked(s.room.users_played_result)[i])),
    )
}

proof fn lemma_result_lines(s: Scene, n: nat)
    ensures
        s.say_results(n) == (Scene { out: s.out + result_lines(s, n), ..s }),
    decreases n,
{
    s.lemma_say_results(n);
    if n == 0 {
        assert(s.out + result_lines(s, 0) =~= s.out);
    } else {
        let m = (n - 1) as nat;
        lemma_result_lines(s, m);
        s.lemma_say_results(m);
        law_company(s);
        law_company(s.say_results(m));
        assert(s.out + result_lines(s, n) =~= (s.out + result_lines(s, m)).push(
            said(s, result_line(n, ranked(s.room.users_played_result)[n - 1])),
        ));
    }
}

/// Everyone who takes part or watches is ready.
pub open spec fn set_to_go(s: Scene) -> bool {
    s.room.state matches StateView::WaitForReady { started, .. } && forall|k: UserKey|
        s.users.contains_key(k) && (s.room.users.contains(k) && !waits(s, s.users[k].id)
            || s.room.monitors.contains(k)) ==> started.contains(#[trigger] s.users[k].id)
}

/// Everyone who takes part has a result or has given up.
pub open spec fn all_through(s: Scene) -> bool {
    s.room.state matches StateView::Playing { results, aborted, .. } && forall|k: UserKey|
        s.users.contains_key(k) && s.room.users.contains(k) && !waits(s, s.users[k].id)
            ==> results.contains_key(#[trigger] s.users[k].id) || aborted.contains(s.users[k].id)
}

proof fn lemma_checks(s: Scene)
    ensures
        s.room.all_ready(s.users) <==> set_to_go(s),
        s.room.all_done(s.users) <==> all_through(s),
{
    let room = s.room;
    let active = room.active(s.users);
    let watchers = alive(s.users, room.monitors);
    let all = active + watchers;
    lemma_ids_of(s.users, room.users_waiting);
    lemma_others(s.users, room.users, ids_of(s.users, room.users_waiting));
    lemma_others(s.users, room.monitors, Set::empty());
    assert forall|k: UserKey| s.users.contains_key(k) implies has_id(
        s.users,
        room.users_waiting,
        #[trigger] s.users[k].id,
    ) == waits(s, s.users[k].id) by {}
    if let StateView::WaitForReady { started, .. } = room.state {
        if room.all_ready(s.users) {
            assert forall|k: UserKey|
                s.users.contains_key(k) && (room.users.contains(k) && !waits(s, s.users[k].id)
                    || room.monitors.contains(k)) implies started.contains(
                #[trigger] s.users[k].id,
            ) by {
                if room.monitors.contains(k) {
                    assert(watchers.contains(k));
                    let i = choose|i: int| 0 <= i < watchers.len() && watchers[i] == k;
                    assert(all[active.len() + i] == k);
                } else {
                    assert(active.contains(k));
                    let i = choose|i: int| 0 <= i < active.len() && active[i] == k;
                    assert(all[i] == k);
                }
            }
        } else {
            let i = choose|i: int|
                0 <= i < all.len() && !started.contains(id_of(s.users, #[trigger] all[i]));
            let k = all[i];
            if i < active.len() {
                assert(active[i] == k);
                assert(active.contains(k));
            } else {
                assert(watchers[i - active.len()] == k);
                assert(watchers.contains(k));
            }
            assert(!started.contains(s.users[k].id));
        }
    }
    if let StateView::Playing { results, aborted, .. } = room.state {
        if room.all_done(s.users) {
            assert forall|k: UserKey|
                s.users.contains_key(k) && room.users.contains(k) && !waits(
                    s,
                    s.users[k].id,
                ) implies results.contains_key(#[trigger] s.users[k].id) || aborted.contains(
                s.users[k].id,
            ) by {
                assert(active.contains(k));
                let i = choose|i: int| 0 <= i < active.len() && active[i] == k;
                assert(active[i] == k);
            }
        } else {
            let i = choose|i: int|
                0 <= i < active.len() && !(results.contains_key(
                    id_of(s.users, #[trigger] active[i]),
                ) || aborted.contains(id_of(s.users, active[i])));
            let k = active[i];
            assert(active.contains(k));
            assert(!results.contains_key(s.users[k].id));
        }
    }
}

/// A game begins once everyone who takes part or watches is ready, and not
/// before: everyone hears that it does, the list of results is empty, the game
/// times of all players are taken back, and nobody's time to choose runs.
pub proof fn law_start(s: Scene, now: u64)
    requires
        s.ok(),
        s.room.state is WaitForReady,
    ensures
        ({
            let after = s.check_all_ready(now);
            &&& !set_to_go(s) ==> after == s
            &&& set_to_go(s) ==> {
                &&& after.ok()
                &&& after.room == (RoomView {
                    host_time: 0,
                    users_played_result: Seq::empty(),
                    state: StateView::Playing {
                        results: Map::empty(),
                        aborted: Set::empty(),
                        start_time: now,
                    },
                    ..s.room
                })
                &&& after.out == s.out.push(logged(s, MessageView::StartPlaying)).push(
                    shown_state(s, RoomState::Playing),
                )
                &&& after.users.dom() == s.users.dom()
                &&& forall|k: UserKey| #[trigger]
                    s.users.contains_key(k) ==> after.users[k] == if s.room.users.contains(k) {
                        User { game_time: 0xff80_0000, ..s.users[k] }
                    } else {
                        s.users[k]
                    }
            }
        }),
{
    lemma_checks(s);
    law_company(s);
    if set_to_go(s) {
        let after = s.check_all_ready(now);
        lemma_others(s.users, s.room.users, Set::empty());
        assert(after.users.dom() =~= s.users.dom());
        let t = Scene { room: after.room, users: after.users, ..s };
        law_company(t);
        lemma_same_hearers(s, t);
    }
}

/// Who hears depends on who is there and on the lists alone.
proof fn lemma_same_hearers(a: Scene, b: Scene)
    requires
        a.users.dom() == b.users.dom(),
        a.room.users == b.room.users,
        a.room.monitors == b.room.monitors,
    ensures
        hearers(a) == hearers(b),
{
    let in_a = |key: UserKey| a.users.contains_key(key);
    let in_b = |key: UserKey| b.users.contains_key(key);
    assert forall|key: UserKey| #[trigger] in_a(key) == in_b(key) by {
        assert(a.users.dom().contains(key) == b.users.dom().contains(key));
    }
    assert(in_a =~= in_b);
}

/// The scene when a game is over and its results were read out, before the host
/// moves on: everyone heard that it is over, one line for each result, or that
/// there is none. Nobody waits any more, and a chart can be chosen.
pub open spec fn read_out(s: Scene) -> Scene {
    let n = s.room.users_played_result.len();
    Scene {
        room: RoomView {
            users_waiting: Seq::empty(),
            state: StateView::SelectChart,
            ..s.room
        },
        out: s.out + seq![
            logged(s, MessageView::GameEnd),
            said(s, "游戏结束, 结果如下:"@),
        ] + result_lines(s, n) + if n == 0 {
            seq![said(s, "没有结果吗(⊙_⊙)？"@)]
        } else {
            Seq::empty()
        },
        ..s
    }
}

/// A game ends once everyone who takes part has a result or has given up, and
/// not before. In cycle mode the host then moves on. Last of all everyone is
/// shown that a chart can be chosen.
pub proof fn law_end(s: Scene, now: u64)
    requires
        s.ok(),
        s.room.state is Playing,
    ensures
        ({
            let after = s.check_all_ready(now);
            let over = read_out(s);
            let next = if s.room.cycle {
                over.pass_host(now, false)
            } else {
                over
            };
            &&& !all_through(s) ==> after == s
            &&& all_through(s) && next.ok() ==> after == (Scene {
                out: next.out.push(shown_state(next, RoomState::SelectChart(chart_shown(s.room)))),
                ..next
            })
            &&& all_through(s) && !next.ok() ==> after == next
            &&& next.room.state is SelectChart
            &&& next.ok() <==> !s.room.cycle || live(s.users, s.room.users).len() > 0
        }),
{
    lemma_checks(s);
    law_company(s);
    let n = s.room.users_played_result.len();
    let s1 = s.send(MessageView::GameEnd).say("游戏结束, 结果如下:"@);
    lemma_result_lines(s1, n);
    law_company(s1);
    assert(result_lines(s1, n) =~= result_lines(s, n));
    let over = read_out(s);
    let s2 = if n == 0 {
        s1.say_results(n).say("没有结果吗(⊙_⊙)？"@)
    } else {
        s1.say_results(n)
    };
    law_company(s1.say_results(n));
    assert(s2.out =~= over.out);
    law_company(over);
    let next = over.pass_host(now, false);
    law_company(next);
    lemma_others(s.users, s.room.users, Set::empty());
    if live(s.users, s.room.users).len() > 0 {
        law_hand_over_announced(over, now, false);
    } else {
        law_nobody_to_hand_to(over, now, false);
    }
}

/// The lists of a room once everyone with an id is off one of them.
pub open spec fn without_id(users: Users, list: Seq<UserKey>, id: i32) -> Seq<UserKey> {
    list.filter(|key: UserKey| users.contains_key(key) && users[key].id != id)
}

/// The scene when a user has just left: everyone heard of it, they themselves
/// too; they are in no room, and off the list that they were on.
pub open spec fn gone_from(s: Scene, user: UserKey) -> Scene {
    let u = s.users[user];
    Scene {
        room: if u.monitor {
            RoomView { monitors: without_id(s.users, s.room.monitors, u.id), ..s.room }
        } else {
            RoomView { users: without_id(s.users, s.room.users, u.id), ..s.room }
        },
        users: s.users.insert(user, User { room: None, ..u }),
        out: s.out.push(logged(s, MessageView::LeaveRoom { user: u.id, name: u.name@ })),
        ..s
    }
}

/// Leaving, in full: everyone hears of it. Is it the host, then one of the
/// players left takes over, is announced, shown the keys and told; without any
/// the room is dropped, or cannot go on because someone still waits. Whoever it
/// was, the game that only waited for them begins or ends.
pub proof fn law_leaving(s: Scene, user: UserKey, pick: nat, now: u64)
    requires
        s.ok(),
        s.users.contains_key(user),
    ensures
        ({
            let id = s.users[user].id;
            let left = gone_from(s, user);
            let players = live(s.users, left.room.users);
            let host = s.users.contains_key(s.room.host) && s.users[s.room.host].id == id;
            let after = s.leave(user, pick, now);
            &&& !host ==> after == left.check_all_ready(now) && !s.drops(user)
            &&& host && players.len() == 0 && live(s.users, s.room.users_waiting).len() == 0
                ==> after == left && s.drops(user)
            &&& host && players.len() == 0 && live(s.users, s.room.users_waiting).len() > 0
                ==> after == (Scene { fault: Some(Fault::NoCandidate), ..left }) && !s.drops(user)
            &&& host && players.len() > 0 ==> {
                let new = players[(pick % players.len()) as int];
                let led = Scene {
                    room: RoomView { host: new, host_time: now, ..left.room },
                    ..left
                };
                &&& !s.drops(user)
                &&& after == (Scene {
                    out: left.out + seq![
                        logged(led, MessageView::NewHost { user: s.users[new].id }),
                        whispered(new, keys_text()),
                        crowned(new, true),
                    ],
                    ..led
                }).check_all_ready(now)
            }
        }),
{
    let id = s.users[user].id;
    let left = gone_from(s, user);
    let d = s.departed(user);
    law_company(s);
    let kept = |key: UserKey| s.users.contains_key(key) && s.users[key].id != id;
    let not_gone = |key: UserKey|
        s.users.contains_key(key) && !set![id].contains(s.users[key].id);
    assert(kept =~= not_gone);
    assert(d =~= left);
    lemma_same_live(s.users, left.users, left.room.users);
    lemma_same_live(s.users, left.users, s.room.users_waiting);
    law_company(left);
    let waiting = Scene { room: RoomView { users: s.room.users_waiting, ..left.room }, ..left };
    law_company(waiting);
    let players = left.room.players(left.users);
    if players.len() > 0 {
        let new = players[(pick % players.len()) as int];
        assert(players.contains(new));
        lemma_others(left.users, left.room.users, Set::empty());
        let led = Scene { room: RoomView { host: new, host_time: now, ..left.room }, ..left };
        law_company(led);
        assert(left.users[new].id == s.users[new].id);
        let t = left.appoint(new, now).say_to_host(host_hint()).post(
            seq![new],
            ServerCommandView::ChangeHost(true),
        );
        assert(t.out =~= left.out + seq![
            logged(led, MessageView::NewHost { user: s.users[new].id }),
            whispered(new, keys_text()),
            crowned(new, true),
        ]);
    }
}

proof fn lemma_same_live(a: Users, b: Users, list: Seq<UserKey>)
    requires
        a.dom() =~= b.dom(),
    ensures
        live(a, list) == live(b, list),
{
    let in_a = |key: UserKey| a.contains_key(key);
    let in_b = |key: UserKey| b.contains_key(key);
    assert forall|key: UserKey| #[trigger] in_a(key) == in_b(key) by {
        assert(a.dom().contains(key) == b.dom().contains(key));
    }
    assert(in_a =~= in_b);
}

/// `k` is a player, there, and still one when `user` has left.
pub open spec fn still_plays(s: Scene, user: UserKey, k: UserKey) -> bool {
    s.room.users.contains(k) && s.users.contains_key(k) && (s.users[user].monitor || s.users[k].id
        != s.users[user].id)
}

/// `k` watches, is there, and still does when `user` has left.
pub open spec fn still_watches(s: Scene, user: UserKey, k: UserKey) -> bool {
    s.room.monitors.contains(k) && s.users.contains_key(k) && (!s.users[user].monitor
        || s.users[k].id != s.users[user].id)
}

/// Nobody is left waiting in vain: when someone leaves, host or not, and the room
/// is neither dropped nor stuck, a game that everyone left is done with is over,
/// one that everyone left is ready for has begun, and any other goes on.
pub proof fn law_nobody_waits_in_vain(s: Scene, user: UserKey, pick: nat, now: u64)
    requires
        s.ok(),
        s.users.contains_key(user),
        s.leave(user, pick, now).ok(),
        !s.drops(user),
    ensures
        ({
            let after = s.leave(user, pick, now).room.state;
            &&& s.room.state matches StateView::Playing { results, aborted, .. } ==> {
                let done = forall|k: UserKey|
                    still_plays(s, user, k) && !waits(s, s.users[k].id)
                        ==> results.contains_key(#[trigger] s.users[k].id) || aborted.contains(
                        s.users[k].id,
                    );
                &&& done ==> after is SelectChart
                &&& !done ==> after == s.room.state
            }
            &&& s.room.state matches StateView::WaitForReady { started, .. } ==> {
                let ready = forall|k: UserKey|
                    still_plays(s, user, k) && !waits(s, s.users[k].id)
                        || still_watches(s, user, k) ==> started.contains(#[trigger] s.users[k].id);
                &&& ready ==> after is Playing
                &&& !ready ==> after == s.room.state
            }
            &&& s.room.state is SelectChart ==> after is SelectChart
        }),
{
    let id = s.users[user].id;
    let left = gone_from(s, user);
    law_leaving(s, user, pick, now);
    lemma_same_live(s.users, left.users, left.room.users);
    let players = live(s.users, left.room.users);
    let host = s.users.contains_key(s.room.host) && s.users[s.room.host].id == id;
    let at_check = if host {
        let new = players[(pick % players.len()) as int];
        let led = Scene { room: RoomView { host: new, host_time: now, ..left.room }, ..left };
        Scene {
            out: left.out + seq![
                logged(led, MessageView::NewHost { user: s.users[new].id }),
                whispered(new, keys_text()),
                crowned(new, true),
            ],
            ..led
        }
    } else {
        left
    };
    assert(s.leave(user, pick, now) == at_check.check_all_ready(now));
    lemma_without_id(s.users, s.room.users, id);
    lemma_without_id(s.users, s.room.monitors, id);
    assert forall|k: UserKey| #[trigger] at_check.users.contains_key(k) <==> s.users.contains_key(
        k,
    ) by {}
    assert forall|k: UserKey| s.users.contains_key(k) implies (#[trigger] at_check.users[k]).id
        == s.users[k].id by {}
    assert forall|x: i32| #[trigger] waits(at_check, x) == waits(s, x) by {
        if waits(s, x) {
            let w = choose|w: UserKey| #[trigger]
                s.room.users_waiting.contains(w) && s.users.contains_key(w) && s.users[w].id == x;
            assert(at_check.room.users_waiting.contains(w) && at_check.users.contains_key(w)
                && at_check.users[w].id == x);
        }
        if waits(at_check, x) {
            let w = choose|w: UserKey| #[trigger]
                at_check.room.users_waiting.contains(w) && at_check.users.contains_key(w)
                    && at_check.users[w].id == x;
            assert(s.room.users_waiting.contains(w) && s.users.contains_key(w) && s.users[w].id
                == x);
        }
    }
    match s.room.state {
        StateView::Playing { results, aborted, .. } => {
            law_end(at_check, now);
            let done = forall|k: UserKey|
                still_plays(s, user, k) && !waits(s, s.users[k].id)
                    ==> results.contains_key(#[trigger] s.users[k].id) || aborted.contains(
                    s.users[k].id,
                );
            if done {
                assert(all_through(at_check)) by {
                    assert forall|k: UserKey|
                        at_check.users.contains_key(k) && at_check.room.users.contains(k)
                            && !waits(at_check, at_check.users[k].id) implies (
                    results.contains_key(#[trigger] at_check.users[k].id) || aborted.contains(
                        at_check.users[k].id,
                    )) by {
                        assert(still_plays(s, user, k));
                        assert(at_check.users[k].id == s.users[k].id);
                    }
                }
            } else {
                let k = choose|k: UserKey|
                    !(still_plays(s, user, k) && !waits(s, s.users[k].id)
                        ==> results.contains_key(#[trigger] s.users[k].id) || aborted.contains(
                        s.users[k].id,
                    ));
                assert(at_check.room.users.contains(k));
                assert(at_check.users[k].id == s.users[k].id);
            }
        },
        StateView::WaitForReady { started, .. } => {
            law_start(at_check, now);
            let ready = forall|k: UserKey|
                still_plays(s, user, k) && !waits(s, s.users[k].id)
                    || still_watches(s, user, k) ==> started.contains(#[trigger] s.users[k].id);
            if ready {
                assert(set_to_go(at_check)) by {
                    assert forall|k: UserKey|
                        at_check.users.contains_key(k) && (at_check.room.users.contains(k)
                            && !waits(at_check, at_check.users[k].id)
                            || at_check.room.monitors.contains(k)) implies started.contains(
                        #[trigger] at_check.users[k].id,
                    ) by {
                        assert(at_check.users[k].id == s.users[k].id);
                        if at_check.room.users.contains(k) {
                            assert(still_plays(s, user, k));
                        }
                        if at_check.room.monitors.contains(k) {
                            assert(still_watches(s, user, k));
                        }
                    }
                }
            } else {
                let k = choose|k: UserKey|
                    !(still_plays(s, user, k) && !waits(s, s.users[k].id)
                        || still_watches(s, user, k) ==> started.contains(#[trigger] s.users[k].id));
                assert(at_check.users[k].id == s.users[k].id);
            }
        },
        StateView::SelectChart => {},
    }
}

proof fn lemma_without_id(users: Users, list: Seq<UserKey>, id: i32)
    ensures
        forall|k: UserKey| #[trigger]
            without_id(users, list, id).contains(k) <==> list.contains(k) && users.contains_key(k)
                && users[k].id != id,
{
    let kept = |key: UserKey| users.contains_key(key) && users[key].id != id;
    let not_gone = |key: UserKey| users.contains_key(key) && !set![id].contains(users[key].id);
    assert(kept =~= not_gone);
    lemma_others(users, list, set![id]);
}

/// The names of users, each with a mark in front of it.
pub open spec fn roll(users: Users, list: Seq<UserKey>) -> Seq<char>
    decreases list.len(),
{
    if list.len() == 0 {
        Seq::empty()
    } else {
        roll(users, list.drop_last()) + "、"@ + users[list.last()].name@
    }
}

proof fn lemma_roll(users: Users, list: Seq<UserKey>)
    requires
        forall|i: int| 0 <= i < list.len() ==> users.contains_key(#[trigger] list[i]),
    ensures
        marked(names_of(users, list), "、"@) == roll(users, list),
    decreases list.len(),
{
    if list.len() > 0 {
        let rest = list.drop_last();
        assert(names_of(users, list).drop_last() =~= names_of(users, rest));
        assert forall|i: int| 0 <= i < rest.len() implies users.contains_key(#[trigger] rest[i]) by {
            assert(rest[i] == list[i]);
        }
        assert(list[list.len() - 1] == list.last());
        lemma_roll(users, rest);
    }
}

/// Putting a list of users out is having them leave, one after the other.
pub proof fn law_one_by_one(
    s: Scene,
    list: Seq<UserKey>,
    picks: Seq<nat>,
    user: UserKey,
    pick: nat,
    now: u64,
)
    ensures
        s.kick_all(Seq::empty(), Seq::empty(), now) == s,
        s.kick_all(list.push(user), picks.push(pick), now) == s.kick_all(list, picks, now).leave(
            user,
            pick,
            now,
        ),
{
    assert(list.push(user).drop_last() =~= list);
    assert(picks.push(pick).drop_last() =~= picks);
}

/// A host has six minutes to choose a chart. Nothing happens before they are
/// over, or while no time runs; then everyone is told and the host is put out.
pub proof fn law_time_to_choose(s: Scene, pick: nat, now: u64)
    requires
        s.ok(),
        s.room.host_time <= now,
    ensures
        s.room.host_time == 0 || now < s.room.host_time + 360 ==> s.check_host_time(pick, now) == s,
        s.room.host_time != 0 && now >= s.room.host_time + 360 && s.users.contains_key(s.room.host)
            ==> s.check_host_time(pick, now) == (Scene {
            out: s.out.push(
                said(s, "房主 "@ + s.users[s.room.host].name@ + " 选择谱面超时,已被踢出"@),
            ),
            ..s
        }).leave(s.room.host, pick, now),
        s.room.host_time != 0 && now >= s.room.host_time + 360 && !s.users.contains_key(s.room.host)
            ==> s.check_host_time(pick, now) == (Scene { fault: Some(Fault::HostGone), ..s }),
{
    law_company(s);
}

/// Those who take part and whose ids are not among `done`, in order.
pub open spec fn laggards(s: Scene, done: Set<i32>) -> Seq<UserKey> {
    s.room.users.filter(
        |key: UserKey|
            s.users.contains_key(key) && !waits(s, s.users[key].id) && !done.contains(
                s.users[key].id,
            ),
    )
}

proof fn lemma_laggards(s: Scene, done: Set<i32>)
    ensures
        others(s.users, s.room.active(s.users), done) == laggards(s, done),
        forall|i: int|
            0 <= i < laggards(s, done).len() ==> s.users.contains_key(
                #[trigger] laggards(s, done)[i],
            ),
{
    law_company(s);
    let takes = |key: UserKey| s.users.contains_key(key) && !waits(s, s.users[key].id);
    let undone = |key: UserKey| s.users.contains_key(key) && !done.contains(s.users[key].id);
    let lags = |key: UserKey|
        s.users.contains_key(key) && !waits(s, s.users[key].id) && !done.contains(s.users[key].id);
    lemma_filter_twice(s.room.users, takes, undone, lags);
    lemma_others(s.users, s.room.active(s.users), done);
}

proof fn lemma_filter_twice(
    list: Seq<UserKey>,
    p: spec_fn(UserKey) -> bool,
    q: spec_fn(UserKey) -> bool,
    both: spec_fn(UserKey) -> bool,
)
    requires
        forall|k: UserKey| #[trigger] both(k) <==> p(k) && q(k),
    ensures
        list.filter(p).filter(q) == list.filter(both),
    decreases list.len(),
{
    reveal(Seq::filter);
    if list.len() > 0 {
        let rest = list.drop_last();
        lemma_filter_twice(rest, p, q, both);
        let key = list.last();
        if p(key) {
            assert(rest.filter(p).push(key).drop_last() =~= rest.filter(p));
        }
        assert(both(key) <==> p(key) && q(key));
    } else {
        assert(list.filter(p).filter(q) =~= list.filter(both));
    }
}

/// Everyone has a minute and a half to be ready. Before that nothing happens;
/// after it those who take part and are not ready are put out, and everyone left
/// is told their names.
pub proof fn law_time_to_be_ready(s: Scene, picks: Seq<nat>, now: u64)
    requires
        s.ok(),
        s.room.state is WaitForReady,
        s.room.state->WaitForReady_start_time <= now,
    ensures
        ({
            let start = s.room.state->WaitForReady_start_time;
            let late = laggards(s, s.room.state->started);
            let out = s.kick_all(late, picks, now);
            &&& s.late_for_ready(now) is Some <==> now >= start + 90
            &&& now < start + 90 ==> s.check_ready_time(picks, now) == s
            &&& now >= start + 90 && out.ok() ==> s.check_ready_time(picks, now) == (Scene {
                out: out.out.push(
                    said(out, "以下玩家未准备且已超时,被踢出: "@ + roll(s.users, late)),
                ),
                ..out
            })
            &&& now >= start + 90 && !out.ok() ==> s.check_ready_time(picks, now) == out
        }),
{
    let started = s.room.state->started;
    let late = laggards(s, started);
    lemma_laggards(s, started);
    lemma_roll(s.users, late);
    law_company(s.kick_all(late, picks, now));
}

/// Someone with this id has a result.
pub open spec fn has_result(s: Scene, id: i32) -> bool {
    exists|i: int|
        0 <= i < s.room.users_played_result.len() && #[trigger] s.room.users_played_result[i].id
            == id
}

/// The ids of those who have a result.
pub open spec fn finishers(s: Scene) -> Set<i32> {
    Set::new(|id: i32| has_result(s, id))
}

proof fn lemma_finishers(s: Scene)
    ensures
        result_ids(s.room.users_played_result) == finishers(s),
{
    let results = s.room.users_played_result;
    let ids = results.map_values(|r: UserPlayedResult| r.id);
    assert forall|id: i32| ids.to_set().contains(id) <==> #[trigger] has_result(s, id) by {
        if ids.contains(id) {
            let i = choose|i: int| 0 <= i < ids.len() && ids[i] == id;
            assert(results[i].id == id);
        }
        if has_result(s, id) {
            let i = choose|i: int| 0 <= i < results.len() && #[trigger] results[i].id == id;
            assert(ids[i] == id);
        }
    }
    assert(ids.to_set() =~= finishers(s));
}

/// The moment from which those who still play are late: two minutes after the
/// first result came in, whatever came in after it, or eight minutes after the
/// game began if there is none.
pub open spec fn deadline(s: Scene) -> int {
    if s.room.users_played_result.len() > 0 {
        s.room.users_played_result[0].finish_time + 120
    } else {
        s.room.state->Playing_start_time + 480
    }
}

/// A game is not waited for without end. Until the deadline nobody is late;
/// then those who take part and have no result are put out, and everyone left is
/// told their names.
pub proof fn law_time_to_play(s: Scene, picks: Seq<nat>, now: u64)
    requires
        s.ok(),
        s.room.state is Playing,
        s.room.state->Playing_start_time <= now,
        s.room.users_played_result.len() > 0 ==> s.room.users_played_result[0].finish_time <= now,
    ensures
        ({
            let late = laggards(s, finishers(s));
            let out = s.kick_all(late, picks, now);
            &&& s.late_for_end(now) is Some <==> now >= deadline(s)
            &&& now < deadline(s) ==> s.check_game_time(picks, now) == s
            &&& now >= deadline(s) && out.ok() ==> s.check_game_time(picks, now) == (Scene {
                out: out.out.push(
                    said(out, "(以下玩家游玩超时,已被踢出: ? "@ + roll(s.users, late) + ")"@),
                ),
                ..out
            })
            &&& now >= deadline(s) && !out.ok() ==> s.check_game_time(picks, now) == out
        }),
{
    let late = laggards(s, finishers(s));
    lemma_finishers(s);
    lemma_laggards(s, finishers(s));
    lemma_roll(s.users, late);
    law_company(s);
    law_company(s.kick_all(late, picks, now));
    if s.room.users_played_result.len() == 0 {
        assert(finishers(s) =~= Set::empty());
        let takes = |key: UserKey| s.users.contains_key(key) && !waits(s, s.users[key].id);
        let lags = |key: UserKey|
            s.users.contains_key(key) && !waits(s, s.users[key].id) && !finishers(s).contains(
                s.users[key].id,
            );
        assert(takes =~= lags);
    }
}

/// Once a result is in, two minutes from the first one are all there is, in
/// whatever state the room is and whatever came in after it: late are then those
/// who take part and have no result.
pub proof fn law_first_result(s: Scene, now: u64)
    requires
        s.room.users_played_result.len() > 0,
        s.room.users_played_result[0].finish_time <= now,
    ensures
        now < s.room.users_played_result[0].finish_time + 120 ==> s.late_for_end(now) is None,
        now >= s.room.users_played_result[0].finish_time + 120 ==> s.late_for_end(now) == Some(
            laggards(s, finishers(s)),
        ),
{
    lemma_finishers(s);
    lemma_laggards(s, finishers(s));
}

/// Later results do not move the deadline.
pub proof fn law_deadline_stands(s: Scene, r: UserPlayedResult, now: u64)
    requires
        s.room.users_played_result.len() > 0,
    ensures
        ({
            let results = s.room.users_played_result.push(r);
            let more = Scene { room: RoomView { users_played_result: results, ..s.room }, ..s };
            more.late_for_end(now) is Some <==> s.late_for_end(now) is Some
        }),
{
}

/// A clock that was set back makes everyone late.
pub proof fn law_clock_set_back(s: Scene, now: u64)
    requires
        now < 0x8000_0000_0000_0000,
    ensures
        s.room.host_time > now && s.room.host_time < 0x8000_0000_0000_0000 ==> s.host_overdue(now),
        s.room.state is WaitForReady && now < s.room.state->WaitForReady_start_time
            < 0x8000_0000_0000_0000 ==> s.late_for_ready(now) is Some,
        s.room.state is Playing && s.room.users_played_result.len() == 0 && now
            < s.room.state->Playing_start_time < 0x8000_0000_0000_0000 ==> s.late_for_end(now)
            is Some,
        s.room.users_played_result.len() > 0 && now < s.room.users_played_result[0].finish_time
            < 0x8000_0000_0000_0000 ==> s.late_for_end(now) is Some,
{
}

/// Outside a game, and while none is prepared, time counts from zero.
pub proof fn law_no_clock(s: Scene, now: u64)
    ensures
        s.room.state !is WaitForReady && now < 90 ==> s.late_for_ready(now) is None,
        s.room.state !is WaitForReady && now >= 90 ==> s.late_for_ready(now) == Some(takers(s)),
        s.room.state !is Playing && s.room.users_played_result.len() == 0 && now < 480
            ==> s.late_for_end(now) is None,
        s.room.state !is Playing && s.room.users_played_result.len() == 0 && now >= 480
            ==> s.late_for_end(now) == Some(takers(s)),
{
    law_company(s);
    lemma_laggards(s, Set::empty());
    let takes = |key: UserKey| s.users.contains_key(key) && !waits(s, s.users[key].id);
    let lags = |key: UserKey|
        s.users.contains_key(key) && !waits(s, s.users[key].id) && !Set::<i32>::empty().contains(
            s.users[key].id,
        );
    assert(takes =~= lags);
}

} // verus!

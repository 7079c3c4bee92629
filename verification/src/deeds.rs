//! What calls leave behind, in a room and on the server, whatever chance decides
//! in them.
use vstd::prelude::*;
use crate::affairs::{
    law_connection_lost, law_given_up_rooms, law_greeting, law_in_a_room, law_public_text,
    law_signed_in, listed,
};
use crate::commands::join_view;
use crate::conduct::{
    hearers, law_nobody_waits_in_vain, law_time_to_play, live, still_plays, still_watches, waits,
};
use crate::dealings::{
    law_chart_chosen, law_chat, law_join, law_let_in, law_record, law_welcome, noted,
};
use crate::keys::{lemma_push_contains, UserKey};
use crate::outbox::{EffectView, Outbox};
use crate::protocol::{
    ClientCommand, JoinRoomResponse, MessageView, Refusal, RefusalView, RoomState, ServerCommand,
    ServerCommandView, UserInfo,
};
use crate::ranking::{Record, UserPlayedResult};
use crate::room::{Chart, Fault, Room, RoomView, StateView};
use crate::scene::{host_hint, overdue_text, scene, scene_after, Scene};
use crate::server::{process, world_after, Outcome, ServerState};
use crate::users::{lemma_others, UserTable, Users};
use crate::world::{OutcomeView, SlotView, World};

verus! {

/// Results stay when a game ends, and when someone leaves in a game or after it.
proof fn lemma_check_keeps_results(s: Scene, now: u64)
    requires
        s.room.state !is WaitForReady,
    ensures
        s.check_all_ready(now).room.state !is WaitForReady,
        s.check_all_ready(now).room.users_played_result == s.room.users_played_result,
{
    let t = s.send(MessageView::GameEnd).say("游戏结束, 结果如下:"@);
    t.lemma_say_results(s.room.users_played_result.len());
}

proof fn lemma_leave_keeps_results(s: Scene, user: UserKey, pick: nat, now: u64)
    requires
        s.room.state !is WaitForReady,
    ensures
        s.leave(user, pick, now).room.state !is WaitForReady,
        s.leave(user, pick, now).room.users_played_result == s.room.users_played_result,
{
    let t = s.departed(user);
    lemma_check_keeps_results(t, now);
    let players = t.room.players(t.users);
    let new = players[(pick % players.len()) as int];
    lemma_check_keeps_results(
        t.appoint(new, now).say_to_host(host_hint()).post(
            seq![new],
            ServerCommandView::ChangeHost(true),
        ),
        now,
    );
}

proof fn lemma_kick_keeps_results(s: Scene, list: Seq<UserKey>, picks: Seq<nat>, now: u64)
    requires
        s.room.state !is WaitForReady,
    ensures
        s.kick_all(list, picks, now).room.state !is WaitForReady,
        s.kick_all(list, picks, now).room.users_played_result == s.room.users_played_result,
    decreases list.len(),
{
    if list.len() > 0 {
        let t = s.kick_all(list.drop_last(), picks.drop_last(), now);
        lemma_kick_keeps_results(s, list.drop_last(), picks.drop_last(), now);
        lemma_leave_keeps_results(t, list.last(), picks.last(), now);
    }
}

/// A user's own record is on the list of results afterwards, behind all others,
/// whatever it leads to: with their id and name, the score, the accuracy and
/// whether it was a full combo exactly as the record says, and the time at which it
/// came.
pub proof fn law_record_stays(s: Scene, user: UserKey, record: Record, picks: Seq<nat>, now: u64)
    requires
        s.users.contains_key(user),
        record.player == s.users[user].id,
    ensures
        s.played(user, record, picks, now).0.room.users_played_result
            == s.room.users_played_result.push(
            UserPlayedResult {
                id: s.users[user].id,
                user_name: s.users[user].name,
                score: record.score,
                accuracy: record.accuracy,
                fc_state: record.full_combo,
                finish_time: now,
            },
        ),
{
    law_record(s, user, record, picks, now);
    let t = noted(s, user, record, now);
    if let StateView::Playing { results, aborted, start_time } = s.room.state {
        let counted = Scene {
            room: RoomView {
                state: StateView::Playing {
                    results: results.insert(s.users[user].id, record),
                    aborted,
                    start_time,
                },
                ..t.room
            },
            ..t
        };
        if let Some(late) = counted.late_for_end(now) {
            lemma_kick_keeps_results(counted, late, picks, now);
        }
        lemma_check_keeps_results(counted.check_game_time(picks, now), now);
    }
}

/// The same of the call.
pub proof fn law_record_noted(
    room: &mut Room,
    users: &mut UserTable,
    out: &mut Outbox,
    user: UserKey,
    record: Record,
    now: u64,
    r: Result<Result<(), Refusal>, Fault>,
)
    requires
        call_ensures(Room::played, (room, users, out, user, record, now), r),
        old(users)@.contains_key(user),
        record.player == old(users)@[user].id,
    ensures
        final(room)@.users_played_result == old(room)@.users_played_result.push(
            UserPlayedResult {
                id: old(users)@[user].id,
                user_name: old(users)@[user].name,
                score: record.score,
                accuracy: record.accuracy,
                fc_state: record.full_combo,
                finish_time: now,
            },
        ),
{
    let s = scene(*old(room), *old(users), *old(out));
    let picks = choose|picks: Seq<nat>|
        scene_after(*final(room), *final(users), *final(out), r) == (#[trigger] s.played(
            user,
            record,
            picks,
            now,
        )).0;
    law_record_stays(s, user, record, picks, now);
}

/// Whether a game is still in time: until two minutes after the first result, or
/// eight minutes after its beginning as long as there is none.
pub proof fn law_in_time(
    room: &mut Room,
    users: &mut UserTable,
    out: &mut Outbox,
    now: u64,
    in_time: bool,
)
    requires
        call_ensures(
            Room::check_game_time_proper,
            (room, users, out, now),
            Ok::<bool, Fault>(in_time),
        ),
        old(room)@.state is Playing,
        old(room)@.state->Playing_start_time <= now,
        old(room)@.users_played_result.len() > 0 ==> old(room)@.users_played_result[0].finish_time
            <= now,
    ensures
        old(room)@.users_played_result.len() > 0 ==> (in_time <==> now
            < old(room)@.users_played_result[0].finish_time + 120),
        old(room)@.users_played_result.len() == 0 ==> (in_time <==> now
            < old(room)@.state->Playing_start_time + 480),
        in_time ==> final(room)@ == old(room)@ && final(users)@ == old(users)@ && final(out)@
            == old(out)@,
{
    let s = scene(*old(room), *old(users), *old(out));
    let picks = choose|picks: Seq<nat>|
        scene_after(*final(room), *final(users), *final(out), Ok::<bool, Fault>(in_time))
            == #[trigger] s.check_game_time(picks, now);
    law_time_to_play(s, picks, now);
}

/// Whoever leaves, and whoever takes over: in a room that goes on, a game that
/// everyone left is done with is over, and one that everyone left is ready for has
/// begun.
pub proof fn law_left(
    room: &mut Room,
    users: &mut UserTable,
    out: &mut Outbox,
    user: UserKey,
    now: u64,
    dropped: bool,
)
    requires
        call_ensures(
            Room::on_user_leave,
            (room, users, out, user, now),
            Ok::<bool, Fault>(dropped),
        ),
        old(users)@.contains_key(user),
    ensures
        ({
            let s = scene(*old(room), *old(users), *old(out));
            let host = s.users.contains_key(s.room.host) && s.users[s.room.host].id
                == s.users[user].id;
            &&& dropped ==> host
            &&& !dropped ==> (s.room.state matches StateView::Playing { results, aborted, .. } ==> {
                let done = forall|k: UserKey|
                    still_plays(s, user, k) && !waits(s, s.users[k].id)
                        ==> results.contains_key(#[trigger] s.users[k].id) || aborted.contains(
                        s.users[k].id,
                    );
                &&& done ==> final(room)@.state is SelectChart
                &&& !done ==> final(room)@.state == old(room)@.state
            })
            &&& !dropped ==> (s.room.state matches StateView::WaitForReady { started, .. } ==> {
                let ready = forall|k: UserKey|
                    still_plays(s, user, k) && !waits(s, s.users[k].id) || still_watches(s, user, k)
                        ==> started.contains(#[trigger] s.users[k].id);
                &&& ready ==> final(room)@.state is Playing
                &&& !ready ==> final(room)@.state == old(room)@.state
            })
        }),
{
    let s = scene(*old(room), *old(users), *old(out));
    let pick = choose|pick: nat|
        scene_after(*final(room), *final(users), *final(out), Ok::<bool, Fault>(dropped))
            == #[trigger] s.leave(user, pick, now);
    if !s.drops(user) {
        law_nobody_waits_in_vain(s, user, pick, now);
    }
}

/// The same where it is known who takes over if the host leaves.
pub proof fn law_left_with(
    room: &mut Room,
    users: &mut UserTable,
    out: &mut Outbox,
    user: UserKey,
    pick: usize,
    now: u64,
)
    requires
        call_ensures(
            Room::on_user_leave_with,
            (room, users, out, user, pick, now),
            Ok::<bool, Fault>(false),
        ),
        old(users)@.contains_key(user),
    ensures
        ({
            let s = scene(*old(room), *old(users), *old(out));
            &&& s.room.state matches StateView::Playing { results, aborted, .. } ==> {
                let done = forall|k: UserKey|
                    still_plays(s, user, k) && !waits(s, s.users[k].id)
                        ==> results.contains_key(#[trigger] s.users[k].id) || aborted.contains(
                        s.users[k].id,
                    );
                &&& done ==> final(room)@.state is SelectChart
                &&& !done ==> final(room)@.state == old(room)@.state
            }
            &&& s.room.state matches StateView::WaitForReady { started, .. } ==> {
                let ready = forall|k: UserKey|
                    still_plays(s, user, k) && !waits(s, s.users[k].id) || still_watches(s, user, k)
                        ==> started.contains(#[trigger] s.users[k].id);
                &&& ready ==> final(room)@.state is Playing
                &&& !ready ==> final(room)@.state == old(room)@.state
            }
        }),
{
    let s = scene(*old(room), *old(users), *old(out));
    law_nobody_waits_in_vain(s, user, pick as nat, now);
}

/// Once a chart has come in, it is the chart of the room, and everyone in a room
/// that selects is shown it, whichever was chosen before.
pub proof fn law_chosen(
    room: &mut Room,
    users: &UserTable,
    out: &mut Outbox,
    user: UserKey,
    chart: Chart,
)
    requires
        call_ensures(Room::select, (room, users, out, user, chart), ()),
        users@.contains_key(user),
    ensures
        final(room)@ == (RoomView { chart: Some(chart), ..old(room)@ }),
        old(room)@.state is SelectChart ==> final(out)@.last() == (EffectView::Send {
            to: live(users@, old(room)@.users) + live(users@, old(room)@.monitors),
            cmd: ServerCommandView::ChangeState(RoomState::SelectChart(Some(chart.id))),
        }),
        final(out)@.len() == old(out)@.len() + 2,
{
    law_chart_chosen(scene(*old(room), *users, *old(out)), user, chart);
}

/// Nothing that is to be sent is taken back.
proof fn lemma_check_grows(s: Scene, now: u64)
    ensures
        s.out.is_prefix_of(s.check_all_ready(now).out),
{
    let n = s.room.users_played_result.len();
    let t = s.send(MessageView::GameEnd).say("游戏结束, 结果如下:"@);
    lemma_results_grow(t, n);
    assert(s.out.is_prefix_of(t.out));
    assert(s.out.is_prefix_of(t.say_results(n).out));
}

proof fn lemma_results_grow(s: Scene, n: nat)
    ensures
        s.out.is_prefix_of(s.say_results(n).out),
    decreases n,
{
    if n > 0 {
        lemma_results_grow(s, (n - 1) as nat);
    }
}

proof fn lemma_leave_grows(s: Scene, user: UserKey, pick: nat, now: u64)
    ensures
        s.out.is_prefix_of(s.leave(user, pick, now).out),
{
    let t = s.departed(user);
    assert(s.out.is_prefix_of(t.out));
    lemma_check_grows(t, now);
    let players = t.room.players(t.users);
    let new = players[(pick % players.len()) as int];
    let u = t.appoint(new, now).say_to_host(host_hint()).post(
        seq![new],
        ServerCommandView::ChangeHost(true),
    );
    assert(s.out.is_prefix_of(u.out));
    lemma_check_grows(u, now);
}

proof fn lemma_kick_grows(s: Scene, list: Seq<UserKey>, picks: Seq<nat>, now: u64)
    ensures
        s.out.is_prefix_of(s.kick_all(list, picks, now).out),
    decreases list.len(),
{
    if list.len() > 0 {
        let t = s.kick_all(list.drop_last(), picks.drop_last(), now);
        lemma_kick_grows(s, list.drop_last(), picks.drop_last(), now);
        lemma_leave_grows(t, list.last(), picks.last(), now);
    }
}

proof fn lemma_brief_grows(s: Scene, user: UserKey, picks: Seq<nat>, now: u64)
    ensures
        s.out.is_prefix_of(s.brief(user, picks, now).out),
{
    match s.room.state {
        StateView::SelectChart => {
            if s.users.contains_key(s.room.host) {
                let told = s.say(overdue_text(s.users[s.room.host].name@));
                lemma_leave_grows(told, s.room.host, picks[0], now);
            }
        },
        _ => {
            lemma_late_grows(s, picks, now);
        },
    }
}

proof fn lemma_late_grows(s: Scene, picks: Seq<nat>, now: u64)
    ensures
        forall|text: Seq<char>|
            s.out.is_prefix_of((#[trigger] s.say(text)).check_game_time(picks, now).out),
        forall|text: Seq<char>|
            s.out.is_prefix_of((#[trigger] s.say(text)).check_ready_time(picks, now).out),
{
    assert forall|text: Seq<char>| s.out.is_prefix_of(
        (#[trigger] s.say(text)).check_game_time(picks, now).out,
    ) by {
        let t = s.say(text);
        assert(s.out.is_prefix_of(t.out));
        if let Some(late) = t.late_for_end(now) {
            lemma_kick_grows(t, late, picks, now);
        }
    }
    assert forall|text: Seq<char>| s.out.is_prefix_of(
        (#[trigger] s.say(text)).check_ready_time(picks, now).out,
    ) by {
        let t = s.say(text);
        assert(s.out.is_prefix_of(t.out));
        if let Some(late) = t.late_for_ready(now) {
            lemma_kick_grows(t, late, picks, now);
        }
    }
}

/// Whoever is let in, in whatever state the room is: everyone in it, the newcomer
/// too, is sent what there is to know of them and the line that they joined.
pub proof fn law_let_in_announced(
    room: &mut Room,
    users: &mut UserTable,
    out: &mut Outbox,
    user: UserKey,
    key: usize,
    monitor: bool,
    public: bool,
    now: u64,
    response: JoinRoomResponse,
)
    requires
        call_ensures(
            Room::join,
            (room, users, out, user, key, monitor, public, now),
            Ok::<Result<JoinRoomResponse, Refusal>, Fault>(Ok(response)),
        ),
        old(users)@.contains_key(user),
    ensures
        ({
            let u = old(users)@[user];
            let n = old(out)@.len() as int;
            let to = final(out)@[n]->to;
            &&& final(out)@.len() >= n + 3
            &&& to.contains(user)
            &&& forall|k: UserKey| #[trigger]
                to.contains(k) <==> k == user || old(users)@.contains_key(k) && (
                old(room)@.users.contains(k) || old(room)@.monitors.contains(k))
            &&& final(out)@[n] == (EffectView::Send {
                to,
                cmd: ServerCommandView::OnJoinRoom(UserInfo { id: u.id, name: u.name, monitor }),
            })
            &&& final(out)@[n + 1] == (EffectView::Send {
                to,
                cmd: ServerCommandView::Message(
                    MessageView::JoinRoom { user: u.id, name: u.name@ },
                ),
            })
        }),
{
    let s = scene(*old(room), *old(users), *old(out));
    let r = Ok::<Result<JoinRoomResponse, Refusal>, Fault>(Ok(response));
    let picks = choose|picks: Seq<nat>|
        scene_after(*final(room), *final(users), *final(out), r) == (#[trigger] s.join(
            user,
            key,
            monitor,
            public,
            picks,
            now,
        )).0 && join_view(Ok(response)) == s.join(user, key, monitor, public, picks, now).1;
    law_join(s, user, key, monitor, public, picks, now);
    law_welcome(s, user, monitor, public, now);
    let w = s.welcome(user, monitor, public, now);
    lemma_brief_grows(w, user, picks, now);
    let n = s.out.len() as int;
    assert(w.out[n] == final(out)@[n]);
    assert(w.out[n + 1] == final(out)@[n + 1]);
    lemma_hearers(s, user, monitor, public, now);
}

/// Who hears in a room once someone was let in.
proof fn lemma_hearers(s: Scene, user: UserKey, monitor: bool, public: bool, now: u64)
    requires
        s.users.contains_key(user),
        s.room.add_user(s.users, user, monitor, s.room.state !is SelectChart, now).1,
    ensures
        forall|k: UserKey| #[trigger]
            hearers(s.welcome(user, monitor, public, now)).contains(k) <==> k == user
                || s.users.contains_key(k) && (s.room.users.contains(k) || s.room.monitors.contains(
                k,
            )),
{
    let w = s.welcome(user, monitor, public, now);
    law_welcome(s, user, monitor, public, now);
    law_let_in(
        s.room,
        s.users,
        user,
        monitor,
        s.room.state !is SelectChart,
        now,
    );
    assert(w.users.dom() =~= s.users.dom());
    let players = live(w.users, w.room.users);
    let watchers = live(w.users, w.room.monitors);
    lemma_live(w.users, w.room.users);
    lemma_live(w.users, w.room.monitors);
    lemma_live(s.users, s.room.users);
    lemma_live(s.users, s.room.monitors);
    lemma_push_contains(live(s.users, s.room.users), user);
    lemma_push_contains(live(s.users, s.room.monitors), user);
    let all = hearers(w);
    assert forall|k: UserKey| #[trigger] all.contains(k) <==> k == user || s.users.contains_key(k)
        && (s.room.users.contains(k) || s.room.monitors.contains(k)) by {
        assert(w.users.dom().contains(k) == s.users.dom().contains(k));
        if all.contains(k) {
            let i = choose|i: int| 0 <= i < all.len() && all[i] == k;
            if i < players.len() {
                assert(players[i] == k);
                assert(players.contains(k));
            } else {
                assert(watchers[i - players.len()] == k);
                assert(watchers.contains(k));
            }
        }
        if players.contains(k) {
            let i = choose|i: int| 0 <= i < players.len() && players[i] == k;
            assert(all[i] == k);
        }
        if watchers.contains(k) {
            let i = choose|i: int| 0 <= i < watchers.len() && watchers[i] == k;
            assert(all[players.len() + i] == k);
        }
    }
}

proof fn lemma_live(users: Users, list: Seq<UserKey>)
    ensures
        forall|k: UserKey| #[trigger]
            live(users, list).contains(k) <==> list.contains(k) && users.contains_key(k),
{
    let there = |key: UserKey| users.contains_key(key);
    let not_gone = |key: UserKey|
        users.contains_key(key) && !Set::<i32>::empty().contains(users[key].id);
    assert(there =~= not_gone);
    lemma_others(users, list, Set::empty());
}

/// A chart that a user asked for and that came in is the chart of their room from
/// then on, if the room is not given up, and they are told that it was taken. One
/// that could not be had changes no room, and they are told why.
pub proof fn law_chart_arrived(
    server: &mut ServerState,
    user: UserKey,
    room: usize,
    fetched: Result<Chart, String>,
    r: Outcome,
)
    requires
        call_ensures(ServerState::chart_fetched, (server, user, room, fetched), r),
        old(server)@.wf(),
        room < old(server)@.rooms.len(),
        old(server)@.rooms[room as int].requests > 0,
    ensures
        ({
            let before = old(server)@.rooms[room as int];
            let after = final(server)@.rooms[room as int];
            match fetched {
                Ok(chart) => {
                    &&& r@ == OutcomeView::Reply(Some(ServerCommandView::SelectChart(Ok(()))))
                    &&& after.given_up || after.room == (RoomView {
                        chart: Some(chart),
                        ..before.room
                    })
                    &&& before.listed ==> !after.given_up
                },
                Err(text) => {
                    &&& r@ == OutcomeView::Reply(
                        Some(ServerCommandView::SelectChart(Err(RefusalView::Text(text@)))),
                    )
                    &&& after.given_up || after.room == before.room
                    &&& final(server)@.out == old(server)@.out
                },
            }
        }),
{
    let w = old(server)@;
    let k = room as int;
    assert(w.rooms[k].room.wf());
    let v = match fetched {
        Ok(chart) => w.back(k, w.at(k).select(user, chart)),
        Err(_) => w,
    };
    if let Ok(chart) = fetched {
        w.lemma_back_keeps(room, w.at(k).select(user, chart));
    }
    lemma_over(v, user, k);
}

/// A record that a user uploaded and that came in is the last of the results of
/// their room from then on, exactly as it says, if it is their own and the room is
/// not given up.
pub proof fn law_record_arrived(
    server: &mut ServerState,
    user: UserKey,
    room: usize,
    record: Record,
    now: u64,
    r: Result<Outcome, Fault>,
)
    requires
        call_ensures(
            ServerState::record_fetched,
            (server, user, room, Ok::<Record, String>(record), now),
            r,
        ),
        old(server)@.wf(),
        old(server)@.users.contains_key(user),
        room < old(server)@.rooms.len(),
        old(server)@.rooms[room as int].requests > 0,
        record.player == old(server)@.users[user].id,
    ensures
        ({
            let before = old(server)@.rooms[room as int];
            let after = final(server)@.rooms[room as int];
            let u = old(server)@.users[user];
            &&& after.given_up || after.room.users_played_result
                == before.room.users_played_result.push(
                UserPlayedResult {
                    id: u.id,
                    user_name: u.name,
                    score: record.score,
                    accuracy: record.accuracy,
                    fc_state: record.full_combo,
                    finish_time: now,
                },
            )
            &&& before.listed ==> !after.given_up
        }),
{
    let w = old(server)@;
    let k = room as int;
    let picks = choose|picks: Seq<nat>|
        world_after(*final(server), r) == (#[trigger] w.record_fetched(
            user,
            k,
            Ok(record),
            picks,
            now,
        )).0;
    let s = w.at(k);
    let t = s.played(user, record, picks, now).0;
    assert(w.rooms[k].room.wf());
    law_record_stays(s, user, record, picks, now);
    s.lemma_played_keeps(room, user, record, picks, now);
    w.lemma_back_keeps(room, t);
    lemma_over(w.back(k, t), user, k);
}

/// What the end of a request leaves of the room that it was made for.
proof fn lemma_over(w: World, user: UserKey, k: int)
    requires
        w.sound(),
        0 <= k < w.rooms.len(),
        !w.rooms[k].given_up,
    ensures
        ({
            let after = w.answered(k).release(user).settled();
            &&& after.rooms.len() == w.rooms.len()
            &&& after.out == w.out
            &&& !after.rooms[k].given_up ==> after.rooms[k].room == w.rooms[k].room
            &&& w.rooms[k].listed ==> !after.rooms[k].given_up
        }),
{
    w.lemma_asked_keeps(k);
    w.answered(k).lemma_hold_keeps(user);
    w.answered(k).release(user).lemma_settled();
    assert(w.answered(k).release(user).rooms[k].listed == w.rooms[k].listed);
    law_given_up_rooms(w.answered(k).release(user));
}

/// A command is carried out, and then every room that nothing leads to any more
/// is given up.
pub proof fn law_processed(
    server: &mut ServerState,
    user: UserKey,
    cmd: ClientCommand,
    now: u64,
    r: Result<Outcome, Fault>,
)
    requires
        call_ensures(process, (server, user, cmd, now), r),
    ensures
        exists|picks: Seq<nat>| {
            let served = #[trigger] old(server)@.serve(user, cmd, picks, now);
            &&& world_after(*final(server), r) == served.0.settled()
            &&& r matches Ok(outcome) ==> outcome@ == served.1
        },
{
    let w = old(server)@;
    let picks = choose|picks: Seq<nat>|
        world_after(*final(server), r) == (#[trigger] w.process(user, cmd, picks, now)).0 && (
        r matches Ok(outcome) ==> outcome@ == w.process(user, cmd, picks, now).1);
    let served = w.serve(user, cmd, picks, now);
    assert(world_after(*final(server), r) == served.0.settled());
}

/// What a user says is sent to everyone in their room under their id, marked as
/// said on a test server, and changes no room.
pub proof fn law_chatted(
    server: &mut ServerState,
    user: UserKey,
    message: String,
    now: u64,
    r: Result<Outcome, Fault>,
)
    requires
        call_ensures(process, (server, user, ClientCommand::Chat { message }, now), r),
        old(server)@.wf(),
        old(server)@.users.contains_key(user),
        old(server)@.users[user].room is Some,
    ensures
        ({
            let w = old(server)@;
            let room = w.rooms[w.users[user].room->0 as int].room;
            &&& r matches Ok(outcome) ==> outcome@ == OutcomeView::Reply(
                Some(ServerCommandView::Chat(Ok(()))),
            )
            &&& r is Ok
            &&& final(server)@ == (World {
                out: w.out.push(
                    EffectView::Send {
                        to: live(w.users, room.users) + live(w.users, room.monitors),
                        cmd: ServerCommandView::Message(
                            MessageView::Chat {
                                user: w.users[user].id,
                                content: "[测试版] "@ + message@,
                            },
                        ),
                    },
                ),
                ..w
            })
        }),
{
    let w = old(server)@;
    let cmd = ClientCommand::Chat { message };
    let k = w.users[user].room->0 as int;
    law_processed(server, user, cmd, now, r);
    let picks = choose|picks: Seq<nat>| {
        let served = #[trigger] w.serve(user, cmd, picks, now);
        &&& world_after(*final(server), r) == served.0.settled()
        &&& r matches Ok(outcome) ==> outcome@ == served.1
    };
    law_in_a_room(w, user, cmd, picks, now);
    law_chat(w.at(k), user, message@);
    assert(w.user_sound(user));
    let next = w.serve(user, cmd, picks, now).0;
    assert(next.rooms =~= w.rooms);
    w.lemma_stays_tidy(next);
    assert(world_after(*final(server), r) == next);
}

/// The loss of a connection begins a wait exactly if the user was reached on it and
/// plays in no game that goes on; the wait has the next mark.
pub proof fn law_waits_for(
    server: &mut ServerState,
    user: UserKey,
    session: u128,
    now: u64,
    mark: Option<u64>,
)
    requires
        call_ensures(
            ServerState::hang_up,
            (server, user, session, now),
            Ok::<Option<u64>, Fault>(mark),
        ),
        old(server)@.users.contains_key(user),
    ensures
        ({
            let w = old(server)@;
            let u = w.users[user];
            let playing = u.room is Some && w.rooms[u.room->0 as int].room.state is Playing;
            mark == if u.session == Some(session) && !playing {
                Some(w.next_mark)
            } else {
                None
            }
        }),
{
    let w = old(server)@;
    let r = Ok::<Option<u64>, Fault>(mark);
    let pick = choose|pick: nat|
        world_after(*final(server), r) == (#[trigger] w.hang_up(user, session, pick, now)).0 && mark
            == w.hang_up(user, session, pick, now).1;
    law_connection_lost(w, user, session, pick, now);
}

/// A user who comes in is reached on the connection from then on, waited for no
/// more, in the room that they were in, and greeted with what they are.
pub proof fn law_came_in(
    server: &mut ServerState,
    session: u128,
    id: i32,
    name: String,
    lang: String,
    r: (UserKey, ServerCommand),
)
    requires
        call_ensures(ServerState::sign_in, (server, session, id, name, lang), r),
        old(server)@.wf(),
        old(server)@.next_key < 0xffff_ffff_ffff_ffff,
    ensures
        ({
            let u = final(server)@.users[r.0];
            let known = old(server)@.registry.contains_key(id);
            &&& final(server)@.users.contains_key(r.0)
            &&& final(server)@.registry.contains_key(id) && final(server)@.registry[id] == r.0
            &&& u.session == Some(session)
            &&& u.dangle_mark is None
            &&& u.id == id
            &&& known ==> u.name == old(server)@.users[r.0].name && u.room
                == old(server)@.users[r.0].room
            &&& !known ==> u.name == name && u.lang == lang && u.room is None
            &&& r.1@ matches ServerCommandView::Authenticate(Ok((info, _))) && info == (UserInfo {
                id,
                name: u.name,
                monitor: u.monitor,
            })
        }),
{
    let w = old(server)@;
    law_signed_in(w, session, id, name, lang);
    if w.registry.contains_key(id) {
        assert(w.id_sound(id));
    }
    law_greeting(final(server)@, r.0);
}

/// The list that is handed out has the ids of the rooms that can be found and are
/// open for all to see, oldest first, in double quotes.
pub proof fn law_handed_out(server: &ServerState, r: String)
    requires
        call_ensures(Room::refresh_public_rooms, (server,), r),
    ensures
        r@ == "["@ + listed(
            server@.rooms.filter(
                |slot: SlotView| slot.listed && slot.room.public_enabled,
            ).map_values(|slot: SlotView| slot.room.id),
        ) + "]"@,
{
    law_public_text(server@.rooms);
}

} // verus!

//! What each command makes of the server as a whole: which rooms it finds, what
//! it answers, and who is told.
use vstd::prelude::*;
use crate::conduct::{hearers, keys_text, law_company, live, whispered};
use crate::keys::{lemma_push_contains, UserKey};
use crate::order::lemma_lookup;
use crate::outbox::EffectView;
use crate::protocol::{
    ClientCommand, JoinRoomResponseView, MessageView, RefusalView, RoomState, ServerCommandView,
    TextKey, UserInfo,
};
use crate::ranking::Record;
use crate::room::{info_map, Chart, PanelView, RoomView, StateView};
use crate::scene::Scene;
use crate::text::{joined, marked};
use crate::users::{id_of, is_monitor, name_of, sessions_of, User, Users};
use crate::world::{
    is_custom, lookup, public_ids, public_rooms_text, quoted, room_id, OutcomeView, SlotView,
    World,
};

verus! {

/// An answer that says why something was refused.
pub open spec fn no(text: Seq<char>) -> Result<(), RefusalView> {
    Err(RefusalView::Text(text))
}

/// An answer that something was done.
pub open spec fn done() -> Result<(), RefusalView> {
    Ok(())
}

/// What the room at place `k` has of the server.
pub open spec fn seen_from(w: World, k: int) -> Scene {
    Scene { room: w.rooms[k].room, users: w.users, out: w.out, fault: w.fault }
}

/// The server, once the scene in the room at place `k` is `s`: nothing else has
/// changed.
pub open spec fn only_in(w: World, k: int, s: Scene) -> World {
    World {
        users: s.users,
        rooms: w.rooms.update(
            k,
            SlotView {
                room: s.room,
                listed: w.rooms[k].listed,
                requests: w.rooms[k].requests,
                given_up: w.rooms[k].given_up,
            },
        ),
        out: s.out,
        fault: s.fault,
        registry: w.registry,
        next_key: w.next_key,
        next_mark: w.next_mark,
    }
}

/// The id that counts is the one asked for if it begins with the three letters
/// `cus`, and else that of the public room.
pub proof fn law_room_ids(id: Seq<char>)
    ensures
        ({
            let own = id.len() >= 3 && id[0] == 'c' && id[1] == 'u' && id[2] == 's';
            &&& is_custom(id) <==> own
            &&& own ==> room_id(id) == id
            &&& !own ==> room_id(id) == "public"@
        }),
{
    reveal_strlit("cus");
    if id.len() >= 3 {
        assert(id.take(3)[0] == id[0] && id.take(3)[1] == id[1] && id.take(3)[2] == id[2]);
        if id[0] == 'c' && id[1] == 'u' && id[2] == 's' {
            assert(id.take(3) =~= "cus"@);
        }
    }
}

/// A room is found exactly if one is listed under the id; it is then the first.
pub proof fn law_found(rooms: Seq<SlotView>, id: Seq<char>)
    requires
        rooms.len() <= usize::MAX,
    ensures
        lookup(rooms, id) is Some <==> exists|k: int|
            0 <= k < rooms.len() && (#[trigger] rooms[k]).listed && rooms[k].room.id == id,
        lookup(rooms, id) matches Some(k) ==> {
            &&& k < rooms.len()
            &&& rooms[k as int].listed
            &&& rooms[k as int].room.id == id
            &&& forall|j: int|
                0 <= j < k && (#[trigger] rooms[j]).listed ==> rooms[j].room.id != id
        },
    decreases rooms.len(),
{
    lemma_lookup(rooms, id);
    if rooms.len() > 0 {
        let front = rooms.drop_last();
        law_found(front, id);
        if let Some(k) = lookup(rooms, id) {
            assert(rooms[k as int].listed);
            assert forall|j: int| 0 <= j < k && (#[trigger] rooms[j]).listed implies rooms[j].room.id
                != id by {
                assert(front[j] == rooms[j]);
            }
        }
    }
}

/// A new room in full: its creator is host and only player, it is in cycle mode,
/// neither locked nor live nor listed for all to see, and the time to choose
/// begins.
pub open spec fn new_room(id: Seq<char>, user: UserKey, now: u64) -> RoomView {
    RoomView {
        id,
        host: user,
        state: StateView::SelectChart,
        live: false,
        locked: false,
        cycle: true,
        public_enabled: false,
        users: seq![user],
        users_waiting: Seq::empty(),
        monitors: Seq::empty(),
        chart: None,
        users_played_result: Seq::empty(),
        panel: PanelView { pointer_position: 0, interface: 0, users: Seq::empty() },
        host_time: now,
    }
}

/// A room that was just made, before anyone's time runs, and what is left of one
/// that was given up.
pub proof fn law_bare_rooms(id: Seq<char>, user: UserKey)
    ensures
        RoomView::fresh(id, user) == new_room(id, user, 0),
        RoomView::nothing() == (RoomView { users: Seq::empty(), ..new_room(Seq::empty(), 0, 0) }),
{
}

/// A line of the log for one user.
pub open spec fn line_for(user: UserKey, message: MessageView) -> EffectView {
    EffectView::Send { to: seq![user], cmd: ServerCommandView::Message(message) }
}

/// Creating a room: refused to who is in one, and where the id is taken. Else the
/// room is there, its creator is in it, and they alone are told.
pub proof fn law_create(w: World, user: UserKey, id: Seq<char>, now: u64)
    requires
        w.ok(),
        w.users.contains_key(user),
    ensures
        ({
            let own = is_custom(id);
            let taken = lookup(w.rooms, room_id(id)) is Some;
            let (after, answer) = w.create_room(user, id, now);
            let told = if own {
                seq![
                    whispered(user, "欢迎创建房间! 本服务器使用由BZLZHH修改的服务端"@),
                    whispered(user, "提示:使用房主面板开启公开房间,可以让其他人看到此房间哦"@),
                ]
            } else {
                seq![
                    whispered(
                        user,
                        "感谢创建该服务器的public房间! 本服务器使用由BZLZHH修改的服务端\n若您不想创建public房间,请重新创建一个房间号以cus开头的房间"@,
                    ),
                ]
            };
            &&& w.users[user].room is Some ==> after == w && answer == no("你已经在房间中了"@)
            &&& w.users[user].room is None && taken && own ==> after == w && answer == Err::<
                (),
                RefusalView,
            >(RefusalView::Localized(TextKey::CreateIdOccupied))
            &&& w.users[user].room is None && taken && !own ==> after == w && answer == no(
                "用户创建的房间ID必须以cus开头"@,
            )
            &&& w.users[user].room is None && !taken ==> answer == done() && after == (World {
                users: w.users.insert(
                    user,
                    User { room: Some(w.rooms.len() as usize), ..w.users[user] },
                ),
                rooms: w.rooms.push(
                    SlotView {
                        room: new_room(room_id(id), user, now),
                        listed: true,
                        requests: 0,
                        given_up: false,
                    },
                ),
                out: w.out.push(
                    line_for(user, MessageView::CreateRoom { user: w.users[user].id }),
                ) + told + seq![whispered(user, keys_text())],
                ..w
            })
        }),
{
    let s = Scene {
        room: RoomView::fresh(room_id(id), user),
        users: w.users,
        out: w.out,
        fault: w.fault,
    };
    law_company(s);
    reveal(Seq::filter);
    assert(seq![user].drop_last() =~= Seq::empty());
    assert(live(w.users, Seq::empty()) =~= Seq::empty());
    assert(live(w.users, seq![user]) =~= seq![user]);
    assert(hearers(s) =~= seq![user]);
    let first = line_for(user, MessageView::CreateRoom { user: w.users[user].id });
    let own = is_custom(id);
    let (after, answer) = w.create_room(user, id, now);
    if w.users[user].room is None && lookup(w.rooms, room_id(id)) is None {
        if own {
            assert(after.out =~= w.out.push(first) + seq![
                whispered(user, "欢迎创建房间! 本服务器使用由BZLZHH修改的服务端"@),
                whispered(user, "提示:使用房主面板开启公开房间,可以让其他人看到此房间哦"@),
            ] + seq![whispered(user, keys_text())]);
        } else {
            assert(after.out =~= w.out.push(first) + seq![
                whispered(
                    user,
                    "感谢创建该服务器的public房间! 本服务器使用由BZLZHH修改的服务端\n若您不想创建public房间,请重新创建一个房间号以cus开头的房间"@,
                ),
            ] + seq![whispered(user, keys_text())]);
        }
        assert(after.rooms[w.rooms.len() as int].room =~= new_room(room_id(id), user, now));
    }
}

/// Joining a room: refused to who is in one, and where there is none of the id.
/// Else the room decides.
pub proof fn law_join_found(
    w: World,
    user: UserKey,
    id: Seq<char>,
    monitor: bool,
    picks: Seq<nat>,
    now: u64,
)
    requires
        w.users.contains_key(user),
    ensures
        ({
            let (after, answer) = w.join_room(user, id, monitor, picks, now);
            let found = lookup(w.rooms, room_id(id));
            &&& w.users[user].room is Some ==> after == w && answer == Err::<
                JoinRoomResponseView,
                RefusalView,
            >(RefusalView::Text("你已经在房间中了"@))
            &&& w.users[user].room is None && found is None ==> after == w && answer == Err::<
                JoinRoomResponseView,
                RefusalView,
            >(
                RefusalView::Text(
                    "房间不存在\n你也可以输入不以cus开头的任意房间ID以加入公共房间\n(若你尝试加入public房间仍提示不存在,请创建public房间)"@,
                ),
            )
            &&& w.users[user].room is None ==> (found matches Some(k) ==> {
                let joined_room = seen_from(w, k as int).join(
                    user,
                    k,
                    monitor,
                    !is_custom(id),
                    picks,
                    now,
                );
                after == only_in(w, k as int, joined_room.0) && answer == joined_room.1
            })
        }),
{
}

/// Leaving a room: refused to who is in none. Else the user leaves, a room that is
/// dropped can no longer be found, and the list of public rooms is made anew.
pub proof fn law_leave_room(w: World, user: UserKey, pick: nat, now: u64)
    requires
        w.users.contains_key(user),
    ensures
        w.users[user].room is None ==> w.leave_room(user, pick, now) == (w, no("no room"@)),
        w.users[user].room matches Some(k) ==> {
            let (after, answer) = w.leave_room(user, pick, now);
            let left = seen_from(w, k as int).leave(user, pick, now);
            let there = only_in(w, k as int, left);
            &&& answer == done()
            &&& !left.ok() ==> after == there
            &&& left.ok() && !seen_from(w, k as int).drops(user) ==> after == (World {
                out: left.out.push(EffectView::RefreshPublicRooms),
                ..there
            })
            &&& left.ok() && seen_from(w, k as int).drops(user) ==> after == (World {
                out: left.out.push(EffectView::RefreshPublicRooms),
                ..there.unlist(w.rooms[k as int].room.id)
            })
        },
{
}

/// A room is dropped when its host leaves and nobody else plays or waits.
pub proof fn law_when_dropped(s: Scene, user: UserKey)
    requires
        s.users.contains_key(user),
    ensures
        s.drops(user) ==> s.users.contains_key(s.room.host) && s.users[s.room.host].id
            == s.users[user].id,
        s.drops(user) <==> s.hosted_by(user) && live(s.users, s.departed(user).room.users).len()
            == 0 && live(s.users, s.departed(user).room.users_waiting).len() == 0,
{
    let t = s.departed(user);
    assert(t.users.dom() =~= s.users.dom());
    let there = |key: UserKey| t.users.contains_key(key);
    let before = |key: UserKey| s.users.contains_key(key);
    let not_gone = |key: UserKey|
        t.users.contains_key(key) && !Set::<i32>::empty().contains(t.users[key].id);
    assert forall|key: UserKey| #[trigger] there(key) == before(key) by {
        assert(t.users.dom().contains(key) == s.users.dom().contains(key));
    }
    assert(there =~= before);
    assert(there =~= not_gone);
}

/// A user who is in a room: each command goes to that room, and is answered under
/// its own name. The two keys that move the pointer are the lock, which moves it
/// up, and cycle mode, which moves it down, whatever they ask for.
pub proof fn law_in_a_room(w: World, user: UserKey, cmd: ClientCommand, picks: Seq<nat>, now: u64)
    requires
        w.users.contains_key(user),
        w.users[user].room is Some,
    ensures
        ({
            let k = w.users[user].room->0 as int;
            let s = seen_from(w, k);
            let (after, outcome) = w.serve(user, cmd, picks, now);
            match cmd {
                ClientCommand::Ping => after == w && outcome == OutcomeView::Reply(None),
                ClientCommand::Authenticate { .. } => after == w && outcome == OutcomeView::Reply(
                    Some(
                        ServerCommandView::Authenticate(
                            Err(RefusalView::Text("repeated authenticate"@)),
                        ),
                    ),
                ),
                ClientCommand::Chat { message } => after == only_in(w, k, s.chat(user, message@))
                    && outcome == OutcomeView::Reply(Some(ServerCommandView::Chat(done()))),
                ClientCommand::Touches { frames } => after == only_in(
                    w,
                    k,
                    s.touches(user, frames@),
                ) && outcome == OutcomeView::Reply(None),
                ClientCommand::Judges { judges } => after == only_in(w, k, s.judges(user, judges@))
                    && outcome == OutcomeView::Reply(None),
                ClientCommand::CreateRoom { .. } => after == w && outcome == OutcomeView::Reply(
                    Some(ServerCommandView::CreateRoom(no("你已经在房间中了"@))),
                ),
                ClientCommand::JoinRoom { .. } => after == w && outcome == OutcomeView::Reply(
                    Some(
                        ServerCommandView::JoinRoom(
                            Err(RefusalView::Text("你已经在房间中了"@)),
                        ),
                    ),
                ),
                ClientCommand::LeaveRoom => after == w.leave_room(user, picks[0], now).0 && outcome
                    == OutcomeView::Reply(Some(ServerCommandView::LeaveRoom(done()))),
                ClientCommand::LockRoom { .. } => after == only_in(w, k, s.press(user, false).0)
                    && outcome == OutcomeView::Reply(
                    Some(ServerCommandView::LockRoom(s.press(user, false).1)),
                ),
                ClientCommand::CycleRoom { .. } => after == only_in(w, k, s.press(user, true).0)
                    && outcome == OutcomeView::Reply(
                    Some(ServerCommandView::CycleRoom(s.press(user, true).1)),
                ),
                ClientCommand::SelectChart { id } => match s.may_select(user) {
                    Err(e) => after == w && outcome == OutcomeView::Reply(
                        Some(ServerCommandView::SelectChart(Err(e))),
                    ),
                    Ok(()) => after == waits_for_answer(w, user, k) && outcome
                        == OutcomeView::FetchChart { id, room: k as usize },
                },
                ClientCommand::RequestStart => {
                    let turn = s.request_start(user, picks[0], now);
                    after == only_in(w, k, turn.0) && outcome == OutcomeView::Reply(
                        Some(ServerCommandView::RequestStart(turn.1)),
                    )
                },
                ClientCommand::Ready => {
                    let turn = s.ready(user, picks, now);
                    after == only_in(w, k, turn.0) && outcome == OutcomeView::Reply(
                        Some(ServerCommandView::Ready(turn.1)),
                    )
                },
                ClientCommand::CancelReady => {
                    let turn = s.cancel_ready(user, now);
                    after == only_in(w, k, turn.0) && outcome == OutcomeView::Reply(
                        Some(ServerCommandView::CancelReady(turn.1)),
                    )
                },
                ClientCommand::Played { id } => after == waits_for_answer(w, user, k) && outcome
                    == OutcomeView::FetchRecord { id, room: k as usize },
                ClientCommand::Abort => {
                    let turn = s.abort(user, picks, now);
                    after == only_in(w, k, turn.0) && outcome == OutcomeView::Reply(
                        Some(ServerCommandView::Abort(turn.1)),
                    )
                },
            }
        }),
{
}

/// The server, once a request for a user and for the room at place `k` is under
/// way: each of them counts one more. At the end of the range a count stays.
pub open spec fn waits_for_answer(w: World, user: UserKey, k: int) -> World {
    let u = w.users[user];
    let slot = w.rooms[k];
    World {
        users: w.users.insert(
            user,
            User {
                holds: if u.holds < 0xffff_ffff_ffff_ffff {
                    (u.holds + 1) as u64
                } else {
                    u.holds
                },
                ..u
            },
        ),
        rooms: w.rooms.update(
            k,
            SlotView {
                requests: if slot.requests < 0xffff_ffff_ffff_ffff {
                    (slot.requests + 1) as u64
                } else {
                    slot.requests
                },
                ..slot
            },
        ),
        ..w
    }
}

/// A user who is in no room: everything but creating and joining a room changes
/// nothing, and is answered with that or with nothing.
pub proof fn law_in_no_room(w: World, user: UserKey, cmd: ClientCommand, picks: Seq<nat>, now: u64)
    requires
        w.users.contains_key(user),
        w.users[user].room is None,
    ensures
        ({
            let (after, outcome) = w.serve(user, cmd, picks, now);
            let because = no("no room"@);
            match cmd {
                ClientCommand::Ping => after == w && outcome == OutcomeView::Reply(None),
                ClientCommand::Authenticate { .. } => after == w && outcome == OutcomeView::Reply(
                    Some(
                        ServerCommandView::Authenticate(
                            Err(RefusalView::Text("repeated authenticate"@)),
                        ),
                    ),
                ),
                ClientCommand::Chat { .. } => after == w && outcome == OutcomeView::Reply(
                    Some(ServerCommandView::Chat(because)),
                ),
                ClientCommand::Touches { .. } => after == w && outcome == OutcomeView::Reply(None),
                ClientCommand::Judges { .. } => after == w && outcome == OutcomeView::Reply(None),
                ClientCommand::CreateRoom { id } => after == w.create_room(user, id@, now).0
                    && outcome == OutcomeView::Reply(
                    Some(ServerCommandView::CreateRoom(w.create_room(user, id@, now).1)),
                ),
                ClientCommand::JoinRoom { id, monitor } => {
                    let turn = w.join_room(user, id@, monitor, picks, now);
                    after == turn.0 && outcome == OutcomeView::Reply(
                        Some(ServerCommandView::JoinRoom(turn.1)),
                    )
                },
                ClientCommand::LeaveRoom => after == w && outcome == OutcomeView::Reply(
                    Some(ServerCommandView::LeaveRoom(because)),
                ),
                ClientCommand::LockRoom { .. } => after == w && outcome == OutcomeView::Reply(
                    Some(ServerCommandView::LockRoom(because)),
                ),
                ClientCommand::CycleRoom { .. } => after == w && outcome == OutcomeView::Reply(
                    Some(ServerCommandView::CycleRoom(because)),
                ),
                ClientCommand::SelectChart { .. } => after == w && outcome == OutcomeView::Reply(
                    Some(ServerCommandView::SelectChart(because)),
                ),
                ClientCommand::RequestStart => after == w && outcome == OutcomeView::Reply(
                    Some(ServerCommandView::RequestStart(because)),
                ),
                ClientCommand::Ready => after == w && outcome == OutcomeView::Reply(
                    Some(ServerCommandView::Ready(because)),
                ),
                ClientCommand::CancelReady => after == w && outcome == OutcomeView::Reply(
                    Some(ServerCommandView::CancelReady(because)),
                ),
                ClientCommand::Played { .. } => after == w && outcome == OutcomeView::Reply(
                    Some(ServerCommandView::Played(because)),
                ),
                ClientCommand::Abort => after == w && outcome == OutcomeView::Reply(
                    Some(ServerCommandView::Abort(because)),
                ),
            }
        }),
{
}

/// After a command every room that nothing leads to any more is given up, and that
/// is all.
pub proof fn law_tidied(w: World, user: UserKey, cmd: ClientCommand, picks: Seq<nat>, now: u64)
    ensures
        w.process(user, cmd, picks, now) == (
            w.serve(user, cmd, picks, now).0.settled(),
            w.serve(user, cmd, picks, now).1,
        ),
{
}

/// Which rooms are given up: those that cannot be found, for which no request is
/// under way, and that nobody is in. Where there is none, nothing changes; a room
/// that can be found, or that a request waits for, is never given up, and what is
/// not given up stays as it is.
pub proof fn law_given_up_rooms(w: World)
    requires
        w.sound(),
    ensures
        ({
            let after = w.settled();
            let idle = |v: World, k: int|
                !v.rooms[k].given_up && !v.rooms[k].listed && v.rooms[k].requests == 0 && !(exists|
                    u: UserKey,
                | #[trigger]
                    v.users.contains_key(u) && v.users[u].room == Some(k as usize));
            &&& (forall|k: int| 0 <= k < w.rooms.len() ==> !#[trigger] idle(w, k)) ==> after == w
            &&& after.rooms.len() == w.rooms.len()
            &&& forall|k: int|
                0 <= k < w.rooms.len() ==> !#[trigger] idle(after, k)
            &&& forall|k: int|
                0 <= k < w.rooms.len() && !(#[trigger] after.rooms[k]).given_up ==> after.rooms[k]
                    == w.rooms[k]
            &&& forall|k: int|
                0 <= k < w.rooms.len() && (#[trigger] after.rooms[k]).given_up && !w.rooms[k].given_up
                    ==> !w.rooms[k].listed && w.rooms[k].requests == 0 && after.rooms[k].room
                    == RoomView::nothing()
            &&& after.out == w.out
            &&& after.fault == w.fault
            &&& after.registry == w.registry
        }),
{
    w.lemma_settled();
    let after = w.settled();
    let idle = |v: World, k: int|
        !v.rooms[k].given_up && !v.rooms[k].listed && v.rooms[k].requests == 0 && !(exists|
            u: UserKey,
        | #[trigger]
            v.users.contains_key(u) && v.users[u].room == Some(k as usize));
    assert forall|v: World, k: int| #[trigger] idle(v, k) == v.idle(k) by {}
    if forall|k: int| 0 <= k < w.rooms.len() ==> !#[trigger] idle(w, k) {
        assert forall|k: int| 0 <= k < w.rooms.len() implies !w.idle(k) by {
            assert(!idle(w, k));
        }
        assert(w.tidy());
    }
    assert forall|k: int| 0 <= k < w.rooms.len() implies !#[trigger] idle(after, k) by {
        assert(!after.idle(k));
    }
}

/// A chart or a record that was asked for: a failure is answered with its text,
/// and what came in goes to the room that asked. Then the request is over for the
/// user and the room.
pub proof fn law_answer_came(
    w: World,
    user: UserKey,
    k: int,
    chart: Result<Chart, Seq<char>>,
    record: Result<Record, Seq<char>>,
    picks: Seq<nat>,
    now: u64,
)
    ensures
        match chart {
            Err(text) => w.chart_fetched(user, k, chart) == (
                request_over(w, user, k).settled(),
                no(text),
            ),
            Ok(chart) => w.chart_fetched(user, k, Ok(chart)) == (
                request_over(
                    only_in(w, k, seen_from(w, k).select(user, chart)),
                    user,
                    k,
                ).settled(),
                done(),
            ),
        },
        match record {
            Err(text) => w.record_fetched(user, k, record, picks, now) == (
                request_over(w, user, k).settled(),
                no(text),
            ),
            Ok(record) => {
                let turn = seen_from(w, k).played(user, record, picks, now);
                w.record_fetched(user, k, Ok(record), picks, now) == (
                    request_over(only_in(w, k, turn.0), user, k).settled(),
                    turn.1,
                )
            },
        },
{
    lemma_request_over(w, user, k);
    if let Ok(chart) = chart {
        lemma_request_over(only_in(w, k, seen_from(w, k).select(user, chart)), user, k);
    }
    if let Ok(record) = record {
        lemma_request_over(
            only_in(w, k, seen_from(w, k).played(user, record, picks, now).0),
            user,
            k,
        );
    }
}

/// The count with one less. A count at the end of its range stays.
pub open spec fn counted_down(count: u64) -> u64 {
    if 0 < count && count < 0xffff_ffff_ffff_ffff {
        (count - 1) as u64
    } else {
        count
    }
}

/// The users, once something that held `user` lets go: who is neither known, nor
/// held by anything else, nor listed, is gone.
pub open spec fn let_go(users: Users, user: UserKey) -> Users {
    if !users.contains_key(user) {
        users
    } else {
        let u = users[user];
        if !u.registered && counted_down(u.holds) == 0 && u.listings == 0 {
            users.remove(user)
        } else {
            users.insert(user, User { holds: counted_down(u.holds), ..u })
        }
    }
}

/// The server, once a request is over.
pub open spec fn request_over(w: World, user: UserKey, k: int) -> World {
    World {
        users: let_go(w.users, user),
        rooms: w.rooms.update(
            k,
            SlotView { requests: counted_down(w.rooms[k].requests), ..w.rooms[k] },
        ),
        ..w
    }
}

proof fn lemma_request_over(w: World, user: UserKey, k: int)
    ensures
        w.answered(k).release(user) == request_over(w, user, k),
{
    assert(w.answered(k).release(user) =~= request_over(w, user, k));
}

/// The users, once the server lets go whom it knows by `id`.
pub open spec fn forgotten(w: World, id: i32) -> World {
    if !w.registry.contains_key(id) {
        w
    } else {
        let user = w.registry[id];
        World {
            users: if !w.users.contains_key(user) {
                w.users
            } else if w.users[user].holds == 0 && w.users[user].listings == 0 {
                w.users.remove(user)
            } else {
                w.users.insert(user, User { registered: false, ..w.users[user] })
            },
            registry: w.registry.remove(id),
            ..w
        }
    }
}

/// Who cannot be reached any more and is put out is forgotten by their id and
/// leaves their room, which can no longer be found if that drops it.
pub proof fn law_expelled(w: World, user: UserKey, k: int, pick: nat, now: u64)
    requires
        w.users.contains_key(user),
    ensures
        ({
            let v = forgotten(w, w.users[user].id);
            let left = seen_from(v, k).leave(user, pick, now);
            w.expel(user, k, pick, now) == if left.ok() && seen_from(v, k).drops(user) {
                only_in(v, k, left).unlist(w.rooms[k].room.id)
            } else {
                only_in(v, k, left)
            }
        }),
{
    assert(w.unregister(w.users[user].id) =~= forgotten(w, w.users[user].id));
}

/// Taking a room off: the room that is found under the id cannot be found any
/// more, and nothing else changes.
pub proof fn law_taken_off(w: World, id: Seq<char>)
    ensures
        lookup(w.rooms, id) is None ==> w.unlist(id) == w,
        lookup(w.rooms, id) matches Some(k) ==> w.unlist(id) == (World {
            rooms: w.rooms.update(k as int, SlotView { listed: false, ..w.rooms[k as int] }),
            ..w
        }),
{
}

/// The loss of a connection in full. In a game the user is put out at once, while
/// something holds them that then lets go; else a new wait counts for them, holds
/// them and has a mark of its own.
pub proof fn law_connection_lost(w: World, user: UserKey, session: u128, pick: nat, now: u64)
    requires
        w.users.contains_key(user),
    ensures
        ({
            let u = w.users[user];
            let (after, mark) = w.hang_up(user, session, pick, now);
            let held = if u.holds < 0xffff_ffff_ffff_ffff {
                (u.holds + 1) as u64
            } else {
                u.holds
            };
            let cut = World {
                users: w.users.insert(user, User { session: None, holds: held, ..u }),
                ..w
            };
            let over = |v: World| World { users: let_go(v.users, user), ..v };
            &&& u.session != Some(session) ==> mark is None && after == over(w).settled()
            &&& u.session == Some(session) ==> if u.room is Some && w.rooms[u.room->0 as int].room.state
                is Playing {
                mark is None && after == over(
                    over(cut.expel(user, u.room->0 as int, pick, now)),
                ).settled()
            } else {
                mark == Some(w.next_mark) && after == over(
                    World {
                        users: cut.users.insert(
                            user,
                            User { dangle_mark: Some(w.next_mark), ..cut.users[user] },
                        ),
                        next_mark: if w.next_mark == 0xffff_ffff_ffff_ffff {
                            0
                        } else {
                            (w.next_mark + 1) as u64
                        },
                        ..cut
                    },
                ).settled()
            }
        }),
{
    let u = w.users[user];
    let gone = World { users: w.users.insert(user, User { session: None, ..u }), ..w };
    let held = if u.holds < 0xffff_ffff_ffff_ffff {
        (u.holds + 1) as u64
    } else {
        u.holds
    };
    let cut = World { users: w.users.insert(user, User { session: None, holds: held, ..u }), ..w };
    assert(gone.hold(user) =~= cut);
    assert forall|v: World| #[trigger] v.release(user) == (World {
        users: let_go(v.users, user),
        ..v
    }) by {}
}

/// The same where the connection itself is not looked at.
pub proof fn law_dangling(w: World, user: UserKey, pick: nat, now: u64)
    requires
        w.users.contains_key(user),
    ensures
        ({
            let u = w.users[user];
            let (after, mark) = w.dangle(user, pick, now);
            let held = if u.holds < 0xffff_ffff_ffff_ffff {
                (u.holds + 1) as u64
            } else {
                u.holds
            };
            let cut = World { users: w.users.insert(user, User { holds: held, ..u }), ..w };
            if u.room is Some && w.rooms[u.room->0 as int].room.state is Playing {
                let v = cut.expel(user, u.room->0 as int, pick, now);
                mark is None && after == (World { users: let_go(v.users, user), ..v }).settled()
            } else {
                mark == Some(w.next_mark) && after == (World {
                    users: cut.users.insert(
                        user,
                        User { dangle_mark: Some(w.next_mark), ..cut.users[user] },
                    ),
                    next_mark: if w.next_mark == 0xffff_ffff_ffff_ffff {
                        0
                    } else {
                        (w.next_mark + 1) as u64
                    },
                    ..cut
                }).settled()
            }
        }),
{
    assert forall|v: World| #[trigger] v.release(user) == (World {
        users: let_go(v.users, user),
        ..v
    }) by {}
}

/// The end of a wait in full: only the wait that counts puts the user out, and
/// only of a room. Then the wait no longer holds them.
pub proof fn law_wait_over(w: World, user: UserKey, mark: u64, pick: nat, now: u64)
    ensures
        ({
            let counts = w.users.contains_key(user) && w.users[user].dangle_mark == Some(mark)
                && w.users[user].room is Some;
            let v = if counts {
                w.expel(user, w.users[user].room->0 as int, pick, now)
            } else {
                w
            };
            w.dangle_expired(user, mark, pick, now) == (World {
                users: let_go(v.users, user),
                ..v
            }).settled()
        }),
{
    assert forall|v: World| #[trigger] v.release(user) == (World {
        users: let_go(v.users, user),
        ..v
    }) by {}
}

/// Coming in in full: who is known keeps all but the connection, which ends any
/// wait and holds them; anyone else is new, and known from then on.
pub proof fn law_signed_in(w: World, session: u128, id: i32, name: String, lang: String)
    requires
        w.next_key < 0xffff_ffff_ffff_ffff,
    ensures
        w.registry.contains_key(id) ==> w.key_for(id) == w.registry[id] && w.sign_in(
            session,
            id,
            name,
            lang,
        ) == (World {
            users: w.users.insert(
                w.registry[id],
                User {
                    session: Some(session),
                    dangle_mark: None,
                    holds: if w.users[w.registry[id]].holds < 0xffff_ffff_ffff_ffff {
                        (w.users[w.registry[id]].holds + 1) as u64
                    } else {
                        w.users[w.registry[id]].holds
                    },
                    ..w.users[w.registry[id]]
                },
            ),
            ..w
        }),
        !w.registry.contains_key(id) ==> w.key_for(id) == w.next_key && w.sign_in(
            session,
            id,
            name,
            lang,
        ) == (World {
            users: w.users.insert(
                w.next_key,
                User {
                    id,
                    name,
                    lang,
                    session: Some(session),
                    room: None,
                    monitor: false,
                    game_time: 0,
                    dangle_mark: None,
                    registered: true,
                    holds: 1,
                    listings: 0,
                },
            ),
            registry: w.registry.insert(id, w.next_key),
            next_key: (w.next_key + 1) as u64,
            ..w
        }),
{
}

/// What a user sees who comes in: themselves, and of the room they are still in
/// its id, its state, whether it is live, locked and in cycle mode, whether they
/// are host and ready, and everyone in it.
pub proof fn law_greeting(w: World, user: UserKey)
    requires
        w.users.contains_key(user),
    ensures
        ({
            let u = w.users[user];
            let (info, room) = w.greeting(user);
            &&& info == (UserInfo { id: u.id, name: u.name, monitor: u.monitor })
            &&& u.room is None ==> room is None
            &&& u.room matches Some(k) ==> {
                let r = w.rooms[k as int].room;
                &&& room is Some
                &&& room->0.id == r.id
                &&& room->0.state == match r.state {
                    StateView::SelectChart => RoomState::SelectChart(
                        if r.chart is Some {
                            Some(r.chart->0.id)
                        } else {
                            None
                        },
                    ),
                    StateView::WaitForReady { .. } => RoomState::WaitingForReady,
                    StateView::Playing { .. } => RoomState::Playing,
                }
                &&& room->0.live == r.live
                &&& room->0.locked == r.locked
                &&& room->0.cycle == r.cycle
                &&& room->0.is_host <==> w.users.contains_key(r.host) && w.users[r.host].id == u.id
                &&& room->0.is_ready <==> (r.state matches StateView::WaitForReady { started, .. }
                    && started.contains(u.id))
                &&& forall|id: i32| #[trigger]
                    room->0.users.contains_key(id) <==> exists|v: UserKey| #[trigger]
                        w.users.contains_key(v) && w.users[v].id == id && (r.users.contains(v)
                            || r.monitors.contains(v))
                &&& forall|id: i32| #[trigger]
                    room->0.users.contains_key(id) ==> exists|v: UserKey| #[trigger]
                        w.users.contains_key(v) && w.users[v].id == id && (r.users.contains(v)
                            || r.monitors.contains(v)) && room->0.users[id] == (UserInfo {
                            id,
                            name: w.users[v].name,
                            monitor: w.users[v].monitor,
                        })
            }
        }),
{
    if let Some(k) = w.users[user].room {
        let r = w.rooms[k as int].room;
        let all = r.users + r.monitors;
        lemma_info_map(w.users, all);
        assert forall|v: UserKey| #[trigger] all.contains(v) <==> r.users.contains(v)
            || r.monitors.contains(v) by {
            if r.users.contains(v) {
                let i = choose|i: int| 0 <= i < r.users.len() && r.users[i] == v;
                assert(all[i] == v);
            }
            if r.monitors.contains(v) {
                let i = choose|i: int| 0 <= i < r.monitors.len() && r.monitors[i] == v;
                assert(all[r.users.len() + i] == v);
            }
            if all.contains(v) {
                let i = choose|i: int| 0 <= i < all.len() && all[i] == v;
                if i < r.users.len() {
                    assert(r.users[i] == v);
                } else {
                    assert(r.monitors[i - r.users.len()] == v);
                }
            }
        }
    }
}

proof fn lemma_info_map(users: Users, list: Seq<UserKey>)
    ensures
        forall|id: i32| #[trigger]
            info_map(users, list).contains_key(id) <==> exists|v: UserKey| #[trigger]
                users.contains_key(v) && users[v].id == id && list.contains(v),
        forall|id: i32| #[trigger]
            info_map(users, list).contains_key(id) ==> exists|v: UserKey| #[trigger]
                users.contains_key(v) && users[v].id == id && list.contains(v) && info_map(
                    users,
                    list,
                )[id] == (UserInfo { id, name: users[v].name, monitor: users[v].monitor }),
    decreases list.len(),
{
    if list.len() > 0 {
        let front = list.drop_last();
        let last = list.last();
        lemma_info_map(users, front);
        assert(front.push(last) =~= list);
        lemma_push_contains(front, last);
        assert(list.contains(last));
        assert forall|v: UserKey| front.contains(v) implies list.contains(v) by {}
        assert forall|id: i32| #[trigger] info_map(users, list).contains_key(id) implies exists|
            v: UserKey,
        | #[trigger]
            users.contains_key(v) && users[v].id == id && list.contains(v) && info_map(users, list)[id]
                == (UserInfo { id, name: users[v].name, monitor: users[v].monitor }) by {
            if users.contains_key(last) && users[last].id == id {
                assert(users.contains_key(last) && list.contains(last));
            } else {
                assert(info_map(users, front).contains_key(id));
                let v = choose|v: UserKey| #[trigger]
                    users.contains_key(v) && users[v].id == id && front.contains(v) && info_map(
                        users,
                        front,
                    )[id] == (UserInfo { id, name: users[v].name, monitor: users[v].monitor });
                assert(list.contains(v));
            }
        }
    }
}

/// The list of public rooms as it is handed out: ids in double quotes, in the
/// order in which the rooms were made, separated by a comma and a blank.
pub proof fn law_public_text(rooms: Seq<SlotView>)
    ensures
        public_ids(rooms) == rooms.filter(
            |slot: SlotView| slot.listed && slot.room.public_enabled,
        ).map_values(|slot: SlotView| slot.room.id),
        public_rooms_text(rooms) == "["@ + listed(public_ids(rooms)) + "]"@,
{
    lemma_public_ids(rooms);
    lemma_listed(public_ids(rooms));
}

/// Texts in double quotes, with a comma and a blank between each two.
pub open spec fn listed(ids: Seq<Seq<char>>) -> Seq<char>
    decreases ids.len(),
{
    if ids.len() == 0 {
        Seq::empty()
    } else if ids.len() == 1 {
        "\""@ + ids[0] + "\""@
    } else {
        listed(ids.drop_last()) + ", "@ + "\""@ + ids.last() + "\""@
    }
}

proof fn lemma_public_ids(rooms: Seq<SlotView>)
    ensures
        public_ids(rooms) == rooms.filter(
            |slot: SlotView| slot.listed && slot.room.public_enabled,
        ).map_values(|slot: SlotView| slot.room.id),
    decreases rooms.len(),
{
    reveal(Seq::filter);
    let shows = |slot: SlotView| slot.listed && slot.room.public_enabled;
    let id = |slot: SlotView| slot.room.id;
    if rooms.len() == 0 {
        assert(public_ids(rooms) =~= rooms.filter(shows).map_values(id));
    } else {
        lemma_public_ids(rooms.drop_last());
        assert(public_ids(rooms) =~= rooms.filter(shows).map_values(id));
    }
}

proof fn lemma_listed(ids: Seq<Seq<char>>)
    ensures
        joined(ids.map_values(|id: Seq<char>| quoted(id)), ", "@) == listed(ids),
    decreases ids.len(),
{
    let quotes = ids.map_values(|id: Seq<char>| quoted(id));
    if ids.len() == 0 {
        assert(joined(quotes, ", "@) =~= listed(ids));
    } else if ids.len() == 1 {
        assert(quotes.drop_first() =~= Seq::empty());
        assert(marked(quotes.drop_first(), ", "@) =~= Seq::empty());
        assert(joined(quotes, ", "@) =~= listed(ids));
    } else {
        let less = ids.drop_last();
        let fewer = less.map_values(|id: Seq<char>| quoted(id));
        lemma_listed(less);
        assert(quotes.drop_first().drop_last() =~= fewer.drop_first());
        assert(joined(quotes, ", "@) =~= joined(fewer, ", "@) + ", "@ + quotes.last());
        assert(joined(quotes, ", "@) =~= listed(ids));
    }
}

/// Who is not there has no id, no name and no room, and does not watch.
pub proof fn law_absent(w: World, user: UserKey)
    requires
        !w.users.contains_key(user),
    ensures
        id_of(w.users, user) == 0,
        name_of(w.users, user) == Seq::<char>::empty(),
        !is_monitor(w.users, user),
        w.room_of(user) is None,
{
}

/// A command goes out on the connections of those it is for, in the order of the
/// list; who has none is left out.
pub proof fn law_connections(users: Users, list: Seq<UserKey>)
    ensures
        sessions_of(users, list) == list.filter(
            |k: UserKey| users.contains_key(k) && users[k].session is Some,
        ).map_values(|k: UserKey| users[k].session->0),
    decreases list.len(),
{
    reveal(Seq::filter);
    let reached = |k: UserKey| users.contains_key(k) && users[k].session is Some;
    let session = |k: UserKey| users[k].session->0;
    if list.len() == 0 {
        assert(sessions_of(users, list) =~= list.filter(reached).map_values(session));
    } else {
        law_connections(users, list.drop_last());
        assert(sessions_of(users, list) =~= list.filter(reached).map_values(session));
    }
}

} // verus!

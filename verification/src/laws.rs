//! What holds of the server as a whole.
use vstd::arithmetic::div_mod::{
    lemma_add_mod_noop, lemma_mod_add_multiples_vanish, lemma_small_mod,
};
use vstd::prelude::*;
use crate::commands::{host_only, refused};
use crate::keeping::{lemma_listed, most, same_company};
use crate::keys::{lemma_position, lemma_push_contains, lemma_times, position, times, UserKey};
use crate::order::lemma_lookup;
use crate::outbox::EffectView;
use crate::protocol::{
    ClientCommand, JoinRoomResponseView, MessageView, RefusalView, ServerCommandView, TextKey,
    SERVER_USER,
};
use crate::ranking::{ranked, result_line, Record, UserPlayedResult};
use crate::room::{PanelView, RoomView, StateView, ROOM_MAX_USERS};
use crate::scene::{done_text, elapsed, host_hint, overdue_text, result_ids, time_text, Scene};
use crate::users::{
    alive, anyone_in, has_id, id_of, ids_of, is_monitor, lemma_ids_of, lemma_others,
    lemma_others_push, lemma_with_listings, lemma_without_listings, name_of, others, sessions_of,
    with_listings, without_listings, User, Users, MONITOR_USER,
};
use crate::world::{
    is_custom, listings, lookup, public_ids, room_id, OutcomeView, SlotView, World,
};

verus! {

/// What only the host may do is refused to everyone else, and changes nothing.
pub proof fn law_host_only(s: Scene, user: UserKey, down: bool, pick: nat, now: u64)
    requires
        !s.hosted_by(user),
    ensures
        s.press(user, down) == (s, host_only()),
        s.may_select(user) is Err,
        s.request_start(user, pick, now) == (s, s.may_select(user)),
        s.room.state is SelectChart ==> s.may_select(user) == host_only(),
{
}

/// A chart can be chosen and a game can be called for only while none goes on.
pub proof fn law_select_first(s: Scene, user: UserKey, pick: nat, now: u64)
    requires
        s.room.state !is SelectChart,
    ensures
        s.may_select(user) == refused("invalid state"@),
        s.request_start(user, pick, now) == (s, refused("invalid state"@)),
{
}

/// Moving the pointer down and up again, or up and down again, leaves it where
/// it was, unless it stands at the end of the menu that it is moved towards.
pub proof fn law_pointer_round_trip(s: Scene)
    requires
        s.room.wf(),
    ensures
        s.room.panel.pointer_position < s.menu_end()
            ==> s.pointer_down().pointer_up().room.panel.pointer_position
            == s.room.panel.pointer_position,
        0 < s.room.panel.pointer_position <= s.pointer_up().menu_end()
            ==> s.pointer_up().pointer_down().room.panel.pointer_position
            == s.room.panel.pointer_position,
        s.room.panel.pointer_position >= s.menu_end() ==> s.pointer_down() == s,
        s.room.panel.pointer_position == 0 ==> s.pointer_up() == s,
{
    lemma_others(s.users, s.room.users, Set::empty());
}

/// Locking, cycle mode and the listing of a room are switches: using one twice
/// leaves the room as it was.
pub proof fn law_switch_twice(s: Scene)
    ensures
        s.toggle_lock().0.toggle_lock().0.room == s.room,
        s.toggle_cycle().0.toggle_cycle().0.room == s.room,
        s.toggle_public().0.toggle_public().0.room == s.room,
{
    assert(s.toggle_lock().0.toggle_lock().0.room =~= s.room);
    assert(s.toggle_cycle().0.toggle_cycle().0.room =~= s.room);
    assert(s.toggle_public().0.toggle_public().0.room =~= s.room);
}

/// The room that is open to everyone has no working switches.
pub proof fn law_public_room_fixed(s: Scene)
    requires
        s.room.id == "public"@,
    ensures
        s.toggle_lock().0 == s,
        s.toggle_cycle().0 == s,
        s.toggle_public().0 == s,
{
}

/// Nobody waits for the next game in vain: who is listed as waiting is never
/// among those who are late.
pub proof fn law_waiting_is_safe(s: Scene, user: UserKey, now: u64)
    requires
        has_id(s.users, s.room.users_waiting, id_of(s.users, user)),
    ensures
        s.late_for_ready(now) matches Some(list) ==> !list.contains(user),
        s.late_for_end(now) matches Some(list) ==> !list.contains(user),
        !s.room.active(s.users).contains(user),
{
    let waiting = ids_of(s.users, s.room.users_waiting);
    let active = s.room.active(s.users);
    lemma_ids_of(s.users, s.room.users_waiting);
    lemma_others(s.users, s.room.users, waiting);
    if let StateView::WaitForReady { started, .. } = s.room.state {
        lemma_others(s.users, active, started);
    } else {
        lemma_others(s.users, active, Set::empty());
    }
    lemma_others(s.users, active, result_ids(s.room.users_played_result));
}

/// Nobody who is ready, and nobody whose result is in, is late.
pub proof fn law_done_is_safe(s: Scene, user: UserKey, now: u64)
    requires
        s.users.contains_key(user),
    ensures
        s.room.is_ready(s.users[user].id) ==> (s.late_for_ready(now) matches Some(list)
            ==> !list.contains(user)),
        result_ids(s.room.users_played_result).contains(s.users[user].id) ==> (s.late_for_end(
            now,
        ) matches Some(list) ==> !list.contains(user)),
{
    let active = s.room.active(s.users);
    if let StateView::WaitForReady { started, .. } = s.room.state {
        lemma_others(s.users, active, started);
    }
    lemma_others(s.users, active, result_ids(s.room.users_played_result));
    if s.room.users_played_result.len() == 0 {
        let ids = s.room.users_played_result.map_values(|r: UserPlayedResult| r.id);
        assert(ids.len() == 0);
        assert(!ids.contains(s.users[user].id));
    }
}

/// Who is gone counts nowhere.
pub proof fn law_gone(room: RoomView, users: Users, user: UserKey)
    requires
        !users.contains_key(user),
    ensures
        !room.players(users).contains(user),
        !room.active(users).contains(user),
        !room.audience(users).contains(user),
        !alive(users, room.users_waiting).contains(user),
        room.host == user ==> forall|id: i32| !room.is_host(users, id),
{
    lemma_others(users, room.users, Set::empty());
    lemma_others(users, room.monitors, Set::empty());
    lemma_others(users, room.users_waiting, Set::empty());
    lemma_others(users, room.users, ids_of(users, room.users_waiting));
    let all = room.audience(users);
    if all.contains(user) {
        let i = choose|i: int| 0 <= i < all.len() && all[i] == user;
        if i < room.players(users).len() {
            assert(room.players(users).contains(user));
        } else {
            assert(alive(users, room.monitors)[i - room.players(users).len()] == user);
            assert(alive(users, room.monitors).contains(user));
        }
    }
}

/// Lists of those who are there do not depend on where anyone is.
proof fn lemma_others_same(a: Users, b: Users, list: Seq<UserKey>, gone: Set<i32>)
    requires
        same_company(a, b),
    ensures
        others(a, list, gone) == others(b, list, gone),
    decreases list.len(),
{
    if list.len() == 0 {
        lemma_others(a, list, gone);
        lemma_others(b, list, gone);
        assert(others(a, list, gone) =~= others(b, list, gone));
    } else {
        let rest = list.drop_last();
        let key = list.last();
        assert(rest.push(key) =~= list);
        lemma_others_same(a, b, rest, gone);
        lemma_others_push(a, rest, gone, key);
        lemma_others_push(b, rest, gone, key);
        assert(a.contains_key(key) <==> b.dom().contains(key));
    }
}

/// Leaving ids out one after the other leaves out both.
proof fn lemma_others_twice(users: Users, list: Seq<UserKey>, a: Set<i32>, b: Set<i32>)
    ensures
        others(users, others(users, list, a), b) == others(users, list, a.union(b)),
    decreases list.len(),
{
    if list.len() == 0 {
        lemma_others(users, list, a);
        lemma_others(users, others(users, list, a), b);
        lemma_others(users, list, a.union(b));
        assert(others(users, others(users, list, a), b) =~= others(users, list, a.union(b)));
    } else {
        let rest = list.drop_last();
        let key = list.last();
        assert(rest.push(key) =~= list);
        lemma_others_twice(users, rest, a, b);
        lemma_others_push(users, rest, a, key);
        lemma_others_push(users, rest, a.union(b), key);
        lemma_others_push(users, others(users, rest, a), b, key);
    }
}

/// Leaving out what makes no difference on a list makes none.
proof fn lemma_others_agree(users: Users, list: Seq<UserKey>, a: Set<i32>, b: Set<i32>)
    requires
        forall|id: i32| #[trigger]
            has_id(users, list, id) ==> (a.contains(id) <==> b.contains(id)),
    ensures
        others(users, list, a) == others(users, list, b),
    decreases list.len(),
{
    if list.len() == 0 {
        lemma_others(users, list, a);
        lemma_others(users, list, b);
        assert(others(users, list, a) =~= others(users, list, b));
    } else {
        let rest = list.drop_last();
        let key = list.last();
        assert(rest.push(key) =~= list);
        lemma_push_contains(rest, key);
        assert forall|id: i32| #[trigger] has_id(users, rest, id) implies (a.contains(id)
            <==> b.contains(id)) by {
            let k = choose|k: UserKey| #[trigger]
                rest.contains(k) && users.contains_key(k) && users[k].id == id;
            assert(list.contains(k));
            assert(has_id(users, list, id));
        }
        lemma_others_agree(users, rest, a, b);
        lemma_others_push(users, rest, a, key);
        lemma_others_push(users, rest, b, key);
        if users.contains_key(key) {
            assert(list.contains(key));
            assert(has_id(users, list, users[key].id));
        }
    }
}

proof fn lemma_check_lists(s: Scene, now: u64)
    ensures
        s.check_all_ready(now).room.users == s.room.users,
        s.check_all_ready(now).room.monitors == s.room.monitors,
{
    s.send(MessageView::GameEnd).say("游戏结束, 结果如下:"@).lemma_say_results(
        s.room.users_played_result.len(),
    );
}

/// Only those with the id of the user who leaves are struck off a list.
proof fn lemma_leave_lists(s: Scene, user: UserKey, pick: nat, now: u64)
    requires
        s.ok(),
    ensures
        s.leave(user, pick, now).room.users == s.departed(user).room.users,
        s.leave(user, pick, now).room.monitors == s.departed(user).room.monitors,
{
    let t = s.departed(user);
    lemma_check_lists(t, now);
    let players = t.room.players(t.users);
    if players.len() > 0 {
        let new = players[(pick % players.len()) as int];
        lemma_check_lists(
            t.appoint(new, now).say_to_host(host_hint()).post(
                seq![new],
                ServerCommandView::ChangeHost(true),
            ),
            now,
        );
    }
}

/// A user who leaves is off the lists and in no room. If they were the host,
/// one of the players who are left takes over; if nobody is left who plays or
/// waits, the room is dropped. Left out is a monitor who is listed as a player.
pub proof fn law_leave(s: Scene, user: UserKey, pick: nat, now: u64)
    requires
        s.ok(),
        s.room.wf(),
        s.users.contains_key(user),
        s.users[user].monitor ==> !has_id(s.users, s.room.users, s.users[user].id),
        s.leave(user, pick, now).ok(),
    ensures
        ({
            let id = s.users[user].id;
            let left = s.leave(user, pick, now);
            &&& !has_id(left.users, left.room.users, id)
            &&& s.users[user].monitor ==> !has_id(left.users, left.room.monitors, id)
            &&& left.users.contains_key(user)
            &&& left.users[user].room is None
            &&& s.hosted_by(user) && !s.drops(user) ==> {
                &&& left.room.players(left.users).contains(left.room.host)
                &&& left.users[left.room.host].id != id
            }
            &&& s.drops(user) <==> s.hosted_by(user) && alive(
                s.users,
                s.room.users_waiting,
            ).len() == 0 && forall|k: UserKey| #[trigger]
                s.room.players(s.users).contains(k) ==> s.users[k].id == id
        }),
{
    let id = s.users[user].id;
    let t = s.departed(user);
    let left = s.leave(user, pick, now);
    s.lemma_leave_keeps(user, pick, now);
    assert(t.users.dom() =~= s.users.dom());
    assert(same_company(s.users, t.users));
    lemma_leave_lists(s, user, pick, now);
    lemma_others(s.users, s.room.users, set![id]);
    lemma_others(s.users, s.room.monitors, set![id]);
    lemma_others(s.users, s.room.users, Set::empty());
    assert(left.users.dom().contains(user));
    assert(left.users.contains_key(user));
    assert(!has_id(left.users, left.room.users, id)) by {
        if has_id(left.users, left.room.users, id) {
            let k = choose|k: UserKey| #[trigger]
                left.room.users.contains(k) && left.users.contains_key(k) && left.users[k].id == id;
            assert(s.users.dom().contains(k));
            assert(s.users.contains_key(k));
            if s.users[user].monitor {
                assert(has_id(s.users, s.room.users, id));
            }
        }
    }
    if s.users[user].monitor && has_id(left.users, left.room.monitors, id) {
        let k = choose|k: UserKey| #[trigger]
            left.room.monitors.contains(k) && left.users.contains_key(k) && left.users[k].id == id;
        assert(s.users.dom().contains(k));
        assert(s.users.contains_key(k));
    }
    let players = t.room.players(t.users);
    lemma_others(t.users, t.room.users, Set::empty());
    lemma_others(left.users, left.room.users, Set::empty());
    lemma_others_same(s.users, t.users, s.room.users_waiting, Set::empty());
    assert(players.len() == 0 <==> forall|k: UserKey| #[trigger]
        s.room.players(s.users).contains(k) ==> s.users[k].id == id) by {
        if players.len() > 0 {
            let k = players[0];
            assert(players.contains(k));
            assert(t.users.dom().contains(k));
            assert(s.room.players(s.users).contains(k));
            assert(s.users[k].id != id) by {
                if s.users[k].id == id {
                    assert(has_id(s.users, s.room.users, id));
                }
            }
        } else {
            assert forall|k: UserKey| #[trigger] s.room.players(s.users).contains(
                k,
            ) implies s.users[k].id == id by {
                if s.users[k].id != id {
                    assert(t.room.users.contains(k));
                    assert(t.users.dom().contains(k));
                    assert(players.contains(k));
                }
            }
        }
    }
    if s.hosted_by(user) && !s.drops(user) {
        let new = players[(pick % players.len()) as int];
        assert(players.contains(new));
        let u = t.appoint(new, now).say_to_host(host_hint()).post(
            seq![new],
            ServerCommandView::ChangeHost(true),
        );
        lemma_check_hosts(u, now);
        let host = left.room.host;
        assert(players.contains(host));
        assert(t.users.dom().contains(host));
        assert(left.users.dom().contains(host));
        assert(left.room.players(left.users).contains(host));
        assert(s.users.contains_key(host));
        if left.users[host].id == id {
            assert(has_id(left.users, left.room.users, id));
        }
    }
    lemma_leave_places(s, user, pick, now);
}

/// A check for the beginning or the end of a game leaves the host, or moves on
/// to a player.
proof fn lemma_check_hosts(s: Scene, now: u64)
    requires
        s.room.players(s.users).len() > 0,
    ensures
        s.check_all_ready(now).room.host == s.room.host || s.check_all_ready(now).room.host
            == s.room.next_host(s.users),
        s.room.players(s.users).contains(s.room.next_host(s.users)),
{
    let n = s.room.users_played_result.len();
    s.send(MessageView::GameEnd).say("游戏结束, 结果如下:"@).lemma_say_results(n);
    lemma_next_host(s.room, s.users);
}

/// Nobody changes place when a game begins or ends.
proof fn lemma_check_places(s: Scene, now: u64)
    ensures
        s.check_all_ready(now).users.dom() == s.users.dom(),
        forall|k: UserKey|
            s.users.contains_key(k) ==> (#[trigger] s.check_all_ready(now).users[k]).room
                == s.users[k].room,
{
    let n = s.room.users_played_result.len();
    s.send(MessageView::GameEnd).say("游戏结束, 结果如下:"@).lemma_say_results(n);
    assert(s.check_all_ready(now).users.dom() =~= s.users.dom());
}

/// Who leaves is in no room afterwards, and nobody else changes place.
proof fn lemma_leave_places(s: Scene, user: UserKey, pick: nat, now: u64)
    requires
        s.ok(),
    ensures
        s.leave(user, pick, now).users.dom() == s.users.dom(),
        s.users.contains_key(user) ==> s.leave(user, pick, now).users[user].room is None,
        forall|k: UserKey|
            s.users.contains_key(k) && k != user ==> (#[trigger] s.leave(
                user,
                pick,
                now,
            ).users[k]).room == s.users[k].room,
{
    let t = s.departed(user);
    assert(t.users.dom() =~= s.users.dom());
    lemma_check_places(t, now);
    let players = t.room.players(t.users);
    if players.len() > 0 {
        let new = players[(pick % players.len()) as int];
        lemma_check_places(
            t.appoint(new, now).say_to_host(host_hint()).post(
                seq![new],
                ServerCommandView::ChangeHost(true),
            ),
            now,
        );
    }
}

proof fn lemma_next_host(room: RoomView, users: Users)
    requires
        room.players(users).len() > 0,
    ensures
        room.players(users).contains(room.next_host(users)),
{
    let players = room.players(users);
    lemma_position(players, room.host);
    if let Some(i) = position(players, room.host) {
        let len = players.len();
        assert(0 <= (i + 1) % len < len);
        assert(players[((i + 1) % len) as int] == room.next_host(users));
    }
    assert(players.contains(players[0]));
}

/// After everyone on a list was put out, exactly those with other ids are still
/// players, in their order, and those on the list are in no room. Left out are
/// monitors who are listed as players.
pub proof fn law_put_out(s: Scene, list: Seq<UserKey>, picks: Seq<nat>, now: u64)
    requires
        s.room.wf(),
        s.kick_all(list, picks, now).ok(),
        forall|i: int| 0 <= i < list.len() ==> s.users.contains_key(#[trigger] list[i]),
        forall|i: int| 0 <= i < list.len() ==> !is_monitor(s.users, #[trigger] list[i]),
    ensures
        ({
            let after = s.kick_all(list, picks, now);
            &&& same_company(s.users, after.users)
            &&& after.room.players(after.users) == others(
                s.users,
                s.room.users,
                ids_of(s.users, list),
            )
            &&& after.room.monitors == s.room.monitors
            &&& forall|i: int|
                0 <= i < list.len() ==> after.users[#[trigger] list[i]].room is None
        }),
    decreases list.len(),
{
    let after = s.kick_all(list, picks, now);
    s.lemma_kick_all_keeps(list, picks, now);
    lemma_ids_of(s.users, list);
    if list.len() == 0 {
        lemma_others_agree(s.users, s.room.users, ids_of(s.users, list), Set::empty());
    } else {
        let rest = list.drop_last();
        let key = list.last();
        let id = s.users[key].id;
        let t = s.kick_all(rest, picks.drop_last(), now);
        assert(list[list.len() - 1] == key);
        assert forall|i: int| 0 <= i < rest.len() implies s.users.contains_key(#[trigger] rest[i])
            && !is_monitor(s.users, rest[i]) by {
            assert(rest[i] == list[i]);
        }
        if !t.ok() {
            assert(after == t);
        }
        law_put_out(s, rest, picks.drop_last(), now);
        s.lemma_kick_all_keeps(rest, picks.drop_last(), now);
        t.lemma_leave_keeps(key, picks.last(), now);
        lemma_leave_lists(t, key, picks.last(), now);
        assert(t.users.dom().contains(key));
        assert(t.users.contains_key(key));
        assert(t.users[key].id == id && !t.users[key].monitor);
        assert(after.room.users == others(t.users, t.room.users, set![id]));
        lemma_others_same(t.users, after.users, after.room.users, Set::empty());
        lemma_others_twice(t.users, t.room.users, set![id], Set::empty());
        lemma_others_twice(t.users, t.room.users, Set::empty(), set![id]);
        assert(set![id].union(Set::empty()) =~= Set::<i32>::empty().union(set![id]));
        // The players before this one left, without those with their id.
        let before = t.room.players(t.users);
        assert(after.room.players(after.users) == others(t.users, before, set![id]));
        lemma_others_same(s.users, t.users, before, set![id]);
        lemma_others_twice(s.users, s.room.users, ids_of(s.users, rest), set![id]);
        lemma_ids_of(s.users, rest);
        assert(rest.push(key) =~= list);
        lemma_push_contains(rest, key);
        assert forall|x: i32| ids_of(s.users, list).contains(x) <==> #[trigger] ids_of(
            s.users,
            rest,
        ).union(set![id]).contains(x) by {
            if has_id(s.users, list, x) {
                let k = choose|k: UserKey| #[trigger]
                    list.contains(k) && s.users.contains_key(k) && s.users[k].id == x;
                if rest.contains(k) {
                    assert(has_id(s.users, rest, x));
                }
            }
            if has_id(s.users, rest, x) {
                let k = choose|k: UserKey| #[trigger]
                    rest.contains(k) && s.users.contains_key(k) && s.users[k].id == x;
                assert(list.contains(k));
            }
            assert(list.contains(key));
            assert(has_id(s.users, list, id));
        }
        assert(ids_of(s.users, list) =~= ids_of(s.users, rest).union(set![id]));
        lemma_leave_places(t, key, picks.last(), now);
        assert(after.users[key].room is None);
        assert forall|i: int| 0 <= i < list.len() implies after.users[
            #[trigger] list[i]].room is None by {
            if i < rest.len() {
                assert(rest[i] == list[i]);
                assert(t.users.dom().contains(list[i]));
                assert(t.users.contains_key(list[i]));
            }
        }
    }
}

/// Those on a list who are there and whose ids are among `ids`, in order.
pub open spec fn only(users: Users, list: Seq<UserKey>, ids: Set<i32>) -> Seq<UserKey> {
    list.filter(|key: UserKey| users.contains_key(key) && ids.contains(users[key].id))
}

/// Leaving out exactly the ids that are not among `ids` keeps those that are.
proof fn lemma_only(users: Users, list: Seq<UserKey>, gone: Set<i32>, ids: Set<i32>)
    requires
        forall|id: i32| #[trigger]
            has_id(users, list, id) ==> (gone.contains(id) <==> !ids.contains(id)),
    ensures
        others(users, list, gone) == only(users, list, ids),
    decreases list.len(),
{
    reveal(Seq::filter);
    if list.len() > 0 {
        let rest = list.drop_last();
        let key = list.last();
        assert(rest.push(key) =~= list);
        lemma_push_contains(rest, key);
        assert forall|id: i32| #[trigger] has_id(users, rest, id) implies (gone.contains(id)
            <==> !ids.contains(id)) by {
            let k = choose|k: UserKey| #[trigger]
                rest.contains(k) && users.contains_key(k) && users[k].id == id;
            assert(list.contains(k));
            assert(has_id(users, list, id));
        }
        lemma_only(users, rest, gone, ids);
        if users.contains_key(key) {
            assert(list.contains(key));
            assert(has_id(users, list, users[key].id));
        }
    } else {
        assert(others(users, list, gone) =~= only(users, list, ids));
    }
}

/// The ids that are late are those of players who neither wait nor are done.
proof fn lemma_late(s: Scene, done: Set<i32>)
    ensures
        ({
            let active = s.room.active(s.users);
            let late = others(s.users, active, done);
            let waiting = ids_of(s.users, s.room.users_waiting);
            &&& forall|i: int| 0 <= i < late.len() ==> s.users.contains_key(#[trigger] late[i])
            &&& forall|id: i32| #[trigger]
                has_id(s.users, s.room.users, id) ==> (ids_of(s.users, late).contains(id)
                    <==> !waiting.union(done).contains(id))
        }),
{
    let active = s.room.active(s.users);
    let late = others(s.users, active, done);
    let waiting = ids_of(s.users, s.room.users_waiting);
    lemma_others(s.users, s.room.users, waiting);
    lemma_others(s.users, active, done);
    lemma_ids_of(s.users, late);
    assert forall|id: i32| #[trigger] has_id(s.users, s.room.users, id) implies (ids_of(
        s.users,
        late,
    ).contains(id) <==> !waiting.union(done).contains(id)) by {
        let k = choose|k: UserKey| #[trigger]
            s.room.users.contains(k) && s.users.contains_key(k) && s.users[k].id == id;
        if !waiting.union(done).contains(id) {
            assert(active.contains(k));
            assert(late.contains(k));
            assert(has_id(s.users, late, id));
        }
        if has_id(s.users, late, id) {
            let j = choose|j: UserKey| #[trigger]
                late.contains(j) && s.users.contains_key(j) && s.users[j].id == id;
            assert(active.contains(j));
        }
    }
}

/// Once the time to be ready has run out, exactly the players who wait or are
/// ready stay, in their order, and those who are put out are in no room. Left
/// out are monitors who are listed as players.
pub proof fn law_ready_limit(s: Scene, picks: Seq<nat>, now: u64)
    requires
        s.ok(),
        s.room.wf(),
        s.room.state is WaitForReady,
        s.late_for_ready(now) matches Some(late) && forall|i: int|
            0 <= i < late.len() ==> !is_monitor(s.users, #[trigger] late[i]),
        s.check_ready_time(picks, now).ok(),
    ensures
        ({
            let after = s.check_ready_time(picks, now);
            let late = s.late_for_ready(now)->0;
            let waiting = ids_of(s.users, s.room.users_waiting);
            &&& after.room.players(after.users) == only(
                s.users,
                s.room.users,
                waiting.union(s.room.state->started),
            )
            &&& forall|i: int|
                0 <= i < late.len() ==> after.users[#[trigger] late[i]].room is None
        }),
{
    let started = s.room.state->started;
    let late = s.late_for_ready(now)->0;
    let waiting = ids_of(s.users, s.room.users_waiting);
    lemma_late(s, started);
    law_put_out(s, late, picks, now);
    lemma_only(s.users, s.room.users, ids_of(s.users, late), waiting.union(started));
}

/// Once the time to play has run out, exactly the players who wait or have a
/// result stay, in their order, and those who are put out are in no room. Left
/// out are monitors who are listed as players.
pub proof fn law_game_limit(s: Scene, picks: Seq<nat>, now: u64)
    requires
        s.ok(),
        s.room.wf(),
        s.late_for_end(now) matches Some(late) && forall|i: int|
            0 <= i < late.len() ==> !is_monitor(s.users, #[trigger] late[i]),
        s.check_game_time(picks, now).ok(),
    ensures
        ({
            let after = s.check_game_time(picks, now);
            let late = s.late_for_end(now)->0;
            let waiting = ids_of(s.users, s.room.users_waiting);
            &&& after.room.players(after.users) == only(
                s.users,
                s.room.users,
                waiting.union(result_ids(s.room.users_played_result)),
            )
            &&& forall|i: int|
                0 <= i < late.len() ==> after.users[#[trigger] late[i]].room is None
        }),
{
    let done = result_ids(s.room.users_played_result);
    let late = s.late_for_end(now)->0;
    let waiting = ids_of(s.users, s.room.users_waiting);
    let active = s.room.active(s.users);
    if s.room.users_played_result.len() == 0 {
        let ids = s.room.users_played_result.map_values(|r: UserPlayedResult| r.id);
        assert(ids.len() == 0);
        assert(done =~= Set::empty());
        lemma_others_twice(s.users, s.room.users, waiting, Set::empty());
        assert(waiting.union(Set::empty()) =~= waiting);
        assert(others(s.users, active, done) == late);
    }
    lemma_late(s, done);
    law_put_out(s, late, picks, now);
    lemma_only(s.users, s.room.users, ids_of(s.users, late), waiting.union(done));
}

/// Nobody ever has both a result and given up.
pub proof fn law_never_both(w: World, k: int, id: i32)
    requires
        w.wf(),
        0 <= k < w.rooms.len(),
        w.rooms[k].room.state is Playing,
    ensures
        !(w.rooms[k].room.state->results.contains_key(id)
            && w.rooms[k].room.state->Playing_aborted.contains(id)),
{
    assert(w.rooms[k].room.wf());
}

/// Handing over makes the player behind the host the host, in a circle. A host
/// who is listed more than once stands at the first of their places, and behind
/// one who is no player comes the first player.
pub proof fn law_hand_over(s: Scene, i: int, now: u64, announce: bool)
    requires
        s.ok(),
        0 <= i < s.room.players(s.users).len(),
    ensures
        ({
            let players = s.room.players(s.users);
            let after = s.pass_host(now, announce);
            &&& after.ok()
            &&& after.users == s.users
            &&& after.room.users == s.room.users
            &&& players[i] == s.room.host && !players.take(i).contains(s.room.host)
                ==> after.room.host == players[(i + 1) % (players.len() as int)]
            &&& !players.contains(s.room.host) ==> after.room.host == players[0]
        }),
{
    let players = s.room.players(s.users);
    lemma_position(players, s.room.host);
    if let Some(j) = position(players, s.room.host) {
        if j < i {
            assert(players.take(i)[j as int] == s.room.host);
        }
    }
    assert(players.contains(players[i]));
    lemma_others(s.users, s.room.users, Set::empty());
    lemma_next_host(s.room, s.users);
}

/// The scene after the host was handed on `n` times.
pub open spec fn handed_on(s: Scene, n: nat, now: u64) -> Scene
    decreases n,
{
    if n == 0 {
        s
    } else {
        handed_on(s, (n - 1) as nat, now).pass_host(now, false)
    }
}

/// Everyone gets their turn: once the host was handed on `n` times, it is the
/// `n`-th player behind the first host, and after one round it is the first
/// host again.
pub proof fn law_everyone_hosts(s: Scene, i: int, n: nat, now: u64)
    requires
        s.ok(),
        s.room.players(s.users).no_duplicates(),
        0 <= i < s.room.players(s.users).len(),
        s.room.host == s.room.players(s.users)[i],
    ensures
        ({
            let players = s.room.players(s.users);
            let after = handed_on(s, n, now);
            &&& after.ok()
            &&& after.users == s.users
            &&& after.room.users == s.room.users
            &&& after.room.host == players[(i + n) % (players.len() as int)]
            &&& n == players.len() ==> after.room.host == s.room.host
        }),
    decreases n,
{
    let len = s.room.players(s.users).len() as int;
    if n == 0 {
        lemma_small_mod(i as nat, len as nat);
    } else {
        law_everyone_hosts(s, i, (n - 1) as nat, now);
        let t = handed_on(s, (n - 1) as nat, now);
        let j = (i + n - 1) % len;
        assert(0 <= j < len);
        assert(!t.room.players(t.users).take(j).contains(t.room.host));
        law_hand_over(t, j, now, false);
        lemma_add_mod_noop(i + n - 1, 1, len);
        if len > 1 {
            lemma_small_mod(1, len as nat);
        } else {
            assert(j == 0);
            assert((j + 1) % len == 0);
            assert((i + n) % len == 0);
        }
        assert((j + 1) % len == (i + n) % len);
    }
    if n == len {
        lemma_mod_add_multiples_vanish(i, len);
        lemma_small_mod(i as nat, len as nat);
    }
}

/// A game begins exactly when every player who does not wait, and every
/// monitor, is ready; it begins with no results and nobody given up.
pub proof fn law_game_begins(s: Scene, now: u64)
    requires
        s.ok(),
        s.room.state is WaitForReady,
    ensures
        s.check_all_ready(now).ok(),
        s.check_all_ready(now).room.state is Playing <==> forall|k: UserKey|
            s.users.contains_key(k) && (s.room.users.contains(k) && !has_id(
                s.users,
                s.room.users_waiting,
                s.users[k].id,
            ) || s.room.monitors.contains(k)) ==> #[trigger] s.room.is_ready(id_of(s.users, k)),
        s.check_all_ready(now).room.state is Playing ==> s.check_all_ready(now).room == (RoomView {
            host_time: 0,
            users_played_result: Seq::empty(),
            state: StateView::Playing {
                results: Map::empty(),
                aborted: Set::empty(),
                start_time: now,
            },
            ..s.room
        }),
        s.check_all_ready(now).room.state !is Playing ==> s.check_all_ready(now) == s,
{
    let room = s.room;
    let active = room.active(s.users);
    let watchers = alive(s.users, room.monitors);
    let all = active + watchers;
    lemma_ids_of(s.users, room.users_waiting);
    lemma_others(s.users, room.users, ids_of(s.users, room.users_waiting));
    lemma_others(s.users, room.monitors, Set::empty());
    if room.all_ready(s.users) {
        assert forall|k: UserKey|
            s.users.contains_key(k) && (room.users.contains(k) && !has_id(
                s.users,
                room.users_waiting,
                s.users[k].id,
            ) || room.monitors.contains(k)) implies #[trigger] room.is_ready(id_of(s.users, k)) by {
            if room.monitors.contains(k) {
                assert(watchers.contains(k));
                let i = choose|i: int| 0 <= i < watchers.len() && watchers[i] == k;
                assert(all[active.len() + i] == k);
            } else {
                assert(active.contains(k));
                let i = choose|i: int| 0 <= i < active.len() && active[i] == k;
                assert(all[i] == k);
            }
        }
    } else {
        let started = room.state->started;
        let i = choose|i: int|
            0 <= i < all.len() && !started.contains(id_of(s.users, #[trigger] all[i]));
        let k = all[i];
        if i < active.len() {
            assert(active[i] == k);
            assert(active.contains(k));
        } else {
            assert(watchers[i - active.len()] == k);
            assert(watchers.contains(k));
        }
        assert(!room.is_ready(id_of(s.users, k)));
    }
}

/// A game ends exactly when every player who does not wait has a result or has
/// given up. Nobody waits any more then.
pub proof fn law_game_ends(s: Scene, now: u64)
    requires
        s.ok(),
        s.room.state is Playing,
        s.room.players(s.users).len() > 0 || !s.room.cycle,
    ensures
        s.check_all_ready(now).ok(),
        s.check_all_ready(now).room.state is SelectChart <==> forall|k: UserKey| #[trigger]
            s.room.users.contains(k) && s.users.contains_key(k) && !has_id(
                s.users,
                s.room.users_waiting,
                s.users[k].id,
            ) ==> s.room.state->results.contains_key(s.users[k].id)
                || s.room.state->Playing_aborted.contains(s.users[k].id),
        s.check_all_ready(now).room.state is SelectChart ==> {
            &&& s.check_all_ready(now).room.users_waiting.len() == 0
            &&& s.check_all_ready(now).room.users == s.room.users
            &&& s.check_all_ready(now).room.host == if s.room.cycle {
                s.room.next_host(s.users)
            } else {
                s.room.host
            }
        },
        s.check_all_ready(now).room.state !is SelectChart ==> s.check_all_ready(now) == s,
{
    let room = s.room;
    let active = room.active(s.users);
    lemma_ids_of(s.users, room.users_waiting);
    lemma_others(s.users, room.users, ids_of(s.users, room.users_waiting));
    lemma_others(s.users, room.users, Set::empty());
    if room.players(s.users).len() > 0 {
        lemma_next_host(room, s.users);
    }
    s.send(MessageView::GameEnd).say("游戏结束, 结果如下:"@).lemma_say_results(
        room.users_played_result.len(),
    );
    if room.all_done(s.users) {
        assert forall|k: UserKey| #[trigger]
            room.users.contains(k) && s.users.contains_key(k) && !has_id(
                s.users,
                room.users_waiting,
                s.users[k].id,
            ) implies room.state->results.contains_key(s.users[k].id)
            || room.state->Playing_aborted.contains(s.users[k].id) by {
            assert(active.contains(k));
            let i = choose|i: int| 0 <= i < active.len() && active[i] == k;
            assert(active[i] == k);
        }
    } else {
        let i = choose|i: int|
            0 <= i < active.len() && !(room.state->results.contains_key(
                id_of(s.users, #[trigger] active[i]),
            ) || room.state->Playing_aborted.contains(id_of(s.users, active[i])));
        assert(active.contains(active[i]));
        assert(room.users.contains(active[i]));
    }
}

/// The results of a game are read out best first, one line each, to everyone
/// in the room.
pub proof fn law_results_read_out(s: Scene, n: nat, i: int)
    requires
        0 <= i < n,
    ensures
        s.say_results(n).out.len() == s.out.len() + n,
        s.say_results(n).out[s.out.len() + i] == (EffectView::Send {
            to: s.room.audience(s.users),
            cmd: ServerCommandView::Message(
                MessageView::Chat {
                    user: SERVER_USER,
                    content: result_line((i + 1) as nat, ranked(s.room.users_played_result)[i]),
                },
            ),
        }),
    decreases n,
{
    s.lemma_say_results(n);
    s.lemma_say_results((n - 1) as nat);
    if i < n - 1 {
        law_results_read_out(s, (n - 1) as nat, i);
    }
}

/// Taking back that one is ready, in time and before the game begins, leaves
/// the room as it was.
pub proof fn law_ready_taken_back(s: Scene, user: UserKey, picks: Seq<nat>, now: u64, later: u64)
    requires
        s.ok(),
        s.users.contains_key(user),
        s.room.state is WaitForReady,
        !s.room.is_ready(s.users[user].id),
        !s.hosted_by(user),
        s.late_for_ready(now) is None,
        s.ready(user, picks, now).0.room.state is WaitForReady,
    ensures
        s.ready(user, picks, now).1 is Ok,
        s.ready(user, picks, now).0.cancel_ready(user, later).1 is Ok,
        s.ready(user, picks, now).0.cancel_ready(user, later).0.room == s.room,
{
    let id = s.users[user].id;
    if let StateView::WaitForReady { start_time, started } = s.room.state {
        let t = s.with_state(
            StateView::WaitForReady { start_time, started: started.insert(id) },
        ).send(MessageView::Ready { user: id });
        assert(t.late_for_ready(now) is None);
        law_game_begins(t, now);
        assert(s.ready(user, picks, now).0 == t);
        assert(started.insert(id).remove(id) =~= started);
        assert(t.cancel_ready(user, later).0.room =~= s.room);
    }
}

/// A player has one result or gives up, and not both: a second record, a
/// record after giving up, giving up twice and giving up after a record are
/// all refused.
pub proof fn law_one_result(s: Scene, user: UserKey, record: Record, picks: Seq<nat>, now: u64)
    requires
        s.room.state is Playing,
        record.player == id_of(s.users, user),
    ensures
        ({
            let id = id_of(s.users, user);
            let results = s.room.state->results;
            let aborted = s.room.state->Playing_aborted;
            let played = s.played(user, record, picks, now).1;
            let gave_up = s.abort(user, picks, now).1;
            &&& aborted.contains(id) ==> played == refused("aborted"@)
            &&& !aborted.contains(id) && results.contains_key(id) ==> played == refused(
                "already uploaded"@,
            )
            &&& results.contains_key(id) ==> gave_up == refused("already uploaded"@)
            &&& !results.contains_key(id) && aborted.contains(id) ==> gave_up == refused("aborted"@)
        }),
{
}

/// A record of someone else's game is refused, and changes nothing.
pub proof fn law_own_record(s: Scene, user: UserKey, record: Record, picks: Seq<nat>, now: u64)
    requires
        record.player != id_of(s.users, user),
    ensures
        s.played(user, record, picks, now) == (s, refused("invalid record"@)),
{
}

/// The refusal of a request to join.
pub open spec fn no_entry(key: TextKey) -> Result<JoinRoomResponseView, RefusalView> {
    Err(RefusalView::Localized(key))
}

/// A locked room lets nobody in, and nobody but the one allowed monitor
/// watches; neither changes the room. A full room takes no player.
pub proof fn law_join_refused(
    s: Scene,
    user: UserKey,
    key: usize,
    monitor: bool,
    public: bool,
    picks: Seq<nat>,
    now: u64,
)
    ensures
        s.room.locked ==> s.join(user, key, monitor, public, picks, now) == (
            s,
            no_entry(TextKey::JoinRoomLocked),
        ),
        !s.room.locked && monitor && id_of(s.users, user) != MONITOR_USER ==> s.join(
            user,
            key,
            monitor,
            public,
            picks,
            now,
        ) == (s, no_entry(TextKey::JoinCantMonitor)),
        !s.room.locked && !monitor && s.room.players(s.users).len() >= ROOM_MAX_USERS ==> s.join(
            user,
            key,
            monitor,
            public,
            picks,
            now,
        ).1 == no_entry(TextKey::JoinRoomFull) && s.join(
            user,
            key,
            monitor,
            public,
            picks,
            now,
        ).0.users == s.users,
{
}

/// Who has another id than everyone who is put out stays on the lists.
proof fn lemma_kick_all_lists(
    s: Scene,
    list: Seq<UserKey>,
    picks: Seq<nat>,
    user: UserKey,
    now: u64,
)
    requires
        s.room.wf(),
        s.users.contains_key(user),
        forall|i: int|
            0 <= i < list.len() ==> id_of(s.users, #[trigger] list[i]) != s.users[user].id,
    ensures
        s.room.users.contains(user) ==> s.kick_all(list, picks, now).room.users.contains(user),
        s.room.monitors.contains(user) ==> s.kick_all(list, picks, now).room.monitors.contains(
            user,
        ),
    decreases list.len(),
{
    if list.len() > 0 {
        let rest = list.drop_last();
        let key = list.last();
        let t = s.kick_all(rest, picks.drop_last(), now);
        assert(list[list.len() - 1] == key);
        assert forall|i: int| 0 <= i < rest.len() implies id_of(s.users, #[trigger] rest[i])
            != s.users[user].id by {
            assert(rest[i] == list[i]);
        }
        lemma_kick_all_lists(s, rest, picks.drop_last(), user, now);
        s.lemma_kick_all_keeps(rest, picks.drop_last(), now);
        if t.ok() {
            lemma_leave_lists(t, key, picks.last(), now);
            assert(t.users.dom().contains(user));
            assert(t.users.contains_key(user));
            assert(t.users.dom().contains(key) <==> s.users.dom().contains(key));
            assert(id_of(t.users, key) == id_of(s.users, key)) by {
                if s.users.contains_key(key) {
                    assert(t.users.contains_key(key));
                }
            }
            lemma_others(t.users, t.room.users, set![id_of(t.users, key)]);
            lemma_others(t.users, t.room.monitors, set![id_of(t.users, key)]);
        }
    }
}

proof fn lemma_brief_lists(s: Scene, user: UserKey, picks: Seq<nat>, now: u64)
    requires
        s.ok(),
        s.room.wf(),
        s.users.contains_key(user),
        s.room.state !is SelectChart ==> s.room.users_waiting.contains(user),
        s.room.host == user || !s.hosted_by(user) || !s.host_overdue(now),
    ensures
        s.room.users.contains(user) ==> s.brief(user, picks, now).room.users.contains(user),
        s.room.monitors.contains(user) ==> s.brief(user, picks, now).room.monitors.contains(user),
{
    let id = s.users[user].id;
    if s.room.state !is SelectChart {
        assert(has_id(s.users, s.room.users_waiting, id));
    }
    let waiting = ids_of(s.users, s.room.users_waiting);
    let active = s.room.active(s.users);
    lemma_ids_of(s.users, s.room.users_waiting);
    lemma_others(s.users, s.room.users, waiting);
    match s.room.state {
        StateView::Playing { start_time, .. } => {
            let t = s.say(
                "游戏还在进行中(已开始"@ + time_text(elapsed(now, start_time) as nat)
                    + "),请耐心等待其他玩家游玩结束"@,
            );
            lemma_others(t.users, active, result_ids(t.room.users_played_result));
            if let Some(list) = t.late_for_end(now) {
                assert forall|i: int| 0 <= i < list.len() implies id_of(
                    t.users,
                    #[trigger] list[i],
                ) != id by {
                    assert(list.contains(list[i]));
                    assert(active.contains(list[i]));
                }
                lemma_kick_all_lists(t, list, picks, user, now);
            }
        },
        StateView::WaitForReady { started, .. } => {
            let t = s.say("游戏已经在准备中了,请等待下一局游戏或请房主重新开始游戏"@);
            lemma_others(t.users, active, started);
            if let Some(list) = t.late_for_ready(now) {
                assert forall|i: int| 0 <= i < list.len() implies id_of(
                    t.users,
                    #[trigger] list[i],
                ) != id by {
                    assert(list.contains(list[i]));
                    assert(active.contains(list[i]));
                }
                lemma_kick_all_lists(t, list, picks, user, now);
            }
        },
        StateView::SelectChart => {
            let host = s.room.host;
            if s.users.contains_key(host) && s.host_overdue(now) && host != user {
                let t = s.say(overdue_text(name_of(s.users, host)));
                lemma_leave_lists(t, host, picks[0], now);
                lemma_others(t.users, t.room.users, set![id_of(t.users, host)]);
                lemma_others(t.users, t.room.monitors, set![id_of(t.users, host)]);
            }
        },
    }
}

/// A user who was let in is in the room, and on one of its lists. Left out is
/// one whose id is also that of an overdue host.
pub proof fn law_joined(
    s: Scene,
    user: UserKey,
    key: usize,
    monitor: bool,
    public: bool,
    picks: Seq<nat>,
    now: u64,
)
    requires
        s.ok(),
        s.room.wf(),
        s.users.contains_key(user),
        s.room.host == user || !s.hosted_by(user) || !s.host_overdue(now),
        s.join(user, key, monitor, public, picks, now).0.ok(),
        s.join(user, key, monitor, public, picks, now).1 is Ok,
    ensures
        ({
            let t = s.join(user, key, monitor, public, picks, now).0;
            &&& t.users.contains_key(user)
            &&& t.users[user].room == Some(key)
            &&& t.room.users.contains(user) || t.room.monitors.contains(user)
        }),
{
    let waiting = s.room.state !is SelectChart;
    let w = s.welcome(user, monitor, public, now);
    let b = w.brief(user, picks, now);
    lemma_others(s.users, s.room.users, Set::empty());
    lemma_push_contains(alive(s.users, s.room.users), user);
    lemma_push_contains(alive(s.users, s.room.users_waiting), user);
    lemma_push_contains(alive(s.users, s.room.monitors), user);
    assert(w.users.contains_key(user));
    assert(w.room.wf());
    assert(w.room.host == user || w.room.host == s.room.host);
    lemma_brief_lists(w, user, picks, now);
    w.lemma_brief_keeps(user, picks, now);
    assert(b.users.dom().contains(user));
}

/// Every connection that a command goes to is that of a user on the list that
/// it is for.
pub proof fn law_delivery(users: Users, list: Seq<UserKey>)
    ensures
        forall|session: u128| #[trigger]
            sessions_of(users, list).contains(session) ==> exists|k: UserKey| #[trigger]
                list.contains(k) && users.contains_key(k) && users[k].session == Some(session),
        forall|k: UserKey| #[trigger]
            list.contains(k) && users.contains_key(k) && users[k].session is Some ==> sessions_of(
                users,
                list,
            ).contains(users[k].session->0),
    decreases list.len(),
{
    if list.len() > 0 {
        let front = list.drop_last();
        let last = list.last();
        let all = sessions_of(users, list);
        let some = sessions_of(users, front);
        law_delivery(users, front);
        assert(front.push(last) =~= list);
        lemma_push_contains(front, last);
        assert(list.contains(last));
        assert forall|session: u128| #[trigger] all.contains(session) implies exists|
            k: UserKey,
        | #[trigger]
            list.contains(k) && users.contains_key(k) && users[k].session == Some(session) by {
            let i = choose|i: int| 0 <= i < all.len() && all[i] == session;
            if i < some.len() {
                assert(some[i] == session);
                assert(some.contains(session));
                let k = choose|k: UserKey| #[trigger]
                    front.contains(k) && users.contains_key(k) && users[k].session == Some(
                        session,
                    );
                assert(list.contains(k));
            } else {
                assert(list.contains(last) && users[last].session == Some(session));
            }
        }
        assert forall|k: UserKey| #[trigger]
            list.contains(k) && users.contains_key(k)
                && users[k].session is Some implies all.contains(users[k].session->0) by {
            if front.contains(k) {
                let j = choose|j: int| 0 <= j < some.len() && some[j] == users[k].session->0;
                assert(all[j] == users[k].session->0);
            } else {
                assert(all[all.len() - 1] == users[k].session->0);
            }
        }
    }
}

/// A scene that has not changed leaves the world as it was.
proof fn lemma_back_same(w: World, k: int)
    requires
        0 <= k < w.rooms.len(),
    ensures
        w.back(k, w.at(k)) == w,
{
    assert(w.back(k, w.at(k)) =~= w);
}

/// A user who is in no room can do nothing that takes one.
pub proof fn law_no_room(w: World, user: UserKey, cmd: ClientCommand, picks: Seq<nat>, now: u64)
    requires
        w.wf(),
        w.room_of(user) is None,
        cmd !is CreateRoom,
        cmd !is JoinRoom,
    ensures
        w.process(user, cmd, picks, now).0 == w,
        cmd is Chat ==> w.process(user, cmd, picks, now).1 == OutcomeView::Reply(
            Some(ServerCommandView::Chat(refused("no room"@))),
        ),
        cmd is LeaveRoom ==> w.process(user, cmd, picks, now).1 == OutcomeView::Reply(
            Some(ServerCommandView::LeaveRoom(refused("no room"@))),
        ),
        cmd is LockRoom ==> w.process(user, cmd, picks, now).1 == OutcomeView::Reply(
            Some(ServerCommandView::LockRoom(refused("no room"@))),
        ),
        cmd is CycleRoom ==> w.process(user, cmd, picks, now).1 == OutcomeView::Reply(
            Some(ServerCommandView::CycleRoom(refused("no room"@))),
        ),
        cmd is SelectChart ==> w.process(user, cmd, picks, now).1 == OutcomeView::Reply(
            Some(ServerCommandView::SelectChart(refused("no room"@))),
        ),
        cmd is RequestStart ==> w.process(user, cmd, picks, now).1 == OutcomeView::Reply(
            Some(ServerCommandView::RequestStart(refused("no room"@))),
        ),
        cmd is Ready ==> w.process(user, cmd, picks, now).1 == OutcomeView::Reply(
            Some(ServerCommandView::Ready(refused("no room"@))),
        ),
        cmd is CancelReady ==> w.process(user, cmd, picks, now).1 == OutcomeView::Reply(
            Some(ServerCommandView::CancelReady(refused("no room"@))),
        ),
        cmd is Played ==> w.process(user, cmd, picks, now).1 == OutcomeView::Reply(
            Some(ServerCommandView::Played(refused("no room"@))),
        ),
        cmd is Abort ==> w.process(user, cmd, picks, now).1 == OutcomeView::Reply(
            Some(ServerCommandView::Abort(refused("no room"@))),
        ),
{
    w.lemma_stays_tidy(w);
}

/// A user is in one room at most: who is in one can neither create nor join
/// another.
pub proof fn law_one_room(
    w: World,
    user: UserKey,
    id: Seq<char>,
    monitor: bool,
    picks: Seq<nat>,
    now: u64,
)
    requires
        w.room_of(user) is Some,
    ensures
        w.create_room(user, id, now) == (w, refused("你已经在房间中了"@)),
        w.join_room(user, id, monitor, picks, now).0 == w,
        w.join_room(user, id, monitor, picks, now).1 is Err,
{
}

/// A command that is refused changes nothing. Left out are those that are
/// refused after they took effect: confirming an entry of the panel other than
/// the first, uploading a record twice or after giving up, giving up without
/// need, and joining a full room that still lists someone who is gone.
pub proof fn law_refused_changes_nothing(
    w: World,
    user: UserKey,
    cmd: ClientCommand,
    picks: Seq<nat>,
    now: u64,
)
    requires
        w.wf(),
        match w.process(user, cmd, picks, now).1 {
            OutcomeView::Reply(Some(ServerCommandView::Chat(Err(_)))) => true,
            OutcomeView::Reply(Some(ServerCommandView::CreateRoom(Err(_)))) => true,
            OutcomeView::Reply(Some(ServerCommandView::JoinRoom(Err(e)))) => e
                != RefusalView::Localized(TextKey::JoinRoomFull) || (cmd matches
                ClientCommand::JoinRoom { id, .. } && (lookup(w.rooms, room_id(id@)) matches Some(k)
                && {
                let room = w.rooms[k as int].room;
                &&& room.players(w.users).len() > 0
                &&& room.players(w.users) == room.users
                &&& alive(w.users, room.users_waiting) == room.users_waiting
            })),
            OutcomeView::Reply(Some(ServerCommandView::LeaveRoom(Err(_)))) => true,
            OutcomeView::Reply(Some(ServerCommandView::LockRoom(Err(_)))) => true,
            OutcomeView::Reply(Some(ServerCommandView::CycleRoom(Err(_)))) => true,
            OutcomeView::Reply(Some(ServerCommandView::SelectChart(Err(_)))) => true,
            OutcomeView::Reply(Some(ServerCommandView::RequestStart(Err(e)))) => w.may_select(user)
                is Err || e == RefusalView::Localized(TextKey::StartNoChartSelected),
            OutcomeView::Reply(Some(ServerCommandView::Ready(Err(_)))) => true,
            OutcomeView::Reply(Some(ServerCommandView::CancelReady(Err(_)))) => true,
            _ => false,
        },
    ensures
        w.process(user, cmd, picks, now).0 == w,
{
    w.lemma_stays_tidy(w);
    if let Some(k) = w.room_of(user) {
        assert(w.user_sound(user));
        lemma_back_same(w, k as int);
    }
    if let ClientCommand::JoinRoom { id, monitor } = cmd {
        lemma_lookup(w.rooms, room_id(id@));
        if let Some(k) = lookup(w.rooms, room_id(id@)) {
            lemma_back_same(w, k as int);
        }
    }
}

/// A command that needs a chart or a record holds its user and their room until
/// the answer comes.
pub proof fn law_request_holds(
    w: World,
    user: UserKey,
    cmd: ClientCommand,
    picks: Seq<nat>,
    now: u64,
)
    requires
        w.wf(),
        w.users.contains_key(user),
    ensures
        ({
            let (after, outcome) = w.process(user, cmd, picks, now);
            let room = match outcome {
                OutcomeView::FetchChart { room, .. } => Some(room),
                OutcomeView::FetchRecord { room, .. } => Some(room),
                OutcomeView::Reply(_) => None,
            };
            room matches Some(k) ==> {
                &&& w.room_of(user) == Some(k)
                &&& k < after.rooms.len()
                &&& after.rooms[k as int].requests > 0
                &&& !after.rooms[k as int].given_up
                &&& after.users.contains_key(user)
                &&& after.users[user].holds > 0
            }
        }),
{
    if let Some(k) = w.room_of(user) {
        let asked = w.asked(k as int);
        let next = asked.hold(user);
        assert(w.user_sound(user));
        w.lemma_asked_keeps(k as int);
        asked.lemma_hold_keeps(user);
        next.lemma_settled();
        assert(next.users.contains_key(user));
        assert(next.settled().rooms[k as int].requests == next.rooms[k as int].requests);
    }
}

/// A room that was created is found under its id, with its creator as host and
/// only player. It is not locked and not on the list of public rooms, and
/// nobody else can create a room of that id.
pub proof fn law_created(
    w: World,
    user: UserKey,
    other: UserKey,
    id: Seq<char>,
    now: u64,
    later: u64,
)
    requires
        w.wf(),
        w.users.contains_key(user),
        w.create_room(user, id, now).0.rooms.len() <= usize::MAX,
        w.create_room(user, id, now).1 is Ok,
        other != user,
        w.room_of(other) is None,
    ensures
        ({
            let made = w.create_room(user, id, now).0;
            let k = w.rooms.len();
            &&& lookup(made.rooms, room_id(id)) == Some(k as usize)
            &&& made.room_of(user) == Some(k as usize)
            &&& made.rooms[k as int].room.host == user
            &&& made.rooms[k as int].room.users == seq![user]
            &&& !made.rooms[k as int].room.locked
            &&& public_ids(made.rooms) == public_ids(w.rooms)
            &&& made.create_room(other, id, later) == (
                made,
                if is_custom(id) {
                    Err(RefusalView::Localized(TextKey::CreateIdOccupied))
                } else {
                    refused("用户创建的房间ID必须以cus开头"@)
                },
            )
        }),
{
    let made = w.create_room(user, id, now).0;
    assert(made.rooms.drop_last() =~= w.rooms);
}

/// A room that is dropped can no longer be found. If nobody is in it and no
/// request is under way for it, nothing is left of it.
pub proof fn law_dropped(w: World, user: UserKey, k: usize, pick: nat, now: u64)
    requires
        w.wf(),
        k < w.rooms.len(),
        !w.rooms[k as int].given_up,
        w.at(k as int).leave(user, pick, now).ok(),
        w.at(k as int).drops(user),
    ensures
        ({
            let left = w.leave_at(user, k as int, pick, now);
            let after = left.settled();
            &&& lookup(after.rooms, w.rooms[k as int].room.id) is None
            &&& w.rooms[k as int].requests == 0 && !anyone_in(left.users, k) ==> {
                &&& after.rooms[k as int].given_up
                &&& after.rooms[k as int].room == RoomView::nothing()
            }
        }),
{
    let id = w.rooms[k as int].room.id;
    let s = w.at(k as int).leave(user, pick, now);
    let w1 = w.back(k as int, s);
    let w2 = w1.unlist(id);
    let w3 = w2.settled();
    assert(w.rooms[k as int].room.wf());
    w.at(k as int).lemma_leave_keeps(user, pick, now);
    w.at(k as int).lemma_company_keeps(k, s);
    w.lemma_back_keeps(k, s);
    w1.lemma_unlist_keeps(id);
    w2.lemma_settled();
    lemma_lookup(w1.rooms, id);
    lemma_lookup(w3.rooms, id);
    assert(!w2.rooms[k as int].listed) by {
        if w1.rooms[k as int].listed {
            let i = lookup(w1.rooms, id)->0;
            assert(w1.rooms[i as int].listed && w1.rooms[i as int].room.id == id);
            assert(i == k);
        }
    }
    if let Some(j) = lookup(w3.rooms, id) {
        assert(w3.rooms[j as int].listed && !w3.rooms[j as int].given_up);
        assert(w2.rooms[j as int].listed);
        assert(w1.rooms[j as int].listed);
        assert(w1.rooms[j as int].room.id == id);
        let i = lookup(w1.rooms, id)->0;
        assert(w1.rooms[i as int].listed && w1.rooms[i as int].room.id == id);
        assert(i == j);
    }
    if w.rooms[k as int].requests == 0 && !anyone_in(w2.users, k) {
        assert(!anyone_in(w3.users, k)) by {
            if anyone_in(w3.users, k) {
                let u = choose|u: UserKey| #[trigger]
                    w3.users.contains_key(u) && w3.users[u].room == Some(k);
                assert(w2.users.contains_key(u));
            }
        }
        assert(!w3.idle(k as int) && w3.rooms[k as int].requests == 0);
    }
}

/// Nothing leads to a room that was given up, and nothing is left of it; and
/// every room that nothing leads to was given up.
pub proof fn law_given_up(w: World, k: usize)
    requires
        w.wf(),
        k < w.rooms.len(),
    ensures
        w.rooms[k as int].given_up <==> !w.rooms[k as int].listed && w.rooms[k as int].requests == 0
            && !anyone_in(w.users, k),
        w.rooms[k as int].given_up ==> w.rooms[k as int].room == RoomView::nothing(),
{
    assert(!w.idle(k as int) || !w.rooms[k as int].listed);
    if w.rooms[k as int].given_up && anyone_in(w.users, k) {
        let u = choose|u: UserKey| #[trigger]
            w.users.contains_key(u) && w.users[u].room == Some(k);
        assert(w.user_sound(u));
    }
}

/// Whoever a panel lists is there, and counts at least as many times as the
/// panels of all rooms list them.
pub proof fn law_listed_are_there(w: World, k: int, user: UserKey)
    requires
        w.wf(),
        0 <= k < w.rooms.len(),
        w.rooms[k].room.panel.users.contains(user),
    ensures
        w.users.contains_key(user),
        w.users[user].listings >= listings(w.rooms, user) > 0,
{
    w.lemma_counted(k);
    lemma_times(w.rooms[k].room.panel.users, user);
    assert(w.at(k).users.contains_key(user));
    assert(w.user_sound(user));
}

/// Making the list of players anew lets go of nobody who is on the new list, or
/// whom the panel of another room lists.
pub proof fn law_list_made_anew(w: World, k: int, user: UserKey)
    requires
        w.wf(),
        0 <= k < w.rooms.len(),
        w.rooms[k].room.panel.interface == 1,
        w.users.contains_key(user),
        w.rooms[k].room.players(w.users).contains(user) || listings(w.rooms, user) > times(
            w.rooms[k].room.panel.users,
            user,
        ),
    ensures
        w.at(k).refresh_panel().users.contains_key(user),
        w.at(k).refresh_panel().users[user].room == w.users[user].room,
{
    let old_list = w.rooms[k].room.panel.users;
    let new_list = w.rooms[k].room.players(w.users);
    let held = with_listings(w.users, new_list);
    w.lemma_counted(k);
    assert(w.rooms[k].room.wf());
    assert(w.user_sound(user));
    lemma_others(w.users, w.rooms[k].room.users, Set::empty());
    lemma_times(old_list, user);
    lemma_times(new_list, user);
    assert(w.at(k).users.contains_key(user));
    assert(w.users[user].listings <= ROOM_MAX_USERS + most());
    lemma_with_listings(w.users, new_list, user);
    lemma_without_listings(held, old_list, user);
}

/// Who is held by more than lists stays, whatever lists have them.
proof fn lemma_held_stays(users: Users, list: Seq<UserKey>, user: UserKey)
    requires
        users.contains_key(user),
        users[user].registered || users[user].holds > 0,
    ensures
        with_listings(users, list).contains_key(user),
        with_listings(users, list)[user].registered == users[user].registered,
        with_listings(users, list)[user].holds == users[user].holds,
        without_listings(users, list).contains_key(user),
        without_listings(users, list)[user].registered == users[user].registered,
        without_listings(users, list)[user].holds == users[user].holds,
    decreases list.len(),
{
    if list.len() > 0 {
        lemma_held_stays(users, list.drop_last(), user);
    }
}

/// Opening the list of players and going back leaves the room as it was, but
/// for the list and the pointer, which is back on the first entry. Left out is a
/// host who is no player and whom only the old list held.
pub proof fn law_list_and_back(
    s: Scene,
    user: UserKey,
    pick: nat,
    now: u64,
    next_pick: nat,
    later: u64,
)
    requires
        s.ok(),
        s.room.panel.interface == 0,
        s.room.panel.pointer_position == 3,
        s.users.contains_key(s.room.host),
        s.users[s.room.host].registered || s.users[s.room.host].holds > 0 || s.room.wf()
            && s.counted() && s.room.players(s.users).contains(s.room.host),
    ensures
        ({
            let players = s.room.players(s.users);
            let (opened, first) = s.pointer_ok(user, pick, now);
            let (back, second) = opened.pointer_ok(user, next_pick, later);
            &&& first == (false, done_text())
            &&& opened.ok()
            &&& opened.room == (RoomView {
                panel: PanelView { interface: 1, pointer_position: 0, users: players },
                ..s.room
            })
            &&& second == (false, done_text())
            &&& back.ok()
            &&& back.users == opened.users
            &&& back.room == (RoomView {
                panel: PanelView { interface: 0, pointer_position: 0, users: players },
                ..s.room
            })
        }),
{
    let host = s.room.host;
    let old_list = s.room.panel.users;
    let players = s.room.players(s.users);
    let held = with_listings(s.users, players);
    let opened = s.pointer_ok(user, pick, now).0;
    if s.users[host].registered || s.users[host].holds > 0 {
        lemma_held_stays(s.users, players, host);
        lemma_held_stays(held, old_list, host);
    } else {
        lemma_others(s.users, s.room.users, Set::empty());
        lemma_times(old_list, host);
        lemma_times(players, host);
        assert(s.users[host].listings <= ROOM_MAX_USERS + most());
        lemma_with_listings(s.users, players, host);
        lemma_without_listings(held, old_list, host);
    }
    assert(held.contains_key(host));
    assert(opened.users.contains_key(host));
}

/// A user whom something else holds is still there once the server lets them
/// go, and where they were.
pub proof fn law_still_there(w: World, user: UserKey, id: i32)
    requires
        w.users.contains_key(user),
        w.users[user].holds > 0 || w.users[user].listings > 0,
    ensures
        w.unregister(id).users.contains_key(user),
        w.unregister(id).room_of(user) == w.room_of(user),
        w.unregister(id).rooms == w.rooms,
{
}

/// A user who comes in anew is another user than all who are there, even those
/// with the same id, and nothing changes for them.
pub proof fn law_comes_in(w: World, session: u128, id: i32, name: String, lang: String)
    requires
        w.wf(),
        !w.registry.contains_key(id),
    ensures
        ({
            let user = w.key_for(id);
            let after = w.sign_in(session, id, name, lang);
            &&& !w.users.contains_key(user)
            &&& after.users.contains_key(user)
            &&& after.users[user].id == id
            &&& after.users[user].session == Some(session)
            &&& after.room_of(user) is None
            &&& after.rooms == w.rooms
            &&& forall|u: UserKey| #[trigger]
                w.users.contains_key(u) ==> after.users.contains_key(u) && after.users[u]
                    == w.users[u]
        }),
{
    if w.users.contains_key(w.key_for(id)) {
        assert(w.user_sound(w.key_for(id)));
    }
}

/// What becomes of a user who is put out.
proof fn lemma_expelled(w: World, user: UserKey, k: usize, pick: nat, now: u64)
    requires
        w.sound(),
        w.ok(),
        k < w.rooms.len(),
        !w.rooms[k as int].given_up,
        w.users.contains_key(user),
        w.users[user].holds > 0,
    ensures
        ({
            let after = w.expel(user, k as int, pick, now);
            &&& after.sound()
            &&& !after.registry.contains_key(w.users[user].id)
            &&& after.users.contains_key(user)
            &&& !after.users[user].registered
            &&& after.users[user].holds == w.users[user].holds
            &&& after.users[user].listings == w.users[user].listings
            &&& after.users[user].room is None
        }),
{
    let id = w.users[user].id;
    let u = w.unregister(id);
    assert(w.user_sound(user));
    w.lemma_unregister_keeps(id);
    w.lemma_expel_keeps(user, k, pick, now);
    assert(u.users.contains_key(user));
    assert(!u.users[user].registered);
    let s = u.at(k as int).leave(user, pick, now);
    assert(u.rooms[k as int].room.wf());
    u.at(k as int).lemma_leave_keeps(user, pick, now);
    lemma_leave_places(u.at(k as int), user, pick, now);
    assert(s.users.dom().contains(user));
    assert(s.users.contains_key(user));
}

/// What becomes of a user who is put out, once what held them last lets go.
proof fn lemma_put_out(w: World, user: UserKey, id: i32)
    requires
        w.sound(),
        !w.registry.contains_key(id),
        w.users.contains_key(user),
        !w.users[user].registered,
        w.users[user].holds > 0,
        w.users[user].room is None,
    ensures
        ({
            let after = w.release(user).settled();
            &&& !after.registry.contains_key(id)
            &&& after.room_of(user) is None
            &&& w.users[user].holds > 1 ==> after.users.contains_key(user)
            &&& w.users[user].holds == 1 && w.users[user].listings == 0
                ==> !after.users.contains_key(user)
        }),
{
    w.lemma_hold_keeps(user);
    w.release(user).lemma_settled();
    assert(w.release(user).users.contains_key(user) || w.users[user].holds == 1);
}

/// A user whose connection is lost in a game that goes on is put out at once.
/// One who is lost at another time keeps their place until the wait is over,
/// and is then put out if they are in a room. The server no longer knows who is
/// put out. They are still there if a connection, a wait or a request besides
/// holds them, and gone if that connection was all that held them.
pub proof fn law_lost(w: World, user: UserKey, session: u128, pick: nat, now: u64, later: u64)
    requires
        w.wf(),
        w.ok(),
        w.users.contains_key(user),
        w.users[user].session == Some(session),
        w.users[user].holds > 0,
    ensures
        ({
            let u = w.users[user];
            let (lost, mark) = w.hang_up(user, session, pick, now);
            let over = lost.dangle_expired(user, mark->0, pick, later);
            let playing = w.room_of(user) matches Some(k) && w.rooms[k as int].room.state
                is Playing;
            &&& playing ==> {
                &&& mark is None
                &&& !lost.registry.contains_key(u.id)
                &&& lost.room_of(user) is None
                &&& u.holds > 1 ==> lost.users.contains_key(user)
                &&& u.holds == 1 && u.listings == 0 ==> !lost.users.contains_key(user)
            }
            &&& !playing ==> {
                &&& mark is Some
                &&& lost.rooms == w.rooms
                &&& lost.registry == w.registry
                &&& lost.users.contains_key(user)
                &&& lost.room_of(user) == w.room_of(user)
            }
            &&& !playing && w.room_of(user) is Some ==> {
                &&& !over.registry.contains_key(u.id)
                &&& over.room_of(user) is None
                &&& u.holds > 1 ==> over.users.contains_key(user)
                &&& u.holds == 1 && u.listings == 0 ==> !over.users.contains_key(user)
            }
            &&& !playing && w.room_of(user) is None ==> {
                &&& over.registry == w.registry
                &&& u.registered ==> over.users.contains_key(user)
            }
        }),
{
    let id = w.users[user].id;
    let unreached = User { session: None, ..w.users[user] };
    let w1 = World { users: w.users.insert(user, unreached), ..w };
    assert(w.user_sound(user));
    w.lemma_change_keeps(user, unreached);
    w1.lemma_hold_keeps(user);
    let held = w1.hold(user);
    let (raw, mark) = w1.lose(user, pick, now);
    let (lost, _) = w.hang_up(user, session, pick, now);
    w1.lemma_lose_keeps(user, pick, now);
    let playing = w.room_of(user) matches Some(k) && w.rooms[k as int].room.state is Playing;
    if playing {
        let k = w.room_of(user)->0;
        lemma_expelled(held, user, k, pick, now);
        let x = held.expel(user, k as int, pick, now);
        x.lemma_hold_keeps(user);
        assert(raw == x.release(user));
        lemma_put_out(raw, user, id);
    } else {
        let waiting = raw.users[user];
        assert(raw.users.contains_key(user));
        raw.lemma_hold_keeps(user);
        w.lemma_stays_tidy(raw.release(user));
        assert(lost == raw.release(user));
        assert(lost.users[user].dangle_mark == mark);
        if let Some(k) = w.room_of(user) {
            lemma_expelled(lost, user, k, pick, later);
            lemma_put_out(lost.expel(user, k as int, pick, later), user, id);
        } else {
            lost.lemma_hold_keeps(user);
            lost.release(user).lemma_settled();
        }
    }
}

/// A user who comes back while the server knows them keeps their place, and no
/// wait that began before ends it.
pub proof fn law_comes_back(
    w: World,
    session: u128,
    id: i32,
    name: String,
    lang: String,
    mark: u64,
    pick: nat,
    now: u64,
)
    requires
        w.wf(),
        w.registry.contains_key(id),
    ensures
        ({
            let user = w.registry[id];
            let back = w.sign_in(session, id, name, lang);
            let later = back.dangle_expired(user, mark, pick, now);
            &&& w.key_for(id) == user
            &&& back.rooms == w.rooms
            &&& back.registry == w.registry
            &&& back.room_of(user) == w.room_of(user)
            &&& back.users[user].name == w.users[user].name
            &&& back.users[user].session == Some(session)
            &&& later.rooms == w.rooms
            &&& later.registry == w.registry
            &&& later.room_of(user) == w.room_of(user)
            &&& later.users[user].session == Some(session)
        }),
{
    assert(w.id_sound(id));
    let back = w.sign_in(session, id, name, lang);
    w.lemma_stays_tidy(back.release(w.registry[id]));
}

/// The loss of a connection on which a user is no longer reached matters to
/// nobody who is held by anything else.
pub proof fn law_old_connection(w: World, user: UserKey, session: u128, pick: nat, now: u64)
    requires
        w.wf(),
        w.users.contains_key(user),
        w.users[user].session != Some(session),
        w.users[user].registered || w.users[user].holds > 1 || w.users[user].listings > 0,
    ensures
        ({
            let (after, mark) = w.hang_up(user, session, pick, now);
            &&& mark is None
            &&& after.rooms == w.rooms
            &&& after.registry == w.registry
            &&& after.users.dom() == w.users.dom()
            &&& after.room_of(user) == w.room_of(user)
            &&& after.users[user].session == w.users[user].session
        }),
{
    w.lemma_stays_tidy(w.release(user));
    assert(w.release(user).users.dom() =~= w.users.dom());
}

/// The list of public rooms holds the ids of exactly those rooms that can be
/// found and whose hosts have put them on it, each once; the room that is open
/// to everyone is never among them.
pub proof fn law_public_list(w: World)
    ensures
        forall|id: Seq<char>| #[trigger]
            public_ids(w.rooms).contains(id) <==> exists|k: int|
                0 <= k < w.rooms.len() && (#[trigger] w.rooms[k]).listed
                    && w.rooms[k].room.public_enabled && w.rooms[k].room.id == id,
        w.wf() ==> !public_ids(w.rooms).contains("public"@),
        w.wf() ==> public_ids(w.rooms).no_duplicates(),
{
    lemma_public_ids(w.rooms);
    if w.wf() {
        lemma_public_once(w.rooms);
    }
    if w.wf() && public_ids(w.rooms).contains("public"@) {
        let k = choose|k: int|
            0 <= k < w.rooms.len() && (#[trigger] w.rooms[k]).listed
                && w.rooms[k].room.public_enabled && w.rooms[k].room.id == "public"@;
        assert(w.rooms[k].room.wf());
    }
}

proof fn lemma_public_once(rooms: Seq<SlotView>)
    requires
        forall|i: int, j: int|
            0 <= i < j < rooms.len() && (#[trigger] rooms[i]).listed && (#[trigger] rooms[j]).listed
                ==> rooms[i].room.id != rooms[j].room.id,
    ensures
        public_ids(rooms).no_duplicates(),
    decreases rooms.len(),
{
    if rooms.len() > 0 {
        let front = rooms.drop_last();
        let last = rooms.last();
        let some = public_ids(front);
        assert forall|i: int, j: int|
            0 <= i < j < front.len() && (#[trigger] front[i]).listed && (
            #[trigger] front[j]).listed implies front[i].room.id != front[j].room.id by {
            assert(rooms[i] == front[i] && rooms[j] == front[j]);
        }
        lemma_public_once(front);
        lemma_public_ids(front);
        if last.listed && some.contains(last.room.id) {
            let k = choose|k: int|
                0 <= k < front.len() && (#[trigger] front[k]).listed && front[k].room.public_enabled
                    && front[k].room.id == last.room.id;
            assert(rooms[k] == front[k]);
            assert(rooms[rooms.len() - 1] == last);
        }
    }
}

proof fn lemma_public_ids(rooms: Seq<SlotView>)
    ensures
        forall|id: Seq<char>| #[trigger]
            public_ids(rooms).contains(id) <==> exists|k: int|
                0 <= k < rooms.len() && (#[trigger] rooms[k]).listed
                    && rooms[k].room.public_enabled && rooms[k].room.id == id,
    decreases rooms.len(),
{
    if rooms.len() > 0 {
        let front = rooms.drop_last();
        let last = rooms.last();
        let some = public_ids(front);
        let all = public_ids(rooms);
        lemma_public_ids(front);
        assert forall|id: Seq<char>| #[trigger] all.contains(id) <==> exists|k: int|
            0 <= k < rooms.len() && (#[trigger] rooms[k]).listed && rooms[k].room.public_enabled
                && rooms[k].room.id == id by {
            if all.contains(id) {
                let i = choose|i: int| 0 <= i < all.len() && all[i] == id;
                if i < some.len() {
                    assert(some[i] == id);
                    assert(some.contains(id));
                    let k = choose|k: int|
                        0 <= k < front.len() && (#[trigger] front[k]).listed
                            && front[k].room.public_enabled && front[k].room.id == id;
                    assert(rooms[k] == front[k]);
                } else {
                    assert(rooms[rooms.len() - 1] == last);
                }
            }
            if exists|k: int|
                0 <= k < rooms.len() && (#[trigger] rooms[k]).listed && rooms[k].room.public_enabled
                    && rooms[k].room.id == id {
                let k = choose|k: int|
                    0 <= k < rooms.len() && (#[trigger] rooms[k]).listed
                        && rooms[k].room.public_enabled && rooms[k].room.id == id;
                if k < front.len() {
                    assert(front[k] == rooms[k]);
                    assert(some.contains(id));
                    let i = choose|i: int| 0 <= i < some.len() && some[i] == id;
                    assert(all[i] == id);
                } else {
                    assert(all[all.len() - 1] == id);
                }
            }
        }
    }
}

/// Moving the pointer never goes wrong, and nobody's leaving does as long as a
/// player stays.
pub proof fn law_goes_well(s: Scene, user: UserKey, down: bool, pick: nat, now: u64)
    requires
        s.ok(),
    ensures
        s.press(user, down).0.ok(),
        s.departed(user).room.players(s.departed(user).users).len() > 0 ==> s.leave(
            user,
            pick,
            now,
        ).ok(),
{
    let entry = s.room.panel.pointer_position;
    let up = s.pointed_at(entry - 1);
    let down_one = s.pointed_at(entry + 1);
    lemma_listed(s.users, up.fresh_panel().users, 0);
    lemma_listed(s.users, down_one.fresh_panel().users, 0);
    assert(s.users.dom().contains(s.room.host) ==> with_listings(
        s.users,
        up.fresh_panel().users,
    ).contains_key(s.room.host));
    assert(s.users.dom().contains(s.room.host) ==> with_listings(
        s.users,
        down_one.fresh_panel().users,
    ).contains_key(s.room.host));
    let t = s.departed(user);
    let players = t.room.players(t.users);
    if players.len() > 0 {
        let new = players[(pick % players.len()) as int];
        let u = t.appoint(new, now).say_to_host(host_hint()).post(
            seq![new],
            ServerCommandView::ChangeHost(true),
        );
        lemma_check_goes_well(t, now);
        lemma_check_goes_well(u, now);
    }
}

proof fn lemma_check_goes_well(s: Scene, now: u64)
    requires
        s.ok(),
        s.room.players(s.users).len() > 0,
    ensures
        s.check_all_ready(now).ok(),
{
    s.send(MessageView::GameEnd).say("游戏结束, 结果如下:"@).lemma_say_results(
        s.room.users_played_result.len(),
    );
}

} // verus!

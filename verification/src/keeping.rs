//! What every step in a room keeps in order.
use vstd::prelude::*;
use crate::keys::{lemma_times, times, UserKey};
use crate::protocol::{MessageView, ServerCommandView, TouchFrame};
use crate::ranking::Record;
use crate::room::{PanelView, RoomView, StateView};
use crate::scene::{elapsed, host_hint, overdue_text, time_text, Scene};
use crate::users::{
    id_of, lemma_others, lemma_with_listings, lemma_without_listings, name_of, with_listing,
    with_listings, with_room, with_times_reset, without_listing, without_listings, User, Users,
};

verus! {

/// Everything about a user but where they are, what they do there and what
/// holds them.
pub open spec fn same_person(a: User, b: User) -> bool {
    &&& a.id == b.id
    &&& a.name == b.name
    &&& a.lang == b.lang
    &&& a.session == b.session
    &&& a.dangle_mark == b.dangle_mark
    &&& a.registered == b.registered
}

/// Something holds the user.
pub open spec fn is_held(u: User) -> bool {
    u.registered || u.holds > 0 || u.listings > 0
}

/// From `before` to `after` users have at most gone, moved out of their rooms,
/// or moved into the one at place `key`. Whom the server knows is still there.
pub open spec fn follows(before: Users, after: Users, key: usize) -> bool {
    &&& forall|u: UserKey| #[trigger]
        after.contains_key(u) ==> {
            &&& before.contains_key(u)
            &&& same_person(before[u], after[u])
            &&& is_held(before[u]) ==> is_held(after[u])
            &&& {
                ||| after[u].room == before[u].room
                ||| after[u].room is None
                ||| after[u].room == Some(key)
            }
        }
    &&& forall|u: UserKey| #[trigger]
        before.contains_key(u) && before[u].registered ==> after.contains_key(u)
}

/// Who the user is, and what holds them.
pub open spec fn same_user(a: User, b: User) -> bool {
    &&& same_person(a, b)
    &&& a.monitor == b.monitor
    &&& a.holds == b.holds
    &&& a.listings == b.listings
}

/// From `before` to `after` nobody has come or gone, and nobody has changed but
/// for where they are and when they last touched anything.
pub open spec fn same_company(before: Users, after: Users) -> bool {
    &&& after.dom() == before.dom()
    &&& forall|u: UserKey| #[trigger]
        before.contains_key(u) ==> same_user(before[u], after[u]) && (after[u].room
            == before[u].room || after[u].room is None)
}

/// A bound on how many times a user can be listed.
pub open spec fn most() -> int {
    0x1_0000_0000_0000_0000_0000_0000
}

proof fn lemma_follows_trans(a: Users, b: Users, c: Users, key: usize)
    requires
        follows(a, b, key),
        follows(b, c, key),
    ensures
        follows(a, c, key),
{
    assert forall|u: UserKey| #[trigger] c.contains_key(u) implies {
        &&& a.contains_key(u)
        &&& same_person(a[u], c[u])
        &&& is_held(a[u]) ==> is_held(c[u])
        &&& {
            ||| c[u].room == a[u].room
            ||| c[u].room is None
            ||| c[u].room == Some(key)
        }
    } by {
        assert(b.contains_key(u));
    }
    assert forall|u: UserKey| #[trigger] a.contains_key(u) && a[u].registered implies c.contains_key(
        u,
    ) by {
        assert(b.contains_key(u));
    }
}

proof fn lemma_same_company_trans(a: Users, b: Users, c: Users)
    requires
        same_company(a, b),
        same_company(b, c),
    ensures
        same_company(a, c),
{
    assert forall|u: UserKey| #[trigger] a.contains_key(u) implies same_user(a[u], c[u]) && (
    c[u].room == a[u].room || c[u].room is None) by {
        assert(b.dom().contains(u));
        assert(b.contains_key(u));
    }
}

pub proof fn lemma_same_company_follows(a: Users, b: Users, key: usize)
    requires
        same_company(a, b),
    ensures
        follows(a, b, key),
{
    assert forall|u: UserKey| #[trigger] b.contains_key(u) implies {
        &&& a.contains_key(u)
        &&& same_person(a[u], b[u])
        &&& is_held(a[u]) ==> is_held(b[u])
        &&& {
            ||| b[u].room == a[u].room
            ||| b[u].room is None
            ||| b[u].room == Some(key)
        }
    } by {
        assert(b.dom().contains(u));
        assert(a.contains_key(u));
    }
    assert forall|u: UserKey| #[trigger] a.contains_key(u) && a[u].registered implies b.contains_key(
        u,
    ) by {
        assert(b.dom().contains(u));
    }
}

/// Listing users does not change who is there.
pub proof fn lemma_listed(users: Users, list: Seq<UserKey>, key: usize)
    ensures
        with_listings(users, list).dom() == users.dom(),
        follows(users, with_listings(users, list), key),
    decreases list.len(),
{
    if list.len() > 0 {
        let mid = with_listings(users, list.drop_last());
        lemma_listed(users, list.drop_last(), key);
        let after = with_listing(mid, list.last());
        assert(after.dom() =~= mid.dom());
        assert(follows(mid, after, key)) by {
            assert forall|u: UserKey| mid.contains_key(u) <==> #[trigger] after.contains_key(u) by {}
        }
        lemma_follows_trans(users, mid, after, key);
    }
}

proof fn lemma_unlisted(users: Users, list: Seq<UserKey>, key: usize)
    ensures
        follows(users, without_listings(users, list), key),
    decreases list.len(),
{
    if list.len() > 0 {
        let mid = without_listings(users, list.drop_last());
        lemma_unlisted(users, list.drop_last(), key);
        let after = without_listing(mid, list.last());
        assert(follows(mid, after, key));
        lemma_follows_trans(users, mid, after, key);
    }
}

impl Scene {
    /// The panel lists only those who are there, and each of them counts at
    /// least the times that it does.
    pub open spec fn counted(self) -> bool {
        &&& forall|u: UserKey| #[trigger]
            self.users.contains_key(u) ==> times(self.room.panel.users, u)
                <= self.users[u].listings <= times(self.room.panel.users, u) + most()
        &&& forall|u: UserKey|
            !self.users.contains_key(u) ==> #[trigger] times(self.room.panel.users, u) == 0
    }

    /// From here to `next`, what the panel lists and what users count change
    /// alike.
    pub open spec fn tallies(self, next: Scene) -> bool {
        &&& forall|u: UserKey| #[trigger]
            next.users.contains_key(u) ==> next.users[u].listings - times(next.room.panel.users, u)
                == self.users[u].listings - times(self.room.panel.users, u)
        &&& forall|u: UserKey| #[trigger]
            self.users.contains_key(u) && !next.users.contains_key(u) ==> self.users[u].listings
                == times(self.room.panel.users, u)
        &&& forall|u: UserKey|
            !next.users.contains_key(u) ==> #[trigger] times(next.room.panel.users, u) == 0
    }

    /// A step from here to `next`, in the room at place `key`, keeps everything
    /// in order.
    pub open spec fn keeps(self, key: usize, next: Scene) -> bool {
        &&& next.room.wf()
        &&& next.room.id == self.room.id
        &&& follows(self.users, next.users, key)
        &&& self.counted() ==> self.tallies(next)
    }

    proof fn lemma_keeps_trans(self, key: usize, mid: Scene, next: Scene)
        requires
            self.keeps(key, mid),
            mid.keeps(key, next),
        ensures
            self.keeps(key, next),
    {
        lemma_follows_trans(self.users, mid.users, next.users, key);
        if self.counted() {
            assert(mid.counted()) by {
                assert forall|u: UserKey| #[trigger] mid.users.contains_key(u) implies times(
                    mid.room.panel.users,
                    u,
                ) <= mid.users[u].listings <= times(mid.room.panel.users, u) + most() by {
                    assert(self.users.contains_key(u));
                }
            }
            assert forall|u: UserKey| #[trigger] next.users.contains_key(u) implies (
            next.users[u].listings - times(next.room.panel.users, u) == self.users[u].listings
                - times(self.room.panel.users, u)) by {
                assert(mid.users.contains_key(u));
            }
            assert forall|u: UserKey| #[trigger]
                self.users.contains_key(u) && !next.users.contains_key(u) implies (
            self.users[u].listings == times(self.room.panel.users, u)) by {
                if mid.users.contains_key(u) {
                    assert(mid.users[u].listings == times(mid.room.panel.users, u));
                }
            }
        }
    }

    /// A step that changes neither the company nor the panel keeps everything
    /// in order.
    pub proof fn lemma_company_keeps(self, key: usize, next: Scene)
        requires
            next.room.wf(),
            next.room.id == self.room.id,
            next.room.panel == self.room.panel,
            same_company(self.users, next.users),
        ensures
            self.keeps(key, next),
    {
        lemma_same_company_follows(self.users, next.users, key);
        assert forall|u: UserKey| #[trigger] next.users.contains_key(u) implies (
        self.users.contains_key(u) && next.users[u].listings == self.users[u].listings) by {
            assert(next.users.dom().contains(u));
            assert(self.users.contains_key(u));
        }
        assert forall|u: UserKey| #[trigger] self.users.contains_key(u) implies (
        next.users.contains_key(u)) by {
            assert(next.users.dom().contains(u));
        }
    }

    proof fn lemma_start_game_keeps(self, now: u64)
        requires
            self.room.wf(),
        ensures
            self.start_game(now).room.wf(),
            self.start_game(now).room.id == self.room.id,
            self.start_game(now).room.panel == self.room.panel,
            same_company(self.users, self.start_game(now).users),
    {
        let next = self.start_game(now);
        assert(next.users.dom() =~= self.users.dom());
    }

    proof fn lemma_end_game_keeps(self, now: u64)
        requires
            self.room.wf(),
        ensures
            self.end_game(now).room.wf(),
            self.end_game(now).room.id == self.room.id,
            self.end_game(now).room.panel == self.room.panel,
            self.end_game(now).users == self.users,
    {
        self.send(MessageView::GameEnd).say("游戏结束, 结果如下:"@).lemma_say_results(
            self.room.users_played_result.len(),
        );
    }

    proof fn lemma_check_all_ready_keeps(self, now: u64)
        requires
            self.room.wf(),
        ensures
            self.check_all_ready(now).room.wf(),
            self.check_all_ready(now).room.id == self.room.id,
            self.check_all_ready(now).room.panel == self.room.panel,
            same_company(self.users, self.check_all_ready(now).users),
    {
        self.lemma_start_game_keeps(now);
        self.lemma_end_game_keeps(now);
    }

    proof fn lemma_departed_keeps(self, user: UserKey)
        requires
            self.room.wf(),
        ensures
            self.departed(user).room.wf(),
            self.departed(user).room.id == self.room.id,
            self.departed(user).room.panel == self.room.panel,
            same_company(self.users, self.departed(user).users),
    {
        let next = self.departed(user);
        let id = id_of(self.users, user);
        lemma_others(self.users, self.room.users, set![id]);
        assert(next.users.dom() =~= self.users.dom());
    }

    /// Whoever leaves, and whatever chance decides then, the room stays in
    /// order, and nobody comes or goes.
    pub proof fn lemma_leave_keeps(self, user: UserKey, pick: nat, now: u64)
        requires
            self.room.wf(),
        ensures
            self.leave(user, pick, now).room.wf(),
            self.leave(user, pick, now).room.id == self.room.id,
            self.leave(user, pick, now).room.panel == self.room.panel,
            same_company(self.users, self.leave(user, pick, now).users),
    {
        let s = self.departed(user);
        self.lemma_departed_keeps(user);
        s.lemma_check_all_ready_keeps(now);
        lemma_same_company_trans(self.users, s.users, s.check_all_ready(now).users);
        let players = s.room.players(s.users);
        if players.len() > 0 {
            let new = players[(pick % players.len()) as int];
            let t = s.appoint(new, now).say_to_host(host_hint()).post(
                seq![new],
                ServerCommandView::ChangeHost(true),
            );
            t.lemma_check_all_ready_keeps(now);
            lemma_same_company_trans(self.users, t.users, t.check_all_ready(now).users);
        }
    }

    /// The same holds of putting everyone on a list out.
    pub proof fn lemma_kick_all_keeps(self, list: Seq<UserKey>, picks: Seq<nat>, now: u64)
        requires
            self.room.wf(),
        ensures
            self.kick_all(list, picks, now).room.wf(),
            self.kick_all(list, picks, now).room.id == self.room.id,
            self.kick_all(list, picks, now).room.panel == self.room.panel,
            same_company(self.users, self.kick_all(list, picks, now).users),
        decreases list.len(),
    {
        if list.len() > 0 {
            let s = self.kick_all(list.drop_last(), picks.drop_last(), now);
            self.lemma_kick_all_keeps(list.drop_last(), picks.drop_last(), now);
            s.lemma_leave_keeps(list.last(), picks.last(), now);
            lemma_same_company_trans(
                self.users,
                s.users,
                s.leave(list.last(), picks.last(), now).users,
            );
        }
    }

    proof fn lemma_check_host_time_keeps(self, pick: nat, now: u64)
        requires
            self.room.wf(),
        ensures
            self.check_host_time(pick, now).room.wf(),
            self.check_host_time(pick, now).room.id == self.room.id,
            self.check_host_time(pick, now).room.panel == self.room.panel,
            same_company(self.users, self.check_host_time(pick, now).users),
    {
        let host = self.room.host;
        self.say(overdue_text(name_of(self.users, host))).lemma_leave_keeps(host, pick, now);
    }

    proof fn lemma_check_ready_time_keeps(self, picks: Seq<nat>, now: u64)
        requires
            self.room.wf(),
        ensures
            self.check_ready_time(picks, now).room.wf(),
            self.check_ready_time(picks, now).room.id == self.room.id,
            self.check_ready_time(picks, now).room.panel == self.room.panel,
            same_company(self.users, self.check_ready_time(picks, now).users),
    {
        if let Some(list) = self.late_for_ready(now) {
            self.lemma_kick_all_keeps(list, picks, now);
        }
    }

    proof fn lemma_check_game_time_keeps(self, picks: Seq<nat>, now: u64)
        requires
            self.room.wf(),
        ensures
            self.check_game_time(picks, now).room.wf(),
            self.check_game_time(picks, now).room.id == self.room.id,
            self.check_game_time(picks, now).room.panel == self.room.panel,
            same_company(self.users, self.check_game_time(picks, now).users),
    {
        if let Some(list) = self.late_for_end(now) {
            self.lemma_kick_all_keeps(list, picks, now);
        }
    }

    proof fn lemma_refresh_panel_keeps(self, key: usize)
        requires
            self.room.wf(),
        ensures
            self.keeps(key, self.refresh_panel()),
    {
        let list = self.room.panel.users;
        let fresh = self.fresh_panel().users;
        let held = with_listings(self.users, fresh);
        let next = self.refresh_panel();
        lemma_listed(self.users, fresh, key);
        lemma_unlisted(held, list, key);
        lemma_follows_trans(self.users, held, without_listings(held, list), key);
        lemma_others(self.users, self.room.users, Set::empty());
        if self.counted() && self.room.panel.interface != 0 {
            assert forall|u: UserKey|
                #![trigger next.users.contains_key(u)]
                #![trigger self.users.contains_key(u)]
                #![trigger times(next.room.panel.users, u)]
                {
                    &&& next.users.contains_key(u) ==> self.users.contains_key(u)
                        && next.users[u].listings - times(next.room.panel.users, u)
                        == self.users[u].listings - times(list, u)
                    &&& self.users.contains_key(u) && !next.users.contains_key(u)
                        ==> self.users[u].listings == times(list, u)
                    &&& !next.users.contains_key(u) ==> times(next.room.panel.users, u) == 0
                } by {
                lemma_times(list, u);
                lemma_times(fresh, u);
                lemma_with_listings(self.users, fresh, u);
                lemma_without_listings(held, list, u);
            }
        }
    }

    /// Moving the pointer keeps it on the panel.
    pub proof fn lemma_press_keeps(self, key: usize, user: UserKey, down: bool)
        requires
            self.room.wf(),
        ensures
            self.keeps(key, self.press(user, down).0),
    {
        let entry = self.room.panel.pointer_position;
        lemma_others(self.users, self.room.users, Set::empty());
        if entry + 1 <= self.menu_end() {
            self.pointed_at(entry + 1).lemma_refresh_panel_keeps(key);
        }
        if entry > 0 {
            self.pointed_at(entry - 1).lemma_refresh_panel_keeps(key);
        }
    }

    proof fn lemma_kick_pointed_keeps(self, key: usize, user: UserKey, pick: nat, now: u64)
        requires
            self.room.wf(),
            self.room.panel.interface == 1,
            self.room.panel.pointer_position > 0,
        ensures
            self.keeps(key, self.kick_pointed(user, pick, now).0),
    {
        let panel = self.room.panel;
        if panel.pointer_position <= panel.users.len() {
            let kicked = panel.users[panel.pointer_position - 1];
            let name = name_of(self.users, kicked);
            let s = self.say(name + " 已被房主 "@ + name_of(self.users, user) + " 踢出"@);
            let t = s.leave(kicked, pick, now);
            s.lemma_leave_keeps(kicked, pick, now);
            self.lemma_company_keeps(key, t);
            let u = t.pointed_at(0);
            assert(u.room.wf());
            u.lemma_refresh_panel_keeps(key);
            assert(t.keeps(key, u));
            self.lemma_keeps_trans(key, t, u);
            self.lemma_keeps_trans(key, u, u.refresh_panel());
        }
    }

    /// Whatever the host confirms keeps the room in order.
    pub proof fn lemma_pointer_ok_keeps(self, key: usize, user: UserKey, pick: nat, now: u64)
        requires
            self.room.wf(),
        ensures
            self.keeps(key, self.pointer_ok(user, pick, now).0),
    {
        let panel = self.room.panel;
        if panel.interface == 1 && panel.pointer_position > 0 {
            self.lemma_kick_pointed_keeps(key, user, pick, now);
        }
        let interface: u8 = if panel.interface == 0 {
            1
        } else {
            0
        };
        let s = self.with_panel(
            PanelView { interface, pointer_position: 0, ..panel },
        );
        s.lemma_refresh_panel_keeps(key);
    }

    /// Showing touches keeps all in order.
    pub proof fn lemma_touches_keeps(self, key: usize, user: UserKey, frames: Seq<TouchFrame>)
        requires
            self.room.wf(),
        ensures
            self.keeps(key, self.touches(user, frames)),
    {
    }

    proof fn lemma_call_players_keeps(self, user: UserKey, now: u64)
        requires
            self.room.wf(),
        ensures
            self.call_players(user, now).room.wf(),
            self.call_players(user, now).room.id == self.room.id,
            self.call_players(user, now).room.panel == self.room.panel,
            same_company(self.users, self.call_players(user, now).users),
    {
        let id = id_of(self.users, user);
        let s0 = Scene {
            users: with_times_reset(self.users, self.room.players(self.users)),
            ..self
        };
        assert(s0.users.dom() =~= self.users.dom());
        let s1 = s0.send(MessageView::GameStart { user: id }).with_state(
            StateView::WaitForReady { start_time: now, started: set![id] },
        ).state_change();
        let s2 = Scene { room: RoomView { host_time: 0, ..s1.room }, ..s1 };
        s2.lemma_check_all_ready_keeps(now);
        lemma_same_company_trans(self.users, s2.users, s2.check_all_ready(now).users);
    }

    /// Calling for a game keeps all in order.
    pub proof fn lemma_request_start_keeps(self, key: usize, user: UserKey, pick: nat, now: u64)
        requires
            self.room.wf(),
        ensures
            self.keeps(key, self.request_start(user, pick, now).0),
    {
        let s = self.pointer_ok(user, pick, now).0;
        self.lemma_pointer_ok_keeps(key, user, pick, now);
        s.lemma_call_players_keeps(user, now);
        s.lemma_company_keeps(key, s.call_players(user, now));
        self.lemma_keeps_trans(key, s, s.call_players(user, now));
    }

    /// Being ready keeps all in order.
    pub proof fn lemma_ready_keeps(self, key: usize, user: UserKey, picks: Seq<nat>, now: u64)
        requires
            self.room.wf(),
        ensures
            self.keeps(key, self.ready(user, picks, now).0),
    {
        let id = id_of(self.users, user);
        if let StateView::WaitForReady { start_time, started } = self.room.state {
            let s1 = self.with_state(
                StateView::WaitForReady { start_time, started: started.insert(id) },
            ).send(MessageView::Ready { user: id });
            let s2 = s1.check_ready_time(picks, now);
            s1.lemma_check_ready_time_keeps(picks, now);
            s2.lemma_check_all_ready_keeps(now);
            let s3 = s2.check_all_ready(now);
            lemma_same_company_trans(self.users, s2.users, s3.users);
            self.lemma_company_keeps(key, s3);
        }
    }

    proof fn lemma_check_end_keeps(self, key: usize, picks: Seq<nat>, now: u64)
        requires
            self.room.wf(),
        ensures
            self.keeps(key, self.check_game_time(picks, now).check_all_ready(now)),
    {
        let s = self.check_game_time(picks, now);
        self.lemma_check_game_time_keeps(picks, now);
        s.lemma_check_all_ready_keeps(now);
        lemma_same_company_trans(self.users, s.users, s.check_all_ready(now).users);
        self.lemma_company_keeps(key, s.check_all_ready(now));
    }

    /// A record keeps all in order.
    pub proof fn lemma_played_keeps(
        self,
        key: usize,
        user: UserKey,
        record: Record,
        picks: Seq<nat>,
        now: u64,
    )
        requires
            self.room.wf(),
        ensures
            self.keeps(key, self.played(user, record, picks, now).0),
    {
        let id = id_of(self.users, user);
        let s = self.scored(user, record, now).send(
            MessageView::Played {
                user: id,
                score: record.score,
                accuracy: record.accuracy.bits,
                full_combo: record.full_combo,
            },
        );
        if let StateView::Playing { results, aborted, start_time } = s.room.state {
            if !aborted.contains(id) {
                let s1 = s.with_state(
                    StateView::Playing { results: results.insert(id, record), aborted, start_time },
                );
                assert(s1.room.state.wf());
                s1.lemma_check_end_keeps(key, picks, now);
            }
        }
    }

    /// Giving up keeps all in order.
    pub proof fn lemma_abort_keeps(self, key: usize, user: UserKey, picks: Seq<nat>, now: u64)
        requires
            self.room.wf(),
        ensures
            self.keeps(key, self.abort(user, picks, now).0),
    {
        let id = id_of(self.users, user);
        let s = Scene {
            room: RoomView { users_waiting: self.room.users_waiting.push(user), ..self.room },
            ..self
        };
        if let StateView::Playing { results, aborted, start_time } = s.room.state {
            if !results.contains_key(id) {
                let s1 = s.with_state(
                    StateView::Playing { results, aborted: aborted.insert(id), start_time },
                ).send(MessageView::Abort { user: id });
                assert(s1.room.state.wf());
                s1.lemma_check_end_keeps(key, picks, now);
            }
        }
    }

    /// So does telling a user who has just joined what the room is doing.
    pub proof fn lemma_brief_keeps(self, user: UserKey, picks: Seq<nat>, now: u64)
        requires
            self.room.wf(),
        ensures
            self.brief(user, picks, now).room.wf(),
            self.brief(user, picks, now).room.id == self.room.id,
            self.brief(user, picks, now).room.panel == self.room.panel,
            same_company(self.users, self.brief(user, picks, now).users),
    {
        match self.room.state {
            StateView::Playing { start_time, .. } => {
                let s = self.say(
                    "游戏还在进行中(已开始"@ + time_text(elapsed(now, start_time) as nat)
                        + "),请耐心等待其他玩家游玩结束"@,
                );
                s.lemma_check_game_time_keeps(picks, now);
            },
            StateView::WaitForReady { .. } => {
                let s = self.say("游戏已经在准备中了,请等待下一局游戏或请房主重新开始游戏"@);
                s.lemma_check_ready_time_keeps(picks, now);
            },
            StateView::SelectChart => {
                self.lemma_check_host_time_keeps(picks[0], now);
            },
        }
    }

    /// Whoever joins, and whoever is put out on that occasion, the room stays
    /// in order.
    pub proof fn lemma_join_keeps(
        self,
        key: usize,
        user: UserKey,
        monitor: bool,
        public: bool,
        picks: Seq<nat>,
        now: u64,
    )
        requires
            self.room.wf(),
        ensures
            self.keeps(key, self.join(user, key, monitor, public, picks, now).0),
    {
        let waiting = self.room.state !is SelectChart;
        lemma_others(self.users, self.room.users, Set::empty());
        if self.bars(user, monitor) is None {
            if self.room.add_user(self.users, user, monitor, waiting, now).1 {
                let s1 = self.welcome(user, monitor, public, now);
                let s2 = s1.brief(user, picks, now);
                assert(self.keeps(key, s1));
                s1.lemma_brief_keeps(user, picks, now);
                s1.lemma_company_keeps(key, s2);
                self.lemma_keeps_trans(key, s1, s2);
                let s3 = Scene { users: with_room(s2.users, user, Some(key)), ..s2 };
                assert(s2.keeps(key, s3));
                self.lemma_keeps_trans(key, s2, s3);
            }
        }
    }
}

} // verus!

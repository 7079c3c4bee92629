//! What the host sees of the panel, and what each of its entries does.
use vstd::prelude::*;
use crate::conduct::{
    law_company, law_hand_over_announced, law_voices, live, logged, said, whispered,
};
use crate::keeping::lemma_listed;
use crate::keys::{lemma_times, times, UserKey};
use crate::outbox::EffectView;
use crate::protocol::{MessageView, RefusalView, ServerCommandView};
use crate::room::{Fault, PanelView, RoomView};
use crate::scene::{main_menu, menu, menu_line, panel_text, Scene};
use crate::text::{joined, marked};
use crate::users::{
    lemma_others, lemma_with_listings, lemma_without_listings, name_of, names_of, with_listings, User,
    Users,
};

verus! {

/// An entry, with an arrow in front of it if the pointer stands on it.
pub open spec fn entry(text: Seq<char>, here: bool) -> Seq<char> {
    if here {
        "->"@ + text
    } else {
        "    "@ + text
    }
}

/// The names of players, one to a line; the pointer stands on line `at`, and the
/// way back is line 0.
pub open spec fn name_lines(users: Users, list: Seq<UserKey>, at: int) -> Seq<char>
    decreases list.len(),
{
    if list.len() == 0 {
        entry("返回"@, at == 0)
    } else {
        name_lines(users, list.drop_last(), at) + "\n"@ + entry(
            name_of(users, list.last()),
            at == list.len(),
        )
    }
}

/// What the host is shown while the first menu is open, with the pointer at `at`.
pub open spec fn first_shown(at: int) -> Seq<char> {
    "\n房主面板:\n"@ + entry("开始游戏"@, at == 0) + "\n"@ + entry("锁定房间"@, at == 1) + "\n"@
        + entry("循环模式"@, at == 2) + "\n"@ + entry("踢出玩家"@, at == 3) + "\n"@ + entry(
        "转移房主"@,
        at == 4,
    ) + "\n"@ + entry("公开房间"@, at == 5)
}

/// The first menu has six entries, one to a line.
pub proof fn law_first_menu(users: Users, panel: PanelView)
    requires
        panel.interface == 0,
    ensures
        panel_text(users, panel) == first_shown(panel.pointer_position as int),
{
    let at = panel.pointer_position;
    let entries = main_menu();
    let lines = Seq::new(entries.len(), |i: int| menu_line(entries[i], i == at));
    let rest = lines.drop_first();
    assert(lines.len() == 6);
    let m0 = rest.take(0);
    let m1 = rest.take(1);
    let m2 = rest.take(2);
    let m3 = rest.take(3);
    let m4 = rest.take(4);
    let m5 = rest.take(5);
    assert(m5 =~= rest);
    assert(m5.drop_last() =~= m4);
    assert(m4.drop_last() =~= m3);
    assert(m3.drop_last() =~= m2);
    assert(m2.drop_last() =~= m1);
    assert(m1.drop_last() =~= m0);
    assert(marked(m0, "\n"@) =~= Seq::<char>::empty());
    assert(marked(m1, "\n"@) == marked(m0, "\n"@) + "\n"@ + entry("锁定房间"@, at == 1));
    assert(marked(m2, "\n"@) == marked(m1, "\n"@) + "\n"@ + entry("循环模式"@, at == 2));
    assert(marked(m3, "\n"@) == marked(m2, "\n"@) + "\n"@ + entry("踢出玩家"@, at == 3));
    assert(marked(m4, "\n"@) == marked(m3, "\n"@) + "\n"@ + entry("转移房主"@, at == 4));
    assert(marked(m5, "\n"@) == marked(m4, "\n"@) + "\n"@ + entry("公开房间"@, at == 5));
    assert(joined(lines, "\n"@) == entry("开始游戏"@, at == 0) + marked(m5, "\n"@));
    assert(panel_text(users, panel) =~= first_shown(at as int));
}

/// The second menu has the way back and the players of the list, in its order.
pub proof fn law_second_menu(users: Users, panel: PanelView)
    requires
        panel.interface != 0,
    ensures
        panel_text(users, panel) == "\n房主面板:\n"@ + name_lines(
            users,
            panel.users,
            panel.pointer_position as int,
        ),
{
    lemma_name_lines(users, panel.users, panel.pointer_position as int);
    let entries = menu(users, panel);
    assert(entries =~= seq!["返回"@] + names_of(users, panel.users));
}

proof fn lemma_name_lines(users: Users, list: Seq<UserKey>, at: int)
    ensures
        ({
            let entries = seq!["返回"@] + names_of(users, list);
            joined(Seq::new(entries.len(), |i: int| menu_line(entries[i], i == at)), "\n"@)
                == name_lines(users, list, at)
        }),
    decreases list.len(),
{
    let entries = seq!["返回"@] + names_of(users, list);
    let lines = Seq::new(entries.len(), |i: int| menu_line(entries[i], i == at));
    assert(lines[0] == entry("返回"@, at == 0));
    if list.len() == 0 {
        assert(lines.drop_first() =~= Seq::empty());
        assert(joined(lines, "\n"@) =~= entry("返回"@, at == 0));
    } else {
        let less = list.drop_last();
        let fewer = seq!["返回"@] + names_of(users, less);
        let before = Seq::new(fewer.len(), |i: int| menu_line(fewer[i], i == at));
        lemma_name_lines(users, less, at);
        assert(lines.drop_first().drop_last() =~= before.drop_first());
        assert(lines.last() == entry(name_of(users, list.last()), at == list.len()));
        assert(before[0] == lines[0]);
        assert(joined(lines, "\n"@) =~= joined(before, "\n"@) + "\n"@ + lines.last());
    }
}

/// The host, and nobody else, is shown the panel. The first menu is shown as it
/// is; the second one lists the players of this moment. Who was on the list
/// before, or is on it now, is counted once less, or once more, for each time.
pub proof fn law_panel_shown(s: Scene)
    requires
        s.ok(),
        s.users.contains_key(s.room.host),
    ensures
        s.room.panel.interface == 0 ==> s.refresh_panel() == (Scene {
            out: s.out.push(
                whispered(s.room.host, first_shown(s.room.panel.pointer_position as int)),
            ),
            ..s
        }),
        s.room.panel.interface != 0 ==> {
            let after = s.refresh_panel();
            let list = live(s.users, s.room.users);
            &&& after.ok()
            &&& after.room == (RoomView {
                panel: PanelView { users: list, ..s.room.panel },
                ..s.room
            })
            &&& after.out == s.out.push(
                whispered(
                    s.room.host,
                    "\n房主面板:\n"@ + name_lines(
                        s.users,
                        list,
                        s.room.panel.pointer_position as int,
                    ),
                ),
            )
        },
{
    law_company(s);
    law_voices(s, MessageView::GameEnd, s.shown(), ServerCommandView::Pong);
    if s.room.panel.interface == 0 {
        law_first_menu(s.users, s.room.panel);
        assert(s.with_panel(s.fresh_panel()) =~= s);
    } else {
        law_second_menu(s.users, s.fresh_panel());
        lemma_listed(s.users, live(s.users, s.room.users), 0);
        let held = with_listings(s.users, live(s.users, s.room.users));
        assert(held.dom().contains(s.room.host));
        assert(held.contains_key(s.room.host));
    }
}

/// Whoever the list has, or had, is counted for each time that they are on it,
/// and changes in nothing else; who is then held by nothing is gone.
pub proof fn law_panel_counts(s: Scene, user: UserKey)
    requires
        s.ok(),
        s.room.panel.interface != 0,
        s.users.contains_key(user),
        times(s.room.panel.users, user) <= s.users[user].listings,
        s.users[user].listings + live(s.users, s.room.users).len() < u128::MAX,
    ensures
        ({
            let after = s.refresh_panel();
            let list = live(s.users, s.room.users);
            let u = s.users[user];
            let count = u.listings + times(list, user) - times(s.room.panel.users, user);
            &&& after.users.contains_key(user) <==> u.registered || u.holds > 0 || count > 0
                || times(s.room.panel.users, user) == 0
            &&& after.users.contains_key(user) ==> after.users[user] == (User {
                listings: count as u128,
                ..u
            })
        }),
{
    law_company(s);
    let list = live(s.users, s.room.users);
    lemma_times(list, user);
    lemma_with_listings(s.users, list, user);
    lemma_without_listings(with_listings(s.users, list), s.room.panel.users, user);
}

/// The pointer moves by one entry and the host is shown the panel, until the
/// sixth entry of the first menu or the last player of the second one; up, until
/// the first entry. At the end nothing happens.
pub proof fn law_pointer(s: Scene)
    requires
        s.room.panel.pointer_position < 255,
    ensures
        ({
            let at = s.room.panel.pointer_position;
            let last = if s.room.panel.interface == 0 {
                5
            } else {
                live(s.users, s.room.users).len() as int
            };
            &&& at < last ==> s.pointer_down() == (Scene {
                room: RoomView {
                    panel: PanelView { pointer_position: (at + 1) as u8, ..s.room.panel },
                    ..s.room
                },
                ..s
            }).refresh_panel()
            &&& at >= last ==> s.pointer_down() == s
            &&& at > 0 ==> s.pointer_up() == (Scene {
                room: RoomView {
                    panel: PanelView { pointer_position: (at - 1) as u8, ..s.room.panel },
                    ..s.room
                },
                ..s
            }).refresh_panel()
            &&& at == 0 ==> s.pointer_up() == s
        }),
{
    law_company(s);
}

/// The two keys that move the pointer are for the host alone: one moves it down,
/// the other one up.
pub proof fn law_keys(s: Scene, user: UserKey)
    requires
        s.users.contains_key(user),
    ensures
        ({
            let host = s.users.contains_key(s.room.host) && s.users[s.room.host].id
                == s.users[user].id;
            let only_host = Err::<(), RefusalView>(
                RefusalView::Text("只有房主才能进行此操作"@),
            );
            &&& host ==> s.press(user, true) == (s.pointer_down(), Ok::<(), RefusalView>(()))
            &&& host ==> s.press(user, false) == (s.pointer_up(), Ok::<(), RefusalView>(()))
            &&& !host ==> s.press(user, true) == (s, only_host)
            &&& !host ==> s.press(user, false) == (s, only_host)
        }),
{
}

/// What moving the pointer reports is what the host is shown, or nothing at an
/// end.
pub proof fn law_reported(s: Scene, entry_at: int)
    requires
        0 <= entry_at < 256,
    ensures
        s.pointer_report(false, entry_at) == (false, Seq::<char>::empty()),
        s.room.panel.interface == 0 ==> s.pointer_report(true, entry_at) == (
            true,
            first_shown(entry_at),
        ),
        s.room.panel.interface != 0 ==> s.pointer_report(true, entry_at) == (
            true,
            "\n房主面板:\n"@ + name_lines(s.users, live(s.users, s.room.users), entry_at),
        ),
{
    let t = s.pointed_at(entry_at);
    law_company(t);
    if s.room.panel.interface == 0 {
        law_first_menu(t.users, t.fresh_panel());
    } else {
        law_second_menu(t.users, t.fresh_panel());
    }
}

/// What each entry of the first menu does: start, lock, cycle mode, the list of
/// players, hand over, publish. Of the second menu: the first entry goes back, and
/// any other one puts a player out.
pub proof fn law_entries(s: Scene, user: UserKey, pick: nat, now: u64)
    ensures
        ({
            let at = s.room.panel.pointer_position;
            let done = s.pointer_ok(user, pick, now);
            let first = s.room.panel.interface == 0;
            let opened = |interface: u8|
                Scene {
                    room: RoomView {
                        panel: PanelView { interface, pointer_position: 0, ..s.room.panel },
                        ..s.room
                    },
                    ..s
                }.refresh_panel();
            &&& first && at == 0 ==> done == (s, (true, Seq::<char>::empty()))
            &&& first && at == 1 ==> done == s.toggle_lock()
            &&& first && at == 2 ==> done == s.toggle_cycle()
            &&& first && at == 3 ==> done == (opened(1), (false, "已操作\n(这不是错误消息)"@))
            &&& first && at == 4 ==> done == s.hand_over(now)
            &&& first && at == 5 ==> done == s.toggle_public()
            &&& !first && at == 0 ==> done == (opened(0), (false, "已操作\n(这不是错误消息)"@))
            &&& !first && at > 0 ==> done == s.kick_pointed(user, pick, now)
        }),
{
}

/// The lock is turned and everyone hears of it; the public room cannot be locked.
pub proof fn law_lock(s: Scene)
    ensures
        s.room.id == "public"@ ==> s.toggle_lock() == (s, (false, "公共房间不允许锁定房间"@)),
        s.room.id != "public"@ ==> s.toggle_lock() == (
            Scene {
                room: RoomView { locked: !s.room.locked, ..s.room },
                out: s.out.push(logged(s, MessageView::LockRoom { lock: !s.room.locked })),
                ..s
            },
            (
                false,
                if s.room.locked {
                    "已"@ + "取消"@ + "锁定\n(这不是错误消息)"@
                } else {
                    "已"@ + "锁定\n(这不是错误消息)"@
                },
            ),
        ),
{
    law_company(s);
    law_company(Scene { room: RoomView { locked: !s.room.locked, ..s.room }, ..s });
    assert("已"@ + Seq::<char>::empty() =~= "已"@);
}

/// Cycle mode is switched and everyone hears of it; not so in the public room.
pub proof fn law_cycle(s: Scene)
    ensures
        s.room.id == "public"@ ==> s.toggle_cycle() == (s, (false, "公共房间不允许修改模式"@)),
        s.room.id != "public"@ ==> s.toggle_cycle() == (
            Scene {
                room: RoomView { cycle: !s.room.cycle, ..s.room },
                out: s.out.push(logged(s, MessageView::CycleRoom { cycle: !s.room.cycle })),
                ..s
            },
            (
                false,
                if s.room.cycle {
                    "已切换至"@ + "普通"@ + "模式\n(这不是错误消息)"@
                } else {
                    "已切换至"@ + "循环"@ + "模式\n(这不是错误消息)"@
                },
            ),
        ),
{
    law_company(s);
    law_company(Scene { room: RoomView { cycle: !s.room.cycle, ..s.room }, ..s });
}

/// A room is put on the list of public rooms, or taken off; everyone in it is
/// told, and the list is made anew. Not so in the public room.
pub proof fn law_publish(s: Scene)
    ensures
        s.room.id == "public"@ ==> s.toggle_public() == (
            s,
            (false, "公共房间不允许修改房间公开状态"@),
        ),
        s.room.id != "public"@ ==> {
            let what = if s.room.public_enabled {
                "取消公开此房间."@
            } else {
                "公开此房间.\n所有人都可以在公开网站(pmpl.bzlzhh.top)上查看此房间(若此服务器支持)"@
            };
            s.toggle_public() == (
                Scene {
                    room: RoomView { public_enabled: !s.room.public_enabled, ..s.room },
                    out: s.out.push(said(s, "房主已"@ + what)).push(EffectView::RefreshPublicRooms),
                    ..s
                },
                (false, "已"@ + what + "\n(这不是错误消息)"@),
            )
        },
{
    law_company(s);
    law_company(
        Scene { room: RoomView { public_enabled: !s.room.public_enabled, ..s.room }, ..s },
    );
}

/// Handing over is announced, and the host is told to whom.
pub proof fn law_hand_over_entry(s: Scene, now: u64)
    requires
        s.ok(),
        live(s.users, s.room.users).len() > 0,
    ensures
        ({
            let after = s.pass_host(now, true);
            s.hand_over(now) == (
                after,
                (
                    false,
                    "已转移至 "@ + s.users[after.room.host].name@ + "\n(这不是错误消息)"@,
                ),
            )
        }),
{
    law_hand_over_announced(s, now, true);
    lemma_others(s.users, s.room.users, Set::empty());
    law_company(s);
}

/// The host puts out the player on whom the pointer stands. Everyone is told, the
/// player leaves the room, the pointer is back on the first entry and the list is
/// shown anew; who is not in the room any more cannot be put out, and a line
/// that the list does not have ends it.
pub proof fn law_kick(s: Scene, user: UserKey, pick: nat, now: u64)
    requires
        s.ok(),
        s.users.contains_key(user),
        s.room.panel.pointer_position > 0,
    ensures
        ({
            let panel = s.room.panel;
            let at = panel.pointer_position as int;
            let kicked = panel.users[at - 1];
            let done = s.kick_pointed(user, pick, now);
            let plays = exists|k: UserKey| #[trigger]
                s.room.users.contains(k) && s.users.contains_key(k) && s.users[k].id
                    == s.users[kicked].id;
            &&& at > panel.users.len() ==> done == (
                Scene { fault: Some(Fault::StaleMenu), ..s },
                (false, Seq::<char>::empty()),
            )
            &&& at <= panel.users.len() && s.users.contains_key(kicked) ==> {
                let name = s.users[kicked].name@;
                let told = Scene {
                    out: s.out.push(
                        said(s, name + " 已被房主 "@ + s.users[user].name@ + " 踢出"@),
                    ),
                    ..s
                };
                let left = told.leave(kicked, pick, now);
                &&& !plays ==> done == (s, (false, name + " 已离开"@))
                &&& plays && !left.ok() ==> done == (
                    left,
                    (false, "已踢出 "@ + name + "\n(这不是错误消息)"@),
                )
                &&& plays && left.ok() ==> done == (
                    (Scene {
                        room: RoomView {
                            panel: PanelView { pointer_position: 0, ..left.room.panel },
                            ..left.room
                        },
                        ..left
                    }).refresh_panel(),
                    (false, "已踢出 "@ + name + "\n(这不是错误消息)"@),
                )
            }
        }),
{
    law_company(s);
}

} // verus!

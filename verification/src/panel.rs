//! The host's panel, which is worked with three keys: up, down and confirm.
use vstd::prelude::*;
use crate::keys::{copy_keys, UserKey};
use crate::outbox::{Effect, Outbox};
use crate::protocol::Message;
use crate::room::{ActionState, Fault, OperationPanel, Room, RoomView};
use crate::scene::{done_text, main_menu, menu, menu_line, panel_text, scene, scene_after};
use crate::text::{join_texts, same_text, texts};
use crate::users::{lemma_others, UserTable};

verus! {

/// The entries of the menu that is open.
fn menu_entries(users: &UserTable, panel: &OperationPanel) -> (r: Vec<String>)
    requires
        panel@.interface <= 1,
    ensures
        texts(r@) == menu(users@, panel@),
{
    let mut r: Vec<String> = Vec::new();
    if panel.interface == 0 {
        r.push("开始游戏".to_string());
        r.push("锁定房间".to_string());
        r.push("循环模式".to_string());
        r.push("踢出玩家".to_string());
        r.push("转移房主".to_string());
        r.push("公开房间".to_string());
        assert(texts(r@) =~= main_menu());
    } else {
        r.push("返回".to_string());
        let mut names: Vec<String> = users.names(&panel.users);
        let ghost all = names@;
        r.append(&mut names);
        assert(texts(r@) =~= seq!["返回"@] + texts(all));
    }
    r
}

/// The menu that is open, as text.
pub fn panel_string(users: &UserTable, panel: &OperationPanel) -> (r: String)
    requires
        panel@.interface <= 1,
    ensures
        r@ == panel_text(users@, panel@),
{
    let entries: Vec<String> = menu_entries(users, panel);
    let ghost all = menu(users@, panel@);
    let ghost lines = Seq::new(
        all.len(),
        |i: int| menu_line(all[i], i == panel@.pointer_position),
    );
    let mut r: Vec<String> = Vec::new();
    let mut i: usize = 0;
    while i < entries.len()
        invariant
            i <= entries.len(),
            all == texts(entries@),
            r@.len() == i,
            lines == Seq::new(
                all.len(),
                |i: int| menu_line(all[i], i == panel@.pointer_position),
            ),
            forall|j: int| 0 <= j < i ==> (#[trigger] r@[j])@ == lines[j],
        decreases entries.len() - i,
    {
        let mark: &str = if i == panel.pointer_position as usize { "->" } else { "    " };
        r.push(mark.to_string().concat(entries[i].as_str()));
        i = i + 1;
    }
    assert(texts(r@) =~= lines);
    "\n房主面板:\n".to_string().concat(join_texts(&r, "\n").as_str())
}

impl Room {
    /// Tells whether this is the room that is open to everyone.
    pub fn is_public(&self) -> (r: bool)
        ensures
            r == (self@.id == "public"@),
    {
        same_text(self.id.as_str(), "public")
    }

    /// Shows the panel to the host anew.
    pub fn refresh_panel(&mut self, users: &mut UserTable, out: &mut Outbox) -> (r: Result<
        ActionState,
        Fault,
    >)
        requires
            old(self)@.panel.interface <= 1,
        ensures
            scene_after(*final(self), *final(users), *final(out), r) == scene(
                *old(self),
                *old(users),
                *old(out),
            ).refresh_panel(),
            r matches Ok(action) ==> action@ == (
                true,
                scene(*old(self), *old(users), *old(out)).shown(),
            ),
            final(self)@ == (RoomView {
                panel: scene(*old(self), *old(users), *old(out)).fresh_panel(),
                ..old(self)@
            }),
    {
        let ghost s0 = scene(*self, *users, *out);
        let before: Vec<UserKey> = copy_keys(&self.panel.users);
        if self.panel.interface == 1 {
            self.panel.users = self.users(users);
        }
        assert(self@ =~= RoomView { panel: s0.fresh_panel(), ..old(self)@ });
        let text: String = panel_string(users, &self.panel);
        if self.panel.interface == 1 {
            users.list_all(&self.panel.users);
        }
        let sent = self.send_as_server_to_host(users, text.clone(), out);
        if self.panel.interface == 1 {
            users.unlist_all(&before);
        }
        match sent {
            Ok(()) => Ok(ActionState(true, text)),
            Err(fault) => Err(fault),
        }
    }

    /// Moves the pointer one entry down.
    pub fn panel_pointer_down(&mut self, users: &mut UserTable, out: &mut Outbox) -> (r: Result<
        ActionState,
        Fault,
    >)
        requires
            old(self)@.wf(),
        ensures
            scene_after(*final(self), *final(users), *final(out), r) == scene(
                *old(self),
                *old(users),
                *old(out),
            ).pointer_down(),
            r matches Ok(action) ==> action@ == scene(
                *old(self),
                *old(users),
                *old(out),
            ).pointer_report(
                old(self)@.panel.pointer_position + 1 <= scene(
                    *old(self),
                    *old(users),
                    *old(out),
                ).menu_end(),
                old(self)@.panel.pointer_position + 1,
            ),
            final(self)@.wf(),
    {
        let ghost s0 = scene(*self, *users, *out);
        proof {
            lemma_others(users@, self.users@, Set::empty());
        }
        let end: u8 = if self.panel.interface == 0 {
            5
        } else {
            self.users(users).len() as u8
        };
        if self.panel.pointer_position + 1 > end {
            return Ok(ActionState(false, String::new()));
        }
        self.panel.pointer_position = self.panel.pointer_position + 1;
        assert(scene(*self, *users, *out) =~= s0.pointed_at(
            s0.room.panel.pointer_position + 1,
        ));
        self.refresh_panel(users, out)
    }

    /// Moves the pointer one entry up.
    pub fn panel_pointer_up(&mut self, users: &mut UserTable, out: &mut Outbox) -> (r: Result<
        ActionState,
        Fault,
    >)
        requires
            old(self)@.wf(),
        ensures
            scene_after(*final(self), *final(users), *final(out), r) == scene(
                *old(self),
                *old(users),
                *old(out),
            ).pointer_up(),
            r matches Ok(action) ==> action@ == scene(
                *old(self),
                *old(users),
                *old(out),
            ).pointer_report(
                old(self)@.panel.pointer_position > 0,
                old(self)@.panel.pointer_position - 1,
            ),
            final(self)@.wf(),
    {
        let ghost s0 = scene(*self, *users, *out);
        if self.panel.pointer_position == 0 {
            return Ok(ActionState(false, String::new()));
        }
        self.panel.pointer_position = self.panel.pointer_position - 1;
        assert(scene(*self, *users, *out) =~= s0.pointed_at(
            s0.room.panel.pointer_position - 1,
        ));
        self.refresh_panel(users, out)
    }

    fn toggle_lock(&mut self, users: &UserTable, out: &mut Outbox) -> (r: ActionState)
        ensures
            (scene(*final(self), *users, *final(out)), r@) == scene(
                *old(self),
                *users,
                *old(out),
            ).toggle_lock(),
    {
        if self.is_public() {
            return ActionState(false, "公共房间不允许锁定房间".to_string());
        }
        let lock: bool = !self.is_locked();
        self.locked = lock;
        self.send(users, Message::LockRoom { lock }, out);
        let not: String = if self.is_locked() { String::new() } else { "取消".to_string() };
        ActionState(
            false,
            "已".to_string().concat(not.as_str()).concat("锁定\n(这不是错误消息)"),
        )
    }

    fn toggle_cycle(&mut self, users: &UserTable, out: &mut Outbox) -> (r: ActionState)
        ensures
            (scene(*final(self), *users, *final(out)), r@) == scene(
                *old(self),
                *users,
                *old(out),
            ).toggle_cycle(),
    {
        if self.is_public() {
            return ActionState(false, "公共房间不允许修改模式".to_string());
        }
        let cycle: bool = !self.is_cycle();
        self.cycle = cycle;
        self.send(users, Message::CycleRoom { cycle }, out);
        let mode: &str = if self.is_cycle() { "循环" } else { "普通" };
        ActionState(
            false,
            "已切换至".to_string().concat(mode).concat("模式\n(这不是错误消息)"),
        )
    }

    fn toggle_public(&mut self, users: &UserTable, out: &mut Outbox) -> (r: ActionState)
        ensures
            (scene(*final(self), *users, *final(out)), r@) == scene(
                *old(self),
                *users,
                *old(out),
            ).toggle_public(),
    {
        if self.is_public() {
            return ActionState(false, "公共房间不允许修改房间公开状态".to_string());
        }
        self.public_enabled = !self.is_public_enabled();
        let state: &str = if self.is_public_enabled() {
            "公开此房间.\n所有人都可以在公开网站(pmpl.bzlzhh.top)上查看此房间(若此服务器支持)"
        } else {
            "取消公开此房间."
        };
        self.send_as_server(users, "房主已".to_string().concat(state), out);
        out.push(Effect::RefreshPublicRooms);
        ActionState(
            false,
            "已".to_string().concat(state).concat("\n(这不是错误消息)"),
        )
    }

    fn open_menu(&mut self, users: &mut UserTable, out: &mut Outbox, interface: u8) -> (r: Result<
        ActionState,
        Fault,
    >)
        requires
            interface <= 1,
        ensures
            scene_after(*final(self), *final(users), *final(out), r) == scene(
                *old(self),
                *old(users),
                *old(out),
            ).open_menu(interface),
            r matches Ok(action) ==> action@ == (false, done_text()),
    {
        self.panel.interface = interface;
        self.panel.pointer_position = 0;
        match self.refresh_panel(users, out) {
            Ok(_) => Ok(ActionState(false, "已操作\n(这不是错误消息)".to_string())),
            Err(fault) => Err(fault),
        }
    }

    fn kick_pointed(
        &mut self,
        users: &mut UserTable,
        out: &mut Outbox,
        user: UserKey,
        now: u64,
    ) -> (r: Result<ActionState, Fault>)
        requires
            old(self)@.wf(),
            old(self)@.panel.interface == 1,
            old(self)@.panel.pointer_position > 0,
        ensures
            exists|pick: nat|
                scene_after(*final(self), *final(users), *final(out), r) == (#[trigger] scene(
                    *old(self),
                    *old(users),
                    *old(out),
                ).kick_pointed(user, pick, now)).0,
            r matches Ok(action) ==> action@ == scene(
                *old(self),
                *old(users),
                *old(out),
            ).kick_pointed(user, 0, now).1,
    {
        let ghost s0 = scene(*self, *users, *out);
        let pointer: usize = self.panel.pointer_position as usize;
        if pointer > self.panel.users.len() {
            assert(s0.kick_pointed(user, 0, now).0 == s0.failed(Fault::StaleMenu));
            return Err(Fault::StaleMenu);
        }
        let kicked: UserKey = self.panel.users[pointer - 1];
        let name: String = users.name(kicked);
        if !users.has_id(&self.users, users.id(kicked)) {
            assert(s0.kick_pointed(user, 0, now).0 == s0);
            return Ok(ActionState(false, name.concat(" 已离开")));
        }
        self.send_as_server(
            users,
            name.clone().concat(" 已被房主 ").concat(users.name(user).as_str()).concat(" 踢出"),
            out,
        );
        let ghost s1 = scene(*self, *users, *out);
        let gone = self.on_user_leave(users, out, kicked, now);
        let ghost s2 = scene_after(*self, *users, *out, gone);
        let ghost pick = choose|pick: nat| s2 == #[trigger] s1.leave(kicked, pick, now);
        proof {
            s1.lemma_leave_keeps(kicked, pick, now);
        }
        match gone {
            Ok(_) => {},
            Err(fault) => {
                assert(s0.kick_pointed(user, pick, now).0 == s2);
                return Err(fault);
            },
        }
        self.panel.pointer_position = 0;
        assert(scene(*self, *users, *out) =~= s2.pointed_at(0));
        let r = match self.refresh_panel(users, out) {
            Ok(_) => Ok(
                ActionState(
                    false,
                    "已踢出 ".to_string().concat(name.as_str()).concat("\n(这不是错误消息)"),
                ),
            ),
            Err(fault) => Err(fault),
        };
        assert(scene_after(*self, *users, *out, r) == s0.kick_pointed(user, pick, now).0);
        r
    }

    /// Confirms the entry that the pointer stands on. The first part of the
    /// result says whether the game is to start.
    pub fn panel_pointer_ok(
        &mut self,
        users: &mut UserTable,
        out: &mut Outbox,
        user: UserKey,
        now: u64,
    ) -> (r: Result<ActionState, Fault>)
        requires
            old(self)@.wf(),
        ensures
            exists|pick: nat|
                scene_after(*final(self), *final(users), *final(out), r) == (#[trigger] scene(
                    *old(self),
                    *old(users),
                    *old(out),
                ).pointer_ok(user, pick, now)).0,
            r matches Ok(action) ==> action@ == scene(
                *old(self),
                *old(users),
                *old(out),
            ).pointer_ok(user, 0, now).1,
    {
        let ghost s0 = scene(*self, *users, *out);
        let ghost unpicked = s0.pointer_ok(user, 0, now).0;
        let pointer: u8 = self.panel.pointer_position;
        if self.panel.interface == 0 {
            let r = match pointer {
                0 => Ok(ActionState(true, String::new())),
                1 => Ok(self.toggle_lock(users, out)),
                2 => Ok(self.toggle_cycle(users, out)),
                3 => self.open_menu(users, out, 1),
                4 => match self.pass_host(users, out, now, true) {
                    Ok(new) => Ok(
                        ActionState(
                            false,
                            "已转移至 ".to_string().concat(users.name(new).as_str()).concat(
                                "\n(这不是错误消息)",
                            ),
                        ),
                    ),
                    Err(fault) => Err(fault),
                },
                _ => Ok(self.toggle_public(users, out)),
            };
            assert(scene_after(*self, *users, *out, r) == unpicked);
            r
        } else if pointer == 0 {
            let r = self.open_menu(users, out, 0);
            assert(scene_after(*self, *users, *out, r) == unpicked);
            r
        } else {
            let r = self.kick_pointed(users, out, user, now);
            let ghost pick = choose|pick: nat|
                scene_after(*self, *users, *out, r) == (#[trigger] s0.kick_pointed(
                    user,
                    pick,
                    now,
                )).0;
            assert(scene_after(*self, *users, *out, r) == s0.pointer_ok(user, pick, now).0);
            r
        }
    }
}

} // verus!

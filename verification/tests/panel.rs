use phira_mp::outbox::Effect;
use phira_mp::protocol::{ClientCommand, Message, Refusal, ServerCommand, SERVER_USER};
use phira_mp::room::{ActionState, Fault};
use phira_mp::server::{process, Outcome, ServerState};

fn room_with(id: &str, users: &[u64]) -> ServerState {
    let mut server = ServerState::new();
    for user in users {
        // Keys are handed out in order, so that each user's key is their id.
        server.next_key = *user;
        server.sign_in(*user as u128, *user as i32, format!("u{user}"), String::new());
    }
    let cmd = ClientCommand::CreateRoom { id: id.to_string() };
    process(&mut server, users[0], cmd, 0).unwrap();
    for user in &users[1..] {
        let cmd = ClientCommand::JoinRoom { id: id.to_string(), monitor: false };
        process(&mut server, *user, cmd, 0).unwrap();
    }
    server.out.take();
    server
}

fn up(server: &mut ServerState) -> ServerCommand {
    reply(process(server, 1, ClientCommand::LockRoom { lock: true }, 0))
}

fn down(server: &mut ServerState) -> ServerCommand {
    reply(process(server, 1, ClientCommand::CycleRoom { cycle: false }, 0))
}

fn ok(server: &mut ServerState) -> ServerCommand {
    reply(process(server, 1, ClientCommand::RequestStart, 0))
}

fn reply(outcome: Result<Outcome, Fault>) -> ServerCommand {
    match outcome {
        Ok(Outcome::Reply(Some(reply))) => reply,
        other => panic!("{other:?}"),
    }
}

fn told(t: &str) -> ServerCommand {
    ServerCommand::RequestStart(Err(Refusal::Text(t.to_string())))
}

fn say(to: &[u64], content: &str) -> Effect {
    Effect::Send {
        to: to.to_vec(),
        cmd: ServerCommand::Message(Message::Chat { user: SERVER_USER, content: content.to_string() }),
    }
}

fn log(to: &[u64], message: Message) -> Effect {
    Effect::Send { to: to.to_vec(), cmd: ServerCommand::Message(message) }
}

fn move_to(server: &mut ServerState, entry: u8) {
    for _ in 0..entry {
        assert_eq!(down(server), ServerCommand::CycleRoom(Ok(())));
    }
    server.out.take();
}

#[test]
fn the_pointer_moves_between_the_ends_of_the_menu() {
    let mut server = room_with("cus1", &[1]);
    assert_eq!(up(&mut server), ServerCommand::LockRoom(Ok(())));
    assert!(server.out.take().is_empty());
    down(&mut server);
    assert_eq!(
        server.out.take(),
        vec![say(
            &[1],
            "\n房主面板:\n    开始游戏\n->锁定房间\n    循环模式\n    踢出玩家\n    转移房主\n    公开房间"
        )]
    );
    for _ in 0..9 {
        down(&mut server);
    }
    assert_eq!(server.rooms[0].room.panel().pointer_position, 5);
    assert_eq!(server.out.take().len(), 4);
    up(&mut server);
    assert_eq!(server.rooms[0].room.panel().pointer_position, 4);
    down(&mut server);
    assert_eq!(server.rooms[0].room.panel().pointer_position, 5);
}

#[test]
fn moving_the_pointer_reports_the_panel() {
    let mut server = room_with("cus1", &[1]);
    let room = &mut server.rooms[0].room;
    let shown = room.panel_pointer_down(&mut server.users, &mut server.out);
    assert_eq!(
        shown,
        Ok(ActionState(
            true,
            "\n房主面板:\n    开始游戏\n->锁定房间\n    循环模式\n    踢出玩家\n    转移房主\n    公开房间".to_string()
        ))
    );
    assert_eq!(shown.clone().unwrap().clone(), shown.unwrap());
    assert!(room.panel_pointer_up(&mut server.users, &mut server.out).unwrap().0);
    assert_eq!(
        room.panel_pointer_up(&mut server.users, &mut server.out),
        Ok(ActionState(false, String::new()))
    );
}

#[test]
fn only_the_host_works_the_panel() {
    let mut server = room_with("cus1", &[1, 3]);
    let no = || Err(Refusal::Text("只有房主才能进行此操作".to_string()));
    assert_eq!(
        reply(process(&mut server, 3, ClientCommand::LockRoom { lock: true }, 0)),
        ServerCommand::LockRoom(no())
    );
    assert_eq!(
        reply(process(&mut server, 3, ClientCommand::CycleRoom { cycle: true }, 0)),
        ServerCommand::CycleRoom(no())
    );
    assert_eq!(
        reply(process(&mut server, 3, ClientCommand::RequestStart, 0)),
        ServerCommand::RequestStart(no())
    );
    assert!(server.out.take().is_empty());
}

#[test]
fn the_room_is_locked_and_unlocked() {
    let mut server = room_with("cus1", &[1, 3]);
    move_to(&mut server, 1);
    assert_eq!(ok(&mut server), told("已锁定\n(这不是错误消息)"));
    assert!(server.rooms[0].room.is_locked());
    assert_eq!(server.out.take(), vec![log(&[1, 3], Message::LockRoom { lock: true })]);
    assert_eq!(ok(&mut server), told("已取消锁定\n(这不是错误消息)"));
    assert!(!server.rooms[0].room.is_locked());
    assert_eq!(server.out.take(), vec![log(&[1, 3], Message::LockRoom { lock: false })]);
}

#[test]
fn cycle_mode_is_switched() {
    let mut server = room_with("cus1", &[1]);
    move_to(&mut server, 2);
    assert_eq!(ok(&mut server), told("已切换至普通模式\n(这不是错误消息)"));
    assert!(!server.rooms[0].room.is_cycle());
    assert_eq!(server.out.take(), vec![log(&[1], Message::CycleRoom { cycle: false })]);
    assert_eq!(ok(&mut server), told("已切换至循环模式\n(这不是错误消息)"));
    assert!(server.rooms[0].room.is_cycle());
}

#[test]
fn the_room_is_put_on_the_public_list_and_taken_off() {
    let mut server = room_with("cus1", &[1]);
    move_to(&mut server, 5);
    let site = "公开此房间.\n所有人都可以在公开网站(pmpl.bzlzhh.top)上查看此房间(若此服务器支持)";
    assert_eq!(ok(&mut server), told(&format!("已{site}\n(这不是错误消息)")));
    assert_eq!(
        server.out.take(),
        vec![say(&[1], &format!("房主已{site}")), Effect::RefreshPublicRooms]
    );
    assert!(server.rooms[0].room.is_public_enabled());
    assert_eq!(ok(&mut server), told("已取消公开此房间.\n(这不是错误消息)"));
    assert_eq!(
        server.out.take(),
        vec![say(&[1], "房主已取消公开此房间."), Effect::RefreshPublicRooms]
    );
    assert!(!server.rooms[0].room.is_public_enabled());
}

#[test]
fn the_open_room_has_no_switches() {
    let mut server = room_with("public", &[1]);
    assert!(server.rooms[0].room.is_public());
    move_to(&mut server, 1);
    assert_eq!(ok(&mut server), told("公共房间不允许锁定房间"));
    move_to(&mut server, 1);
    assert_eq!(ok(&mut server), told("公共房间不允许修改模式"));
    move_to(&mut server, 3);
    assert_eq!(ok(&mut server), told("公共房间不允许修改房间公开状态"));
    let room = &server.rooms[0].room;
    assert!(!room.is_locked() && room.is_cycle() && !room.is_public_enabled());
    assert!(server.out.take().is_empty());
}

#[test]
fn the_host_is_handed_on_in_a_circle() {
    let mut server = room_with("cus1", &[1, 3, 4]);
    move_to(&mut server, 4);
    assert_eq!(ok(&mut server), told("已转移至 u3\n(这不是错误消息)"));
    assert_eq!(
        server.out.take(),
        vec![
            log(&[1, 3, 4], Message::NewHost { user: 3 }),
            Effect::Send { to: vec![1], cmd: ServerCommand::ChangeHost(false) },
            say(&[1, 3, 4], "原房主 u1 已将房主转移至 u3"),
            Effect::Send { to: vec![3], cmd: ServerCommand::ChangeHost(true) },
            say(&[3], "\n[重要] 房主面板(开始游戏=确定;锁定房间=↑;循环模式=↓):\n"),
        ]
    );
    for (host, next) in [(3, 4), (4, 1), (1, 3)] {
        assert_eq!(server.rooms[0].room.host(&server.users), host);
        process(&mut server, host, ClientCommand::RequestStart, 0).unwrap();
        assert_eq!(server.rooms[0].room.host(&server.users), next);
    }
}

#[test]
fn a_player_is_picked_from_the_second_menu_and_put_out() {
    let mut server = room_with("cus1", &[1, 3, 4]);
    move_to(&mut server, 3);
    assert_eq!(ok(&mut server), told("已操作\n(这不是错误消息)"));
    assert_eq!(server.out.take(), vec![say(&[1], "\n房主面板:\n->返回\n    u1\n    u3\n    u4")]);
    for _ in 0..9 {
        down(&mut server);
    }
    assert_eq!(server.rooms[0].room.panel().pointer_position, 3);
    server.out.take();
    up(&mut server);
    assert_eq!(server.out.take(), vec![say(&[1], "\n房主面板:\n    返回\n    u1\n->u3\n    u4")]);
    assert_eq!(ok(&mut server), told("已踢出 u3\n(这不是错误消息)"));
    assert_eq!(
        server.out.take(),
        vec![
            say(&[1, 3, 4], "u3 已被房主 u1 踢出"),
            log(&[1, 3, 4], Message::LeaveRoom { user: 3, name: "u3".to_string() }),
            say(&[1], "\n房主面板:\n->返回\n    u1\n    u4"),
        ]
    );
    assert_eq!(server.rooms[0].room.users(&server.users), vec![1, 4]);
    assert_eq!(server.users.room(3), None);
    assert_eq!(ok(&mut server), told("已操作\n(这不是错误消息)"));
    assert_eq!(server.rooms[0].room.panel().interface, 0);
}

#[test]
fn who_has_left_cannot_be_put_out() {
    let mut server = room_with("cus1", &[1, 3]);
    move_to(&mut server, 3);
    ok(&mut server);
    move_to(&mut server, 2);
    process(&mut server, 3, ClientCommand::LeaveRoom, 0).unwrap();
    server.out.take();
    assert_eq!(ok(&mut server), told("u3 已离开"));
    assert!(server.out.take().is_empty());
}

#[test]
fn a_menu_that_has_shrunk_below_the_pointer_is_stale() {
    let mut server = room_with("cus1", &[1, 3, 4]);
    move_to(&mut server, 3);
    ok(&mut server);
    move_to(&mut server, 3);
    process(&mut server, 3, ClientCommand::LeaveRoom, 0).unwrap();
    process(&mut server, 4, ClientCommand::LeaveRoom, 0).unwrap();
    up(&mut server);
    assert_eq!(server.rooms[0].room.panel().pointer_position, 2);
    assert_eq!(
        process(&mut server, 1, ClientCommand::RequestStart, 0),
        Err(Fault::StaleMenu)
    );
}

#[test]
fn a_host_who_puts_themselves_out_is_followed() {
    let mut server = room_with("cus1", &[1, 3]);
    move_to(&mut server, 3);
    ok(&mut server);
    move_to(&mut server, 1);
    assert_eq!(ok(&mut server), told("已踢出 u1\n(这不是错误消息)"));
    assert_eq!(server.rooms[0].room.host(&server.users), 3);
    assert_eq!(server.rooms[0].room.users(&server.users), vec![3]);
}

#[test]
fn who_is_on_the_list_of_players_is_still_there() {
    let mut server = room_with("cus1", &[1, 3, 4]);
    move_to(&mut server, 3);
    ok(&mut server);
    move_to(&mut server, 2);
    assert_eq!(server.hang_up(3, 3, 5), Ok(Some(0)));
    assert_eq!(server.dangle_expired(3, 0, 15), Ok(()));
    assert_eq!(server.key_of(3), None);
    assert_eq!(server.users.room(3), None);
    assert!(server.users.get(3).is_some());
    assert_eq!(server.rooms[0].room.users(&server.users), vec![1, 4]);
    assert_eq!(ok(&mut server), told("u3 已离开"));
    // Once the list is made anew, nothing holds them.
    up(&mut server);
    assert!(server.users.get(3).is_none());
}

#[test]
fn it_is_the_user_on_the_list_who_is_put_out() {
    let mut server = room_with("cus1", &[1, 3, 4]);
    move_to(&mut server, 3);
    ok(&mut server);
    move_to(&mut server, 2);
    server.hang_up(3, 3, 5).unwrap();
    server.dangle_expired(3, 0, 15).unwrap();
    let (again, _) = server.sign_in(13, 3, "new".to_string(), String::new());
    assert_eq!(again, 5);
    let cmd = ClientCommand::JoinRoom { id: "cus1".to_string(), monitor: false };
    process(&mut server, again, cmd, 15).unwrap();
    assert_eq!(server.rooms[0].room.users(&server.users), vec![1, 4, 5]);
    assert_eq!(ok(&mut server), told("已踢出 u3\n(这不是错误消息)"));
    // Whoever has their id is off the list, but the new one was not put out.
    assert_eq!(server.rooms[0].room.users(&server.users), vec![1, 4]);
    assert_eq!(server.users.room(again), Some(0));
    assert!(server.users.get(3).is_none());
}

#[test]
fn a_room_that_is_given_up_holds_nobody() {
    let mut server = room_with("cus1", &[1]);
    move_to(&mut server, 3);
    ok(&mut server);
    assert_eq!(server.rooms[0].room.panel().users, vec![1]);
    assert_eq!(server.users.get(1).unwrap().listings, 1);
    process(&mut server, 1, ClientCommand::LeaveRoom, 0).unwrap();
    assert_eq!(server.find("cus1"), None);
    assert!(server.rooms[0].given_up);
    assert!(server.rooms[0].room.panel().users.is_empty());
    assert_eq!(server.users.get(1).unwrap().listings, 0);
}

#[test]
fn a_room_that_is_still_watched_is_not_given_up() {
    let mut server = room_with("cus1", &[1]);
    server.sign_in(2, 2, "u2".to_string(), String::new());
    let cmd = ClientCommand::JoinRoom { id: "cus1".to_string(), monitor: true };
    process(&mut server, 2, cmd, 0).unwrap();
    move_to(&mut server, 3);
    ok(&mut server);
    process(&mut server, 1, ClientCommand::LeaveRoom, 0).unwrap();
    assert_eq!(server.find("cus1"), None);
    assert_eq!(server.users.room(2), Some(0));
    assert!(!server.rooms[0].given_up);
    assert_eq!(server.users.get(1).unwrap().listings, 1);
    process(&mut server, 2, ClientCommand::LeaveRoom, 0).unwrap();
    assert!(server.rooms[0].given_up);
    assert_eq!(server.users.get(1).unwrap().listings, 0);
}

#[test]
fn a_request_under_way_keeps_the_room_and_its_list() {
    let mut server = room_with("cus1", &[1, 3]);
    move_to(&mut server, 3);
    ok(&mut server);
    let asked = process(&mut server, 1, ClientCommand::SelectChart { id: 11 }, 0);
    assert_eq!(asked, Ok(Outcome::FetchChart { id: 11, room: 0 }));
    server.hang_up(3, 3, 5).unwrap();
    server.dangle_expired(3, 0, 15).unwrap();
    process(&mut server, 1, ClientCommand::LeaveRoom, 16).unwrap();
    assert_eq!(server.find("cus1"), None);
    assert!(!server.rooms[0].given_up);
    assert_eq!(server.rooms[0].requests, 1);
    assert!(server.users.get(3).is_some());
    server.chart_fetched(1, 0, Err("timeout".to_string()));
    assert!(server.rooms[0].given_up);
    assert_eq!(server.rooms[0].requests, 0);
    assert!(server.users.get(3).is_none());
    assert!(server.users.get(1).is_some());
}

#[test]
fn a_room_whose_last_user_is_gone_is_given_up() {
    let mut server = room_with("cus1", &[1]);
    // The monitor has two connections, and is no longer known once the newer
    // one is lost.
    server.sign_in(2, 2, "u2".to_string(), String::new());
    server.sign_in(12, 2, "u2".to_string(), String::new());
    let watch = |id: &str| ClientCommand::JoinRoom { id: id.to_string(), monitor: true };
    process(&mut server, 2, watch("cus1"), 0).unwrap();
    server.hang_up(2, 12, 1).unwrap();
    server.dangle_expired(2, 0, 11).unwrap();
    assert_eq!(server.key_of(2), None);
    process(&mut server, 2, watch("cus1"), 12).unwrap();
    move_to(&mut server, 3);
    ok(&mut server);
    process(&mut server, 1, ClientCommand::LeaveRoom, 13).unwrap();
    assert!(!server.rooms[0].given_up);
    assert_eq!(server.hang_up(2, 2, 14), Ok(None));
    assert!(server.users.get(2).is_none());
    assert!(server.rooms[0].given_up);
    assert_eq!(server.users.get(1).unwrap().listings, 0);
}

#[test]
fn opening_the_list_and_going_back_changes_nothing_else() {
    let mut server = room_with("cus1", &[1, 3]);
    move_to(&mut server, 3);
    assert_eq!(ok(&mut server), told("已操作\n(这不是错误消息)"));
    let panel = server.rooms[0].room.panel();
    assert_eq!((panel.interface, panel.pointer_position), (1, 0));
    assert_eq!(ok(&mut server), told("已操作\n(这不是错误消息)"));
    let room = &server.rooms[0].room;
    assert_eq!((room.panel().interface, room.panel().pointer_position), (0, 0));
    assert_eq!(room.users(&server.users), vec![1, 3]);
    assert_eq!(room.host(&server.users), 1);
    assert!(room.is_cycle() && !room.is_locked() && !room.is_public_enabled());
    assert_eq!(
        server.out.take(),
        vec![
            say(&[1], "\n房主面板:\n->返回\n    u1\n    u3"),
            say(
                &[1],
                "\n房主面板:\n->开始游戏\n    锁定房间\n    循环模式\n    踢出玩家\n    转移房主\n    公开房间"
            ),
        ]
    );
}

#[test]
fn a_new_list_lets_go_of_nobody_on_it() {
    let mut server = room_with("cus1", &[1, 3, 4]);
    move_to(&mut server, 3);
    ok(&mut server);
    for _ in 0..3 {
        down(&mut server);
    }
    process(&mut server, 4, ClientCommand::LeaveRoom, 0).unwrap();
    up(&mut server);
    assert_eq!(server.rooms[0].room.panel().users, vec![1, 3]);
    for (user, listings) in [(1, 1), (3, 1), (4, 0)] {
        assert_eq!(server.users.get(user).unwrap().listings, listings);
    }
}

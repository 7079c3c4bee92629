use phira_mp::outbox::Effect;
use phira_mp::protocol::{
    ClientCommand, JudgeEvent, Message, Refusal, RoomState, ServerCommand, TextKey, TouchFrame,
    UserInfo, NO_GAME_TIME, SERVER_USER,
};
use phira_mp::ranking::{Accuracy, Record};
use phira_mp::room::{Chart, Fault, InternalRoomState, Room, ROOM_MAX_USERS};
use phira_mp::server::{process, Outcome, ServerState};
use phira_mp::users::User;

const HINT: &str = "\n[重要] 房主面板(开始游戏=确定;锁定房间=↑;循环模式=↓):\n";

fn serving(users: &[i32]) -> ServerState {
    let mut server = ServerState::new();
    for id in users {
        // Keys are handed out in order, so that each user's key is their id.
        server.next_key = *id as u64;
        let who = format!("u{id}");
        let (key, _) = server.sign_in(*id as u128 + 1000, *id, who, "zh-CN".to_string());
        assert_eq!(key, *id as u64);
    }
    server
}

fn run(server: &mut ServerState, user: u64, cmd: ClientCommand, now: u64) -> ServerCommand {
    match process(server, user, cmd, now) {
        Ok(Outcome::Reply(Some(reply))) => reply,
        other => panic!("no reply but {other:?}"),
    }
}

fn create(server: &mut ServerState, user: u64, id: &str, now: u64) {
    let cmd = ClientCommand::CreateRoom { id: id.to_string() };
    assert_eq!(run(server, user, cmd, now), ServerCommand::CreateRoom(Ok(())));
}

fn try_join(server: &mut ServerState, user: u64, id: &str, monitor: bool, now: u64) -> ServerCommand {
    run(server, user, ClientCommand::JoinRoom { id: id.to_string(), monitor }, now)
}

fn join(server: &mut ServerState, user: u64, id: &str, now: u64) {
    assert!(matches!(try_join(server, user, id, false, now), ServerCommand::JoinRoom(Ok(_))));
}

fn text(t: &str) -> Refusal {
    Refusal::Text(t.to_string())
}

fn info(id: i32) -> UserInfo {
    UserInfo { id, name: format!("u{id}"), monitor: false }
}

fn say(to: &[u64], content: &str) -> Effect {
    Effect::Send {
        to: to.to_vec(),
        cmd: ServerCommand::Message(Message::Chat { user: SERVER_USER, content: content.to_string() }),
    }
}

fn log(to: &[u64], message: Message) -> Effect {
    Effect::Send { to: to.to_vec(), cmd: ServerCommand::Message(message) }
}

fn send(to: &[u64], cmd: ServerCommand) -> Effect {
    Effect::Send { to: to.to_vec(), cmd }
}

fn chart(server: &mut ServerState, user: u64) {
    let outcome = process(server, user, ClientCommand::SelectChart { id: 11 }, 0).unwrap();
    let Outcome::FetchChart { id, room } = outcome else { panic!("{outcome:?}") };
    let reply = server.chart_fetched(user, room, Ok(Chart { id, name: "song".to_string() }));
    assert_eq!(reply, Outcome::Reply(Some(ServerCommand::SelectChart(Ok(())))));
}

fn record(player: i32, score: i32) -> Record {
    Record {
        player,
        score,
        accuracy: Accuracy { bits: 1.0f32.to_bits(), percent: "100.00".to_string() },
        full_combo: true,
    }
}

fn upload(server: &mut ServerState, user: u64, score: i32, now: u64) -> ServerCommand {
    let outcome = process(server, user, ClientCommand::Played { id: 5 }, now).unwrap();
    let Outcome::FetchRecord { id, room } = outcome else { panic!("{outcome:?}") };
    assert_eq!(id, 5);
    match server.record_fetched(user, room, Ok(record(user as i32, score)), now) {
        Ok(Outcome::Reply(Some(reply))) => reply,
        other => panic!("{other:?}"),
    }
}

/// A room `cus1` with the given players, the first of them its host, in which
/// a game has begun at time 1000.
fn playing(users: &[u64]) -> ServerState {
    let mut server = serving(&[1, 2, 3, 4, 5, 6]);
    create(&mut server, users[0], "cus1", 900);
    for id in &users[1..] {
        join(&mut server, *id, "cus1", 900);
    }
    chart(&mut server, users[0]);
    assert_eq!(
        run(&mut server, users[0], ClientCommand::RequestStart, 1000),
        ServerCommand::RequestStart(Ok(()))
    );
    for id in &users[1..] {
        assert_eq!(run(&mut server, *id, ClientCommand::Ready, 1000), ServerCommand::Ready(Ok(())));
    }
    assert!(matches!(server.rooms[0].room.state, InternalRoomState::Playing { .. }));
    server.out.take();
    server
}

#[test]
fn a_room_of_ones_own_is_created_and_announced() {
    let mut server = serving(&[1]);
    create(&mut server, 1, "cus1", 50);
    assert_eq!(
        server.out.take(),
        vec![
            log(&[1], Message::CreateRoom { user: 1 }),
            say(&[1], "欢迎创建房间! 本服务器使用由BZLZHH修改的服务端"),
            say(&[1], "提示:使用房主面板开启公开房间,可以让其他人看到此房间哦"),
            say(&[1], HINT),
        ]
    );
    assert_eq!(server.find("cus1"), Some(0));
    assert_eq!(server.users.room(1), Some(0));
    let room = &server.rooms[0].room;
    assert_eq!(room.host(&server.users), 1);
    assert_eq!(room.users(&server.users), vec![1]);
    assert_eq!(room.host_time, 50);
    assert!(room.is_cycle() && !room.is_locked() && !room.is_live() && !room.is_public_enabled());
}

#[test]
fn any_other_id_leads_to_the_room_that_is_open_to_everyone() {
    for id in ["public", "cu", "", "xcus", "Cus1", "房间号"] {
        let mut server = serving(&[1]);
        create(&mut server, 1, id, 50);
        assert_eq!(
            server.out.take(),
            vec![
                log(&[1], Message::CreateRoom { user: 1 }),
                say(&[1], "感谢创建该服务器的public房间! 本服务器使用由BZLZHH修改的服务端\n若您不想创建public房间,请重新创建一个房间号以cus开头的房间"),
                say(&[1], HINT),
            ]
        );
        assert_eq!(server.find("public"), Some(0));
    }
}

#[test]
fn an_id_is_given_out_once() {
    let mut server = serving(&[1, 2, 3, 4]);
    create(&mut server, 1, "cus1", 0);
    create(&mut server, 3, "lobby", 0);
    server.out.take();
    assert_eq!(
        run(&mut server, 2, ClientCommand::CreateRoom { id: "cus1".to_string() }, 0),
        ServerCommand::CreateRoom(Err(Refusal::Localized(TextKey::CreateIdOccupied)))
    );
    assert_eq!(
        run(&mut server, 4, ClientCommand::CreateRoom { id: "other".to_string() }, 0),
        ServerCommand::CreateRoom(Err(text("用户创建的房间ID必须以cus开头")))
    );
    assert_eq!(
        run(&mut server, 1, ClientCommand::CreateRoom { id: "cus2".to_string() }, 0),
        ServerCommand::CreateRoom(Err(text("你已经在房间中了")))
    );
    assert!(server.out.take().is_empty());
    assert_eq!(server.rooms.len(), 2);
}

#[test]
fn a_user_joins_and_everyone_hears_of_it() {
    let mut server = serving(&[1, 2]);
    create(&mut server, 1, "cus1", 0);
    server.out.take();
    let reply = try_join(&mut server, 2, "cus1", false, 0);
    let ServerCommand::JoinRoom(Ok(response)) = reply else { panic!("{reply:?}") };
    assert_eq!(response.state, RoomState::SelectChart(None));
    assert_eq!(response.users, vec![info(1), info(2)]);
    assert!(response.live);
    assert_eq!(
        server.out.take(),
        vec![
            send(&[1, 2], ServerCommand::OnJoinRoom(info(2))),
            log(&[1, 2], Message::JoinRoom { user: 2, name: "u2".to_string() }),
            say(&[1, 2], "欢迎用户 u2 进入此房间! 本服务器使用由BZLZHH修改的服务端"),
        ]
    );
    assert_eq!(server.users.room(2), Some(0));
}

#[test]
fn the_open_room_greets_in_its_own_words() {
    let mut server = serving(&[1, 2]);
    create(&mut server, 1, "public", 0);
    server.out.take();
    join(&mut server, 2, "anything", 0);
    assert_eq!(
        server.out.take()[2],
        say(&[1, 2], "欢迎用户 u2 进入此服务器的public房间! 本服务器使用由BZLZHH修改的服务端")
    );
}

#[test]
fn joining_is_refused_for_each_reason() {
    let mut server = serving(&[1, 2, 3]);
    let missing = "房间不存在\n你也可以输入不以cus开头的任意房间ID以加入公共房间\n(若你尝试加入public房间仍提示不存在,请创建public房间)";
    assert_eq!(
        try_join(&mut server, 1, "cus1", false, 0),
        ServerCommand::JoinRoom(Err(text(missing)))
    );
    create(&mut server, 1, "cus1", 0);
    assert_eq!(
        try_join(&mut server, 1, "cus1", false, 0),
        ServerCommand::JoinRoom(Err(text("你已经在房间中了")))
    );
    assert_eq!(
        try_join(&mut server, 3, "cus1", true, 0),
        ServerCommand::JoinRoom(Err(Refusal::Localized(TextKey::JoinCantMonitor)))
    );
    server.rooms[0].room.locked = true;
    assert_eq!(
        try_join(&mut server, 3, "cus1", true, 0),
        ServerCommand::JoinRoom(Err(Refusal::Localized(TextKey::JoinRoomLocked)))
    );
    assert_eq!(server.rooms[0].room.users(&server.users), vec![1]);
    assert_eq!(TextKey::JoinRoomLocked.name(), "join-room-locked");
}

#[test]
fn a_room_holds_a_hundred_players() {
    let ids: Vec<i32> = (1..=102).collect();
    let mut server = serving(&ids);
    create(&mut server, 1, "cus1", 0);
    for id in 2..=100 {
        join(&mut server, id, "cus1", 0);
    }
    assert_eq!(server.rooms[0].room.users(&server.users).len(), ROOM_MAX_USERS);
    server.out.take();
    assert_eq!(
        try_join(&mut server, 101, "cus1", false, 0),
        ServerCommand::JoinRoom(Err(Refusal::Localized(TextKey::JoinRoomFull)))
    );
    assert!(server.out.take().is_empty());
    assert_eq!(server.rooms[0].room.users(&server.users).len(), ROOM_MAX_USERS);
}

#[test]
fn the_allowed_monitor_watches_and_sees_touches() {
    let mut server = serving(&[1, 2]);
    create(&mut server, 1, "cus1", 0);
    let frames = vec![
        TouchFrame { time: 1.5f32.to_bits(), body: vec![1] },
        TouchFrame { time: 2.5f32.to_bits(), body: vec![2] },
    ];
    assert_eq!(
        process(&mut server, 1, ClientCommand::Touches { frames }, 0),
        Ok(Outcome::Reply(None))
    );
    assert_eq!(server.users.get(1).unwrap().game_time, 0);
    assert!(matches!(try_join(&mut server, 2, "cus1", true, 0), ServerCommand::JoinRoom(Ok(_))));
    assert_eq!(server.rooms[0].room.monitors(&server.users), vec![2]);
    assert!(server.users.get(2).unwrap().monitor);
    server.out.take();
    let frames = vec![
        TouchFrame { time: 1.5f32.to_bits(), body: vec![1] },
        TouchFrame { time: 2.5f32.to_bits(), body: vec![2] },
    ];
    process(&mut server, 1, ClientCommand::Touches { frames }, 0).unwrap();
    assert_eq!(server.users.get(1).unwrap().game_time, 2.5f32.to_bits());
    let judges = vec![JudgeEvent { body: vec![9] }];
    process(&mut server, 1, ClientCommand::Judges { judges }, 0).unwrap();
    assert_eq!(
        server.out.take(),
        vec![
            send(
                &[2],
                ServerCommand::Touches {
                    player: 1,
                    frames: vec![
                        TouchFrame { time: 1.5f32.to_bits(), body: vec![1] },
                        TouchFrame { time: 2.5f32.to_bits(), body: vec![2] },
                    ],
                }
            ),
            send(
                &[2],
                ServerCommand::Judges { player: 1, judges: vec![JudgeEvent { body: vec![9] }] }
            ),
        ]
    );
}

#[test]
fn what_a_user_says_is_marked_and_heard() {
    let mut server = serving(&[1]);
    create(&mut server, 1, "cus1", 0);
    server.out.take();
    let cmd = ClientCommand::Chat { message: "hi".to_string() };
    assert_eq!(run(&mut server, 1, cmd, 0), ServerCommand::Chat(Ok(())));
    assert_eq!(
        server.out.take(),
        vec![log(&[1], Message::Chat { user: 1, content: "[测试版] hi".to_string() })]
    );
}

#[test]
fn without_a_room_nothing_works_that_takes_one() {
    let mut server = serving(&[1]);
    let no = || Err(text("no room"));
    let cmd = ClientCommand::Chat { message: "x".to_string() };
    assert_eq!(run(&mut server, 1, cmd, 0), ServerCommand::Chat(no()));
    assert_eq!(run(&mut server, 1, ClientCommand::LeaveRoom, 0), ServerCommand::LeaveRoom(no()));
    assert_eq!(
        run(&mut server, 1, ClientCommand::LockRoom { lock: true }, 0),
        ServerCommand::LockRoom(no())
    );
    assert_eq!(
        run(&mut server, 1, ClientCommand::CycleRoom { cycle: true }, 0),
        ServerCommand::CycleRoom(no())
    );
    assert_eq!(
        run(&mut server, 1, ClientCommand::SelectChart { id: 1 }, 0),
        ServerCommand::SelectChart(no())
    );
    assert_eq!(run(&mut server, 1, ClientCommand::RequestStart, 0), ServerCommand::RequestStart(no()));
    assert_eq!(run(&mut server, 1, ClientCommand::Ready, 0), ServerCommand::Ready(no()));
    assert_eq!(run(&mut server, 1, ClientCommand::CancelReady, 0), ServerCommand::CancelReady(no()));
    assert_eq!(run(&mut server, 1, ClientCommand::Played { id: 1 }, 0), ServerCommand::Played(no()));
    assert_eq!(run(&mut server, 1, ClientCommand::Abort, 0), ServerCommand::Abort(no()));
    assert_eq!(
        run(&mut server, 1, ClientCommand::Authenticate { token: "t".to_string() }, 0),
        ServerCommand::Authenticate(Err(text("repeated authenticate")))
    );
    assert_eq!(
        process(&mut server, 1, ClientCommand::Touches { frames: Vec::new() }, 0),
        Ok(Outcome::Reply(None))
    );
    assert!(server.out.take().is_empty());
}

#[test]
fn the_last_player_takes_the_room_along() {
    let mut server = serving(&[1, 2]);
    create(&mut server, 1, "cus1", 0);
    server.out.take();
    assert_eq!(run(&mut server, 1, ClientCommand::LeaveRoom, 0), ServerCommand::LeaveRoom(Ok(())));
    assert_eq!(
        server.out.take(),
        vec![
            log(&[1], Message::LeaveRoom { user: 1, name: "u1".to_string() }),
            Effect::RefreshPublicRooms,
        ]
    );
    assert_eq!(server.find("cus1"), None);
    assert_eq!(server.users.room(1), None);
    create(&mut server, 2, "cus1", 0);
    assert_eq!(server.find("cus1"), Some(1));
}

#[test]
fn a_host_who_leaves_is_followed_by_the_player_left() {
    let mut server = serving(&[1, 2]);
    create(&mut server, 1, "cus1", 0);
    join(&mut server, 2, "cus1", 0);
    server.out.take();
    assert_eq!(run(&mut server, 1, ClientCommand::LeaveRoom, 77), ServerCommand::LeaveRoom(Ok(())));
    assert_eq!(
        server.out.take(),
        vec![
            log(&[1, 2], Message::LeaveRoom { user: 1, name: "u1".to_string() }),
            log(&[2], Message::NewHost { user: 2 }),
            say(&[2], HINT),
            send(&[2], ServerCommand::ChangeHost(true)),
            Effect::RefreshPublicRooms,
        ]
    );
    assert_eq!(server.rooms[0].room.host(&server.users), 2);
    assert_eq!(server.rooms[0].room.host_time, 77);
    assert_eq!(server.find("cus1"), Some(0));
}

#[test]
fn the_follower_of_a_host_is_drawn_from_the_players_left() {
    let mut seen = [false; 5];
    for _ in 0..400 {
        let mut server = serving(&[1, 2, 3, 4]);
        create(&mut server, 1, "cus1", 0);
        for id in 2..=4 {
            join(&mut server, id, "cus1", 0);
        }
        run(&mut server, 1, ClientCommand::LeaveRoom, 0);
        let host = server.rooms[0].room.host(&server.users);
        assert!((2..=4).contains(&host));
        seen[host as usize] = true;
    }
    assert_eq!(seen, [false, false, true, true, true]);
}

#[test]
fn the_player_at_the_place_drawn_follows_the_host() {
    for (pick, host) in [(0, 2), (1, 3), (2, 4), (3, 2), (7, 3)] {
        let mut server = serving(&[1, 2, 3, 4]);
        create(&mut server, 1, "cus1", 0);
        for id in 2..=4 {
            join(&mut server, id, "cus1", 0);
        }
        let dropped = server.rooms[0].room.on_user_leave_with(
            &mut server.users,
            &mut server.out,
            1,
            pick,
            9,
        );
        assert_eq!(dropped, Ok(false));
        assert_eq!(server.rooms[0].room.host(&server.users), host);
    }
}

#[test]
fn a_host_cannot_be_followed_by_someone_who_only_waits() {
    let mut server = serving(&[1, 2]);
    create(&mut server, 1, "cus1", 0);
    server.rooms[0].room.users_waiting.push(2);
    assert_eq!(process(&mut server, 1, ClientCommand::LeaveRoom, 0), Err(Fault::NoCandidate));
    assert_eq!(server.users.room(1), None);
}

#[test]
fn a_chart_is_chosen_by_the_host_before_the_game() {
    let mut server = serving(&[1, 3]);
    create(&mut server, 1, "cus1", 0);
    join(&mut server, 3, "cus1", 0);
    server.out.take();
    assert_eq!(
        run(&mut server, 3, ClientCommand::SelectChart { id: 11 }, 0),
        ServerCommand::SelectChart(Err(text("只有房主才能进行此操作")))
    );
    let outcome = process(&mut server, 1, ClientCommand::SelectChart { id: 11 }, 0);
    assert_eq!(outcome, Ok(Outcome::FetchChart { id: 11, room: 0 }));
    assert_eq!(
        server.chart_fetched(1, 0, Err("status 404".to_string())),
        Outcome::Reply(Some(ServerCommand::SelectChart(Err(text("status 404")))))
    );
    assert!(server.out.take().is_empty());
    chart(&mut server, 1);
    assert_eq!(
        server.out.take(),
        vec![
            log(&[1, 3], Message::SelectChart { user: 1, name: "song".to_string(), id: 11 }),
            send(&[1, 3], ServerCommand::ChangeState(RoomState::SelectChart(Some(11)))),
        ]
    );
}

#[test]
fn a_game_begins_when_everyone_is_ready() {
    let mut server = serving(&[1, 3]);
    create(&mut server, 1, "cus1", 0);
    join(&mut server, 3, "cus1", 0);
    assert_eq!(
        run(&mut server, 1, ClientCommand::RequestStart, 0),
        ServerCommand::RequestStart(Err(Refusal::Localized(TextKey::StartNoChartSelected)))
    );
    chart(&mut server, 1);
    server.out.take();
    assert_eq!(
        run(&mut server, 3, ClientCommand::RequestStart, 0),
        ServerCommand::RequestStart(Err(text("只有房主才能进行此操作")))
    );
    assert_eq!(
        run(&mut server, 1, ClientCommand::RequestStart, 1000),
        ServerCommand::RequestStart(Ok(()))
    );
    assert_eq!(
        server.out.take(),
        vec![
            log(&[1, 3], Message::GameStart { user: 1 }),
            send(&[1, 3], ServerCommand::ChangeState(RoomState::WaitingForReady)),
        ]
    );
    assert_eq!(server.users.get(3).unwrap().game_time, NO_GAME_TIME);
    assert_eq!(NO_GAME_TIME, f32::NEG_INFINITY.to_bits());
    assert_eq!(server.rooms[0].room.host_time, 0);
    assert_eq!(
        run(&mut server, 1, ClientCommand::RequestStart, 1000),
        ServerCommand::RequestStart(Err(text("invalid state")))
    );
    assert_eq!(
        run(&mut server, 1, ClientCommand::Ready, 1000),
        ServerCommand::Ready(Err(text("already ready")))
    );
    assert_eq!(run(&mut server, 3, ClientCommand::Ready, 1089), ServerCommand::Ready(Ok(())));
    assert_eq!(
        server.out.take(),
        vec![
            log(&[1, 3], Message::Ready { user: 3 }),
            log(&[1, 3], Message::StartPlaying),
            send(&[1, 3], ServerCommand::ChangeState(RoomState::Playing)),
        ]
    );
    assert!(matches!(
        server.rooms[0].room.state,
        InternalRoomState::Playing { start_time: 1089, .. }
    ));
    assert_eq!(run(&mut server, 3, ClientCommand::Ready, 1089), ServerCommand::Ready(Ok(())));
    assert!(server.out.take().is_empty());
}

#[test]
fn being_ready_can_be_taken_back() {
    let mut server = serving(&[1, 3, 4]);
    create(&mut server, 1, "cus1", 0);
    join(&mut server, 3, "cus1", 0);
    join(&mut server, 4, "cus1", 0);
    chart(&mut server, 1);
    run(&mut server, 1, ClientCommand::RequestStart, 1000);
    server.out.take();
    assert_eq!(
        run(&mut server, 3, ClientCommand::CancelReady, 1000),
        ServerCommand::CancelReady(Err(text("not ready")))
    );
    run(&mut server, 3, ClientCommand::Ready, 1000);
    assert_eq!(run(&mut server, 3, ClientCommand::CancelReady, 1001), ServerCommand::CancelReady(Ok(())));
    assert!(!server.rooms[0].room.client_state(&server.users, 3).is_ready);
    assert!(server.rooms[0].room.client_state(&server.users, 1).is_ready);
    server.out.take();
    assert_eq!(run(&mut server, 1, ClientCommand::CancelReady, 1002), ServerCommand::CancelReady(Ok(())));
    assert_eq!(
        server.out.take(),
        vec![
            log(&[1, 3, 4], Message::CancelGame { user: 1 }),
            send(&[1, 3, 4], ServerCommand::ChangeState(RoomState::SelectChart(Some(11)))),
        ]
    );
    assert_eq!(server.rooms[0].room.host_time, 1002);
    assert_eq!(run(&mut server, 1, ClientCommand::CancelReady, 0), ServerCommand::CancelReady(Ok(())));
}

#[test]
fn a_game_ends_with_the_results_and_the_next_host() {
    let mut server = playing(&[1, 3]);
    assert_eq!(upload(&mut server, 1, 900000, 1010), ServerCommand::Played(Ok(())));
    assert_eq!(
        server.out.take(),
        vec![log(
            &[1, 3],
            Message::Played {
                user: 1,
                score: 900000,
                accuracy: 1.0f32.to_bits(),
                full_combo: true
            }
        )]
    );
    assert_eq!(
        upload(&mut server, 1, 1, 1011),
        ServerCommand::Played(Err(text("already uploaded")))
    );
    assert_eq!(
        run(&mut server, 1, ClientCommand::Abort, 1011),
        ServerCommand::Abort(Err(text("already uploaded")))
    );
    server.out.take();
    assert_eq!(upload(&mut server, 3, 1000000, 1020), ServerCommand::Played(Ok(())));
    let effects = server.out.take();
    assert_eq!(
        effects[1..],
        vec![
            log(&[1, 3], Message::GameEnd),
            say(&[1, 3], "游戏结束, 结果如下:"),
            say(&[1, 3], "第1  玩家:u3  等级:φ  分数:1000000  ACC:100.00%  Full Combo"),
            say(&[1, 3], "第2  玩家:u1  等级:A  分数:0900000  ACC:100.00%  Full Combo"),
            say(&[1, 3], "第3  玩家:u1  等级:F  分数:0000001  ACC:100.00%  Full Combo"),
            log(&[1, 3], Message::NewHost { user: 3 }),
            send(&[1], ServerCommand::ChangeHost(false)),
            send(&[3], ServerCommand::ChangeHost(true)),
            say(&[3], HINT),
            send(&[1, 3], ServerCommand::ChangeState(RoomState::SelectChart(Some(11)))),
        ]
    );
    let room = &server.rooms[0].room;
    assert_eq!(room.host(&server.users), 3);
    assert_eq!(room.get_users_played_result().len(), 3);
    assert!(room.users_waiting(&server.users).is_empty());
}

#[test]
fn a_game_without_results_says_so() {
    let mut server = playing(&[1]);
    server.rooms[0].room.cycle = false;
    assert_eq!(run(&mut server, 1, ClientCommand::Abort, 1001), ServerCommand::Abort(Ok(())));
    assert_eq!(
        server.out.take(),
        vec![
            log(&[1], Message::Abort { user: 1 }),
            log(&[1], Message::GameEnd),
            say(&[1], "游戏结束, 结果如下:"),
            say(&[1], "没有结果吗(⊙_⊙)？"),
            send(&[1], ServerCommand::ChangeState(RoomState::SelectChart(Some(11)))),
        ]
    );
    assert_eq!(server.rooms[0].room.host(&server.users), 1);
}

#[test]
fn a_player_who_gave_up_has_no_result() {
    let mut server = playing(&[1, 3]);
    assert_eq!(run(&mut server, 3, ClientCommand::Abort, 1001), ServerCommand::Abort(Ok(())));
    assert_eq!(
        run(&mut server, 3, ClientCommand::Abort, 1001),
        ServerCommand::Abort(Err(text("aborted")))
    );
    assert_eq!(upload(&mut server, 3, 5, 1002), ServerCommand::Played(Err(text("aborted"))));
    assert!(matches!(server.rooms[0].room.state, InternalRoomState::Playing { .. }));
}

#[test]
fn a_record_must_be_ones_own() {
    let mut server = playing(&[1, 3]);
    process(&mut server, 1, ClientCommand::Played { id: 5 }, 1001).unwrap();
    let r = server.record_fetched(1, 0, Ok(record(3, 7)), 1001);
    assert_eq!(r, Ok(Outcome::Reply(Some(ServerCommand::Played(Err(text("invalid record")))))));
    process(&mut server, 1, ClientCommand::Played { id: 5 }, 1001).unwrap();
    let r = server.record_fetched(1, 0, Err("timeout".to_string()), 1001);
    assert_eq!(r, Ok(Outcome::Reply(Some(ServerCommand::Played(Err(text("timeout")))))));
    assert!(server.out.take().is_empty());
    assert!(server.rooms[0].room.get_users_played_result().is_empty());
}

#[test]
fn who_joins_a_game_waits_for_the_next_one() {
    let mut server = playing(&[1, 3]);
    let reply = try_join(&mut server, 4, "cus1", false, 1065);
    let ServerCommand::JoinRoom(Ok(response)) = reply else { panic!("{reply:?}") };
    assert_eq!(response.state, RoomState::SelectChart(Some(1)));
    assert_eq!(
        server.out.take().last(),
        Some(&say(&[1, 3, 4], "游戏还在进行中(已开始1分5秒),请耐心等待其他玩家游玩结束"))
    );
    assert_eq!(server.rooms[0].room.users_waiting(&server.users), vec![4]);
    upload(&mut server, 1, 1, 1066);
    upload(&mut server, 3, 2, 1066);
    assert!(matches!(server.rooms[0].room.state, InternalRoomState::SelectChart));
    assert!(server.rooms[0].room.users_waiting(&server.users).is_empty());
}

#[test]
fn who_joins_while_others_get_ready_waits_too() {
    let mut server = serving(&[1, 3, 4]);
    create(&mut server, 1, "cus1", 900);
    join(&mut server, 3, "cus1", 900);
    chart(&mut server, 1);
    run(&mut server, 1, ClientCommand::RequestStart, 1000);
    server.out.take();
    join(&mut server, 4, "cus1", 1059);
    assert_eq!(
        server.out.take().last(),
        Some(&say(&[1, 3, 4], "游戏已经在准备中了,请等待下一局游戏或请房主重新开始游戏"))
    );
    run(&mut server, 3, ClientCommand::Ready, 1060);
    assert!(matches!(server.rooms[0].room.state, InternalRoomState::Playing { .. }));
}

#[test]
fn who_is_not_ready_in_time_is_put_out() {
    let mut server = serving(&[1, 3, 4, 5]);
    create(&mut server, 1, "cus1", 900);
    join(&mut server, 3, "cus1", 900);
    join(&mut server, 4, "cus1", 900);
    join(&mut server, 5, "cus1", 900);
    chart(&mut server, 1);
    run(&mut server, 1, ClientCommand::RequestStart, 1000);
    server.out.take();
    assert_eq!(run(&mut server, 3, ClientCommand::Ready, 1090), ServerCommand::Ready(Ok(())));
    let effects = server.out.take();
    assert_eq!(effects[0], log(&[1, 3, 4, 5], Message::Ready { user: 3 }));
    assert_eq!(
        effects[1],
        log(&[1, 3, 4, 5], Message::LeaveRoom { user: 4, name: "u4".to_string() })
    );
    assert_eq!(
        effects[2],
        log(&[1, 3, 5], Message::LeaveRoom { user: 5, name: "u5".to_string() })
    );
    assert_eq!(effects[3], log(&[1, 3], Message::StartPlaying));
    assert_eq!(
        effects.last(),
        Some(&say(&[1, 3], "以下玩家未准备且已超时,被踢出: 、u4、u5"))
    );
    assert_eq!(server.users.room(4), None);
    assert!(matches!(server.rooms[0].room.state, InternalRoomState::Playing { .. }));
}

#[test]
fn who_plays_too_long_is_put_out() {
    let mut server = playing(&[1, 3, 4]);
    upload(&mut server, 1, 5, 1100);
    server.out.take();
    assert_eq!(run(&mut server, 3, ClientCommand::Abort, 1219), ServerCommand::Abort(Ok(())));
    assert_eq!(server.rooms[0].room.users(&server.users), vec![1, 3, 4]);
    server.out.take();
    join(&mut server, 5, "cus1", 1220);
    assert_eq!(server.rooms[0].room.users(&server.users), vec![1, 3, 5]);
    assert!(matches!(server.rooms[0].room.state, InternalRoomState::SelectChart));
    assert_eq!(
        server.out.take().last(),
        Some(&say(&[1, 3, 5], "(以下玩家游玩超时,已被踢出: ? 、u4)"))
    );
}

#[test]
fn without_any_result_a_game_lasts_eight_minutes() {
    let mut server = playing(&[1, 3]);
    join(&mut server, 5, "cus1", 1479);
    assert_eq!(server.rooms[0].room.users(&server.users), vec![1, 3, 5]);
    join(&mut server, 6, "cus1", 1480);
    assert_eq!(server.rooms[0].room.users(&server.users), vec![5, 6]);
    assert_eq!(server.users.room(1), None);
    assert!(server.rooms[0].room.host(&server.users) == 5 || server.rooms[0].room.host(&server.users) == 6);
}

#[test]
fn a_host_who_never_chooses_is_put_out() {
    let mut server = serving(&[1, 3, 4]);
    create(&mut server, 1, "cus1", 100);
    join(&mut server, 3, "cus1", 459);
    assert_eq!(server.rooms[0].room.users(&server.users), vec![1, 3]);
    server.out.take();
    join(&mut server, 4, "cus1", 460);
    assert_eq!(server.rooms[0].room.users(&server.users), vec![3, 4]);
    assert!(server
        .out
        .take()
        .contains(&say(&[1, 3, 4], "房主 u1 选择谱面超时,已被踢出")));
    assert_eq!(server.rooms[0].room.host_time, 460);
}

#[test]
fn a_clock_that_was_set_back_makes_the_host_late() {
    let mut server = serving(&[1, 3]);
    create(&mut server, 1, "cus1", 100);
    join(&mut server, 3, "cus1", 99);
    assert_eq!(server.rooms[0].room.users(&server.users), vec![3]);
}

#[test]
fn the_room_left_by_its_overdue_host_cannot_take_them_back() {
    let mut server = serving(&[1, 3]);
    create(&mut server, 1, "cus1", 100);
    server.users.set_room(1, None);
    let cmd = ClientCommand::JoinRoom { id: "cus1".to_string(), monitor: false };
    assert_eq!(process(&mut server, 1, cmd, 460), Err(Fault::SelfEviction));
}

#[test]
fn a_user_lost_in_a_game_is_gone_at_once() {
    let mut server = playing(&[1, 3]);
    assert_eq!(server.hang_up(1, 1001, 1001), Ok(None));
    assert!(server.users.get(1).is_none());
    let room = &server.rooms[0].room;
    assert_eq!(room.users(&server.users), vec![3]);
    assert_eq!(room.host(&server.users), 3);
    assert_eq!(server.users.sessions(&vec![1, 3]), vec![1003]);
}

#[test]
fn a_user_lost_elsewhere_is_waited_for() {
    let mut server = serving(&[1, 3]);
    create(&mut server, 1, "cus1", 0);
    join(&mut server, 3, "cus1", 0);
    assert_eq!(server.hang_up(3, 1003, 5), Ok(Some(0)));
    assert_eq!(server.users.room(3), Some(0));
    assert_eq!(server.users.sessions(&vec![1, 3]), vec![1001]);
    assert_eq!(server.dangle_expired(3, 0, 15), Ok(()));
    assert!(server.users.get(3).is_none());
    assert_eq!(server.rooms[0].room.users(&server.users), vec![1]);
}

#[test]
fn a_user_who_comes_back_in_time_stays() {
    let mut server = serving(&[1, 3]);
    create(&mut server, 1, "cus1", 0);
    join(&mut server, 3, "cus1", 0);
    assert_eq!(server.hang_up(3, 1003, 5), Ok(Some(0)));
    let (key, reply) = server.sign_in(2003, 3, "u3".to_string(), "en-US".to_string());
    assert_eq!(key, 3);
    let ServerCommand::Authenticate(Ok((who, Some(room)))) = reply else { panic!("{reply:?}") };
    assert_eq!(who, info(3));
    assert_eq!(room.id, "cus1");
    assert_eq!(room.state, RoomState::SelectChart(None));
    assert!(!room.is_host && !room.is_ready && room.live && !room.locked && room.cycle);
    assert_eq!(room.users.len(), 2);
    assert_eq!(room.users[&1], info(1));
    assert_eq!(server.hang_up(3, 2003, 12), Ok(Some(1)));
    assert_eq!(server.dangle_expired(3, 0, 15), Ok(()));
    assert_eq!(server.users.room(3), Some(0));
    assert_eq!(server.dangle_expired(3, 1, 22), Ok(()));
    assert!(server.users.get(3).is_none());
    assert_eq!(server.key_of(3), None);
}

#[test]
fn the_loss_of_an_old_connection_matters_to_nobody() {
    let mut server = serving(&[1, 3]);
    create(&mut server, 1, "cus1", 0);
    join(&mut server, 3, "cus1", 0);
    let (key, _) = server.sign_in(2003, 3, "u3".to_string(), "en-US".to_string());
    assert_eq!(key, 3);
    assert_eq!(server.hang_up(3, 1003, 16), Ok(None));
    assert_eq!(server.users.get(3).unwrap().session, Some(2003));
    assert_eq!(server.users.room(3), Some(0));
    assert_eq!(server.key_of(3), Some(3));
}

#[test]
fn an_older_connection_is_served_after_the_newer_one_is_lost() {
    let mut server = playing(&[1, 3]);
    server.sign_in(2003, 3, "u3".to_string(), "en-US".to_string());
    assert_eq!(server.hang_up(3, 2003, 1001), Ok(None));
    assert_eq!(server.rooms[0].room.users(&server.users), vec![1]);
    assert_eq!(server.key_of(3), None);
    assert_eq!(server.users.room(3), None);
    create(&mut server, 3, "cus2", 1002);
    assert_eq!(server.users.room(3), Some(1));
    assert!(server.users.sessions(&vec![3]).is_empty());
    assert_eq!(server.hang_up(3, 1003, 1003), Ok(None));
    assert!(server.users.get(3).is_none());
    assert_eq!(server.find("cus2"), Some(1));
    assert!(server.rooms[1].room.users(&server.users).is_empty());
}

#[test]
fn a_person_can_be_there_twice() {
    let mut server = playing(&[1, 3]);
    server.sign_in(2003, 3, "u3".to_string(), "en-US".to_string());
    assert_eq!(server.hang_up(3, 2003, 1001), Ok(None));
    let (again, _) = server.sign_in(3003, 3, "u3".to_string(), "en-US".to_string());
    assert_eq!(again, 7);
    assert_eq!(server.key_of(3), Some(7));
    create(&mut server, 3, "cus2", 1002);
    let cmd = ClientCommand::LockRoom { lock: true };
    assert_eq!(run(&mut server, 7, cmd, 1003), ServerCommand::LockRoom(Err(text("no room"))));
    join(&mut server, 7, "cus2", 1003);
    assert_eq!(server.rooms[1].room.users(&server.users), vec![3, 7]);
    assert_eq!(server.rooms[1].room.host(&server.users), 3);
    // Both have the id of the host, and leave together.
    let cmd = ClientCommand::LockRoom { lock: true };
    assert_eq!(run(&mut server, 7, cmd, 1003), ServerCommand::LockRoom(Ok(())));
    run(&mut server, 7, ClientCommand::LeaveRoom, 1004);
    assert!(server.rooms[1].room.users(&server.users).is_empty());
    assert_eq!(server.find("cus2"), None);
    assert_eq!(server.users.room(7), None);
    assert_eq!(server.users.room(3), Some(1));
}

#[test]
fn a_user_whose_chart_is_still_fetched_stays_until_it_comes() {
    let mut server = serving(&[1, 3]);
    create(&mut server, 1, "cus1", 0);
    join(&mut server, 3, "cus1", 0);
    let outcome = process(&mut server, 1, ClientCommand::SelectChart { id: 11 }, 0);
    assert_eq!(outcome, Ok(Outcome::FetchChart { id: 11, room: 0 }));
    assert_eq!(server.hang_up(1, 1001, 5), Ok(Some(0)));
    assert_eq!(server.dangle_expired(1, 0, 15), Ok(()));
    assert_eq!(server.key_of(1), None);
    assert_eq!(server.rooms[0].room.users(&server.users), vec![3]);
    server.out.take();
    assert_eq!(
        server.chart_fetched(1, 0, Ok(Chart { id: 11, name: "song".to_string() })),
        Outcome::Reply(Some(ServerCommand::SelectChart(Ok(()))))
    );
    assert_eq!(
        server.out.take()[0],
        log(&[3], Message::SelectChart { user: 1, name: "song".to_string(), id: 11 })
    );
    assert!(server.users.get(1).is_none());
}

#[test]
fn a_lost_user_without_a_room_stays_known() {
    let mut server = serving(&[1]);
    assert_eq!(User::dangle(&mut server, 1, 0), Ok(Some(0)));
    assert_eq!(server.dangle_expired(1, 0, 10), Ok(()));
    assert!(server.users.get(1).is_some());
    assert_eq!(User::dangle(&mut server, 9, 0), Ok(None));
}

#[test]
fn a_host_who_is_gone_leaves_the_room_without_one() {
    let mut server = serving(&[1, 3]);
    create(&mut server, 1, "cus1", 0);
    server.users.set_monitor(1, true);
    assert_eq!(server.hang_up(1, 1001, 0), Ok(Some(0)));
    assert_eq!(server.dangle_expired(1, 0, 10), Ok(()));
    assert!(server.rooms[0].room.users(&server.users).is_empty());
    assert!(server.users.get(server.rooms[0].room.host).is_none());
    join(&mut server, 3, "cus1", 20);
    assert_eq!(server.rooms[0].room.host(&server.users), 3);
}

#[test]
fn public_rooms_are_listed_in_the_order_of_their_creation() {
    let mut server = serving(&[1, 2, 3, 4]);
    assert_eq!(Room::refresh_public_rooms(&server), "[]");
    create(&mut server, 1, "cus1", 0);
    create(&mut server, 2, "cus2", 0);
    create(&mut server, 3, "cus3", 0);
    create(&mut server, 4, "public", 0);
    assert_eq!(Room::refresh_public_rooms(&server), "[]");
    server.rooms[2].room.public_enabled = true;
    assert_eq!(Room::refresh_public_rooms(&server), "[\"cus3\"]");
    server.rooms[0].room.public_enabled = true;
    assert_eq!(Room::refresh_public_rooms(&server), "[\"cus1\", \"cus3\"]");
    run(&mut server, 1, ClientCommand::LeaveRoom, 0);
    assert_eq!(Room::refresh_public_rooms(&server), "[\"cus3\"]");
}

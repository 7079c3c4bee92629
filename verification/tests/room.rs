use phira_mp::outbox::{Effect, Outbox};
use phira_mp::protocol::{Message, Refusal, RoomState, ServerCommand, UserInfo};
use phira_mp::ranking::Accuracy;
use phira_mp::room::{Chart, Fault, InternalRoomState, Room};
use phira_mp::users::{User, UserTable};
use std::collections::{HashMap, HashSet};

fn table(ids: &[i32]) -> UserTable {
    let mut users = UserTable::new();
    for id in ids {
        // Each user's key is their id.
        users.insert(*id as u64, User::new(*id, format!("u{id}"), "zh-CN".to_string()));
    }
    users
}

fn room(users: &UserTable, keys: &[u64]) -> Room {
    let mut room = Room::new("cus1".to_string(), keys[0]);
    for key in &keys[1..] {
        assert!(room.add_user(users, *key, false, false, 0));
    }
    room
}

#[test]
fn clients_see_the_state_of_a_room() {
    let state = InternalRoomState::default();
    assert_eq!(state.to_client(None), RoomState::SelectChart(None));
    assert_eq!(state.to_client(Some(3)), RoomState::SelectChart(Some(3)));
    let state = InternalRoomState::WaitForReady { start_time: 1, started: HashSet::new() };
    assert_eq!(state.to_client(Some(3)), RoomState::WaitingForReady);
    let state = InternalRoomState::Playing {
        results: HashMap::new(),
        aborted: HashSet::new(),
        start_time: 1,
    };
    assert_eq!(state.to_client(Some(3)), RoomState::Playing);
}

#[test]
fn users_know_each_other_by_their_ids() {
    let a = User::new(2, "a".to_string(), "x".to_string());
    let b = User::new(2, "b".to_string(), "y".to_string());
    let c = User::new(3, "a".to_string(), "x".to_string());
    assert!(a == b);
    assert!(a != c);
    assert!(a.can_monitor());
    assert!(!c.can_monitor());
    assert_eq!(c.to_info(), UserInfo { id: 3, name: "a".to_string(), monitor: false });
}

#[test]
fn a_connection_ends_the_wait_for_a_user() {
    let mut user = User::new(1, "a".to_string(), "x".to_string());
    user.dangle_mark = Some(4);
    assert_eq!(user.try_send(), None);
    user.set_session(9);
    assert_eq!(user.try_send(), Some(9));
    assert_eq!(user.dangle_mark, None);
}

#[test]
fn the_first_player_to_come_into_an_empty_room_is_its_host() {
    let users = table(&[1, 5, 6]);
    let mut room = room(&users, &[1]);
    room.users.clear();
    assert!(room.add_user(&users, 5, false, false, 33));
    assert_eq!(room.host(&users), 5);
    assert_eq!(room.host_time, 33);
    assert!(room.add_user(&users, 6, false, false, 44));
    assert_eq!(room.host(&users), 5);
    assert_eq!(room.host_time, 33);
}

#[test]
fn those_who_wait_count_twice() {
    let ids: Vec<i32> = (1..=76).collect();
    let users = table(&ids);
    let mut room = room(&users, &[1]);
    for id in 2..=50 {
        assert!(room.add_user(&users, id, false, false, 0));
    }
    for id in 51..=75 {
        assert!(room.add_user(&users, id, true, true, 0));
    }
    assert_eq!(room.users(&users).len(), 75);
    assert_eq!(room.users_waiting(&users).len(), 25);
    assert!(!room.add_user(&users, 76, false, true, 0));
    assert!(room.add_user(&users, 76, false, false, 0));
    assert!(room.add_user(&users, 2, true, false, 0));
    assert_eq!(room.monitors(&users), vec![2]);
}

#[test]
fn only_the_host_passes_as_host() {
    let users = table(&[1, 3]);
    let room = room(&users, &[1, 3]);
    assert_eq!(room.check_host(&users, 1), Ok(()));
    assert_eq!(
        room.check_host(&users, 3),
        Err(Refusal::Text("只有房主才能进行此操作".to_string()))
    );
}

#[test]
fn everyone_hears_a_broadcast_and_monitors_their_own() {
    let users = table(&[1, 2, 3]);
    let mut room = room(&users, &[1, 3]);
    room.add_user(&users, 2, true, false, 0);
    let mut out = Outbox::new();
    room.broadcast(&users, ServerCommand::ChangeHost(true), &mut out);
    room.broadcast_monitors(&users, ServerCommand::ChangeHost(false), &mut out);
    room.send_as(&users, 3, "x".to_string(), &mut out);
    room.chart = Some(Chart { id: 4, name: "song".to_string() });
    room.on_state_change(&users, &mut out);
    assert_eq!(
        out.take(),
        vec![
            Effect::Send { to: vec![1, 3, 2], cmd: ServerCommand::ChangeHost(true) },
            Effect::Send { to: vec![2], cmd: ServerCommand::ChangeHost(false) },
            Effect::Send {
                to: vec![1, 3, 2],
                cmd: ServerCommand::Message(Message::Chat { user: 3, content: "x".to_string() }),
            },
            Effect::Send {
                to: vec![1, 3, 2],
                cmd: ServerCommand::ChangeState(RoomState::SelectChart(Some(4))),
            },
        ]
    );
    assert!(out.take().is_empty());
}

#[test]
fn a_room_without_a_known_host_cannot_speak_to_them() {
    let mut users = table(&[1, 3]);
    let mut room = room(&users, &[1, 3]);
    users.remove(1);
    assert_eq!(room.users(&users), vec![3]);
    assert!(!room.is_host(&users, 1));
    let mut out = Outbox::new();
    assert_eq!(room.send_as_server_to_host(&users, "x".to_string(), &mut out), Err(Fault::HostGone));
    room.reset_host_time(1);
    assert_eq!(room.check_host_time_proper(&mut users, &mut out, 361), Err(Fault::HostGone));
    assert_eq!(room.check_host_time_proper(&mut users, &mut out, 360), Ok(()));
    assert!(out.take().is_empty());
}

#[test]
fn a_game_nobody_plays_any_more_cannot_hand_the_host_on() {
    let mut users = table(&[1]);
    let mut room = room(&users, &[1]);
    room.users.clear();
    room.state = InternalRoomState::Playing {
        results: HashMap::new(),
        aborted: HashSet::new(),
        start_time: 0,
    };
    let mut out = Outbox::new();
    assert_eq!(room.check_all_ready(&mut users, &mut out, 0), Err(Fault::EmptyRoom));
    assert!(matches!(room.state, InternalRoomState::SelectChart));
}

#[test]
fn monitors_have_to_be_ready_as_well() {
    let mut users = table(&[1, 2]);
    let mut room = room(&users, &[1]);
    room.add_user(&users, 2, true, false, 0);
    room.state = InternalRoomState::WaitForReady { start_time: 0, started: HashSet::from([1]) };
    let mut out = Outbox::new();
    assert_eq!(room.check_all_ready(&mut users, &mut out, 7), Ok(()));
    assert!(matches!(room.state, InternalRoomState::WaitForReady { .. }));
    room.state = InternalRoomState::WaitForReady { start_time: 0, started: HashSet::from([1, 2]) };
    assert_eq!(room.check_all_ready(&mut users, &mut out, 7), Ok(()));
    assert!(matches!(room.state, InternalRoomState::Playing { start_time: 7, .. }));
}

#[test]
fn scores_are_noted_in_the_order_in_which_they_come() {
    let mut room = room(&table(&[1]), &[1]);
    let accuracy = Accuracy { bits: 0, percent: "0.00".to_string() };
    room.add_score(1, "u1".to_string(), 5, accuracy.clone(), false, 10);
    room.add_score(3, "u3".to_string(), 6, accuracy.clone(), true, 20);
    let results = room.get_users_played_result();
    assert_eq!(results.len(), 2);
    assert_eq!((results[0].id, results[0].score, results[0].finish_time), (1, 5, 10));
    assert_eq!((results[1].id, results[1].fc_state, results[1].finish_time), (3, true, 20));
}

#[test]
fn time_is_left_until_it_is_not() {
    let mut users = table(&[1, 3]);
    let mut room = room(&users, &[1, 3]);
    room.state = InternalRoomState::Playing {
        results: HashMap::new(),
        aborted: HashSet::new(),
        start_time: 100,
    };
    let mut out = Outbox::new();
    assert_eq!(room.check_game_time_proper(&mut users, &mut out, 579), Ok(true));
    let accuracy = Accuracy { bits: 0, percent: "0.00".to_string() };
    room.add_score(3, "u3".to_string(), 6, accuracy, true, 579);
    assert_eq!(room.check_game_time_proper(&mut users, &mut out, 698), Ok(true));
    assert_eq!(room.check_game_time_proper(&mut users, &mut out, 699), Ok(false));
    assert_eq!(room.users(&users), vec![3]);
    assert_eq!(room.host(&users), 3);
}

#[test]
fn who_comes_back_sees_the_room_as_it_is() {
    let users = table(&[1, 3]);
    let mut room = room(&users, &[1, 3]);
    room.locked = true;
    room.state = InternalRoomState::WaitForReady { start_time: 0, started: HashSet::from([1]) };
    let state = room.client_state(&users, 1);
    assert_eq!(state.id, "cus1");
    assert_eq!(state.state, RoomState::WaitingForReady);
    assert!(state.is_host && state.is_ready && state.locked && state.cycle && !state.live);
    assert_eq!(state.users.len(), 2);
    let state = room.client_state(&users, 3);
    assert!(!state.is_host && !state.is_ready);
}

#[test]
fn who_is_gone_is_on_no_list() {
    let mut users = table(&[1, 2, 3, 4]);
    let mut room = room(&users, &[1, 3, 4]);
    room.add_user(&users, 2, true, false, 0);
    room.users_waiting.push(4);
    users.remove(2);
    users.remove(4);
    assert_eq!(room.users(&users), vec![1, 3]);
    assert!(room.users_waiting(&users).is_empty());
    assert!(room.monitors(&users).is_empty());
    assert_eq!(room.audience(&users), vec![1, 3]);
    assert_eq!(room.active(&users), vec![1, 3]);
    users.remove(1);
    assert!(!room.is_host(&users, 1));
    // Only the next to come in strikes them off for good.
    assert_eq!(room.users, vec![1, 3, 4]);
    users.insert(5, User::new(5, "u5".to_string(), String::new()));
    assert!(room.add_user(&users, 5, false, false, 0));
    assert_eq!(room.users, vec![3, 5]);
}

#[test]
fn those_with_one_id_pass_for_each_other() {
    let mut users = table(&[1, 3]);
    users.insert(7, User::new(3, "other".to_string(), String::new()));
    let room = room(&users, &[3, 1, 7]);
    assert!(room.is_host(&users, 3));
    assert_eq!(room.check_host(&users, 7), Ok(()));
    assert_eq!(room.host(&users), 3);
}

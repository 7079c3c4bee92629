//! The mathematical values that contracts speak of lose nothing of what they
//! stand for.
use vstd::prelude::*;
use crate::commands::join_view;
use crate::outbox::{Effect, EffectView, Outbox};
use crate::protocol::{
    answer_view, ClientRoomState, ClientRoomStateView, JoinRoomResponse, JoinRoomResponseView,
    Message, MessageView, Refusal, RefusalView, ServerCommand, ServerCommandView,
};
use crate::room::{
    ActionState, Fault, InternalRoomState, OperationPanel, PanelView, Room, RoomView, StateView,
};
use crate::scene::{scene, scene_after, Scene};
use crate::server::{fetched_view, world_after, Outcome, ServerState};
use crate::session::{Receipt, ReceiptView};
use crate::users::UserTable;
use crate::world::{OutcomeView, SlotView, World};

verus! {

/// A line of the log reads as it was written.
pub proof fn law_message(m: Message)
    ensures
        match m {
            Message::Chat { user, content } => m@ == (MessageView::Chat {
                user,
                content: content@,
            }),
            Message::CreateRoom { user } => m@ == (MessageView::CreateRoom { user }),
            Message::JoinRoom { user, name } => m@ == (MessageView::JoinRoom {
                user,
                name: name@,
            }),
            Message::LeaveRoom { user, name } => m@ == (MessageView::LeaveRoom {
                user,
                name: name@,
            }),
            Message::NewHost { user } => m@ == (MessageView::NewHost { user }),
            Message::SelectChart { user, name, id } => m@ == (MessageView::SelectChart {
                user,
                name: name@,
                id,
            }),
            Message::GameStart { user } => m@ == (MessageView::GameStart { user }),
            Message::Ready { user } => m@ == (MessageView::Ready { user }),
            Message::CancelReady { user } => m@ == (MessageView::CancelReady { user }),
            Message::CancelGame { user } => m@ == (MessageView::CancelGame { user }),
            Message::StartPlaying => m@ == MessageView::StartPlaying,
            Message::Played { user, score, accuracy, full_combo } => m@ == (MessageView::Played {
                user,
                score,
                accuracy,
                full_combo,
            }),
            Message::GameEnd => m@ == MessageView::GameEnd,
            Message::Abort { user } => m@ == (MessageView::Abort { user }),
            Message::LockRoom { lock } => m@ == (MessageView::LockRoom { lock }),
            Message::CycleRoom { cycle } => m@ == (MessageView::CycleRoom { cycle }),
        },
{
}

/// So does an answer, whatever it answers.
pub proof fn law_answers(r: Result<(), Refusal>, join: Result<JoinRoomResponse, Refusal>, e: Refusal)
    ensures
        match e {
            Refusal::Text(text) => e@ == RefusalView::Text(text@),
            Refusal::Localized(key) => e@ == RefusalView::Localized(key),
        },
        match r {
            Ok(()) => answer_view(r) == Ok::<(), RefusalView>(()),
            Err(e) => answer_view(r) == Err::<(), RefusalView>(e@),
        },
        match join {
            Ok(response) => join_view(join) == Ok::<JoinRoomResponseView, RefusalView>(
                JoinRoomResponseView {
                    state: response.state,
                    users: response.users@,
                    live: response.live,
                },
            ),
            Err(e) => join_view(join) == Err::<JoinRoomResponseView, RefusalView>(e@),
        },
{
}

/// So does the state of a room that a client gets.
pub proof fn law_client_room_state(s: ClientRoomState)
    ensures
        s@ == (ClientRoomStateView {
            id: s.id@,
            state: s.state,
            live: s.live,
            locked: s.locked,
            cycle: s.cycle,
            is_host: s.is_host,
            is_ready: s.is_ready,
            users: s.users@,
        }),
{
}

/// A command to a client is what it is called, with what it carries.
pub proof fn law_server_command(c: ServerCommand)
    ensures
        match c {
            ServerCommand::Pong => c@ == ServerCommandView::Pong,
            ServerCommand::Authenticate(Ok((info, Some(room)))) => c@
                == ServerCommandView::Authenticate(Ok((info, Some(room@)))),
            ServerCommand::Authenticate(Ok((info, None))) => c@
                == ServerCommandView::Authenticate(Ok((info, None))),
            ServerCommand::Authenticate(Err(e)) => c@ == ServerCommandView::Authenticate(Err(e@)),
            ServerCommand::Chat(r) => c@ == ServerCommandView::Chat(answer_view(r)),
            ServerCommand::Touches { player, frames } => c@ == (ServerCommandView::Touches {
                player,
                frames: frames@,
            }),
            ServerCommand::Judges { player, judges } => c@ == (ServerCommandView::Judges {
                player,
                judges: judges@,
            }),
            ServerCommand::Message(m) => c@ == ServerCommandView::Message(m@),
            ServerCommand::ChangeState(s) => c@ == ServerCommandView::ChangeState(s),
            ServerCommand::ChangeHost(b) => c@ == ServerCommandView::ChangeHost(b),
            ServerCommand::CreateRoom(r) => c@ == ServerCommandView::CreateRoom(answer_view(r)),
            ServerCommand::JoinRoom(r) => c@ == ServerCommandView::JoinRoom(join_view(r)),
            ServerCommand::OnJoinRoom(info) => c@ == ServerCommandView::OnJoinRoom(info),
            ServerCommand::LeaveRoom(r) => c@ == ServerCommandView::LeaveRoom(answer_view(r)),
            ServerCommand::LockRoom(r) => c@ == ServerCommandView::LockRoom(answer_view(r)),
            ServerCommand::CycleRoom(r) => c@ == ServerCommandView::CycleRoom(answer_view(r)),
            ServerCommand::SelectChart(r) => c@ == ServerCommandView::SelectChart(answer_view(r)),
            ServerCommand::RequestStart(r) => c@ == ServerCommandView::RequestStart(
                answer_view(r),
            ),
            ServerCommand::Ready(r) => c@ == ServerCommandView::Ready(answer_view(r)),
            ServerCommand::CancelReady(r) => c@ == ServerCommandView::CancelReady(answer_view(r)),
            ServerCommand::Played(r) => c@ == ServerCommandView::Played(answer_view(r)),
            ServerCommand::Abort(r) => c@ == ServerCommandView::Abort(answer_view(r)),
        },
{
}

/// Effects are those that wait, in their order.
pub proof fn law_effects(out: Outbox, e: Effect, i: int)
    ensures
        match e {
            Effect::Send { to, cmd } => e@ == (EffectView::Send { to: to@, cmd: cmd@ }),
            Effect::RefreshPublicRooms => e@ == EffectView::RefreshPublicRooms,
        },
        out@.len() == out.effects@.len(),
        0 <= i < out@.len() ==> out@[i] == out.effects@[i]@,
{
}

/// The value of a room has each field of the room.
pub proof fn law_room(room: Room, panel: OperationPanel, state: InternalRoomState, a: ActionState)
    ensures
        room@ == (RoomView {
            id: room.id@,
            host: room.host,
            state: room.state@,
            live: room.live,
            locked: room.locked,
            cycle: room.cycle,
            public_enabled: room.public_enabled,
            users: room.users@,
            users_waiting: room.users_waiting@,
            monitors: room.monitors@,
            chart: room.chart,
            users_played_result: room.users_played_result@,
            panel: room.panel@,
            host_time: room.host_time,
        }),
        panel@ == (PanelView {
            pointer_position: panel.pointer_position,
            interface: panel.interface,
            users: panel.users@,
        }),
        match state {
            InternalRoomState::SelectChart => state@ == StateView::SelectChart,
            InternalRoomState::WaitForReady { start_time, started } => state@ == (
            StateView::WaitForReady { start_time, started: started@ }),
            InternalRoomState::Playing { results, aborted, start_time } => state@ == (
            StateView::Playing { results: results@, aborted: aborted@, start_time }),
        },
        a@ == (a.0, a.1@),
{
}

/// The value of the server has each of its fields, and its rooms in their order.
pub proof fn law_server(server: ServerState, i: int)
    ensures
        server@.users == server.users@,
        server@.registry == server.registry@,
        server@.next_key == server.next_key,
        server@.next_mark == server.next_mark,
        server@.out == server.out@,
        server@.fault is None,
        server@.rooms.len() == server.rooms@.len(),
        0 <= i < server@.rooms.len() ==> server@.rooms[i] == (SlotView {
            room: server.rooms@[i].room@,
            listed: server.rooms@[i].listed,
            requests: server.rooms@[i].requests,
            given_up: server.rooms@[i].given_up,
        }),
{
}

/// A call that fails leaves its fault, and one that does not leaves none; all
/// else is as the call left it.
pub proof fn law_faults(
    server: ServerState,
    room: Room,
    users: UserTable,
    out: Outbox,
    fault: Fault,
)
    ensures
        world_after(server, Ok::<(), Fault>(())) == server@,
        world_after(server, Err::<(), Fault>(fault)) == (World { fault: Some(fault), ..server@ }),
        scene(room, users, out) == (Scene {
            room: room@,
            users: users@,
            out: out@,
            fault: None,
        }),
        scene_after(room, users, out, Ok::<(), Fault>(())) == scene(room, users, out),
        scene_after(room, users, out, Err::<(), Fault>(fault)) == (Scene {
            fault: Some(fault),
            ..scene(room, users, out)
        }),
{
}

/// What is to be done about a command reads as it is.
pub proof fn law_outcomes(o: Outcome, r: Receipt, chart: Result<i32, String>)
    ensures
        match o {
            Outcome::Reply(Some(cmd)) => o@ == OutcomeView::Reply(Some(cmd@)),
            Outcome::Reply(None) => o@ == OutcomeView::Reply(None),
            Outcome::FetchChart { id, room } => o@ == (OutcomeView::FetchChart { id, room }),
            Outcome::FetchRecord { id, room } => o@ == (OutcomeView::FetchRecord { id, room }),
        },
        match r {
            Receipt::Ignore => r@ == ReceiptView::Ignore,
            Receipt::Reply(cmd) => r@ == ReceiptView::Reply(cmd@),
            Receipt::Identify => r@ == ReceiptView::Identify,
            Receipt::Process(user) => r@ == ReceiptView::Process(user),
        },
        match chart {
            Ok(id) => fetched_view(chart) == Ok::<i32, Seq<char>>(id),
            Err(text) => fetched_view(chart) == Err::<i32, Seq<char>>(text@),
        },
{
}

} // verus!

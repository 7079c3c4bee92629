//! What clients ask for and what the server answers.
use vstd::prelude::*;
use std::collections::HashMap;

verus! {

/// The bits of a 32-bit float that is negative infinity: the game time of a
/// player who has not touched anything yet.
pub const NO_GAME_TIME: u32 = 0xff80_0000;

/// The user id under which the server itself speaks.
pub const SERVER_USER: i32 = 195677;

/// A player as others see them.
#[derive(Debug, PartialEq, Eq)]
pub struct UserInfo {
    pub id: i32,
    pub name: String,
    pub monitor: bool,
}

impl Clone for UserInfo {
    fn clone(&self) -> (r: Self)
        ensures
            r == *self,
    {
        UserInfo { id: self.id, name: self.name.clone(), monitor: self.monitor }
    }
}

/// What a client shows of a room.
#[derive(Clone, Copy, Debug, PartialEq, Eq, Structural)]
pub enum RoomState {
    SelectChart(Option<i32>),
    WaitingForReady,
    Playing,
}

/// One frame of touches. The bits of its time are read; the rest is passed on.
#[derive(Debug, PartialEq, Eq)]
pub struct TouchFrame {
    pub time: u32,
    pub body: Vec<u8>,
}

/// One judged note, which is passed on unread.
#[derive(Debug, PartialEq, Eq)]
pub struct JudgeEvent {
    pub body: Vec<u8>,
}

/// A text that exists in several languages.
#[derive(Clone, Copy, Debug, PartialEq, Eq, Structural)]
pub enum TextKey {
    CreateIdOccupied,
    JoinRoomLocked,
    JoinCantMonitor,
    JoinRoomFull,
    StartNoChartSelected,
}

impl TextKey {
    /// The name of the text in the language files.
    pub open spec fn spec_name(self) -> Seq<char> {
        match self {
            TextKey::CreateIdOccupied => "create-id-occupied"@,
            TextKey::JoinRoomLocked => "join-room-locked"@,
            TextKey::JoinCantMonitor => "join-cant-monitor"@,
            TextKey::JoinRoomFull => "join-room-full"@,
            TextKey::StartNoChartSelected => "start-no-chart-selected"@,
        }
    }

    /// The name of the text in the language files.
    pub fn name(self) -> (r: &'static str)
        ensures
            r@ == self.spec_name(),
    {
        match self {
            TextKey::CreateIdOccupied => "create-id-occupied",
            TextKey::JoinRoomLocked => "join-room-locked",
            TextKey::JoinCantMonitor => "join-cant-monitor",
            TextKey::JoinRoomFull => "join-room-full",
            TextKey::StartNoChartSelected => "start-no-chart-selected",
        }
    }
}

/// Why a request was refused.
#[derive(Debug, PartialEq, Eq)]
pub enum Refusal {
    Text(String),
    Localized(TextKey),
}

/// The mathematical value of a [`Refusal`].
pub enum RefusalView {
    Text(Seq<char>),
    Localized(TextKey),
}

impl View for Refusal {
    type V = RefusalView;

    open spec fn view(&self) -> RefusalView {
        match self {
            Refusal::Text(text) => RefusalView::Text(text@),
            Refusal::Localized(key) => RefusalView::Localized(*key),
        }
    }
}

/// The outcome of a request that carries no data.
pub open spec fn answer_view(r: Result<(), Refusal>) -> Result<(), RefusalView> {
    match r {
        Ok(()) => Ok(()),
        Err(e) => Err(e@),
    }
}

/// Refuses with a fixed text.
pub fn refuse(text: &str) -> (r: Refusal)
    ensures
        r@ == RefusalView::Text(text@),
{
    Refusal::Text(text.to_string())
}

/// The state of a room as a client that comes back gets it.
#[derive(Debug, PartialEq, Eq)]
pub struct ClientRoomState {
    pub id: String,
    pub state: RoomState,
    pub live: bool,
    pub locked: bool,
    pub cycle: bool,
    pub is_host: bool,
    pub is_ready: bool,
    pub users: HashMap<i32, UserInfo>,
}

/// The mathematical value of a [`ClientRoomState`].
#[verifier::ext_equal]
pub struct ClientRoomStateView {
    pub id: Seq<char>,
    pub state: RoomState,
    pub live: bool,
    pub locked: bool,
    pub cycle: bool,
    pub is_host: bool,
    pub is_ready: bool,
    pub users: Map<i32, UserInfo>,
}

impl View for ClientRoomState {
    type V = ClientRoomStateView;

    open spec fn view(&self) -> ClientRoomStateView {
        ClientRoomStateView {
            id: self.id@,
            state: self.state,
            live: self.live,
            locked: self.locked,
            cycle: self.cycle,
            is_host: self.is_host,
            is_ready: self.is_ready,
            users: self.users@,
        }
    }
}

/// What a user who joins a room gets to see.
#[derive(Debug, PartialEq, Eq)]
pub struct JoinRoomResponse {
    pub state: RoomState,
    pub users: Vec<UserInfo>,
    pub live: bool,
}

/// The mathematical value of a [`JoinRoomResponse`].
#[verifier::ext_equal]
pub struct JoinRoomResponseView {
    pub state: RoomState,
    pub users: Seq<UserInfo>,
    pub live: bool,
}

impl View for JoinRoomResponse {
    type V = JoinRoomResponseView;

    open spec fn view(&self) -> JoinRoomResponseView {
        JoinRoomResponseView { state: self.state, users: self.users@, live: self.live }
    }
}

/// A line in a room's log.
#[derive(Debug, PartialEq, Eq)]
pub enum Message {
    Chat { user: i32, content: String },
    CreateRoom { user: i32 },
    JoinRoom { user: i32, name: String },
    LeaveRoom { user: i32, name: String },
    NewHost { user: i32 },
    SelectChart { user: i32, name: String, id: i32 },
    GameStart { user: i32 },
    Ready { user: i32 },
    CancelReady { user: i32 },
    CancelGame { user: i32 },
    StartPlaying,
    /// `accuracy` holds the bits of a 32-bit float.
    Played { user: i32, score: i32, accuracy: u32, full_combo: bool },
    GameEnd,
    Abort { user: i32 },
    LockRoom { lock: bool },
    CycleRoom { cycle: bool },
}

/// The mathematical value of a [`Message`].
pub enum MessageView {
    Chat { user: i32, content: Seq<char> },
    CreateRoom { user: i32 },
    JoinRoom { user: i32, name: Seq<char> },
    LeaveRoom { user: i32, name: Seq<char> },
    NewHost { user: i32 },
    SelectChart { user: i32, name: Seq<char>, id: i32 },
    GameStart { user: i32 },
    Ready { user: i32 },
    CancelReady { user: i32 },
    CancelGame { user: i32 },
    StartPlaying,
    Played { user: i32, score: i32, accuracy: u32, full_combo: bool },
    GameEnd,
    Abort { user: i32 },
    LockRoom { lock: bool },
    CycleRoom { cycle: bool },
}

impl View for Message {
    type V = MessageView;

    open spec fn view(&self) -> MessageView {
        match *self {
            Message::Chat { user, content } => MessageView::Chat { user, content: content@ },
            Message::CreateRoom { user } => MessageView::CreateRoom { user },
            Message::JoinRoom { user, name } => MessageView::JoinRoom { user, name: name@ },
            Message::LeaveRoom { user, name } => MessageView::LeaveRoom { user, name: name@ },
            Message::NewHost { user } => MessageView::NewHost { user },
            Message::SelectChart { user, name, id } => MessageView::SelectChart {
                user,
                name: name@,
                id,
            },
            Message::GameStart { user } => MessageView::GameStart { user },
            Message::Ready { user } => MessageView::Ready { user },
            Message::CancelReady { user } => MessageView::CancelReady { user },
            Message::CancelGame { user } => MessageView::CancelGame { user },
            Message::StartPlaying => MessageView::StartPlaying,
            Message::Played { user, score, accuracy, full_combo } => MessageView::Played {
                user,
                score,
                accuracy,
                full_combo,
            },
            Message::GameEnd => MessageView::GameEnd,
            Message::Abort { user } => MessageView::Abort { user },
            Message::LockRoom { lock } => MessageView::LockRoom { lock },
            Message::CycleRoom { cycle } => MessageView::CycleRoom { cycle },
        }
    }
}

/// What the server sends to a client.
#[derive(Debug, PartialEq, Eq)]
pub enum ServerCommand {
    Pong,
    Authenticate(Result<(UserInfo, Option<ClientRoomState>), Refusal>),
    Chat(Result<(), Refusal>),
    Touches { player: i32, frames: Vec<TouchFrame> },
    Judges { player: i32, judges: Vec<JudgeEvent> },
    Message(Message),
    ChangeState(RoomState),
    ChangeHost(bool),
    CreateRoom(Result<(), Refusal>),
    JoinRoom(Result<JoinRoomResponse, Refusal>),
    OnJoinRoom(UserInfo),
    LeaveRoom(Result<(), Refusal>),
    LockRoom(Result<(), Refusal>),
    CycleRoom(Result<(), Refusal>),
    SelectChart(Result<(), Refusal>),
    RequestStart(Result<(), Refusal>),
    Ready(Result<(), Refusal>),
    CancelReady(Result<(), Refusal>),
    Played(Result<(), Refusal>),
    Abort(Result<(), Refusal>),
}

/// The mathematical value of a [`ServerCommand`].
pub enum ServerCommandView {
    Pong,
    Authenticate(Result<(UserInfo, Option<ClientRoomStateView>), RefusalView>),
    Chat(Result<(), RefusalView>),
    Touches { player: i32, frames: Seq<TouchFrame> },
    Judges { player: i32, judges: Seq<JudgeEvent> },
    Message(MessageView),
    ChangeState(RoomState),
    ChangeHost(bool),
    CreateRoom(Result<(), RefusalView>),
    JoinRoom(Result<JoinRoomResponseView, RefusalView>),
    OnJoinRoom(UserInfo),
    LeaveRoom(Result<(), RefusalView>),
    LockRoom(Result<(), RefusalView>),
    CycleRoom(Result<(), RefusalView>),
    SelectChart(Result<(), RefusalView>),
    RequestStart(Result<(), RefusalView>),
    Ready(Result<(), RefusalView>),
    CancelReady(Result<(), RefusalView>),
    Played(Result<(), RefusalView>),
    Abort(Result<(), RefusalView>),
}

impl View for ServerCommand {
    type V = ServerCommandView;

    open spec fn view(&self) -> ServerCommandView {
        match *self {
            ServerCommand::Pong => ServerCommandView::Pong,
            ServerCommand::Authenticate(r) => ServerCommandView::Authenticate(
                match r {
                    Ok((info, Some(room))) => Ok((info, Some(room@))),
                    Ok((info, None)) => Ok((info, None)),
                    Err(e) => Err(e@),
                },
            ),
            ServerCommand::Chat(r) => ServerCommandView::Chat(answer_view(r)),
            ServerCommand::Touches { player, frames } => ServerCommandView::Touches {
                player,
                frames: frames@,
            },
            ServerCommand::Judges { player, judges } => ServerCommandView::Judges {
                player,
                judges: judges@,
            },
            ServerCommand::Message(m) => ServerCommandView::Message(m@),
            ServerCommand::ChangeState(s) => ServerCommandView::ChangeState(s),
            ServerCommand::ChangeHost(b) => ServerCommandView::ChangeHost(b),
            ServerCommand::CreateRoom(r) => ServerCommandView::CreateRoom(answer_view(r)),
            ServerCommand::JoinRoom(r) => ServerCommandView::JoinRoom(
                match r {
                    Ok(resp) => Ok(resp@),
                    Err(e) => Err(e@),
                },
            ),
            ServerCommand::OnJoinRoom(info) => ServerCommandView::OnJoinRoom(info),
            ServerCommand::LeaveRoom(r) => ServerCommandView::LeaveRoom(answer_view(r)),
            ServerCommand::LockRoom(r) => ServerCommandView::LockRoom(answer_view(r)),
            ServerCommand::CycleRoom(r) => ServerCommandView::CycleRoom(answer_view(r)),
            ServerCommand::SelectChart(r) => ServerCommandView::SelectChart(answer_view(r)),
            ServerCommand::RequestStart(r) => ServerCommandView::RequestStart(answer_view(r)),
            ServerCommand::Ready(r) => ServerCommandView::Ready(answer_view(r)),
            ServerCommand::CancelReady(r) => ServerCommandView::CancelReady(answer_view(r)),
            ServerCommand::Played(r) => ServerCommandView::Played(answer_view(r)),
            ServerCommand::Abort(r) => ServerCommandView::Abort(answer_view(r)),
        }
    }
}

/// What a client asks of the server.
#[allow(inconsistent_fields)]
#[derive(Debug, PartialEq, Eq)]
pub enum ClientCommand {
    Ping,
    Authenticate { token: String },
    Chat { message: String },
    Touches { frames: Vec<TouchFrame> },
    Judges { judges: Vec<JudgeEvent> },
    CreateRoom { id: String },
    JoinRoom { id: String, monitor: bool },
    LeaveRoom,
    LockRoom { lock: bool },
    CycleRoom { cycle: bool },
    SelectChart { id: i32 },
    RequestStart,
    Ready,
    CancelReady,
    Played { id: i32 },
    Abort,
}

} // verus!

//! A room: who is in it, what is being played, and the host's panel.
use vstd::prelude::*;
use std::collections::{HashMap, HashSet};
use crate::keys::{chain_keys, copy_keys, position, UserKey};
use crate::protocol::{
    answer_view, refuse, ClientRoomState, ClientRoomStateView, Refusal, RefusalView, RoomState,
    UserInfo,
};
use crate::ranking::{copy_results, Accuracy, Record, UserPlayedResult};
use crate::users::{alive, id_of, ids_of, info_of, lemma_others, others, UserTable, Users};

verus! {

/// How many players a room holds.
pub const ROOM_MAX_USERS: usize = 100;

/// How many entries the first menu of the panel has.
pub const MENU_LEN: u8 = 6;

/// A chart that can be played.
#[derive(Debug, PartialEq, Eq)]
pub struct Chart {
    pub id: i32,
    pub name: String,
}

/// The outcome of an action on the panel: whether the game is to start, and
/// the text to show if not.
#[derive(Debug, PartialEq, Eq)]
pub struct ActionState(pub bool, pub String);

impl Clone for ActionState {
    fn clone(&self) -> (r: Self)
        ensures
            r == *self,
    {
        ActionState(self.0, self.1.clone())
    }
}

impl View for ActionState {
    type V = (bool, Seq<char>);

    open spec fn view(&self) -> (bool, Seq<char>) {
        (self.0, self.1@)
    }
}

/// The host's panel: the menu that is open, the entry that the pointer stands
/// on, and the players whom the second menu lists. The list holds them.
#[derive(Debug)]
pub struct OperationPanel {
    pub pointer_position: u8,
    pub interface: u8,
    pub users: Vec<UserKey>,
}

/// The mathematical value of an [`OperationPanel`].
#[verifier::ext_equal]
pub struct PanelView {
    pub pointer_position: u8,
    pub interface: u8,
    pub users: Seq<UserKey>,
}

impl View for OperationPanel {
    type V = PanelView;

    open spec fn view(&self) -> PanelView {
        PanelView {
            pointer_position: self.pointer_position,
            interface: self.interface,
            users: self.users@,
        }
    }
}

impl Clone for OperationPanel {
    fn clone(&self) -> (r: Self)
        ensures
            r@ == self@,
    {
        OperationPanel {
            pointer_position: self.pointer_position,
            interface: self.interface,
            users: copy_keys(&self.users),
        }
    }
}

impl PanelView {
    /// One of the two menus is open, and the pointer stands where it can have
    /// got to: on an entry of the first menu, or no further down the second
    /// than a full room takes it. No more users are listed than a room takes.
    pub open spec fn wf(self) -> bool {
        &&& self.users.len() <= ROOM_MAX_USERS
        &&& self.interface <= 1
        &&& self.interface == 0 ==> self.pointer_position < MENU_LEN
        &&& self.interface == 1 ==> self.pointer_position <= ROOM_MAX_USERS
    }
}

/// What a room is doing.
#[derive(Debug)]
pub enum InternalRoomState {
    SelectChart,
    WaitForReady { start_time: u64, started: HashSet<i32> },
    Playing { results: HashMap<i32, Record>, aborted: HashSet<i32>, start_time: u64 },
}

/// The mathematical value of an [`InternalRoomState`].
#[verifier::ext_equal]
pub enum StateView {
    SelectChart,
    WaitForReady { start_time: u64, started: Set<i32> },
    Playing { results: Map<i32, Record>, aborted: Set<i32>, start_time: u64 },
}

impl View for InternalRoomState {
    type V = StateView;

    open spec fn view(&self) -> StateView {
        match *self {
            InternalRoomState::SelectChart => StateView::SelectChart,
            InternalRoomState::WaitForReady { start_time, started } => StateView::WaitForReady {
                start_time,
                started: started@,
            },
            InternalRoomState::Playing { results, aborted, start_time } => StateView::Playing {
                results: results@,
                aborted: aborted@,
                start_time,
            },
        }
    }
}

impl StateView {
    /// What a client sees of the state.
    pub open spec fn to_client(self, chart: Option<i32>) -> RoomState {
        match self {
            StateView::SelectChart => RoomState::SelectChart(chart),
            StateView::WaitForReady { .. } => RoomState::WaitingForReady,
            StateView::Playing { .. } => RoomState::Playing,
        }
    }
}

impl InternalRoomState {
    /// What a client sees of the state.
    pub fn to_client(&self, chart: Option<i32>) -> (r: RoomState)
        ensures
            r == self@.to_client(chart),
    {
        match self {
            InternalRoomState::SelectChart => RoomState::SelectChart(chart),
            InternalRoomState::WaitForReady { .. } => RoomState::WaitingForReady,
            InternalRoomState::Playing { .. } => RoomState::Playing,
        }
    }
}

impl Default for InternalRoomState {
    fn default() -> (r: Self)
        ensures
            r@ == StateView::SelectChart,
    {
        InternalRoomState::SelectChart
    }
}

/// A room. The lists, and `host`, name users who may be gone: who is not there
/// any more does not count. Times are in seconds.
pub struct Room {
    pub id: String,
    pub host: UserKey,
    pub state: InternalRoomState,
    pub live: bool,
    pub locked: bool,
    pub cycle: bool,
    pub public_enabled: bool,
    pub users: Vec<UserKey>,
    pub users_waiting: Vec<UserKey>,
    pub monitors: Vec<UserKey>,
    pub chart: Option<Chart>,
    pub users_played_result: Vec<UserPlayedResult>,
    pub panel: OperationPanel,
    pub host_time: u64,
}

/// The mathematical value of a [`Room`].
#[verifier::ext_equal]
pub struct RoomView {
    pub id: Seq<char>,
    pub host: UserKey,
    pub state: StateView,
    pub live: bool,
    pub locked: bool,
    pub cycle: bool,
    pub public_enabled: bool,
    pub users: Seq<UserKey>,
    pub users_waiting: Seq<UserKey>,
    pub monitors: Seq<UserKey>,
    pub chart: Option<Chart>,
    pub users_played_result: Seq<UserPlayedResult>,
    pub panel: PanelView,
    pub host_time: u64,
}

impl View for Room {
    type V = RoomView;

    open spec fn view(&self) -> RoomView {
        RoomView {
            id: self.id@,
            host: self.host,
            state: self.state@,
            live: self.live,
            locked: self.locked,
            cycle: self.cycle,
            public_enabled: self.public_enabled,
            users: self.users@,
            users_waiting: self.users_waiting@,
            monitors: self.monitors@,
            chart: self.chart,
            users_played_result: self.users_played_result@,
            panel: self.panel@,
            host_time: self.host_time,
        }
    }
}

impl StateView {
    /// Nobody has both a result and given up.
    pub open spec fn wf(self) -> bool {
        self matches StateView::Playing { results, aborted, .. } ==> forall|id: i32|
            !(#[trigger] results.contains_key(id) && aborted.contains(id))
    }
}

impl RoomView {
    /// A room never lists more players than it may, its state and its panel are
    /// in order, and the room that is open to everyone is never locked, never
    /// leaves cycle mode, and is never put on the list of public rooms.
    pub open spec fn wf(self) -> bool {
        &&& self.users.len() <= ROOM_MAX_USERS
        &&& self.state.wf()
        &&& self.panel.wf()
        &&& self.id == "public"@ ==> !self.locked && self.cycle && !self.public_enabled
    }

    /// A new room with its host in it.
    pub open spec fn fresh(id: Seq<char>, host: UserKey) -> RoomView {
        RoomView {
            id,
            host,
            state: StateView::SelectChart,
            live: false,
            locked: false,
            cycle: true,
            public_enabled: false,
            users: seq![host],
            users_waiting: Seq::empty(),
            monitors: Seq::empty(),
            chart: None,
            users_played_result: Seq::empty(),
            panel: PanelView { pointer_position: 0, interface: 0, users: Seq::empty() },
            host_time: 0,
        }
    }

    /// What is left of a room that was given up.
    pub open spec fn nothing() -> RoomView {
        RoomView { users: Seq::empty(), ..RoomView::fresh(Seq::empty(), 0) }
    }

    /// The players.
    pub open spec fn players(self, users: Users) -> Seq<UserKey> {
        alive(users, self.users)
    }

    /// Everyone who hears what is said in the room.
    pub open spec fn audience(self, users: Users) -> Seq<UserKey> {
        alive(users, self.users) + alive(users, self.monitors)
    }

    /// The players who take part in the game, that is, who do not wait for the
    /// next one.
    pub open spec fn active(self, users: Users) -> Seq<UserKey> {
        others(users, self.users, ids_of(users, self.users_waiting))
    }

    /// The host is there and has this id.
    pub open spec fn is_host(self, users: Users, id: i32) -> bool {
        users.contains_key(self.host) && users[self.host].id == id
    }

    /// The chart that clients show.
    pub open spec fn chart_id(self) -> Option<i32> {
        match self.chart {
            Some(chart) => Some(chart.id),
            None => None,
        }
    }

    /// What a client sees of the room's state.
    pub open spec fn client_room_state(self) -> RoomState {
        self.state.to_client(self.chart_id())
    }

    /// Who is host after the current one: the player behind them, in a circle;
    /// the first player if the host is not among the players.
    pub open spec fn next_host(self, users: Users) -> UserKey {
        let players = self.players(users);
        match position(players, self.host) {
            Some(i) => players[((i + 1) % players.len()) as int],
            None => players[0],
        }
    }

    /// Everyone who takes part or watches is ready.
    pub open spec fn all_ready(self, users: Users) -> bool {
        let everyone = self.active(users) + alive(users, self.monitors);
        self.state matches StateView::WaitForReady { started, .. } && forall|i: int|
            0 <= i < everyone.len() ==> started.contains(id_of(users, #[trigger] everyone[i]))
    }

    /// Everyone who takes part has played or given up.
    pub open spec fn all_done(self, users: Users) -> bool {
        let active = self.active(users);
        self.state matches StateView::Playing { results, aborted, .. } && forall|i: int|
            0 <= i < active.len() ==> results.contains_key(id_of(users, #[trigger] active[i]))
                || aborted.contains(id_of(users, active[i]))
    }

    /// The room after `user` asked to be let in, and whether they were. On that
    /// occasion those who are gone are struck off the list.
    pub open spec fn add_user(
        self,
        users: Users,
        user: UserKey,
        monitor: bool,
        waiting: bool,
        now: u64,
    ) -> (RoomView, bool) {
        let r = if self.players(users).len() == 0 {
            RoomView { host: user, host_time: now, ..self }
        } else {
            self
        };
        if waiting {
            let r = RoomView {
                users: alive(users, r.users),
                users_waiting: alive(users, r.users_waiting),
                ..r
            };
            if r.users.len() + r.users_waiting.len() >= ROOM_MAX_USERS {
                (r, false)
            } else {
                (
                    RoomView {
                        users: r.users.push(user),
                        users_waiting: r.users_waiting.push(user),
                        ..r
                    },
                    true,
                )
            }
        } else if monitor {
            (RoomView { monitors: alive(users, r.monitors).push(user), ..r }, true)
        } else {
            let r = RoomView { users: alive(users, r.users), ..r };
            if r.users.len() >= ROOM_MAX_USERS {
                (r, false)
            } else {
                (RoomView { users: r.users.push(user), ..r }, true)
            }
        }
    }

    /// Tells whether a user has said that they are ready.
    pub open spec fn is_ready(self, id: i32) -> bool {
        self.state matches StateView::WaitForReady { started, .. } && started.contains(id)
    }

    /// The room as a user who comes back to it sees it.
    pub open spec fn client_state(self, users: Users, user: UserKey) -> ClientRoomStateView {
        ClientRoomStateView {
            id: self.id,
            state: self.client_room_state(),
            live: self.live,
            locked: self.locked,
            cycle: self.cycle,
            is_host: self.is_host(users, id_of(users, user)),
            is_ready: self.is_ready(id_of(users, user)),
            users: info_map(users, self.users + self.monitors),
        }
    }
}

/// What others see of those on a list who are there, by id. Of two with one id
/// the later one counts.
pub open spec fn info_map(users: Users, list: Seq<UserKey>) -> Map<i32, UserInfo>
    decreases list.len(),
{
    if list.len() == 0 {
        Map::empty()
    } else if users.contains_key(list.last()) {
        info_map(users, list.drop_last()).insert(
            users[list.last()].id,
            info_of(users[list.last()]),
        )
    } else {
        info_map(users, list.drop_last())
    }
}

/// Why a room cannot go on: the state it got into is one that it has no
/// answer to.
#[derive(Clone, Copy, Debug, PartialEq, Eq, Structural)]
pub enum Fault {
    /// The host left, nobody plays, but someone is still listed as waiting.
    NoCandidate,
    /// The host is to move on in a room without players.
    EmptyRoom,
    /// The host is gone.
    HostGone,
    /// The pointer of the panel is below the last player listed.
    StaleMenu,
    /// The user who joins would have to be put out, as the overdue host, before
    /// they are in.
    SelfEviction,
}

impl Room {
    /// A new room, with its host as the only player.
    pub fn new(id: String, host: UserKey) -> (r: Self)
        ensures
            r@ == RoomView::fresh(id@, host),
            r@.wf(),
    {
        let mut users: Vec<UserKey> = Vec::new();
        users.push(host);
        let r = Room {
            id,
            host,
            state: InternalRoomState::SelectChart,
            live: false,
            locked: false,
            cycle: true,
            public_enabled: false,
            users,
            users_waiting: Vec::new(),
            monitors: Vec::new(),
            chart: None,
            users_played_result: Vec::new(),
            panel: OperationPanel { pointer_position: 0, interface: 0, users: Vec::new() },
            host_time: 0,
        };
        assert(r@ =~= RoomView::fresh(id@, host));
        r
    }

    /// What is left of a room that was given up.
    pub fn nothing() -> (r: Self)
        ensures
            r@ == RoomView::nothing(),
    {
        let mut r: Room = Room::new(String::new(), 0);
        r.users.clear();
        assert(r@ =~= RoomView::nothing());
        r
    }

    /// Tells whether what the players do is shown to monitors.
    pub fn is_live(&self) -> (r: bool)
        ensures
            r == self@.live,
    {
        self.live
    }

    /// Tells whether nobody else may join.
    pub fn is_locked(&self) -> (r: bool)
        ensures
            r == self@.locked,
    {
        self.locked
    }

    /// Tells whether the host moves on after each game.
    pub fn is_cycle(&self) -> (r: bool)
        ensures
            r == self@.cycle,
    {
        self.cycle
    }

    /// Tells whether the room is on the list of public rooms.
    pub fn is_public_enabled(&self) -> (r: bool)
        ensures
            r == self@.public_enabled,
    {
        self.public_enabled
    }

    /// Lets everyone who waits take part from now on.
    pub fn clear_waiting_users(&mut self)
        ensures
            final(self)@ == (RoomView { users_waiting: Seq::empty(), ..old(self)@ }),
    {
        self.users_waiting = Vec::new();
        assert(self@ =~= RoomView { users_waiting: Seq::empty(), ..old(self)@ });
    }

    /// What a client sees of the room's state.
    pub fn client_room_state(&self) -> (r: RoomState)
        ensures
            r == self@.client_room_state(),
    {
        let chart: Option<i32> = match &self.chart {
            Some(chart) => Some(chart.id),
            None => None,
        };
        self.state.to_client(chart)
    }

    /// The results of the current game, in the order in which they came in.
    pub fn get_users_played_result(&self) -> (r: Vec<UserPlayedResult>)
        ensures
            r@ == self@.users_played_result,
    {
        copy_results(&self.users_played_result)
    }

    /// The room as a user who comes back to it sees it.
    pub fn client_state(&self, users: &UserTable, user: UserKey) -> (r: ClientRoomState)
        ensures
            r@ == self@.client_state(users@, user),
    {
        let keys: Vec<UserKey> = chain_keys(&self.users, &self.monitors);
        let mut list: HashMap<i32, UserInfo> = HashMap::new();
        let mut i: usize = 0;
        assert(keys@.take(0) =~= Seq::empty());
        while i < keys.len()
            invariant
                i <= keys.len(),
                list@ == info_map(users@, keys@.take(i as int)),
            decreases keys.len() - i,
        {
            assert(keys@.take(i + 1).drop_last() =~= keys@.take(i as int));
            match users.get(keys[i]) {
                Some(u) => {
                    list.insert(u.id, u.to_info());
                },
                None => {},
            }
            i = i + 1;
        }
        assert(keys@.take(i as int) =~= keys@);
        let id: i32 = users.id(user);
        let is_ready: bool = match &self.state {
            InternalRoomState::WaitForReady { started, .. } => started.contains(&id),
            _ => false,
        };
        ClientRoomState {
            id: self.id.clone(),
            state: self.client_room_state(),
            live: self.is_live(),
            locked: self.is_locked(),
            cycle: self.is_cycle(),
            is_host: self.is_host(users, id),
            is_ready,
            users: list,
        }
    }

    /// Lets a user in, and tells whether there was room for them. In a game
    /// that goes on they wait for the next one. The first player becomes host.
    pub fn add_user(
        &mut self,
        users: &UserTable,
        user: UserKey,
        monitor: bool,
        is_user_waiting: bool,
        now: u64,
    ) -> (r: bool)
        ensures
            (final(self)@, r) == old(self)@.add_user(users@, user, monitor, is_user_waiting, now),
            old(self)@.wf() ==> final(self)@.wf(),
    {
        proof {
            lemma_others(users@, self.users@, Set::empty());
        }
        if self.users(users).len() == 0 {
            self.host = user;
            self.reset_host_time(now);
        }
        let r: bool = if is_user_waiting {
            self.users = users.alive(&self.users);
            self.users_waiting = users.alive(&self.users_waiting);
            if self.users.len() >= ROOM_MAX_USERS || self.users_waiting.len() >= ROOM_MAX_USERS
                - self.users.len() {
                false
            } else {
                self.users_waiting.push(user);
                self.users.push(user);
                true
            }
        } else if monitor {
            self.monitors = users.alive(&self.monitors);
            self.monitors.push(user);
            true
        } else {
            self.users = users.alive(&self.users);
            if self.users.len() >= ROOM_MAX_USERS {
                false
            } else {
                self.users.push(user);
                true
            }
        };
        assert(self@ =~= old(self)@.add_user(users@, user, monitor, is_user_waiting, now).0);
        r
    }

    /// Sets the time from which the host has to choose a chart; zero stops the
    /// clock.
    pub fn reset_host_time(&mut self, time: u64)
        ensures
            final(self)@ == (RoomView { host_time: time, ..old(self)@ }),
    {
        self.host_time = time;
    }

    /// The panel.
    pub fn panel(&self) -> (r: OperationPanel)
        ensures
            r@ == self@.panel,
    {
        self.panel.clone()
    }

    /// The host.
    pub fn host(&self, users: &UserTable) -> (r: UserKey)
        requires
            users@.contains_key(self@.host),
        ensures
            r == self@.host,
    {
        self.host
    }

    /// The players.
    pub fn users(&self, users: &UserTable) -> (r: Vec<UserKey>)
        ensures
            r@ == self@.players(users@),
    {
        users.alive(&self.users)
    }

    /// The players who wait for the next game.
    pub fn users_waiting(&self, users: &UserTable) -> (r: Vec<UserKey>)
        ensures
            r@ == alive(users@, self@.users_waiting),
    {
        users.alive(&self.users_waiting)
    }

    /// The monitors.
    pub fn monitors(&self, users: &UserTable) -> (r: Vec<UserKey>)
        ensures
            r@ == alive(users@, self@.monitors),
    {
        users.alive(&self.monitors)
    }

    /// Everyone who hears what is said in the room.
    pub fn audience(&self, users: &UserTable) -> (r: Vec<UserKey>)
        ensures
            r@ == self@.audience(users@),
    {
        chain_keys(&self.users(users), &self.monitors(users))
    }

    /// The players who take part in the game.
    pub fn active(&self, users: &UserTable) -> (r: Vec<UserKey>)
        ensures
            r@ == self@.active(users@),
    {
        users.others(&self.users, &users.ids(&self.users_waiting))
    }

    /// Tells whether the host is there and has this id.
    pub fn is_host(&self, users: &UserTable, id: i32) -> (r: bool)
        ensures
            r == self@.is_host(users@, id),
    {
        match users.get(self.host) {
            Some(host) => host.id == id,
            None => false,
        }
    }

    /// Refuses what only the host may do to anyone else.
    pub fn check_host(&self, users: &UserTable, user: UserKey) -> (r: Result<(), Refusal>)
        ensures
            answer_view(r) == if self@.is_host(users@, id_of(users@, user)) {
                Ok(())
            } else {
                Err(RefusalView::Text("只有房主才能进行此操作"@))
            },
    {
        if self.is_host(users, users.id(user)) {
            Ok(())
        } else {
            Err(refuse("只有房主才能进行此操作"))
        }
    }

    /// Notes what a player reached.
    pub fn add_score(
        &mut self,
        id: i32,
        user_name: String,
        score: i32,
        accuracy: Accuracy,
        full_combo: bool,
        now: u64,
    )
        ensures
            final(self)@ == (RoomView {
                users_played_result: old(self)@.users_played_result.push(
                    UserPlayedResult {
                        id,
                        user_name,
                        score,
                        accuracy,
                        fc_state: full_combo,
                        finish_time: now,
                    },
                ),
                ..old(self)@
            }),
    {
        self.users_played_result.push(
            UserPlayedResult {
                id,
                user_name,
                score,
                accuracy,
                fc_state: full_combo,
                finish_time: now,
            },
        );
    }
}

} // verus!

# phira-mp

A server on which players of a rhythm game meet in rooms and play together. The
heart of it, everything that decides, is a library that is verified with
[Verus](https://github.com/verus-lang/verus): each function states what it does,
and the proofs are checked.

## Layout

- `src/` is the verified library.
  - `protocol`, `users`, `room`, `outbox`, `ranking`, `text`, `keys`: the data and
    the small functions on it.
  - `scene` states what happens in one room, `game`, `panel` and `commands` carry
    it out.
  - `world` states what happens on the whole server, `server` carries it out.
  - `session` decides what becomes of a command that comes in on a connection,
    and `sharing` holds the rules for sharing the server on a website.
  - `chance` holds what is left to chance: a random user, a random id. The two
    calls into other crates are in this file.
  - `keeping` and `order` prove what every step keeps in order, and `laws` states
    what holds of the server as a whole.
- `tests/` runs the library.
- `app/` is the program around it: connections, the clock, the disk, the game's
  own service. It speaks to clients through the `phira_mp_common` crate.

## How the library is used

Commands do not send anything themselves. They leave what is to be sent in the
outbox of `ServerState`, and the program carries it out: for each list of users,
`UserTable::sessions` says which connections a command goes to. A command that
needs a chart or a record says so in its `Outcome`; the program fetches it and
hands it to `chart_fetched` or `record_fetched`. Time is handed in with each
command, in seconds.

A user is there as long as something holds them: the server, which knows them by
their id, a connection (`sign_in` to `hang_up`), a wait for a lost user (`hang_up`
to `dangle_expired`), a request under way (`process` to `chart_fetched` or
`record_fetched`), or the list of players that the host of a room has open. Each
user has a key of their own, so that someone whom the server has let go can still
be there, next to the user who came in anew with the same id.

A room exists as long as something leads to it: its id, someone in it, or a request
under way for it. Then it is given up, its list of players lets go of everyone, and
only its place is left.

A room can get into a state that it has no answer to, such as a host who leaves
while nobody plays but someone waits. The functions report that as a `Fault` and
say exactly when it happens; the program ends the task that ran into it.

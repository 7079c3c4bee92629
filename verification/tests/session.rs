use phira_mp::protocol::{ClientCommand, Refusal, ServerCommand, UserInfo};
use phira_mp::server::ServerState;
use phira_mp::session::{is_alive, Identity, Receipt, Session};

fn authenticate(token: &str) -> ClientCommand {
    ClientCommand::Authenticate { token: token.to_string() }
}

fn ada() -> Option<Identity> {
    Some(Identity { id: 7, name: "ada".to_string(), language: "en-US".to_string() })
}

const TOKEN: &str = "0123456789abcdef0123456789abcdef";

#[test]
fn a_client_says_who_they_are_and_is_then_served() {
    let mut server = ServerState::new();
    let mut session = Session::new(99, 3);
    assert_eq!(session.version(), 3);
    assert!(!session.is_hopeless());
    assert_eq!(session.receive(&authenticate(TOKEN)), Receipt::Identify);
    let reply = session.identified(&mut server, ada());
    let info = UserInfo { id: 7, name: "ada".to_string(), monitor: false };
    assert_eq!(reply, ServerCommand::Authenticate(Ok((info, None))));
    assert!(!session.is_hopeless());
    assert_eq!(session.name(), "ada");
    assert_eq!(session.receive(&ClientCommand::Ready), Receipt::Process(0));
    assert_eq!(session.receive(&authenticate(TOKEN)), Receipt::Process(0));
    assert_eq!(session.receive(&ClientCommand::Ping), Receipt::Reply(ServerCommand::Pong));
    assert_eq!(session.user, Some(0));
    assert_eq!(server.key_of(7), Some(0));
    assert_eq!(server.users.get(0).and_then(|u| u.try_send()), Some(99));
}

#[test]
fn a_token_has_thirty_two_bytes() {
    for token in ["", "0123456789abcdef0123456789abcde", "0123456789abcdef0123456789abcdef0", "房间房间房间房间房间房间房间房间房间房间房间房间房间房间房间房间"] {
        let mut session = Session::new(1, 1);
        assert_eq!(
            session.receive(&authenticate(token)),
            Receipt::Reply(ServerCommand::Authenticate(Err(Refusal::Text(
                "invalid token".to_string()
            ))))
        );
        assert!(session.panicked);
        assert!(session.is_hopeless());
        assert_eq!(session.receive(&ClientCommand::Ping), Receipt::Ignore);
    }
    let mut session = Session::new(1, 1);
    assert_eq!(session.receive(&authenticate("房间房间房间房间房间ab")), Receipt::Identify);
}

#[test]
fn the_first_command_is_the_only_chance() {
    let mut session = Session::new(1, 1);
    assert_eq!(session.receive(&ClientCommand::Ping), Receipt::Reply(ServerCommand::Pong));
    assert!(session.is_hopeless());
    assert_eq!(session.receive(&authenticate(TOKEN)), Receipt::Ignore);

    let mut session = Session::new(1, 1);
    assert_eq!(session.receive(&ClientCommand::Abort), Receipt::Ignore);
    assert!(session.is_hopeless());
}

#[test]
fn a_client_nobody_knows_is_turned_away() {
    let mut server = ServerState::new();
    let mut session = Session::new(1, 1);
    assert_eq!(session.receive(&authenticate(TOKEN)), Receipt::Identify);
    assert_eq!(
        session.identified(&mut server, None),
        ServerCommand::Authenticate(Err(Refusal::Text("failed to fetch info".to_string())))
    );
    assert!(session.panicked);
    assert_eq!(session.receive(&ClientCommand::Ready), Receipt::Ignore);
    assert_eq!(session.user, None);
    assert_eq!(server.key_of(7), None);
}

#[test]
fn a_failed_reply_ends_the_session() {
    let mut server = ServerState::new();
    let mut session = Session::new(1, 1);
    session.receive(&authenticate(TOKEN));
    session.identified(&mut server, ada());
    session.fail();
    assert_eq!(session.receive(&ClientCommand::Ready), Receipt::Ignore);
}

#[test]
fn a_user_who_comes_back_keeps_their_old_name() {
    let mut server = ServerState::new();
    let mut first = Session::new(1, 1);
    first.receive(&authenticate(TOKEN));
    first.identified(&mut server, ada());
    let mut second = Session::new(2, 1);
    second.receive(&authenticate(TOKEN));
    second.identified(
        &mut server,
        Some(Identity { id: 7, name: "lovelace".to_string(), language: "zh-CN".to_string() }),
    );
    assert_eq!(second.name(), "ada");
    assert_eq!((first.user, second.user), (Some(0), Some(0)));
    let user = server.users.get(0).unwrap();
    assert_eq!(user.lang, "en-US");
    assert_eq!(user.session, Some(2));
}

#[test]
fn a_silent_client_is_given_up_after_the_timeout() {
    assert!(is_alive(100, 10, 109));
    assert!(!is_alive(100, 10, 110));
    assert!(!is_alive(100, 10, 200));
    assert!(is_alive(u64::MAX, u64::MAX, u64::MAX));
}

use g6_control::instance::{
    is_open_request, is_running, listen_step, owns_socket, request, socket_identity, Accepted,
    Acquire, Call, Event, FileFacts, ListenStep, Outcome, SocketError, SocketIdentity, MAX_ROUNDS,
};

fn id(inode: u64) -> SocketIdentity {
    SocketIdentity { device: 1, inode }
}

fn next(state: Acquire, event: Event) -> Acquire {
    match state.advance(event) {
        Outcome::Next { state } => state,
        other => panic!("the attempt ended: {:?}", other),
    }
}

#[test]
fn first_instance_binds_a_free_path() {
    let state = next(Acquire::start(), Event::Socket { found: None });
    assert_eq!(
        state,
        Acquire::Calling {
            round: 0,
            observed: None
        }
    );
    let state = next(state, Event::Called { running: false });
    assert_eq!(state, Acquire::Binding { round: 0 });
    assert_eq!(
        state.advance(Event::Bound { fresh: true }),
        Outcome::Primary
    );
}

#[test]
fn second_instance_calls_the_first() {
    let state = next(
        Acquire::start(),
        Event::Socket {
            found: Some(id(7)),
        },
    );
    assert_eq!(
        state.advance(Event::Called { running: true }),
        Outcome::Secondary
    );
}

#[test]
fn stale_socket_is_removed_before_binding() {
    let state = next(
        Acquire::start(),
        Event::Socket {
            found: Some(id(7)),
        },
    );
    let state = next(state, Event::Called { running: false });
    let state = next(
        state,
        Event::Socket {
            found: Some(id(7)),
        },
    );
    assert_eq!(state, Acquire::Removing { round: 0 });
    let state = next(state, Event::Removed);
    assert_eq!(
        state.advance(Event::Bound { fresh: true }),
        Outcome::Primary
    );
}

#[test]
fn fresh_socket_of_another_launcher_is_left_alone() {
    let state = next(
        Acquire::start(),
        Event::Socket {
            found: Some(id(7)),
        },
    );
    let state = next(state, Event::Called { running: false });
    let again = next(
        state,
        Event::Socket {
            found: Some(id(8)),
        },
    );
    assert_eq!(again, Acquire::Looking { round: 1 });
    let vanished = next(state, Event::Socket { found: None });
    assert_eq!(vanished, Acquire::Binding { round: 0 });
}

#[test]
fn attempts_come_to_an_end() {
    let mut state = Acquire::start();
    let mut rounds = 0;
    loop {
        let calling = next(state, Event::Socket { found: None });
        let binding = next(calling, Event::Called { running: false });
        rounds += 1;
        match binding.advance(Event::Bound { fresh: false }) {
            Outcome::Next { state: after } => state = after,
            other => {
                assert_eq!(other, Outcome::Unsettled);
                break;
            }
        }
    }
    assert_eq!(rounds, MAX_ROUNDS);
}

#[test]
fn only_own_sockets_are_accepted() {
    let facts = FileFacts {
        is_socket: true,
        owner: 1000,
        device: 1,
        inode: 9,
    };
    assert_eq!(socket_identity(None, 1000), Ok(None));
    assert_eq!(socket_identity(Some(facts), 1000), Ok(Some(id(9))));
    assert_eq!(
        socket_identity(Some(facts), 1001),
        Err(SocketError::OtherOwner)
    );
    let file = FileFacts {
        is_socket: false,
        ..facts
    };
    assert_eq!(
        socket_identity(Some(file), 1000),
        Err(SocketError::NotASocket)
    );
    assert_eq!(
        SocketError::NotASocket.message("/run/s"),
        "/run/s exists but is not a Unix socket"
    );
    assert_eq!(
        SocketError::OtherOwner.message("/run/s"),
        "/run/s is owned by another user"
    );
    assert!(owns_socket(Some(id(9)), id(9)));
    assert!(!owns_socket(Some(id(9)), id(8)));
    assert!(!owns_socket(None, id(8)));
}

#[test]
fn calls_tell_whether_an_instance_runs() {
    assert_eq!(is_running(Call::Answered), Some(true));
    assert_eq!(is_running(Call::NoSocket), Some(false));
    assert_eq!(is_running(Call::Refused), Some(false));
    assert_eq!(is_running(Call::Failed), None);
}

#[test]
fn requests_are_recognised() {
    assert_eq!(&request(), b"OPEN\n");
    assert!(is_open_request(b"OPEN\n"));
    assert!(!is_open_request(b"OPEN "));
    assert!(!is_open_request(b"OPEN"));
}

#[test]
fn listener_goes_on_unless_it_fails() {
    assert_eq!(listen_step(Accepted::Caller), ListenStep::Read);
    assert_eq!(listen_step(Accepted::Nobody), ListenStep::Pause);
    assert_eq!(listen_step(Accepted::Interrupted), ListenStep::Continue);
    assert_eq!(listen_step(Accepted::Failed), ListenStep::Stop);
}

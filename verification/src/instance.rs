//! One instance of the main window: the socket that the first one owns, and how a later one
//! finds it.

use vstd::prelude::*;

verus! {

/// How often to begin anew before giving up.
pub const MAX_ROUNDS: u32 = 8;

/// How many milliseconds the listener sleeps when nobody calls.
pub const LISTEN_PAUSE_MS: u64 = 25;

/// How many milliseconds the listener waits for a request.
pub const REQUEST_TIMEOUT_MS: u64 = 250;

/// The request to show the window.
pub open spec fn open_request() -> Seq<u8> {
    seq![0x4fu8, 0x50, 0x45, 0x4e, 0x0a]
}

/// The request to show the window.
pub fn request() -> (bytes: [u8; 5])
    ensures
        bytes@ == open_request(),
{
    let bytes: [u8; 5] = [0x4f, 0x50, 0x45, 0x4e, 0x0a];
    assert(bytes@ =~= open_request());
    bytes
}

/// Whether some bytes are the request to show the window.
pub fn is_open_request(bytes: &[u8]) -> (yes: bool)
    ensures
        yes == (bytes@ == open_request()),
{
    let yes: bool = bytes.len() == 5 && bytes[0] == 0x4f && bytes[1] == 0x50 && bytes[2] == 0x45
        && bytes[3] == 0x4e && bytes[4] == 0x0a;
    assert(yes ==> bytes@ =~= open_request());
    yes
}

/// Which file a path names, whatever the path is.
#[derive(Clone, Copy, Debug, PartialEq, Eq, Structural)]
pub struct SocketIdentity {
    pub device: u64,
    pub inode: u64,
}

/// What the system says of the file at a path.
#[derive(Clone, Copy, Debug, PartialEq, Eq, Structural)]
pub struct FileFacts {
    pub is_socket: bool,
    pub owner: u32,
    pub device: u64,
    pub inode: u64,
}

/// Why the file at the socket's path cannot be the socket.
#[derive(Clone, Copy, Debug, PartialEq, Eq, Structural)]
pub enum SocketError {
    NotASocket,
    OtherOwner,
}

impl SocketError {
    /// The text of the error, for a path as it is shown.
    pub open spec fn text(self, path: Seq<char>) -> Seq<char> {
        match self {
            SocketError::NotASocket => path + " exists but is not a Unix socket"@,
            SocketError::OtherOwner => path + " is owned by another user"@,
        }
    }

    /// The text of the error, for a path as it is shown.
    pub fn message(self, path: &str) -> (text: String)
        ensures
            text@ == self.text(path@),
    {
        let mut text = path.to_owned();
        match self {
            SocketError::NotASocket => text.append(" exists but is not a Unix socket"),
            SocketError::OtherOwner => text.append(" is owned by another user"),
        }
        text
    }
}

/// Which socket of the user with the number `uid` lies at a path, if there is a file.
pub fn socket_identity(file: Option<FileFacts>, uid: u32) -> (found: Result<
    Option<SocketIdentity>,
    SocketError,
>)
    ensures
        found == match file {
            None => Ok(None),
            Some(facts) => if !facts.is_socket {
                Err(SocketError::NotASocket)
            } else if facts.owner != uid {
                Err(SocketError::OtherOwner)
            } else {
                Ok(Some(SocketIdentity { device: facts.device, inode: facts.inode }))
            },
        },
{
    match file {
        None => Ok(None),
        Some(facts) => {
            if !facts.is_socket {
                Err(SocketError::NotASocket)
            } else if facts.owner != uid {
                Err(SocketError::OtherOwner)
            } else {
                Ok(Some(SocketIdentity { device: facts.device, inode: facts.inode }))
            }
        },
    }
}

/// How a call to the socket ended.
#[derive(Clone, Copy, Debug, PartialEq, Eq, Structural)]
pub enum Call {
    /// Someone answered, and the request was sent.
    Answered,
    /// There is no socket.
    NoSocket,
    /// Nobody listens.
    Refused,
    /// The call failed in another way.
    Failed,
}

/// Whether an instance is running; nothing can be said after a call that failed otherwise.
pub fn is_running(call: Call) -> (running: Option<bool>)
    ensures
        running == match call {
            Call::Answered => Some(true),
            Call::NoSocket => Some(false),
            Call::Refused => Some(false),
            Call::Failed => None,
        },
{
    match call {
        Call::Answered => Some(true),
        Call::NoSocket => Some(false),
        Call::Refused => Some(false),
        Call::Failed => None,
    }
}

/// Where the attempt to become the first instance stands, in which round.
#[derive(Clone, Copy, Debug, PartialEq, Eq, Structural)]
pub enum Acquire {
    /// It looks which socket lies at the path.
    Looking { round: u32 },
    /// It calls a running instance, after it saw `observed` at the path.
    Calling { round: u32, observed: Option<SocketIdentity> },
    /// Nobody answered: it looks whether `stale` still lies at the path.
    Checking { round: u32, stale: SocketIdentity },
    /// It removes the socket that nobody listens to.
    Removing { round: u32 },
    /// It binds a socket of its own to the path.
    Binding { round: u32 },
}

/// What came of the last step.
#[derive(Clone, Copy, Debug, PartialEq, Eq, Structural)]
pub enum Event {
    Socket { found: Option<SocketIdentity> },
    Called { running: bool },
    Removed,
    Bound { fresh: bool },
}

/// What comes next.
#[derive(Clone, Copy, Debug, PartialEq, Eq, Structural)]
pub enum Outcome {
    Next { state: Acquire },
    /// This is the first instance.
    Primary,
    /// Another instance is running and was asked to show its window.
    Secondary,
    /// The others would not let it settle.
    Unsettled,
}

/// Whether an event can follow a step.
pub open spec fn follows(state: Acquire, event: Event) -> bool {
    match state {
        Acquire::Looking { .. } => event is Socket,
        Acquire::Calling { .. } => event is Called,
        Acquire::Checking { .. } => event is Socket,
        Acquire::Removing { .. } => event is Removed,
        Acquire::Binding { .. } => event is Bound,
    }
}

/// A new round, unless there were enough.
pub open spec fn again(round: u32) -> Outcome {
    if round + 1 < MAX_ROUNDS {
        Outcome::Next { state: Acquire::Looking { round: (round + 1) as u32 } }
    } else {
        Outcome::Unsettled
    }
}

/// What comes next after an event.
pub open spec fn next(state: Acquire, event: Event) -> Outcome {
    match (state, event) {
        (Acquire::Looking { round }, Event::Socket { found }) => Outcome::Next {
            state: Acquire::Calling { round, observed: found },
        },
        (Acquire::Calling { round, observed }, Event::Called { running }) => if running {
            Outcome::Secondary
        } else {
            match observed {
                Some(stale) => Outcome::Next { state: Acquire::Checking { round, stale } },
                None => Outcome::Next { state: Acquire::Binding { round } },
            }
        },
        (Acquire::Checking { round, stale }, Event::Socket { found }) => match found {
            Some(current) => if current == stale {
                Outcome::Next { state: Acquire::Removing { round } }
            } else {
                again(round)
            },
            None => Outcome::Next { state: Acquire::Binding { round } },
        },
        (Acquire::Removing { round }, Event::Removed) => Outcome::Next {
            state: Acquire::Binding { round },
        },
        (Acquire::Binding { round }, Event::Bound { fresh }) => if fresh {
            Outcome::Primary
        } else {
            again(round)
        },
        _ => Outcome::Unsettled,
    }
}

fn next_round(round: u32) -> (outcome: Outcome)
    requires
        round < MAX_ROUNDS,
    ensures
        outcome == again(round),
{
    if round + 1 < MAX_ROUNDS {
        Outcome::Next { state: Acquire::Looking { round: round + 1 } }
    } else {
        Outcome::Unsettled
    }
}

impl Acquire {
    /// The round.
    pub open spec fn round(self) -> u32 {
        match self {
            Acquire::Looking { round } => round,
            Acquire::Calling { round, .. } => round,
            Acquire::Checking { round, .. } => round,
            Acquire::Removing { round } => round,
            Acquire::Binding { round } => round,
        }
    }

    /// Whether the attempt is in one of its rounds.
    pub open spec fn wf(self) -> bool {
        self.round() < MAX_ROUNDS
    }

    /// The beginning.
    pub fn start() -> (state: Acquire)
        ensures
            state == (Acquire::Looking { round: 0 }),
            state.wf(),
    {
        Acquire::Looking { round: 0 }
    }

    /// What comes next after an event. The socket at the path is removed only if it is the one
    /// that was there before nobody answered: another instance may have put a fresh one in
    /// its place.
    pub fn advance(self, event: Event) -> (outcome: Outcome)
        requires
            self.wf(),
            follows(self, event),
        ensures
            outcome == next(self, event),
            outcome matches Outcome::Next { state } ==> state.wf(),
    {
        match (self, event) {
            (Acquire::Looking { round }, Event::Socket { found }) => Outcome::Next {
                state: Acquire::Calling { round, observed: found },
            },
            (Acquire::Calling { round, observed }, Event::Called { running }) => {
                if running {
                    return Outcome::Secondary;
                }
                match observed {
                    Some(stale) => Outcome::Next { state: Acquire::Checking { round, stale } },
                    None => Outcome::Next { state: Acquire::Binding { round } },
                }
            },
            (Acquire::Checking { round, stale }, Event::Socket { found }) => match found {
                Some(current) => {
                    if current == stale {
                        Outcome::Next { state: Acquire::Removing { round } }
                    } else {
                        next_round(round)
                    }
                },
                None => Outcome::Next { state: Acquire::Binding { round } },
            },
            (Acquire::Removing { round }, _) => Outcome::Next {
                state: Acquire::Binding { round },
            },
            (Acquire::Binding { round }, Event::Bound { fresh }) => {
                if fresh {
                    Outcome::Primary
                } else {
                    next_round(round)
                }
            },
            _ => Outcome::Unsettled,
        }
    }
}

/// A socket is removed only after nobody answered on it and it was seen again.
pub proof fn law_only_stale_sockets_are_removed(state: Acquire, event: Event)
    requires
        state.wf(),
        follows(state, event),
        next(state, event) matches Outcome::Next { state: after } && after is Removing,
    ensures
        state matches Acquire::Checking { stale, .. } && event == (Event::Socket {
            found: Some(stale),
        }),
{
}

/// Another instance runs exactly if it answered.
pub proof fn law_secondary_iff_answered(state: Acquire, event: Event)
    requires
        state.wf(),
        follows(state, event),
    ensures
        next(state, event) is Secondary <==> event == (Event::Called { running: true }),
{
}

/// How many steps an attempt can still take at most.
pub open spec fn steps_left(state: Acquire) -> int {
    5 * (MAX_ROUNDS - state.round()) + match state {
        Acquire::Looking { .. } => 4int,
        Acquire::Calling { .. } => 3,
        Acquire::Checking { .. } => 2,
        Acquire::Removing { .. } => 1,
        Acquire::Binding { .. } => 0,
    }
}

/// Every attempt comes to an end.
pub proof fn law_attempt_ends(state: Acquire, event: Event)
    requires
        state.wf(),
        follows(state, event),
    ensures
        next(state, event) matches Outcome::Next { state: after } ==> 0 <= steps_left(after)
            < steps_left(state),
{
}

/// Whether the socket at the path is the one that this instance bound.
pub fn owns_socket(current: Option<SocketIdentity>, own: SocketIdentity) -> (yes: bool)
    ensures
        yes == (current == Some(own)),
{
    match current {
        Some(identity) => identity == own,
        None => false,
    }
}

/// How waiting for a caller ended.
#[derive(Clone, Copy, Debug, PartialEq, Eq, Structural)]
pub enum Accepted {
    Caller,
    Nobody,
    Interrupted,
    Failed,
}

/// What the listener does next.
#[derive(Clone, Copy, Debug, PartialEq, Eq, Structural)]
pub enum ListenStep {
    /// It reads the request.
    Read,
    /// It sleeps for a moment.
    Pause,
    /// It listens on.
    Continue,
    /// It stops.
    Stop,
}

/// What the listener does next.
pub fn listen_step(accepted: Accepted) -> (step: ListenStep)
    ensures
        step == match accepted {
            Accepted::Caller => ListenStep::Read,
            Accepted::Nobody => ListenStep::Pause,
            Accepted::Interrupted => ListenStep::Continue,
            Accepted::Failed => ListenStep::Stop,
        },
{
    match accepted {
        Accepted::Caller => ListenStep::Read,
        Accepted::Nobody => ListenStep::Pause,
        Accepted::Interrupted => ListenStep::Continue,
        Accepted::Failed => ListenStep::Stop,
    }
}

/// This is the first instance exactly if it could bind a fresh socket.
pub proof fn law_primary_iff_bound(state: Acquire, event: Event)
    requires
        state.wf(),
        follows(state, event),
    ensures
        next(state, event) is Primary <==> event == (Event::Bound { fresh: true }),
{
}

/// An attempt gives up only in its eighth round, and only after another instance put a socket
/// in its way.
pub proof fn law_gives_up_in_the_last_round(state: Acquire, event: Event)
    requires
        state.wf(),
        follows(state, event),
        next(state, event) is Unsettled,
    ensures
        state.round() == 7,
        (state matches Acquire::Checking { stale, .. } && event matches Event::Socket {
            found: Some(current),
        } && current != stale) || event == (Event::Bound { fresh: false }),
{
}

/// The steps of a round: look, call, and bind, where a socket that nobody answered on is looked
/// at again and removed before.
pub proof fn law_steps_of_a_round(round: u32, seen: Option<SocketIdentity>, stale: SocketIdentity)
    requires
        round < 8,
    ensures
        next(Acquire::Looking { round }, Event::Socket { found: seen }) == (Outcome::Next {
            state: Acquire::Calling { round, observed: seen },
        }),
        next(Acquire::Calling { round, observed: None }, Event::Called { running: false }) == (
        Outcome::Next { state: Acquire::Binding { round } }),
        next(Acquire::Calling { round, observed: Some(stale) }, Event::Called { running: false })
            == (Outcome::Next { state: Acquire::Checking { round, stale } }),
        next(Acquire::Checking { round, stale }, Event::Socket { found: None }) == (Outcome::Next {
            state: Acquire::Binding { round },
        }),
        next(Acquire::Checking { round, stale }, Event::Socket { found: Some(stale) }) == (
        Outcome::Next { state: Acquire::Removing { round } }),
        next(Acquire::Removing { round }, Event::Removed) == (Outcome::Next {
            state: Acquire::Binding { round },
        }),
        round < 7 ==> next(Acquire::Binding { round }, Event::Bound { fresh: false }) == (
        Outcome::Next { state: Acquire::Looking { round: (round + 1) as u32 } }),
{
}

/// The request is the word OPEN and a line feed.
pub proof fn law_request_is_a_word(i: int)
    requires
        0 <= i < 5,
    ensures
        open_request().len() == 5,
        open_request()[i] == seq!['O', 'P', 'E', 'N', '\n'][i] as u32,
{
}

} // verus!

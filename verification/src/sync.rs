//! The decision logic of the remote-synchronization client: a two-state
//! machine driven by what the push channel delivers, plus the codec of the
//! one notification the channel carries.
//!
//! The machine never gives up: every loss of the channel — the stream
//! ending, a transport error, or an unexpected close frame — asks for a
//! clean close of the channel followed by a fixed backoff and a new
//! connection attempt, and a failed attempt asks for another after the same
//! backoff. A malformed payload is ignored and the channel stays up. The
//! surrounding task performs the requested work (connecting, closing,
//! sleeping, forwarding) and hands the next observation back.

use vstd::prelude::*;

use crate::types::MealPlanMessage;

verus! {

/// The fixed backoff, in seconds, between losing the push channel (or
/// failing to open it) and the next connection attempt.
pub const BACKOFF_SECONDS: u64 = 5;

/// Whether the push channel is currently up.
#[derive(Clone, Copy, Debug, PartialEq, Eq, Structural)]
pub enum SyncState {
    Disconnected,
    Connected,
}

/// One observation the surrounding task hands the machine: the outcome of a
/// connection attempt while disconnected, or what the channel delivered
/// while connected.
#[derive(Clone, Debug)]
pub enum SyncEvent {
    /// A connection attempt succeeded.
    ConnectSucceeded,
    /// A connection attempt failed.
    ConnectFailed,
    /// The channel's stream ended.
    StreamEnded,
    /// Reading from the channel failed.
    TransportError,
    /// A text frame arrived, with its payload.
    TextFrame(String),
    /// A binary frame arrived; never expected.
    BinaryFrame,
    /// A ping frame arrived; never expected.
    PingFrame,
    /// A pong frame arrived; never expected.
    PongFrame,
    /// The peer closed the channel.
    CloseFrame,
    /// A raw protocol frame arrived; never expected.
    RawFrame,
}

/// What the machine asks the surrounding task to do next.
#[derive(Clone, Copy, Debug, PartialEq, Eq, Structural)]
pub enum SyncAction {
    /// Keep listening (or, while disconnected, attempt a connection).
    Idle,
    /// Hand the decoded notification to the consumer, then keep listening.
    Forward(MealPlanMessage),
    /// Wait the fixed backoff, then attempt a connection.
    Retry,
    /// Attempt a clean close of the channel, wait the fixed backoff, then
    /// attempt a connection.
    CloseThenRetry,
}

/// Whether a character counts as surrounding whitespace in a notification
/// payload.
pub open spec fn is_ws(c: char) -> bool {
    c == ' ' || c == '\t' || c == '\n' || c == '\r'
}

/// Whether a payload is the encoded "the plan changed" notification: the
/// quoted word `"Update"`, surrounded by nothing but whitespace.
pub open spec fn is_update_payload(s: Seq<char>) -> bool {
    exists|i: int|
        #![trigger s.subrange(i, i + 8)]
        0 <= i && i + 8 <= s.len() && (forall|j: int| 0 <= j < i ==> is_ws(s[j])) && s.subrange(
            i,
            i + 8,
        ) =~= "\"Update\""@ && (forall|j: int| i + 8 <= j < s.len() ==> is_ws(s[j]))
}

/// What one step of the machine does: the next state and the requested
/// action, for every state and every observation.
pub open spec fn step_spec(state: SyncState, event: SyncEvent) -> (SyncState, SyncAction) {
    match (state, event) {
        (SyncState::Disconnected, SyncEvent::ConnectSucceeded) => (
            SyncState::Connected,
            SyncAction::Idle,
        ),
        (SyncState::Disconnected, SyncEvent::ConnectFailed) => (
            SyncState::Disconnected,
            SyncAction::Retry,
        ),
        (SyncState::Disconnected, _) => (SyncState::Disconnected, SyncAction::Idle),
        (SyncState::Connected, SyncEvent::StreamEnded) => (
            SyncState::Disconnected,
            SyncAction::CloseThenRetry,
        ),
        (SyncState::Connected, SyncEvent::TransportError) => (
            SyncState::Disconnected,
            SyncAction::CloseThenRetry,
        ),
        (SyncState::Connected, SyncEvent::CloseFrame) => (
            SyncState::Disconnected,
            SyncAction::CloseThenRetry,
        ),
        (SyncState::Connected, SyncEvent::TextFrame(t)) => if is_update_payload(t@) {
            (SyncState::Connected, SyncAction::Forward(MealPlanMessage::Update))
        } else {
            (SyncState::Connected, SyncAction::Idle)
        },
        (SyncState::Connected, _) => (SyncState::Connected, SyncAction::Idle),
    }
}

fn is_ws_char(c: char) -> (r: bool)
    ensures
        r == is_ws(c),
{
    c == ' ' || c == '\t' || c == '\n' || c == '\r'
}

/// Decodes a push-channel payload: the "the plan changed" notification when
/// the payload is the quoted word `"Update"` surrounded by nothing but
/// whitespace, and nothing otherwise. Escaped spellings of the same word
/// are not recognized; the channel's own encoder emits the plain form.
pub fn parse_message(s: &str) -> (r: Option<MealPlanMessage>)
    ensures
        r == if is_update_payload(s@) {
            Some(MealPlanMessage::Update)
        } else {
            None::<MealPlanMessage>
        },
{
    proof {
        reveal_strlit("\"Update\"");
    }
    let n = s.unicode_len();

    let mut a: usize = 0;
    while a < n && is_ws_char(s.get_char(a))
        invariant
            n == s@.len(),
            a <= n,
            forall|j: int| 0 <= j < a ==> is_ws(s@[j]),
        decreases n - a,
    {
        a += 1;
    }

    let mut b: usize = n;
    while b > a && is_ws_char(s.get_char(b - 1))
        invariant
            n == s@.len(),
            a <= b <= n,
            forall|j: int| b <= j < n ==> is_ws(s@[j]),
        decreases b,
    {
        b -= 1;
    }

    let lit = "\"Update\"";
    if b - a != 8 {
        proof {
            lemma_payload_bounds(s@, a as int, b as int);
        }
        return None;
    }
    proof {
        assert(!is_ws(s@[a as int]) && !is_ws(s@[b - 1]));
    }

    let mut k: usize = 0;
    while k < 8
        invariant
            n == s@.len(),
            a + 8 == b,
            b <= n,
            lit@ =~= "\"Update\""@,
            k <= 8,
            forall|j: int| 0 <= j < a ==> is_ws(s@[j]),
            forall|j: int| b <= j < n ==> is_ws(s@[j]),
            !is_ws(s@[a as int]),
            !is_ws(s@[b - 1]),
            forall|j: int| 0 <= j < k ==> s@[a + j] == lit@[j],
        decreases 8 - k,
    {
        proof {
            reveal_strlit("\"Update\"");
        }
        if s.get_char(a + k) != lit.get_char(k) {
            proof {
                lemma_payload_bounds(s@, a as int, b as int);
                assert(!is_update_payload(s@)) by {
                    if is_update_payload(s@) {
                        let i = choose|i: int|
                            #![trigger s@.subrange(i, i + 8)]
                            0 <= i && i + 8 <= s@.len() && (forall|j: int|
                                0 <= j < i ==> is_ws(s@[j])) && s@.subrange(i, i + 8)
                                =~= "\"Update\""@ && (forall|j: int|
                                i + 8 <= j < s@.len() ==> is_ws(s@[j]));
                        assert(s@.subrange(i, i + 8)[k as int] == "\"Update\""@[k as int]);
                    }
                }
            }
            return None;
        }
        k += 1;
    }

    proof {
        assert(s@.subrange(a as int, a + 8) =~= "\"Update\""@);
        assert(is_update_payload(s@));
    }
    Some(MealPlanMessage::Update)
}

/// After trimming, a well-formed payload's quoted word sits exactly between
/// the trim marks: whitespace never holds a quote character.
proof fn lemma_payload_bounds(s: Seq<char>, a: int, b: int)
    requires
        0 <= a <= b <= s.len(),
        forall|j: int| 0 <= j < a ==> is_ws(s[j]),
        forall|j: int| b <= j < s.len() ==> is_ws(s[j]),
        a < b ==> !is_ws(s[a]),
        a < b ==> !is_ws(s[b - 1]),
    ensures
        is_update_payload(s) ==> b - a == 8 && s.subrange(a, a + 8) =~= "\"Update\""@,
{
    reveal_strlit("\"Update\"");
    if is_update_payload(s) {
        let i = choose|i: int|
            #![trigger s.subrange(i, i + 8)]
            0 <= i && i + 8 <= s.len() && (forall|j: int| 0 <= j < i ==> is_ws(s[j]))
                && s.subrange(i, i + 8) =~= "\"Update\""@ && (forall|j: int|
                i + 8 <= j < s.len() ==> is_ws(s[j]));
        assert(s.subrange(i, i + 8)[0] == '"');
        assert(s.subrange(i, i + 8)[7] == '"');
        assert(s[i] == '"' && !is_ws(s[i]));
        assert(s[i + 7] == '"' && !is_ws(s[i + 7]));
        assert(a <= i) by {
            if i < a {
                assert(is_ws(s[i]));
            }
        }
        assert(i + 8 <= b) by {
            if b < i + 8 {
                assert(is_ws(s[i + 7]));
            }
        }
        assert(a == i) by {
            if a < i {
                assert(a < b);
                assert(is_ws(s[a]));
            }
        }
        assert(b == i + 8) by {
            if i + 8 < b {
                assert(a < b);
                assert(is_ws(s[b - 1]));
            }
        }
        assert(s.subrange(a, a + 8) =~= s.subrange(i, i + 8));
    }
}

/// Encodes the "the plan changed" notification for the push channel: the
/// quoted word `"Update"`, which `parse_message` decodes back.
pub fn encode_message(message: &MealPlanMessage) -> (r: String)
    ensures
        r@ == "\"Update\""@,
        is_update_payload(r@),
{
    proof {
        reveal_strlit("\"Update\"");
    }
    let r = String::from_str("\"Update\"");
    proof {
        assert(r@.subrange(0int, 0int + 8) =~= "\"Update\""@);
        assert(forall|j: int| 0 <= j < 0 ==> is_ws(r@[j]));
        assert(forall|j: int| 0int + 8 <= j < r@.len() ==> is_ws(r@[j]));
        assert(is_update_payload(r@));
    }
    match message {
        MealPlanMessage::Update => r,
    }
}

/// Advances the machine by one observation: exactly the transition table of
/// `step_spec`. While disconnected, only the outcome of a connection attempt
/// means anything; while connected, losing the channel in any way asks for a
/// close, the backoff and a reconnect, a well-formed notification is
/// forwarded, and anything unexpected is ignored.
pub fn step(state: SyncState, event: SyncEvent) -> (r: (SyncState, SyncAction))
    ensures
        r == step_spec(state, event),
{
    match state {
        SyncState::Disconnected => match event {
            SyncEvent::ConnectSucceeded => (SyncState::Connected, SyncAction::Idle),
            SyncEvent::ConnectFailed => (SyncState::Disconnected, SyncAction::Retry),
            _ => (SyncState::Disconnected, SyncAction::Idle),
        },
        SyncState::Connected => match event {
            SyncEvent::StreamEnded => (SyncState::Disconnected, SyncAction::CloseThenRetry),
            SyncEvent::TransportError => (SyncState::Disconnected, SyncAction::CloseThenRetry),
            SyncEvent::CloseFrame => (SyncState::Disconnected, SyncAction::CloseThenRetry),
            SyncEvent::TextFrame(t) => match parse_message(t.as_str()) {
                Some(message) => (SyncState::Connected, SyncAction::Forward(message)),
                None => (SyncState::Connected, SyncAction::Idle),
            },
            _ => (SyncState::Connected, SyncAction::Idle),
        },
    }
}

} // verus!

//! The message reconciliation machine: per channel, edit the known message,
//! fall back to creating a new one when the edit fails, and decide whether
//! the stored message id must be rewritten.
use vstd::prelude::*;

verus! {

/// Where one channel's delivery stands.
#[derive(Debug, Clone, Copy, PartialEq, Eq, Structural)]
pub enum DeliveryState {
    /// Nothing attempted yet.
    Start,
    /// Editing the message with this id.
    Editing(u64),
    /// Creating a new message, either because none was stored or because the
    /// edit failed.
    Creating,
    /// The channel shows the content in the message with this id.
    Delivered(u64),
    /// Both paths failed; the stored id is left alone and the next cycle
    /// retries.
    Failed,
}

/// What the chat transport reported back.
#[derive(Debug, Clone, Copy, PartialEq, Eq, Structural)]
pub enum DeliveryEvent {
    EditSucceeded,
    EditFailed,
    CreateSucceeded(u64),
    CreateFailed,
}

/// The transition relation. An event that does not belong to the current
/// state leaves it unchanged; `Delivered` and `Failed` absorb everything.
pub open spec fn spec_delivery_step(s: DeliveryState, e: DeliveryEvent) -> DeliveryState {
    match (s, e) {
        (DeliveryState::Editing(id), DeliveryEvent::EditSucceeded) => DeliveryState::Delivered(id),
        (DeliveryState::Editing(_), DeliveryEvent::EditFailed) => DeliveryState::Creating,
        (DeliveryState::Creating, DeliveryEvent::CreateSucceeded(id)) => DeliveryState::Delivered(
            id,
        ),
        (DeliveryState::Creating, DeliveryEvent::CreateFailed) => DeliveryState::Failed,
        (other, _) => other,
    }
}

/// A delivery starts by editing the stored message when there is one, and by
/// creating a message otherwise.
pub exec fn start_delivery(message_id: Option<u64>) -> (r: DeliveryState)
    ensures
        r == (match message_id {
            Some(id) => DeliveryState::Editing(id),
            None => DeliveryState::Creating,
        }),
{
    match message_id {
        Some(id) => DeliveryState::Editing(id),
        None => DeliveryState::Creating,
    }
}

pub exec fn delivery_step(state: DeliveryState, event: DeliveryEvent) -> (r: DeliveryState)
    ensures
        r == spec_delivery_step(state, event),
{
    match (state, event) {
        (DeliveryState::Editing(id), DeliveryEvent::EditSucceeded) => DeliveryState::Delivered(id),
        (DeliveryState::Editing(_), DeliveryEvent::EditFailed) => DeliveryState::Creating,
        (DeliveryState::Creating, DeliveryEvent::CreateSucceeded(id)) => DeliveryState::Delivered(
            id,
        ),
        (DeliveryState::Creating, DeliveryEvent::CreateFailed) => DeliveryState::Failed,
        (other, _) => other,
    }
}

/// After a successful delivery, the id to persist: the delivered message's
/// id when it differs from the stored one, and nothing otherwise (a pure
/// edit cannot change the id, so no write happens on that path).
pub exec fn message_id_write_back(stored: Option<u64>, delivered: u64) -> (r: Option<u64>)
    ensures
        r == (if stored == Some(delivered) {
            None::<u64>
        } else {
            Some(delivered)
        }),
{
    match stored {
        Some(id) => {
            if id == delivered {
                None
            } else {
                Some(delivered)
            }
        },
        None => Some(delivered),
    }
}

/// The state after consuming the first `n` events.
pub open spec fn spec_delivery_run(s: DeliveryState, evs: Seq<DeliveryEvent>, n: int) ->
    DeliveryState
    decreases n,
{
    if n <= 0 {
        s
    } else {
        spec_delivery_step(spec_delivery_run(s, evs, n - 1), evs[n - 1])
    }
}

/// How many create attempts the machine consumed among the first `n` events.
pub open spec fn spec_create_attempts(s: DeliveryState, evs: Seq<DeliveryEvent>, n: int) -> int
    decreases n,
{
    if n <= 0 {
        0
    } else {
        spec_create_attempts(s, evs, n - 1) + if spec_delivery_run(s, evs, n - 1)
            is Creating && (evs[n - 1] is CreateSucceeded || evs[n - 1] is CreateFailed) {
            1int
        } else {
            0int
        }
    }
}

/// `Delivered` and `Failed` absorb every further event.
pub proof fn lemma_terminal_states_absorb(s: DeliveryState, e: DeliveryEvent)
    ensures
        s is Delivered ==> spec_delivery_step(s, e) == s,
        s is Failed ==> spec_delivery_step(s, e) == s,
{
}

/// Within one delivery, at most one message creation is ever attempted, so a
/// task execution never posts duplicate messages to a channel: after the
/// machine consumes a create outcome it is in a terminal state, which
/// absorbs everything after it.
pub proof fn lemma_at_most_one_create(s0: DeliveryState, evs: Seq<DeliveryEvent>, n: int)
    requires
        s0 is Start || s0 is Editing || s0 is Creating,
    ensures
        spec_create_attempts(s0, evs, n) <= 1,
        spec_create_attempts(s0, evs, n) == 1 ==> (spec_delivery_run(s0, evs, n) is Delivered
            || spec_delivery_run(s0, evs, n) is Failed),
    decreases n,
{
    if n > 0 {
        lemma_at_most_one_create(s0, evs, n - 1);
    }
}

} // verus!

//! Broadcast channels of the `tokio` crate: what is sent goes to every receiver that was there
//! before.

use tokio::sync::broadcast;
use vstd::prelude::*;
use crate::json::Json;
use crate::tree::Tree;

verus! {

/// The sending end of a broadcast channel of `tokio`.
#[verifier::external_type_specification]
#[verifier::external_body]
#[verifier::reject_recursive_types(T)]
pub struct ExSender<T>(tokio::sync::broadcast::Sender<T>);

/// A receiving end of a broadcast channel of `tokio`.
#[verifier::external_type_specification]
#[verifier::external_body]
#[verifier::reject_recursive_types(T)]
pub struct ExReceiver<T>(tokio::sync::broadcast::Receiver<T>);

/// What a broadcast channel of `tokio` gives back for a value that it did not take.
#[verifier::external_type_specification]
#[verifier::external_body]
#[verifier::reject_recursive_types(T)]
pub struct ExSendError<T>(tokio::sync::broadcast::error::SendError<T>);

/// A broadcast channel.
pub struct Channel {
    /// Which channel it is.
    pub id: int,
    /// The capacity that it was made with.
    pub capacity: nat,
    /// The values that it took, in the order in which they were sent.
    pub sent: Seq<Tree>,
}

/// A place in a broadcast channel from which a receiver listens.
pub struct Tap {
    /// Which channel it is.
    pub channel: int,
    /// How many values the channel had taken before; those after them are for the receiver.
    pub from: nat,
}

impl Tap {
    /// The values that the channel has for a receiver at this place. A receiver that is behind
    /// by more values than the channel has room for loses the oldest of them.
    pub open spec fn hears(self, channel: Channel) -> Seq<Tree> {
        channel.sent.skip(self.from as int)
    }
}

impl Channel {
    /// The channel after one more value.
    pub open spec fn push(self, value: Tree) -> Channel {
        Channel { sent: self.sent.push(value), ..self }
    }

    /// The place behind the last value that was sent.
    pub open spec fn end(self) -> Tap {
        Tap { channel: self.id, from: self.sent.len() }
    }
}

/// Which channel refused a value, and what it had taken until then. Only `send` makes one.
pub struct Refuser {
    channel: Ghost<Channel>,
}

impl View for Refuser {
    type V = Channel;

    closed spec fn view(&self) -> Channel {
        self.channel@
    }
}

/// A channel's refusal of a value that was sent on it, since it had no receiver.
pub struct Refused {
    /// What the channel gave back.
    pub error: broadcast::error::SendError<Json>,
    /// The channel.
    pub by: Refuser,
}

/// The channel that a sender sends on.
pub uninterp spec fn channel(sender: broadcast::Sender<Json>) -> Channel;

/// The value that a channel gave back.
pub uninterp spec fn handed_back(error: broadcast::error::SendError<Json>) -> Tree;

/// The place from which a receiver listens.
pub uninterp spec fn tap(receiver: broadcast::Receiver<Json>) -> Tap;

/// `tokio::sync::broadcast::channel`: a new channel that has taken no value yet, and a first
/// receiver, for which every value is. `tokio` panics on a capacity of zero or above half of
/// the address space, and sets the room aside at once, so the capacity is kept small here.
#[verifier::external_body]
pub(crate) fn new_channel(capacity: usize) -> (ends: (
    broadcast::Sender<Json>,
    broadcast::Receiver<Json>,
))
    requires
        0 < capacity <= 0x1_0000,
    ensures
        channel(ends.0).capacity == capacity,
        channel(ends.0).sent == Seq::<Tree>::empty(),
        tap(ends.1) == channel(ends.0).end(),
{
    broadcast::channel(capacity)
}

/// `tokio::sync::broadcast::Sender::subscribe`: a receiver for which the values are that are
/// sent after this call.
#[verifier::external_body]
pub(crate) fn subscribe(sender: &broadcast::Sender<Json>) -> (receiver: broadcast::Receiver<Json>)
    ensures
        tap(receiver) == channel(*sender).end(),
{
    sender.subscribe()
}

/// `tokio::sync::broadcast::Sender::send`: the channel takes the value while it has a receiver,
/// and hands it back in a `SendError` when it has none; the refusal keeps which channel that
/// was. Whether there is a receiver, other tasks decide, so no clause says it. A sender is
/// neither cloned nor shared in this library: what its channel has taken changes only here.
#[verifier::external_body]
pub(crate) fn send(sender: &mut broadcast::Sender<Json>, value: Json) -> (sent: Result<
    usize,
    Refused,
>)
    ensures
        sent is Ok ==> channel(*final(sender)) == channel(*old(sender)).push(value@),
        sent is Err ==> channel(*final(sender)) == channel(*old(sender)),
        sent matches Err(refused) ==> handed_back(refused.error) == value@,
        sent matches Err(refused) ==> refused.by@ == channel(*old(sender)),
{
    let ghost by = channel(*sender);
    sender.send(value).map_err(|error| Refused { error, by: Refuser { channel: Ghost(by) } })
}

/// All receivers of a channel have one history: who came later has what is left of it for who
/// came before.
pub proof fn lemma_receivers_share_history(channel: Channel, earlier: Tap, later: Tap)
    requires
        earlier.from <= later.from <= channel.sent.len(),
    ensures
        earlier.hears(channel).skip(later.from - earlier.from) == later.hears(channel),
{
    assert(earlier.hears(channel).skip(later.from - earlier.from) =~= later.hears(channel));
}

/// A receiver hears what is sent after it came, each value once and in order: of a channel with
/// one more value it hears that value last, and of what was sent before it came nothing.
pub proof fn lemma_receivers_hear_what_comes(channel: Channel, tap: Tap, value: Tree)
    requires
        tap.from <= channel.sent.len(),
    ensures
        tap.hears(channel.push(value)) == tap.hears(channel) + seq![value],
        channel.end().hears(channel) == Seq::<Tree>::empty(),
        channel.end().hears(channel.push(value)) == seq![value],
        channel.end().channel == channel.id,
        channel.push(value).id == channel.id,
        channel.push(value).capacity == channel.capacity,
{
    assert(tap.hears(channel.push(value)) =~= tap.hears(channel) + seq![value]);
    assert(channel.end().hears(channel) =~= Seq::<Tree>::empty());
    assert(channel.end().hears(channel.push(value)) =~= seq![value]);
}

} // verus!

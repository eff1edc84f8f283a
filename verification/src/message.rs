//! The values that a message source delivers, and the rule that selects the
//! ones a handler gets to see.
use vstd::prelude::*;

verus! {

/// Kind number of a gift-wrapped (sealed and encrypted) event.
pub const GIFT_WRAP_KIND: u16 = 1059;

/// Kind number of a private direct message, the payload inside a gift wrap.
pub const PRIVATE_DIRECT_MESSAGE_KIND: u16 = 14;

/// The numbers that the protocol crate gives to the two kinds: first the gift
/// wrap, then the private direct message.
///
/// Trusted: calls `nostr_sdk::Kind::as_u16` on `Kind::GiftWrap` and on
/// `Kind::PrivateDirectMessage`. The crate's table of kinds lists the former
/// as 1059 and the latter as 14, and `as_u16` returns the number of the table.
#[verifier::external_body]
fn wire_kinds() -> (kinds: (u16, u16))
    ensures
        kinds.0 == GIFT_WRAP_KIND,
        kinds.1 == PRIVATE_DIRECT_MESSAGE_KIND,
{
    (nostr_sdk::Kind::GiftWrap.as_u16(), nostr_sdk::Kind::PrivateDirectMessage.as_u16())
}

/// A participant or a conversation, named by the bytes of its public key.
#[derive(Debug, PartialEq, Eq)]
pub struct Identity {
    pub key: Vec<u8>,
}

impl View for Identity {
    type V = Seq<u8>;

    open spec fn view(&self) -> Seq<u8> {
        self.key@
    }
}

impl Clone for Identity {
    fn clone(&self) -> (copy: Self)
        ensures
            copy@ == self@,
    {
        Identity { key: self.key.clone() }
    }
}

impl Identity {
    pub fn new(key: Vec<u8>) -> (identity: Self)
        ensures
            identity@ == key@,
    {
        Identity { key }
    }

    /// Whether both name the same key.
    pub fn same_as(&self, other: &Identity) -> (same: bool)
        ensures
            same == (self@ == other@),
    {
        if self.key.len() != other.key.len() {
            return false;
        }
        let mut i: usize = 0;
        while i < self.key.len()
            invariant
                i <= self.key.len(),
                self.key.len() == other.key.len(),
                self@.take(i as int) == other@.take(i as int),
            decreases self.key.len() - i,
        {
            if self.key[i] != other.key[i] {
                return false;
            }
            proof {
                assert(self@.take(i + 1) =~= self@.take(i as int).push(self@[i as int]));
                assert(other@.take(i + 1) =~= other@.take(i as int).push(other@[i as int]));
            }
            i += 1;
        }
        proof {
            assert(self@.take(i as int) =~= self@);
            assert(other@.take(i as int) =~= other@);
        }
        true
    }
}

/// A direct message that the source has already authenticated and decrypted.
#[derive(Debug, Clone, PartialEq, Eq)]
pub struct DecodedMessage {
    /// Who wrote it.
    pub sender: Identity,
    /// The conversation it was delivered to.
    pub channel: Identity,
    /// The plaintext.
    pub content: String,
}

/// What unwrapping an event gave: the kind of the inner payload and the
/// payload itself.
#[derive(Debug, Clone, PartialEq, Eq)]
pub struct Envelope {
    pub kind: u16,
    pub message: DecodedMessage,
}

/// An event as the source delivers it: its outer kind, and what unwrapping it
/// gave (`None` where unwrapping failed or was not attempted).
#[derive(Debug, Clone, PartialEq, Eq)]
pub struct RawEvent {
    pub kind: u16,
    pub payload: Option<Envelope>,
}

/// A subscription or connection failure reported by the source.
#[derive(Debug, PartialEq, Eq)]
pub struct TransportError {
    pub reason: String,
}

impl Clone for TransportError {
    fn clone(&self) -> (copy: Self)
        ensures
            copy == *self,
    {
        TransportError { reason: self.reason.clone() }
    }
}

/// One thing the source hands to the dispatch loop.
#[derive(Debug, Clone, PartialEq, Eq)]
pub enum SourceItem {
    /// An event of the subscription.
    Event(RawEvent),
    /// A notification that carries no event (relay chatter, shutdown notes).
    Other,
    /// The source failed; nothing follows.
    Failure(TransportError),
}

/// The sender and conversation whose messages a handler is to receive.
#[derive(Debug, Clone, PartialEq, Eq)]
pub struct Target {
    pub sender: Identity,
    pub channel: Identity,
}

/// What to ask of the source: events addressed to `recipient`, of one kind,
/// with at most `limit` stored events replayed before live ones.
#[derive(Debug, Clone, PartialEq, Eq)]
pub struct Subscription {
    pub recipient: Identity,
    pub kind: u16,
    pub limit: usize,
}

/// An event decodes to a message when it is a gift wrap, unwrapping it
/// succeeded, and what was inside is a private direct message.
pub open spec fn decodes(event: RawEvent) -> bool {
    &&& event.kind == GIFT_WRAP_KIND
    &&& event.payload is Some
    &&& event.payload->Some_0.kind == PRIVATE_DIRECT_MESSAGE_KIND
}

/// The message selection rule: sender and conversation are the target's.
pub open spec fn accepts(target: Target, message: DecodedMessage) -> bool {
    &&& message.sender@ == target.sender@
    &&& message.channel@ == target.channel@
}

/// Whether an item of the source leads to a handler invocation.
pub open spec fn passes(target: Target, item: SourceItem) -> bool {
    &&& item is Event
    &&& decodes(item->Event_0)
    &&& accepts(target, item->Event_0.payload->Some_0.message)
}

/// The content handed to the handler for an item that passes.
pub open spec fn content_of(item: SourceItem) -> Seq<char>
    recommends
        item is Event,
        item->Event_0.payload is Some,
{
    item->Event_0.payload->Some_0.message.content@
}

impl Target {
    pub fn new(sender: Identity, channel: Identity) -> (target: Self)
        ensures
            target.sender == sender,
            target.channel == channel,
    {
        Target { sender, channel }
    }

    /// The selection rule, decided.
    pub fn accepts(&self, message: &DecodedMessage) -> (accepted: bool)
        ensures
            accepted == accepts(*self, *message),
    {
        self.sender.same_as(&message.sender) && self.channel.same_as(&message.channel)
    }

    /// The subscription that brings this target's conversation: gift-wrapped
    /// events addressed to the channel, new ones only.
    pub fn subscription(&self) -> (subscription: Subscription)
        ensures
            subscription.recipient@ == self.channel@,
            subscription.kind == GIFT_WRAP_KIND,
            subscription.limit == 0,
    {
        Subscription { recipient: self.channel.clone(), kind: wire_kinds().0, limit: 0 }
    }
}

impl RawEvent {
    /// Whether unwrapping this event is worth attempting: only gift wraps can
    /// hold a direct message.
    pub fn needs_unwrapping(kind: u16) -> (needed: bool)
        ensures
            needed == (kind == GIFT_WRAP_KIND),
    {
        kind == wire_kinds().0
    }

    /// The message inside, where the event decodes to one.
    pub fn decode(&self) -> (decoded: Option<&DecodedMessage>)
        ensures
            decoded is Some <==> decodes(*self),
            decoded is Some ==> *decoded->Some_0 == self.payload->Some_0.message,
    {
        let (gift_wrap, direct_message) = wire_kinds();
        if self.kind != gift_wrap {
            return None;
        }
        match &self.payload {
            Some(envelope) => {
                if envelope.kind == direct_message {
                    Some(&envelope.message)
                } else {
                    None
                }
            },
            None => None,
        }
    }
}

} // verus!

//! Signed provenance events and the append-only ledger that records them.
use vstd::prelude::*;
use crate::crypto::{sign, sign_spec, verify};

verus! {

/// The text that an event's signature covers: its type and payload.
pub open spec fn signed_text(event_type: Seq<char>, payload: Seq<char>) -> Seq<char> {
    event_type + ":"@ + payload
}

/// An event signed by its actor.
#[derive(Clone, Debug)]
pub struct SignedEvent {
    pub actor_did: String,
    pub event_type: String,
    pub payload: String,
    pub signature: String,
}

impl SignedEvent {
    /// The signature is the actor's signature of the event's type and payload.
    pub open spec fn authentic(&self) -> bool {
        self.signature@ == sign_spec(self.actor_did@, signed_text(self.event_type@, self.payload@))
    }

    /// An event of type `event_type` with `payload`, signed by `actor_did`.
    pub fn new(actor_did: &str, event_type: &str, payload: &str) -> (e: Self)
        ensures
            e.actor_did@ == actor_did@,
            e.event_type@ == event_type@,
            e.payload@ == payload@,
            e.signature@ == sign_spec(actor_did@, signed_text(event_type@, payload@)),
            e.authentic(),
    {
        let actor_did = String::from_str(actor_did);
        let event_type = String::from_str(event_type);
        let payload = String::from_str(payload);
        let mut material = event_type.clone();
        material.append(":");
        material.append(payload.as_str());
        let signature = sign(actor_did.as_str(), material.as_str());
        SignedEvent { actor_did, event_type, payload, signature }
    }

    /// Whether the signature matches the actor, type and payload.
    pub fn verifies(&self) -> (ok: bool)
        ensures
            ok == self.authentic(),
    {
        let mut material = self.event_type.clone();
        material.append(":");
        material.append(self.payload.as_str());
        verify(self.actor_did.as_str(), material.as_str(), self.signature.as_str())
    }
}

/// An append-only sequence of signed events.
#[derive(Clone, Debug)]
pub struct Ledger {
    events: Vec<SignedEvent>,
}

impl View for Ledger {
    type V = Seq<SignedEvent>;

    /// The recorded events, oldest first.
    closed spec fn view(&self) -> Seq<SignedEvent> {
        self.events@
    }
}

impl Ledger {
    /// An empty ledger.
    pub fn new() -> (l: Self)
        ensures
            l@ == Seq::<SignedEvent>::empty(),
    {
        Ledger { events: Vec::new() }
    }

    /// Appends `event`.
    pub fn record(&mut self, event: SignedEvent)
        ensures
            final(self)@ == old(self)@.push(event),
    {
        self.events.push(event);
    }

    /// The recorded events, oldest first.
    pub fn events(&self) -> (s: &[SignedEvent])
        ensures
            s@ == self@,
    {
        self.events.as_slice()
    }
}

} // verus!

//! The relay that joins a public connection and a proxy connection: what to
//! do with each thing that happens on either of the two streams.

use crate::tunnel_protocol::TunnelError;
use vstd::prelude::*;

verus! {

/// One of the two streams of a relay.
#[derive(Clone, Copy, Debug, PartialEq, Eq, Structural)]
pub enum Side {
    First,
    Second,
}

impl Side {
    pub open spec fn other(self) -> Side {
        match self {
            Side::First => Side::Second,
            Side::Second => Side::First,
        }
    }

    /// The stream that this one is joined to.
    pub fn opposite(self) -> (r: Side)
        ensures
            r == self.other(),
    {
        match self {
            Side::First => Side::Second,
            Side::Second => Side::First,
        }
    }
}

/// Something that happened on one of the two streams.
#[derive(Debug, PartialEq, Eq)]
pub enum RelayEvent {
    /// Bytes were read from this side.
    Data(Side, Vec<u8>),
    /// This side reached the end of its stream.
    Eof(Side),
    /// Reading from or writing to this side failed.
    Failed(Side),
}

/// What the relay's owner is to do next.
#[derive(Debug, PartialEq, Eq)]
pub enum RelayAction {
    /// Write these bytes to this side, then go on.
    Forward(Side, Vec<u8>),
    /// Stop both directions, release both streams, and report this.
    Stop(Result<(), TunnelError>),
}

/// A relay between two streams: still running, or stopped with a result.
pub struct Relay {
    outcome: Option<Result<(), TunnelError>>,
    to_first: Ghost<Seq<u8>>,
    to_second: Ghost<Seq<u8>>,
}

impl Relay {
    /// How the relay ended, if it has.
    pub closed spec fn outcome(&self) -> Option<Result<(), TunnelError>> {
        self.outcome
    }

    /// All the bytes that the relay has passed on to this side, in the order
    /// in which it passed them on.
    pub closed spec fn carried(&self, to: Side) -> Seq<u8> {
        match to {
            Side::First => self.to_first@,
            Side::Second => self.to_second@,
        }
    }

    /// A relay that is running and has passed on nothing.
    pub fn new() -> (r: Self)
        ensures
            r.outcome() is None,
            r.carried(Side::First) == Seq::<u8>::empty(),
            r.carried(Side::Second) == Seq::<u8>::empty(),
    {
        Relay { outcome: None, to_first: Ghost(Seq::empty()), to_second: Ghost(Seq::empty()) }
    }

    /// How the relay ended, if it has.
    pub fn result(&self) -> (r: Option<Result<(), TunnelError>>)
        ensures
            r == self.outcome(),
    {
        self.outcome
    }
}

/// What one step makes of the relay's result so far: the first end of
/// stream or failure decides it, and nothing changes it afterwards.
pub open spec fn outcome_after(
    outcome: Option<Result<(), TunnelError>>,
    event: RelayEvent,
) -> Option<Result<(), TunnelError>> {
    match outcome {
        Some(result) => Some(result),
        None => match event {
            RelayEvent::Data(_, _) => None,
            RelayEvent::Eof(_) => Some(Ok(())),
            RelayEvent::Failed(_) => Some(Err(TunnelError::Io)),
        },
    }
}

/// The bytes that one step passes on to side `to`: those that were read from
/// the other side while the relay runs, and none otherwise.
pub open spec fn passed_on(
    outcome: Option<Result<(), TunnelError>>,
    event: RelayEvent,
    to: Side,
) -> Seq<u8> {
    match event {
        RelayEvent::Data(from, bytes) if outcome is None && from.other() == to => bytes@,
        _ => Seq::empty(),
    }
}

/// One step of the relay. While it runs, bytes read from one side go to the
/// other side as they are, and the first end of stream or failure on either
/// side stops it: an end of stream with success, a failure with an I/O error.
/// Once stopped it stays stopped and passes on nothing more. What each side
/// has been sent grows by exactly what a step passes on, so that nothing is
/// left out, doubled or put in another order.
pub fn proxy(relay: &mut Relay, event: RelayEvent) -> (action: RelayAction)
    ensures
        final(relay).outcome() == outcome_after(old(relay).outcome(), event),
        final(relay).carried(Side::First) == old(relay).carried(Side::First) + passed_on(
            old(relay).outcome(),
            event,
            Side::First,
        ),
        final(relay).carried(Side::Second) == old(relay).carried(Side::Second) + passed_on(
            old(relay).outcome(),
            event,
            Side::Second,
        ),
        match event {
            RelayEvent::Data(from, bytes) if old(relay).outcome() is None => action
                == RelayAction::Forward(from.other(), bytes),
            _ => action == RelayAction::Stop(final(relay).outcome().unwrap()),
        },
{
    if let Some(result) = relay.outcome {
        assert(relay.to_first@ + Seq::<u8>::empty() =~= relay.to_first@);
        assert(relay.to_second@ + Seq::<u8>::empty() =~= relay.to_second@);
        return RelayAction::Stop(result);
    }
    match event {
        RelayEvent::Data(from, bytes) => {
            match from {
                Side::First => {
                    relay.to_second = Ghost(relay.to_second@ + bytes@);
                    assert(relay.to_first@ + Seq::<u8>::empty() =~= relay.to_first@);
                },
                Side::Second => {
                    relay.to_first = Ghost(relay.to_first@ + bytes@);
                    assert(relay.to_second@ + Seq::<u8>::empty() =~= relay.to_second@);
                },
            }
            RelayAction::Forward(from.opposite(), bytes)
        },
        RelayEvent::Eof(_) => {
            relay.outcome = Some(Ok(()));
            assert(relay.to_first@ + Seq::<u8>::empty() =~= relay.to_first@);
            assert(relay.to_second@ + Seq::<u8>::empty() =~= relay.to_second@);
            RelayAction::Stop(Ok(()))
        },
        RelayEvent::Failed(_) => {
            relay.outcome = Some(Err(TunnelError::Io));
            assert(relay.to_first@ + Seq::<u8>::empty() =~= relay.to_first@);
            assert(relay.to_second@ + Seq::<u8>::empty() =~= relay.to_second@);
            RelayAction::Stop(Err(TunnelError::Io))
        },
    }
}

} // verus!

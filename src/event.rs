//! What a connection reports to the application, and where it came from.

use crate::server::Target;
use bincode::error::DecodeError;
use std::io;
use std::sync::Arc;
use vstd::prelude::*;

verus! {

/// std's I/O error, carried opaquely in the events that report one.
#[verifier::external_type_specification]
#[verifier::external_body]
pub struct ExIoError(io::Error);

/// Which connection an inbound event came from.
#[derive(Debug, Clone, Copy, PartialEq, Eq, Structural)]
pub enum Origin {
    /// The id of a connection accepted by a server.
    Id(usize),
    /// The single peer of a client.
    OnClient,
}

impl From<usize> for Origin {
    /// The connection with id `id`.
    fn from(id: usize) -> (r: Origin) {
        Origin::Id(id)
    }
}

impl vstd::std_specs::convert::FromSpecImpl<usize> for Origin {
    open spec fn obeys_from_spec() -> bool {
        true
    }

    open spec fn from_spec(id: usize) -> Origin {
        Origin::Id(id)
    }
}

impl Origin {
    /// The target that replies to this origin. A client's peer has none.
    pub fn target(self) -> (r: Target)
        requires
            self is Id,
        ensures
            r == Target::One(self->Id_0),
    {
        match self {
            Origin::Id(id) => Target::One(id),
            // excluded by the precondition
            Origin::OnClient => Target::All,
        }
    }
}

/// How a connection ended.
#[derive(Debug, Clone, Copy, PartialEq, Eq, Structural)]
pub enum DisconnectEvent {
    /// The peer closed it.
    Clean,
    /// It was reset.
    Dirty,
}

/// Bytes that could not be decoded, with the reason.
#[derive(Debug, Clone)]
pub struct Illegal {
    pub err: Arc<DecodeError>,
    pub vec: Vec<u8>,
}

/// Something a connection did.
#[derive(Debug, Clone)]
pub enum Event<M> {
    /// It connected.
    Connect,
    /// It sent a message.
    Message(M),
    /// It sent bytes that do not decode.
    IllegalData(Illegal),
    /// It disconnected.
    Disconnect(DisconnectEvent),
    /// An error occurred that did not end the connection.
    RealError(Arc<io::Error>),
}

impl<M> Event<M> {
    pub fn clean() -> (r: Event<M>)
        ensures
            r == Event::<M>::Disconnect(DisconnectEvent::Clean),
    {
        Event::Disconnect(DisconnectEvent::Clean)
    }

    pub fn dirty() -> (r: Event<M>)
        ensures
            r == Event::<M>::Disconnect(DisconnectEvent::Dirty),
    {
        Event::Disconnect(DisconnectEvent::Dirty)
    }

    pub fn from_err(err: io::Error) -> (r: Event<M>)
        ensures
            r.reports_error(err),
    {
        Event::RealError(Arc::new(err))
    }

    /// This event reports the I/O error `err`.
    pub open spec fn reports_error(self, err: io::Error) -> bool {
        self matches Event::RealError(a) && *a == err
    }

    /// The message this event carries, if it is one.
    pub fn into_message(self) -> (r: Option<M>)
        ensures
            r == (match self {
                Event::Message(m) => Some(m),
                _ => None,
            }),
    {
        match self {
            Event::Message(m) => Some(m),
            _ => None,
        }
    }

    /// The connection that stops being a destination once this event, from
    /// `origin`, has been seen: the one that disconnected.
    pub open spec fn evicted_by(self, origin: Origin) -> Option<usize> {
        if self is Disconnect && origin is Id {
            Some(origin->Id_0)
        } else {
            None
        }
    }

    pub fn evicts(&self, origin: Origin) -> (r: Option<usize>)
        ensures
            r == self.evicted_by(origin),
    {
        match (self, origin) {
            (Event::Disconnect(_), Origin::Id(id)) => Some(id),
            _ => None,
        }
    }
}

} // verus!

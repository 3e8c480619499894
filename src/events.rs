//! The observer side: capability traits with no-op defaults, the routing of
//! each event to its capability, and a decorator that decodes the user-message
//! sub-protocol before handing it on.

use vstd::prelude::*;

use crate::catalog::{user_message_kind_of, MessageKind, SvcKind, UserMessageKind};
use crate::format::{DemHeader, PacketInfo, Parse, ServerClass};
use crate::parser::{demo, parse_events, Event, Termination};
use crate::wire::{user_message_parts, user_message_spec};
use crate::DemoError;

verus! {

/// The capabilities of an observer of the container's events. Each one does
/// nothing by default; an observer overrides those it cares about. Network
/// and server messages come to `on_message` with their kind and body,
/// send-table descriptors of the data-table region among them. Bodies are
/// handed on neither decoded nor checked: decoding one into its message type
/// is the observer's part, and a malformed body of any kind but a send table
/// or a user message reaches it without error.
pub trait EventHandler {
    fn on_packet_info(&self, _info: &PacketInfo) -> Result<(), DemoError> {
        Ok(())
    }

    fn on_server_class(&self, _class: &ServerClass) -> Result<(), DemoError> {
        Ok(())
    }

    fn on_message(&self, _kind: MessageKind, _body: &[u8]) -> Result<(), DemoError> {
        Ok(())
    }
}

/// The capability of an observer of decoded user messages, which
/// `UserMessageDecoder` drives.
pub trait UserMessageEventHandler: EventHandler {
    fn on_user_message(&self, _kind: UserMessageKind, _payload: &[u8]) -> Result<(), DemoError> {
        Ok(())
    }
}

/// Hands one event to the one capability that takes its type.
pub trait Dispatcher {
    fn dispatch(&self, event: &Event) -> Result<(), DemoError>;
}

impl<H: EventHandler> Dispatcher for H {
    fn dispatch(&self, event: &Event) -> Result<(), DemoError> {
        match event {
            Event::PacketInfo(info) => self.on_packet_info(info),
            Event::ServerClass(class) => self.on_server_class(class),
            Event::Message(kind, body) => self.on_message(*kind, body.as_slice()),
        }
    }
}

/// Where the decorator sends a user message.
#[derive(Clone, Debug)]
pub enum UserMessageRoute {
    /// Its sub-kind is in the user-message catalog: this payload goes to the
    /// sub-kind's capability.
    Decoded(UserMessageKind, Vec<u8>),
    /// Its sub-kind is not: the message goes on undecoded.
    Undecoded,
}

/// The route of a user message whose body is `body`: `Some` with the
/// sub-kind and payload when the sub-kind is in the catalog, `None` when it
/// is not.
pub open spec fn user_message_route(body: Seq<u8>) -> Result<Option<(UserMessageKind, Seq<u8>)>, DemoError> {
    match user_message_spec(body) {
        Err(e) => Err(e),
        Ok((code, payload)) => match user_message_kind_of(code) {
            Some(kind) => Ok(Some((kind, payload))),
            None => Ok(None),
        },
    }
}

/// Decodes a user message's sub-kind and payload and looks the sub-kind up.
pub fn route_user_message(body: &[u8]) -> (r: Result<UserMessageRoute, DemoError>)
    ensures
        match user_message_route(body@) {
            Err(e) => r == Err::<UserMessageRoute, DemoError>(e),
            Ok(Some((kind, payload))) => r matches Ok(UserMessageRoute::Decoded(k, p)) && k == kind
                && p@ == payload,
            Ok(None) => r matches Ok(UserMessageRoute::Undecoded),
        },
{
    let (code, payload) = user_message_parts(body)?;
    match UserMessageKind::from_code(code) {
        Some(kind) => Ok(UserMessageRoute::Decoded(kind, payload)),
        None => Ok(UserMessageRoute::Undecoded),
    }
}

/// An observer that decodes each user message and hands the result to the
/// observer it wraps; every other event goes to that observer unchanged.
pub struct UserMessageDecoder<T>(pub T);

impl<T: UserMessageEventHandler> EventHandler for UserMessageDecoder<T> {
    fn on_packet_info(&self, info: &PacketInfo) -> Result<(), DemoError> {
        self.0.on_packet_info(info)
    }

    fn on_server_class(&self, class: &ServerClass) -> Result<(), DemoError> {
        self.0.on_server_class(class)
    }

    fn on_message(&self, kind: MessageKind, body: &[u8]) -> (r: Result<(), DemoError>)
        ensures
            kind == MessageKind::Svc(SvcKind::UserMessage) ==> (user_message_route(body@) matches Err(
                e,
            ) ==> r == Err::<(), DemoError>(e)),
    {
        if kind != MessageKind::Svc(SvcKind::UserMessage) {
            return self.0.on_message(kind, body);
        }
        match route_user_message(body)? {
            UserMessageRoute::Decoded(sub_kind, payload) => self.0.on_user_message(
                sub_kind,
                payload.as_slice(),
            ),
            UserMessageRoute::Undecoded => self.0.on_message(kind, body),
        }
    }
}

/// Parses the container `data` and hands each event, in order, to
/// `handler`; on success returns the file header, which is read once and is
/// no event, with how the container ended. The whole container is parsed
/// before the first handler call; the events before a parse fault are still
/// handed on, then the fault is returned. The first handler failure ends the
/// calls and is returned. It succeeds only as the parse does, and fails
/// whenever the parse does; when the parse gives no event, no handler call
/// is made and its result is the parse's.
pub fn parse_dem_file<D: EventHandler>(data: &[u8], handler: &D) -> (r: Result<(DemHeader, Termination), DemoError>)
    ensures
        r matches Ok((h, t)) ==> demo(data@).1 == Ok::<Termination, DemoError>(t) && data@.len() >= 1072
            && h.encoded_by(data@.subrange(0, 1072)),
        demo(data@).1 is Err ==> r is Err,
        demo(data@).0.len() == 0 ==> (match demo(data@).1 {
            Ok(t) => r matches Ok((_, u)) && u == t,
            Err(e) => r == Err::<(DemHeader, Termination), DemoError>(e),
        }),
{
    let (header, events, outcome) = parse_events(data);
    let mut i: usize = 0;
    while i < events.len()
        invariant
            i <= events@.len(),
            events@.len() == demo(data@).0.len(),
            outcome == demo(data@).1,
        decreases events@.len() - i,
    {
        handler.dispatch(&events[i])?;
        i = i + 1;
    }
    let t = outcome?;
    match header {
        Some(h) => Ok((h, t)),
        None => Err(DemoError::Truncated),
    }
}

} // verus!

use vstd::prelude::*;

verus! {

/// The one error type of the library.
///
/// `Lifecycle` is reported by a service whose `start` or `stop` could not
/// acquire or release its resource; `UnrecognizedPayload` by a service that
/// was routed a message whose kind it does not actually support;
/// `ChannelClosed` when an event is dispatched to a context whose consuming
/// side is gone; `NoSuchContext` when an operation names a context id that
/// the mediator does not hold.
#[derive(Debug)]
pub enum MediatorError {
    Lifecycle(String),
    UnrecognizedPayload,
    ChannelClosed,
    NoSuchContext,
}

/// An immutable envelope embedded in every command, query and event:
/// a fresh identity and the creation time in milliseconds since the epoch.
#[derive(Clone, Copy, Debug)]
pub struct Message {
    pub id: u128,
    pub created_at: i64,
}

/// Relies on `uuid::Uuid::new_v4` and `Uuid::as_u128`: a freshly drawn
/// random identifier, carried over as its 128-bit value. The value is
/// random, so nothing is assumed of it.
#[verifier::external_body]
fn fresh_id() -> u128 {
    uuid::Uuid::new_v4().as_u128()
}

/// Relies on `chrono::Utc::now` and `DateTime::timestamp_millis`: the
/// current time in milliseconds since the epoch. The value depends on the
/// clock, so nothing is assumed of it.
#[verifier::external_body]
fn now_millis() -> i64 {
    chrono::Utc::now().timestamp_millis()
}

impl Message {
    /// Construction needs no input and always succeeds.
    pub fn new() -> Message {
        Message { id: fresh_id(), created_at: now_millis() }
    }
}

/// Role of a payload that asks the receiving service to do something.
/// The roles are a documentation contract for payload authors; routing
/// itself goes by the type tag alone.
pub trait Command {
    fn message(&self) -> &Message;
}

/// Role of a payload that asks the receiving service for an answer.
pub trait Query {
    fn message(&self) -> &Message;
}

/// Role of a payload that reports something that happened.
pub trait Event {
    fn message(&self) -> &Message;
}

/// An event reporting that a unit of work went through.
#[derive(Clone, Debug)]
pub struct SuccessEvent {
    pub message: Message,
}

impl SuccessEvent {
    pub fn new() -> SuccessEvent {
        SuccessEvent { message: Message::new() }
    }
}

impl Event for SuccessEvent {
    fn message(&self) -> (m: &Message)
        ensures
            *m == self.message,
    {
        &self.message
    }
}

/// An event reporting that a unit of work failed, with the reason.
#[derive(Clone, Debug)]
pub struct FailureEvent {
    pub message: Message,
    pub error: String,
}

impl FailureEvent {
    pub fn new(error: String) -> (e: FailureEvent)
        ensures
            e.error == error,
    {
        FailureEvent { message: Message::new(), error }
    }
}

impl Event for FailureEvent {
    fn message(&self) -> (m: &Message)
        ensures
            *m == self.message,
    {
        &self.message
    }
}

/// The closed union of event kinds that a context's channel carries.
#[derive(Clone, Debug)]
pub enum EventItem {
    Success(SuccessEvent),
    Failure(FailureEvent),
}

impl EventItem {
    /// The envelope of the carried event.
    pub open spec fn envelope(&self) -> Message {
        match self {
            EventItem::Success(e) => e.message,
            EventItem::Failure(e) => e.message,
        }
    }

    pub fn message(&self) -> (m: &Message)
        ensures
            *m == self.envelope(),
    {
        match self {
            EventItem::Success(e) => &e.message,
            EventItem::Failure(e) => &e.message,
        }
    }
}

} // verus!

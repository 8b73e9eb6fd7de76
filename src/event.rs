use crate::message::{Message, MessageModel};
use crate::types::ConnectionState;
use vstd::prelude::*;

verus! {

/// Code of the error event raised when the broker rejects a subscription.
pub const SUBSCRIPTION_REJECTED: i32 = 1;

/// Code of the error event raised when an explicit disconnect abandons
/// outbound publications still awaiting acknowledgement.
pub const OPERATIONS_ABANDONED: i32 = 2;

/// Something for the application's handlers, in the order it happened.
pub enum Event {
    /// An inbound message for the subscription `handle`, at the effective QoS.
    Delivery { handle: i64, message: Message },
    StateChanged(ConnectionState),
    Error { code: i32, text: String },
}

/// The content of an event.
pub ghost enum EventModel {
    Delivery { handle: i64, message: MessageModel },
    StateChanged(ConnectionState),
    Error { code: i32, text: Seq<char> },
}

impl View for Event {
    type V = EventModel;

    open spec fn view(&self) -> EventModel {
        match self {
            Event::Delivery { handle, message } => EventModel::Delivery {
                handle: *handle,
                message: message@,
            },
            Event::StateChanged(s) => EventModel::StateChanged(*s),
            Event::Error { code, text } => EventModel::Error { code: *code, text: text@ },
        }
    }
}

/// The contents of a sequence of events.
pub open spec fn events_view(es: Seq<Event>) -> Seq<EventModel> {
    es.map_values(|e: Event| e@)
}

/// The deliveries of message `m` along `routes`, each at its route's QoS.
pub open spec fn deliveries(routes: Seq<(i64, crate::types::QoS)>, m: MessageModel) -> Seq<
    EventModel,
> {
    routes.map_values(
        |r: (i64, crate::types::QoS)| EventModel::Delivery {
            handle: r.0,
            message: MessageModel { qos: r.1, ..m },
        },
    )
}

} // verus!

use crate::types::QoS;
use vstd::prelude::*;
use vstd::slice::slice_to_vec;

verus! {

/// The mathematical content of a message.
pub ghost struct MessageModel {
    pub topic: Seq<char>,
    pub payload: Seq<u8>,
    pub qos: QoS,
    pub retained: bool,
}

/// An owned message, used for publishing; it outlives the call that made it.
#[derive(Debug, Clone)]
pub struct Message {
    pub topic: String,
    pub payload: Vec<u8>,
    pub qos: QoS,
    pub retained: bool,
}

/// A borrowed message, handed to a delivery handler and valid only while the
/// handler runs.
#[derive(Debug)]
pub struct MessageView<'a> {
    pub topic: &'a str,
    pub payload: &'a [u8],
    pub qos: QoS,
    pub retained: bool,
}

impl View for Message {
    type V = MessageModel;

    open spec fn view(&self) -> MessageModel {
        MessageModel {
            topic: self.topic@,
            payload: self.payload@,
            qos: self.qos,
            retained: self.retained,
        }
    }
}

impl<'a> View for MessageView<'a> {
    type V = MessageModel;

    open spec fn view(&self) -> MessageModel {
        MessageModel {
            topic: self.topic@,
            payload: self.payload@,
            qos: self.qos,
            retained: self.retained,
        }
    }
}

impl Message {
    /// A message on `topic` with `payload`, at most once, not retained.
    pub fn new(topic: &str, payload: &[u8]) -> (r: Message)
        ensures
            r@ == (MessageModel {
                topic: topic@,
                payload: payload@,
                qos: QoS::AtMostOnce,
                retained: false,
            }),
    {
        Message {
            topic: topic.to_owned(),
            payload: slice_to_vec(payload),
            qos: QoS::AtMostOnce,
            retained: false,
        }
    }

    /// The same message with its QoS replaced.
    pub fn with_qos(self, qos: QoS) -> (r: Message)
        ensures
            r@ == (MessageModel { qos, ..self@ }),
    {
        let mut m = self;
        m.qos = qos;
        m
    }

    /// The same message with its retained flag replaced.
    pub fn with_retain(self, retained: bool) -> (r: Message)
        ensures
            r@ == (MessageModel { retained, ..self@ }),
    {
        let mut m = self;
        m.retained = retained;
        m
    }

    /// A copy with the same content.
    pub fn copied(&self) -> (r: Message)
        ensures
            r@ == self@,
    {
        Message {
            topic: self.topic.clone(),
            payload: slice_to_vec(self.payload.as_slice()),
            qos: self.qos,
            retained: self.retained,
        }
    }

    pub fn topic(&self) -> (r: &str)
        ensures
            r@ == self.topic@,
    {
        self.topic.as_str()
    }

    pub fn payload(&self) -> (r: &[u8])
        ensures
            r@ == self.payload@,
    {
        self.payload.as_slice()
    }

    pub fn qos(&self) -> (r: QoS)
        ensures
            r == self.qos,
    {
        self.qos
    }

    pub fn is_retained(&self) -> (r: bool)
        ensures
            r == self.retained,
    {
        self.retained
    }
}

impl<'a> MessageView<'a> {
    /// Copies the borrowed message into an owned one with the same content.
    pub fn to_owned(&self) -> (r: Message)
        ensures
            r@ == self@,
    {
        Message {
            topic: self.topic.to_owned(),
            payload: slice_to_vec(self.payload),
            qos: self.qos,
            retained: self.retained,
        }
    }

    pub fn topic(&self) -> (r: &'a str)
        ensures
            r@ == self.topic@,
    {
        self.topic
    }

    pub fn payload(&self) -> (r: &'a [u8])
        ensures
            r@ == self.payload@,
    {
        self.payload
    }

    pub fn qos(&self) -> (r: QoS)
        ensures
            r == self.qos,
    {
        self.qos
    }

    pub fn is_retained(&self) -> (r: bool)
        ensures
            r == self.retained,
    {
        self.retained
    }
}

} // verus!

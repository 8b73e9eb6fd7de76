use vstd::prelude::*;

verus! {

/// Delivery guarantee of a publication.
#[derive(Debug, Clone, Copy, PartialEq, Eq, Structural)]
pub enum QoS {
    AtMostOnce,
    AtLeastOnce,
    ExactlyOnce,
}

impl QoS {
    /// The protocol level of this QoS: 0, 1 or 2.
    pub open spec fn level(self) -> nat {
        match self {
            QoS::AtMostOnce => 0,
            QoS::AtLeastOnce => 1,
            QoS::ExactlyOnce => 2,
        }
    }

    /// The QoS of a protocol level, if it is one.
    pub open spec fn of_level(code: int) -> Option<QoS> {
        if code == 0 {
            Some(QoS::AtMostOnce)
        } else if code == 1 {
            Some(QoS::AtLeastOnce)
        } else if code == 2 {
            Some(QoS::ExactlyOnce)
        } else {
            None
        }
    }

    /// The lower of two QoS levels.
    pub open spec fn spec_min(self, other: QoS) -> QoS {
        if self.level() <= other.level() {
            self
        } else {
            other
        }
    }

    /// The numeric code of this QoS on the wire.
    pub fn code(self) -> (r: u8)
        ensures
            r as nat == self.level(),
    {
        match self {
            QoS::AtMostOnce => 0,
            QoS::AtLeastOnce => 1,
            QoS::ExactlyOnce => 2,
        }
    }

    /// Reads a QoS from its numeric code; unknown codes give `None`.
    pub fn from_code(code: u8) -> (r: Option<QoS>)
        ensures
            r == QoS::of_level(code as int),
    {
        match code {
            0 => Some(QoS::AtMostOnce),
            1 => Some(QoS::AtLeastOnce),
            2 => Some(QoS::ExactlyOnce),
            _ => None,
        }
    }

    /// The effective QoS of a delivery: the lower of the two levels.
    pub fn capped_by(self, other: QoS) -> (r: QoS)
        ensures
            r == self.spec_min(other),
    {
        if self.code() <= other.code() {
            self
        } else {
            other
        }
    }
}

/// Lifecycle state of a session's connection.
#[derive(Debug, Clone, Copy, PartialEq, Eq, Structural)]
pub enum ConnectionState {
    Disconnected,
    Connecting,
    Connected,
    Reconnecting,
}

impl ConnectionState {
    /// The state that a numeric state code stands for; unknown codes read as
    /// `Disconnected`.
    pub open spec fn of_code(code: int) -> ConnectionState {
        if code == 1 {
            ConnectionState::Connecting
        } else if code == 2 {
            ConnectionState::Connected
        } else if code == 3 {
            ConnectionState::Reconnecting
        } else {
            ConnectionState::Disconnected
        }
    }
}

/// The numeric code of a QoS, as the transport writes it.
impl From<QoS> for u32 {
    fn from(qos: QoS) -> (r: u32) {
        match qos {
            QoS::AtMostOnce => 0,
            QoS::AtLeastOnce => 1,
            QoS::ExactlyOnce => 2,
        }
    }
}

impl vstd::std_specs::convert::FromSpecImpl<QoS> for u32 {
    open spec fn obeys_from_spec() -> bool {
        true
    }

    open spec fn from_spec(qos: QoS) -> u32 {
        qos.level() as u32
    }
}

/// The state that a numeric state code stands for; unknown codes read as
/// `Disconnected`.
impl From<u32> for ConnectionState {
    fn from(code: u32) -> (r: ConnectionState) {
        match code {
            1 => ConnectionState::Connecting,
            2 => ConnectionState::Connected,
            3 => ConnectionState::Reconnecting,
            _ => ConnectionState::Disconnected,
        }
    }
}

impl vstd::std_specs::convert::FromSpecImpl<u32> for ConnectionState {
    open spec fn obeys_from_spec() -> bool {
        true
    }

    open spec fn from_spec(code: u32) -> ConnectionState {
        ConnectionState::of_code(code as int)
    }
}

} // verus!

use crate::message::{Message, MessageModel};
use crate::types::QoS;
use vstd::prelude::*;

verus! {

/// A control packet that the session hands to the transport.
pub enum Packet {
    /// A publication; `duplicate` is set on retransmission.
    Publish { id: u16, message: Message, duplicate: bool },
    Puback(u16),
    Pubrec(u16),
    Pubrel(u16),
    Pubcomp(u16),
    Subscribe { handle: i64, filter: String, qos: QoS },
    Unsubscribe { handle: i64 },
}

/// The content of a packet.
pub ghost enum PacketModel {
    Publish { id: u16, message: MessageModel, duplicate: bool },
    Puback(u16),
    Pubrec(u16),
    Pubrel(u16),
    Pubcomp(u16),
    Subscribe { handle: i64, filter: Seq<char>, qos: QoS },
    Unsubscribe { handle: i64 },
}

impl View for Packet {
    type V = PacketModel;

    open spec fn view(&self) -> PacketModel {
        match self {
            Packet::Publish { id, message, duplicate } => PacketModel::Publish {
                id: *id,
                message: message@,
                duplicate: *duplicate,
            },
            Packet::Puback(id) => PacketModel::Puback(*id),
            Packet::Pubrec(id) => PacketModel::Pubrec(*id),
            Packet::Pubrel(id) => PacketModel::Pubrel(*id),
            Packet::Pubcomp(id) => PacketModel::Pubcomp(*id),
            Packet::Subscribe { handle, filter, qos } => PacketModel::Subscribe {
                handle: *handle,
                filter: filter@,
                qos: *qos,
            },
            Packet::Unsubscribe { handle } => PacketModel::Unsubscribe { handle: *handle },
        }
    }
}

/// The contents of a sequence of packets.
pub open spec fn packets_view(ps: Seq<Packet>) -> Seq<PacketModel> {
    ps.map_values(|p: Packet| p@)
}

} // verus!

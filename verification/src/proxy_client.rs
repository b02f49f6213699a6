//! The envelope in which a response packet travels back through the mesh.
use crate::sequenced_packet::{terminal_packet, SequencedPacket, SequencedPacketView};
use crate::stream_key::StreamKey;
use vstd::prelude::*;

verus! {

/// One response packet, tagged with the stream it belongs to.
#[derive(Debug, PartialEq, Eq)]
pub struct ClientResponsePayload {
    pub stream_key: StreamKey,
    pub sequenced_packet: SequencedPacket,
}

/// An envelope as a mathematical value.
pub struct ClientResponsePayloadView {
    pub stream_key: StreamKey,
    pub sequenced_packet: SequencedPacketView,
}

impl View for ClientResponsePayload {
    type V = ClientResponsePayloadView;

    open spec fn view(&self) -> ClientResponsePayloadView {
        ClientResponsePayloadView {
            stream_key: self.stream_key,
            sequenced_packet: self.sequenced_packet@,
        }
    }
}

impl DeepView for ClientResponsePayload {
    type V = ClientResponsePayloadView;

    open spec fn deep_view(&self) -> ClientResponsePayloadView {
        self@
    }
}

impl Clone for ClientResponsePayload {
    fn clone(&self) -> (copy: Self)
        ensures
            copy@ == self@,
    {
        ClientResponsePayload {
            stream_key: self.stream_key,
            sequenced_packet: self.sequenced_packet.clone(),
        }
    }
}

/// The envelope that tells the originator that the stream `stream_key` is
/// closed and never produced a byte.
pub open spec fn terminating_payload(stream_key: StreamKey) -> ClientResponsePayloadView {
    ClientResponsePayloadView { stream_key, sequenced_packet: terminal_packet(0) }
}

impl ClientResponsePayload {
    /// Builds the envelope that closes `stream_key` before any data: no
    /// bytes, sequence number 0, `last_data` set. The result depends on the
    /// key alone.
    pub fn make_terminating_payload(stream_key: StreamKey) -> (payload: ClientResponsePayload)
        ensures
            payload@ == terminating_payload(stream_key),
            payload.stream_key == stream_key,
            payload.sequenced_packet.data@ == Seq::<u8>::empty(),
            payload.sequenced_packet.sequence_number == 0,
            payload.sequenced_packet.last_data,
    {
        ClientResponsePayload {
            stream_key,
            sequenced_packet: SequencedPacket {
                data: Vec::new(),
                sequence_number: 0,
                last_data: true,
            },
        }
    }
}

} // verus!

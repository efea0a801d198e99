//! Cutting the byte stream that the device sends into packets: bytes are
//! gathered until the end-of-packet marker (0x55), then the gathered packet
//! is parsed.

use vstd::prelude::*;

use crate::protocol::{option_message_view, parse_packet, spec_parse_packet, DeviceMessage, MessageView, FOOTER};

verus! {

/// The gathering of the bytes of the packet being received.
pub struct PacketReader {
    buf: Vec<u8>,
}

impl View for PacketReader {
    type V = Seq<u8>;

    /// The bytes gathered since the last end-of-packet marker.
    closed spec fn view(&self) -> Seq<u8> {
        self.buf@
    }
}

/// One received byte: the new gathered bytes and the packet completed, if any.
/// The marker completes a packet only when bytes were gathered; a packet that
/// does not parse is dropped.
pub open spec fn spec_feed(pending: Seq<u8>, byte: u8) -> (Seq<u8>, Option<MessageView>) {
    if byte == FOOTER {
        if pending.len() == 0 {
            (pending, None)
        } else {
            (Seq::empty(), spec_parse_packet(pending))
        }
    } else {
        (pending.push(byte), None)
    }
}

/// A run of received bytes: the gathered bytes at its end, and the messages
/// completed along the way, in order.
pub open spec fn spec_feed_all(pending: Seq<u8>, bytes: Seq<u8>) -> (Seq<u8>, Seq<MessageView>)
    decreases bytes.len(),
{
    if bytes.len() == 0 {
        (pending, Seq::empty())
    } else {
        let (before, msgs) = spec_feed_all(pending, bytes.drop_last());
        let (after, msg) = spec_feed(before, bytes.last());
        (
            after,
            match msg {
                Some(m) => msgs.push(m),
                None => msgs,
            },
        )
    }
}

impl PacketReader {
    /// A reader with nothing gathered.
    pub fn new() -> (r: PacketReader)
        ensures
            r@ == Seq::<u8>::empty(),
    {
        PacketReader { buf: Vec::with_capacity(64) }
    }

    /// Takes one byte from the port; returns the message that it completes.
    pub fn feed(&mut self, byte: u8) -> (msg: Option<DeviceMessage>)
        ensures
            (final(self)@, option_message_view(msg)) == spec_feed(old(self)@, byte),
    {
        if byte == FOOTER {
            if self.buf.len() != 0 {
                let msg = parse_packet(self.buf.as_slice());
                self.buf.clear();
                msg
            } else {
                None
            }
        } else {
            self.buf.push(byte);
            None
        }
    }
}


// ── laws ──────────────────────────────────────────────────────────────────────

/// Bytes without the marker are only gathered: nothing is lost, nothing is
/// delivered.
pub proof fn lemma_bytes_accumulate(pending: Seq<u8>, bytes: Seq<u8>)
    requires
        !bytes.contains(FOOTER),
    ensures
        spec_feed_all(pending, bytes) == (pending + bytes, Seq::<MessageView>::empty()),
    decreases bytes.len(),
{
    if bytes.len() == 0 {
        assert(pending + bytes =~= pending);
    } else {
        let init = bytes.drop_last();
        assert(!init.contains(FOOTER)) by {
            if init.contains(FOOTER) {
                let i = choose|i: int| 0 <= i < init.len() && init[i] == FOOTER;
                assert(bytes[i] == FOOTER);
            }
        }
        lemma_bytes_accumulate(pending, init);
        assert(bytes.last() != FOOTER) by {
            assert(bytes[bytes.len() - 1] == bytes.last());
        }
        assert((pending + init).push(bytes.last()) =~= pending + bytes);
    }
}

/// A packet followed by the marker, fed to a reader with nothing gathered,
/// is delivered as the message it parses to (nothing, when it does not
/// parse), and leaves nothing gathered.
pub proof fn lemma_frame_delivers_packet(packet: Seq<u8>)
    requires
        packet.len() > 0,
        !packet.contains(FOOTER),
    ensures
        spec_feed_all(Seq::empty(), packet.push(FOOTER)) == (
            Seq::<u8>::empty(),
            match spec_parse_packet(packet) {
                Some(m) => seq![m],
                None => Seq::<MessageView>::empty(),
            },
        ),
{
    lemma_bytes_accumulate(Seq::empty(), packet);
    assert(packet.push(FOOTER).drop_last() =~= packet);
    assert(Seq::<u8>::empty() + packet =~= packet);
    assert(Seq::<MessageView>::empty().push(spec_parse_packet(packet)->0) =~= seq![spec_parse_packet(packet)->0]);
}

} // verus!

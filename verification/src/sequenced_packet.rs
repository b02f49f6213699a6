//! The unit in which a stream's bytes cross the mesh, and the cutting of a run
//! of bytes into such units.
use vstd::prelude::*;

verus! {

/// An ordered fragment of one stream's bytes.
///
/// The packets of one stream are numbered from 0 without gaps. At most one of
/// them has `last_data` set, and it is the last of its stream.
#[derive(Debug, PartialEq, Eq)]
pub struct SequencedPacket {
    pub data: Vec<u8>,
    pub sequence_number: u64,
    pub last_data: bool,
}

/// A packet as a mathematical value.
pub struct SequencedPacketView {
    pub data: Seq<u8>,
    pub sequence_number: u64,
    pub last_data: bool,
}

impl View for SequencedPacket {
    type V = SequencedPacketView;

    open spec fn view(&self) -> SequencedPacketView {
        SequencedPacketView {
            data: self.data@,
            sequence_number: self.sequence_number,
            last_data: self.last_data,
        }
    }
}

impl DeepView for SequencedPacket {
    type V = SequencedPacketView;

    open spec fn deep_view(&self) -> SequencedPacketView {
        self@
    }
}

/// The packet that closes a stream at `sequence_number` without carrying bytes.
pub open spec fn terminal_packet(sequence_number: u64) -> SequencedPacketView {
    SequencedPacketView { data: Seq::empty(), sequence_number, last_data: true }
}

impl Clone for SequencedPacket {
    fn clone(&self) -> (copy: Self)
        ensures
            copy@ == self@,
    {
        SequencedPacket {
            data: self.data.clone(),
            sequence_number: self.sequence_number,
            last_data: self.last_data,
        }
    }
}

impl SequencedPacket {
    pub fn new(data: Vec<u8>, sequence_number: u64, last_data: bool) -> (packet: SequencedPacket)
        ensures
            packet@ == (SequencedPacketView { data: data@, sequence_number, last_data }),
    {
        SequencedPacket { data, sequence_number, last_data }
    }

    /// The packet that closes a stream at `sequence_number` without carrying
    /// bytes.
    pub fn terminal(sequence_number: u64) -> (packet: SequencedPacket)
        ensures
            packet@ == terminal_packet(sequence_number),
    {
        SequencedPacket { data: Vec::new(), sequence_number, last_data: true }
    }
}

/// The length of the first packet cut from `len` bytes when no packet may
/// carry more than `max_len`.
pub open spec fn first_cut(len: nat, max_len: int) -> int {
    if len <= max_len {
        len as int
    } else {
        max_len
    }
}

/// The packets into which `data` is cut: each takes as many of the remaining
/// bytes as `max_len` allows, they are numbered from `first` on, and none of
/// them closes the stream.
pub open spec fn framed(data: Seq<u8>, first: int, max_len: int) -> Seq<SequencedPacketView>
    decreases data.len(),
{
    if data.len() == 0 || max_len <= 0 {
        Seq::empty()
    } else {
        let n = first_cut(data.len(), max_len);
        seq![
            SequencedPacketView {
                data: data.take(n),
                sequence_number: first as u64,
                last_data: false,
            },
        ] + framed(data.skip(n), first + 1, max_len)
    }
}

/// The bytes of `packets`, one packet after the other.
pub open spec fn payload_of(packets: Seq<SequencedPacketView>) -> Seq<u8>
    decreases packets.len(),
{
    if packets.len() == 0 {
        Seq::empty()
    } else {
        packets[0].data + payload_of(packets.skip(1))
    }
}

/// The bytes of packets and of one more are those of the packets followed by
/// those of the one.
pub proof fn lemma_payload_of_push(packets: Seq<SequencedPacketView>, packet: SequencedPacketView)
    ensures
        payload_of(packets.push(packet)) == payload_of(packets) + packet.data,
    decreases packets.len(),
{
    let more = packets.push(packet);
    if packets.len() == 0 {
        assert(more.skip(1) == Seq::<SequencedPacketView>::empty());
        assert(payload_of(more.skip(1)) == Seq::<u8>::empty());
        assert(packet.data + Seq::<u8>::empty() == packet.data);
        assert(Seq::<u8>::empty() + packet.data == packet.data);
    } else {
        assert(more.skip(1) == packets.skip(1).push(packet));
        lemma_payload_of_push(packets.skip(1), packet);
        assert(packets[0].data + (payload_of(packets.skip(1)) + packet.data) == (packets[0].data
            + payload_of(packets.skip(1))) + packet.data);
    }
}

/// Cutting bytes into packets loses and reorders nothing: every packet holds
/// between 1 and `max_len` bytes, the packets are numbered `first`,
/// `first + 1`, ... in order, none closes the stream, and their bytes put
/// together are `data`.
pub proof fn lemma_framed(data: Seq<u8>, first: int, max_len: int)
    requires
        max_len > 0,
        0 <= first,
        first + framed(data, first, max_len).len() <= u64::MAX + 1,
    ensures
        payload_of(framed(data, first, max_len)) == data,
        forall|i: int|
            0 <= i < framed(data, first, max_len).len() ==> {
                let p = #[trigger] framed(data, first, max_len)[i];
                &&& p.sequence_number == first + i
                &&& !p.last_data
                &&& 0 < p.data.len() <= max_len
            },
    decreases data.len(),
{
    let packets = framed(data, first, max_len);
    if data.len() == 0 {
        assert(payload_of(packets) == data);
    } else {
        let n = first_cut(data.len(), max_len);
        let rest = framed(data.skip(n), first + 1, max_len);
        lemma_framed(data.skip(n), first + 1, max_len);
        assert(packets.skip(1) == rest);
        assert(data.take(n) + data.skip(n) == data);
        assert forall|i: int| 0 <= i < packets.len() implies {
            let p = #[trigger] packets[i];
            &&& p.sequence_number == first + i
            &&& !p.last_data
            &&& 0 < p.data.len() <= max_len
        } by {
            if i > 0 {
                assert(packets[i] == rest[i - 1]);
            }
        }
    }
}

/// The number of packets into which `len` bytes are cut is `len / max_len`,
/// rounded up.
pub proof fn lemma_framed_len(data: Seq<u8>, first: int, max_len: int)
    requires
        max_len > 0,
    ensures
        framed(data, first, max_len).len() == (data.len() + max_len - 1) / max_len,
    decreases data.len(),
{
    if data.len() == 0 {
        assert((max_len - 1) / max_len == 0) by (nonlinear_arith)
            requires
                max_len > 0,
        ;
    } else {
        let n = first_cut(data.len(), max_len);
        lemma_framed_len(data.skip(n), first + 1, max_len);
        let len = data.len() as int;
        if len <= max_len {
            assert((len + max_len - 1) / max_len == 1) by (nonlinear_arith)
                requires
                    0 < len <= max_len,
            ;
            assert((0 + max_len - 1) / max_len == 0) by (nonlinear_arith)
                requires
                    max_len > 0,
            ;
        } else {
            assert((len - max_len + max_len - 1) / max_len + 1 == (len + max_len - 1) / max_len)
                by (nonlinear_arith)
                requires
                    max_len > 0,
            ;
        }
    }
}

/// Copies the bytes of `data` from `start` up to `end`.
fn copy_range(data: &Vec<u8>, start: usize, end: usize) -> (out: Vec<u8>)
    requires
        start <= end <= data.len(),
    ensures
        out@ == data@.subrange(start as int, end as int),
{
    let mut out: Vec<u8> = Vec::new();
    let mut i: usize = start;
    while i < end
        invariant
            start <= i <= end <= data.len(),
            out@ == data@.subrange(start as int, i as int),
        decreases end - i,
    {
        out.push(data[i]);
        i = i + 1;
    }
    out
}

/// Cuts `data` into packets of at most `max_len` bytes, numbered from `first`
/// on. None of them closes the stream.
///
/// There is no result when the numbers run out: a packet's number must leave
/// room for one more packet after it.
pub fn frame(data: &Vec<u8>, first: u64, max_len: usize) -> (packets: Option<Vec<SequencedPacket>>)
    requires
        max_len > 0,
    ensures
        packets.is_some() <==> first + framed(data@, first as int, max_len as int).len()
            <= u64::MAX,
        packets matches Some(p) ==> p.deep_view() == framed(data@, first as int, max_len as int),
{
    let mut packets: Vec<SequencedPacket> = Vec::new();
    let mut start: usize = 0;
    let mut number: u64 = first;
    proof {
        assert(data@.skip(0) == data@);
        assert(packets.deep_view() == Seq::<SequencedPacketView>::empty());
    }
    while start < data.len()
        invariant
            max_len > 0,
            start <= data.len(),
            number == first + packets.len(),
            packets.deep_view() + framed(data@.skip(start as int), number as int, max_len as int)
                == framed(data@, first as int, max_len as int),
        decreases data.len() - start,
    {
        let remaining = data.len() - start;
        let n: usize = if remaining <= max_len {
            remaining
        } else {
            max_len
        };
        let ghost rest = data@.skip(start as int);
        let ghost before = packets.deep_view();
        proof {
            assert(n == first_cut(rest.len(), max_len as int));
            assert(rest.take(n as int) == data@.subrange(start as int, start + n));
            assert(rest.skip(n as int) == data@.skip(start + n));
        }
        if number == u64::MAX {
            return None;
        }
        let chunk = copy_range(data, start, start + n);
        let packet = SequencedPacket { data: chunk, sequence_number: number, last_data: false };
        packets.push(packet);
        proof {
            assert(packets.deep_view() == before.push(packet@));
            assert(before.push(packet@) + framed(rest.skip(n as int), number + 1, max_len as int)
                == before + framed(rest, number as int, max_len as int));
        }
        start = start + n;
        number = number + 1;
    }
    Some(packets)
}

} // verus!

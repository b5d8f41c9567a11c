//! Transport framing: a four-byte little-endian length, then the bytes, in both directions.
//!
//! The receive buffer is the untrusted edge: it never holds more than one frame of the largest
//! size, whatever the other side sends.
use crate::util::{
    append, le_bytes, le_value, lemma_le_bytes_len, lemma_le_value_of_bytes,
    lemma_le_value_of_four, lemma_pow256,
    length_le, u32_of_le, var_bytes,
};
use vstd::prelude::*;
use vstd::slice::{slice_subrange, slice_to_vec};

verus! {

/// The longest frame that is received: what the heap of the device can hold.
pub const MAX_RX_FRAME: usize = 8 * 1024;

/// The receive buffer after `chunk` has arrived: what would exceed the cap empties it.
pub open spec fn received_spec(rx: Seq<u8>, chunk: Seq<u8>) -> Seq<u8> {
    if rx.len() + chunk.len() > MAX_RX_FRAME + 4 {
        Seq::empty()
    } else {
        rx + chunk
    }
}

/// The first complete frame of a receive buffer, if there is one, and the buffer without it. A
/// length above the cap empties the buffer.
pub open spec fn next_frame_spec(rx: Seq<u8>) -> (Option<Seq<u8>>, Seq<u8>) {
    if rx.len() < 4 {
        (None, rx)
    } else {
        let n = le_value(rx.take(4)) as int;
        if n > MAX_RX_FRAME {
            (None, Seq::empty())
        } else if rx.len() < 4 + n {
            (None, rx)
        } else {
            (Some(rx.subrange(4, 4 + n)), rx.skip(4 + n))
        }
    }
}

/// All complete frames of a receive buffer, in order, and what is left of it.
pub open spec fn frames_spec(rx: Seq<u8>) -> (Seq<Seq<u8>>, Seq<u8>)
    decreases rx.len(),
{
    match next_frame_spec(rx) {
        (None, rest) => (Seq::empty(), rest),
        (Some(frame), rest) => if rest.len() < rx.len() {
            let more = frames_spec(rest);
            (seq![frame] + more.0, more.1)
        } else {
            (Seq::empty(), rest)
        },
    }
}

/// The bytes that are sent for a run of frames.
pub open spec fn sent_spec(frames: Seq<Seq<u8>>) -> Seq<u8>
    decreases frames.len(),
{
    if frames.len() == 0 {
        Seq::empty()
    } else {
        var_bytes(frames[0]) + sent_spec(frames.skip(1))
    }
}

/// A frame that is sent is received, whatever follows it.
pub proof fn lemma_next_frame(frame: Seq<u8>, rest: Seq<u8>)
    requires
        frame.len() <= MAX_RX_FRAME,
    ensures
        next_frame_spec(var_bytes(frame) + rest) == (Some(frame), rest),
{
    let rx = var_bytes(frame) + rest;
    lemma_le_bytes_len(frame.len(), 4);
    lemma_pow256();
    lemma_le_value_of_bytes(frame.len(), 4);
    assert(rx.take(4) =~= le_bytes(frame.len(), 4));
    assert(rx.subrange(4, 4 + frame.len() as int) =~= frame);
    assert(rx.skip(4 + frame.len() as int) =~= rest);
}

/// All frames that are sent are received in order, and what follows them is taken as it comes.
pub proof fn lemma_frames_round_trip(frames: Seq<Seq<u8>>, rest: Seq<u8>)
    requires
        forall|i: int| 0 <= i < frames.len() ==> (#[trigger] frames[i]).len() <= MAX_RX_FRAME,
    ensures
        frames_spec(sent_spec(frames) + rest) == (frames + frames_spec(rest).0, frames_spec(
            rest,
        ).1),
    decreases frames.len(),
{
    if frames.len() == 0 {
        assert(sent_spec(frames) + rest =~= rest);
        assert(frames + frames_spec(rest).0 =~= frames_spec(rest).0);
    } else {
        let tail = frames.skip(1);
        let after = sent_spec(tail) + rest;
        assert(sent_spec(frames) + rest =~= var_bytes(frames[0]) + after);
        lemma_le_bytes_len(frames[0].len(), 4);
        lemma_next_frame(frames[0], after);
        assert forall|i: int| 0 <= i < tail.len() implies (#[trigger] tail[i]).len()
            <= MAX_RX_FRAME by {
            assert(tail[i] == frames[i + 1]);
        }
        lemma_frames_round_trip(tail, rest);
        assert(seq![frames[0]] + (tail + frames_spec(rest).0) =~= frames + frames_spec(rest).0);
    }
}

/// How the bytes are cut into chunks does not matter, as long as they fit.
pub proof fn lemma_chunks_join(rx: Seq<u8>, first: Seq<u8>, second: Seq<u8>)
    requires
        rx.len() + first.len() + second.len() <= MAX_RX_FRAME + 4,
    ensures
        received_spec(received_spec(rx, first), second) == received_spec(rx, first + second),
{
    assert(rx + first + second =~= rx + (first + second));
}

/// The bytes to send for a frame.
pub fn frame_bytes(frame: &[u8]) -> (bytes: Vec<u8>)
    ensures
        bytes@ == var_bytes(frame@),
{
    let prefix: [u8; 4] = length_le(frame);
    let mut bytes: Vec<u8> = Vec::new();
    append(&mut bytes, prefix.as_slice());
    append(&mut bytes, frame);
    assert(bytes@ =~= var_bytes(frame@));
    bytes
}

/// What a transport says to a write.
#[derive(Clone, Copy, PartialEq, Eq, Debug, Structural)]
pub enum WriteReply {
    /// It took so many bytes.
    Took(usize),
    /// It is full for the moment.
    Full,
    /// It failed.
    Failed,
}

/// Where to go on writing `len` bytes of which `sent` were taken before the reply: behind what was
/// taken, or at the same place while the transport is full. Nowhere once all bytes were taken, or
/// after a failure.
pub open spec fn sent_after_spec(sent: usize, len: usize, reply: WriteReply) -> Option<usize> {
    let taken: int = match reply {
        WriteReply::Took(n) => sent + n,
        _ => sent as int,
    };
    if reply == WriteReply::Failed || taken >= len {
        None
    } else {
        Some(taken as usize)
    }
}

/// Where to go on writing after a reply.
pub fn sent_after(sent: usize, len: usize, reply: WriteReply) -> (next: Option<usize>)
    ensures
        next == sent_after_spec(sent, len, reply),
{
    let n: usize = match reply {
        WriteReply::Took(n) => n,
        WriteReply::Full => 0,
        WriteReply::Failed => {
            return None;
        },
    };
    if sent < len && n < len - sent {
        Some(sent + n)
    } else {
        None
    }
}

/// The receive buffer.
pub struct FrameBuffer {
    rx: Vec<u8>,
}

impl View for FrameBuffer {
    type V = Seq<u8>;

    closed spec fn view(&self) -> Seq<u8> {
        self.rx@
    }
}

impl FrameBuffer {
    /// The buffer holds no more than one frame of the largest size.
    pub open spec fn capped(&self) -> bool {
        self@.len() <= MAX_RX_FRAME + 4
    }

    /// An empty buffer.
    pub fn new() -> (buffer: Self)
        ensures
            buffer@ == Seq::<u8>::empty(),
            buffer.capped(),
    {
        FrameBuffer { rx: Vec::new() }
    }

    /// Takes in a chunk.
    pub fn receive(&mut self, chunk: &[u8])
        requires
            old(self).capped(),
        ensures
            final(self)@ == received_spec(old(self)@, chunk@),
            final(self).capped(),
    {
        if chunk.len() > MAX_RX_FRAME + 4 - self.rx.len() {
            self.rx.clear();
        } else {
            append(&mut self.rx, chunk);
        }
    }

    /// Takes the first complete frame out of the buffer.
    pub fn next_frame(&mut self) -> (frame: Option<Vec<u8>>)
        requires
            old(self).capped(),
        ensures
            match frame {
                Some(frame) => next_frame_spec(old(self)@) == (Some(frame@), final(self)@),
                None => next_frame_spec(old(self)@) == (None::<Seq<u8>>, final(self)@),
            },
            final(self).capped(),
    {
        if self.rx.len() < 4 {
            return None;
        }
        let n: u32 = u32_of_le(slice_subrange(self.rx.as_slice(), 0, 4));
        assert(self.rx@.subrange(0, 4) =~= self.rx@.take(4));
        if n > MAX_RX_FRAME as u32 {
            self.rx.clear();
            return None;
        }
        let end: usize = 4 + n as usize;
        if self.rx.len() < end {
            return None;
        }
        let frame: Vec<u8> = slice_to_vec(slice_subrange(self.rx.as_slice(), 4, end));
        let rest: Vec<u8> = slice_to_vec(slice_subrange(self.rx.as_slice(), end, self.rx.len()));
        assert(rest@ =~= self.rx@.skip(end as int));
        self.rx = rest;
        Some(frame)
    }
}

/// A chunk is kept behind what was received before if the two together have at most 8196 bytes;
/// otherwise both are dropped.
pub proof fn lemma_receive_in_full(rx: Seq<u8>, chunk: Seq<u8>)
    ensures
        rx.len() + chunk.len() <= 8196 ==> received_spec(rx, chunk).len() == rx.len() + chunk.len()
            && received_spec(rx, chunk).take(rx.len() as int) == rx && received_spec(
            rx,
            chunk,
        ).skip(rx.len() as int) == chunk,
        rx.len() + chunk.len() > 8196 ==> received_spec(rx, chunk).len() == 0,
{
    if rx.len() + chunk.len() <= 8196 {
        assert(received_spec(rx, chunk).take(rx.len() as int) =~= rx);
        assert(received_spec(rx, chunk).skip(rx.len() as int) =~= chunk);
    }
}

/// The first four bytes count what follows them, least significant first. A count above 8192
/// empties the buffer; a frame that is not complete leaves it as it is; a complete one is taken off
/// the front, and nothing else.
pub proof fn lemma_next_frame_in_full(rx: Seq<u8>)
    ensures
        ({
            let n = rx[0] + 0x100 * rx[1] + 0x1_0000 * rx[2] + 0x100_0000 * rx[3];
            let (frame, rest) = next_frame_spec(rx);
            &&& frame is Some <==> rx.len() >= 4 && n <= 8192 && rx.len() >= 4 + n
            &&& frame matches Some(f) ==> f.len() == n && rx == rx.take(4) + f + rest
            &&& rx.len() >= 4 && n > 8192 ==> rest.len() == 0
            &&& frame is None && !(rx.len() >= 4 && n > 8192) ==> rest == rx
        }),
{
    if rx.len() >= 4 {
        lemma_le_value_of_four(rx.take(4));
        if let (Some(f), rest) = next_frame_spec(rx) {
            assert(rx =~= rx.take(4) + f + rest);
        }
    }
}

/// While a frame is on its way, nothing is taken: what has arrived of it stays until the last byte
/// is there.
pub proof fn lemma_incomplete_frame_waits(frame: Seq<u8>, arrived: nat)
    requires
        frame.len() <= 8192,
        arrived < frame.len() + 4,
    ensures
        next_frame_spec(var_bytes(frame).take(arrived as int)) == (
            None::<Seq<u8>>,
            var_bytes(frame).take(arrived as int),
        ),
{
    let rx = var_bytes(frame).take(arrived as int);
    lemma_le_bytes_len(frame.len(), 4);
    if arrived >= 4 {
        lemma_pow256();
        lemma_le_value_of_bytes(frame.len(), 4);
        assert(rx.take(4) =~= le_bytes(frame.len(), 4));
    }
}

/// Frames are taken from the front: the first is the first complete frame, and the others are those
/// of the rest.
pub proof fn lemma_frames_in_order(rx: Seq<u8>)
    ensures
        match next_frame_spec(rx) {
            (None, rest) => frames_spec(rx).0.len() == 0 && frames_spec(rx).1 == rest,
            (Some(frame), rest) => {
                &&& frames_spec(rx).0.len() == 1 + frames_spec(rest).0.len()
                &&& frames_spec(rx).0.first() == frame
                &&& frames_spec(rx).0.skip(1) == frames_spec(rest).0
                &&& frames_spec(rx).1 == frames_spec(rest).1
            },
        },
{
    lemma_next_frame_in_full(rx);
    if let (Some(frame), rest) = next_frame_spec(rx) {
        assert(frames_spec(rx).0.skip(1) =~= frames_spec(rest).0);
    }
}

/// Writing goes on behind what was taken, at the same place while the transport is full, and stops
/// once all bytes were taken or the transport has failed.
pub proof fn lemma_writing_goes_on(sent: usize, len: usize, n: usize)
    ensures
        sent_after_spec(sent, len, WriteReply::Failed) is None,
        sent_after_spec(sent, len, WriteReply::Full) == if sent < len {
            Some(sent)
        } else {
            None
        },
        sent_after_spec(sent, len, WriteReply::Took(n)) is Some <==> sent + n < len,
        sent_after_spec(sent, len, WriteReply::Took(n)) matches Some(next) ==> next == sent + n,
{
}

} // verus!

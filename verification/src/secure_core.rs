//! The secure core, which owns the appliance and hence the chip, and the server that frames it.
//!
//! The transport reaches the appliance through `handle` alone.
use crate::appliance::{Active, Appliance, ApplianceView, Record, RecoverOutcome, Status};
use crate::framing::{
    frame_bytes, frames_spec, lemma_next_frame_in_full, next_frame_spec, received_spec, FrameBuffer,
};
use crate::proto::message::Message;
use crate::proto::{lemma_response_round_trip, message_of, pb};
use crate::service::{handle, handle_spec, holds_commit};
use crate::tropic::{Tropic, WitnessSig};
use crate::util::{le_bytes, lemma_le_bytes_len, lemma_var_bytes_layout, var_bytes};
use vstd::prelude::*;

verus! {

/// An appliance behind the request and response boundary.
pub struct SecureCore<T: Tropic, S: WitnessSig> {
    app: Appliance<T, S>,
}

impl<T: Tropic, S: WitnessSig> View for SecureCore<T, S> {
    type V = ApplianceView<T, S>;

    closed spec fn view(&self) -> ApplianceView<T, S> {
        self.app@
    }
}

/// What a core does with a frame: the appliance goes from `before` to `after`, and `out` are the
/// bytes of the response.
pub open spec fn handled<T: Tropic, S: WitnessSig>(
    before: ApplianceView<T, S>,
    frame: Seq<u8>,
    after: ApplianceView<T, S>,
    out: Seq<u8>,
) -> bool {
    exists|resp: pb::ApplianceResponseView|
        {
            &&& #[trigger] handle_spec(before, frame, after, resp)
            &&& out == pb::ApplianceResponse::encoded(resp)
        }
}

/// What a core does with a frame whose response is framed in turn: `bytes` are sent.
pub open spec fn framed<T: Tropic, S: WitnessSig>(
    before: ApplianceView<T, S>,
    frame: Seq<u8>,
    after: ApplianceView<T, S>,
    bytes: Seq<u8>,
) -> bool {
    exists|out: Seq<u8>|
        {
            &&& #[trigger] handled(before, frame, after, out)
            &&& bytes == var_bytes(out)
        }
}

impl<T: Tropic, S: WitnessSig> SecureCore<T, S> {
    /// A core whose appliance is ready at `active_root`, at index zero.
    pub fn new(tropic: T, h0: u32, active_root: [u8; 32], anchor_id: [u8; 32], slot: u16) -> (core:
        Self)
        ensures
            core@.h0 == h0,
            core@.anchor_id == anchor_id,
            core@.slot == slot,
            core@.active == (Active {
                root: active_root,
                u: 0,
                status: Status::Ready,
                record: Record::Empty,
            }),
            !core@.firmware_boundary_invalid,
            !core@.rmemory_map_invalid,
            core@.tropic == tropic,
            core@.key_usable(),
    {
        SecureCore { app: Appliance::new(tropic, h0, active_root, anchor_id, slot) }
    }

    /// Handles one request frame: the response frame.
    pub fn handle(&mut self, frame: &[u8]) -> (out: Vec<u8>)
        requires
            holds_commit(frame@) ==> old(self)@.key_usable(),
        ensures
            handled(old(self)@, frame@, final(self)@, out@),
            old(self)@.key_usable() ==> final(self)@.key_usable(),
    {
        handle(&mut self.app, frame)
    }

    /// Power-loss recovery, to be run before anything is served.
    pub fn recover(&mut self) -> (outcome: RecoverOutcome)
        ensures
            old(self)@.recover_spec(&final(self)@, outcome),
            old(self)@.key_usable() ==> final(self)@.key_usable(),
    {
        self.app.recover()
    }
}

/// A core and the receive buffer of its transport.
pub struct Server<T: Tropic, S: WitnessSig> {
    pub core: SecureCore<T, S>,
    pub rx: FrameBuffer,
}

impl<T: Tropic, S: WitnessSig> Server<T, S> {
    /// What serving the first complete frame does: the server goes to `after`, and `sent` are the
    /// bytes to send back.
    pub open spec fn responds(&self, after: &Self, sent: Option<Seq<u8>>) -> bool {
        match next_frame_spec(self.rx@) {
            (None, rest) => {
                &&& sent is None
                &&& after.rx@ == rest
                &&& after.core@ == self.core@
            },
            (Some(frame), rest) => {
                &&& after.rx@ == rest
                &&& sent matches Some(bytes) && framed(self.core@, frame, after.core@, bytes)
            },
        }
    }

    /// A server with nothing received.
    pub fn new(core: SecureCore<T, S>) -> (server: Self)
        ensures
            server.core@ == core@,
            server.rx@ == Seq::<u8>::empty(),
            server.rx.capped(),
    {
        Server { core, rx: FrameBuffer::new() }
    }

    /// Takes in a chunk from the transport.
    pub fn receive(&mut self, chunk: &[u8])
        requires
            old(self).rx.capped(),
        ensures
            final(self).core@ == old(self).core@,
            final(self).rx@ == received_spec(old(self).rx@, chunk@),
            final(self).rx.capped(),
    {
        self.rx.receive(chunk);
    }

    /// Serves the first complete frame that was received: the bytes to send back. To be called
    /// until there is none.
    pub fn respond(&mut self) -> (sent: Option<Vec<u8>>)
        requires
            old(self).rx.capped(),
            (next_frame_spec(old(self).rx@).0 matches Some(frame) && holds_commit(frame)) ==> old(
                self,
            ).core@.key_usable(),
        ensures
            old(self).responds(final(self), match sent {
                Some(bytes) => Some(bytes@),
                None => None,
            }),
            final(self).rx.capped(),
            old(self).core@.key_usable() ==> final(self).core@.key_usable(),
    {
        match self.rx.next_frame() {
            None => None,
            Some(frame) => {
                let out: Vec<u8> = self.core.handle(frame.as_slice());
                let bytes: Vec<u8> = frame_bytes(out.as_slice());
                assert(handled(old(self).core@, frame@, self.core@, out@));
                assert(framed(old(self).core@, frame@, self.core@, bytes@));
                Some(bytes)
            },
        }
    }
}

/// Calling `respond` until there is nothing to send serves exactly the complete frames that were
/// received, in order: `servers` are the states between the calls and `sent` what they returned.
pub proof fn lemma_respond_serves_all_frames<T: Tropic, S: WitnessSig>(
    servers: Seq<Server<T, S>>,
    sent: Seq<Seq<u8>>,
)
    requires
        servers.len() == sent.len() + 2,
        forall|i: int|
            0 <= i < sent.len() ==> servers[i].responds(&servers[i + 1], Some(#[trigger] sent[i])),
        servers[sent.len() as int].responds(&servers[sent.len() as int + 1], None),
    ensures
        sent.len() == frames_spec(servers[0].rx@).0.len(),
        forall|i: int|
            0 <= i < sent.len() ==> framed(
                servers[i].core@,
                frames_spec(servers[0].rx@).0[i],
                servers[i + 1].core@,
                #[trigger] sent[i],
            ),
        servers.last().core@ == servers[sent.len() as int].core@,
        servers.last().rx@ == frames_spec(servers[0].rx@).1,
    decreases sent.len(),
{
    if sent.len() > 0 {
        assert(servers[0].responds(&servers[1], Some(sent[0])));
        let servers1 = servers.skip(1);
        let sent1 = sent.skip(1);
        assert forall|i: int| 0 <= i < sent1.len() implies servers1[i].responds(
            &servers1[i + 1],
            Some(#[trigger] sent1[i]),
        ) by {
            assert(sent1[i] == sent[i + 1]);
        }
        lemma_respond_serves_all_frames(servers1, sent1);
        let frames = frames_spec(servers[0].rx@).0;
        let frames1 = frames_spec(servers1[0].rx@).0;
        assert(frames =~= seq![frames[0]] + frames1);
        assert forall|i: int| 0 <= i < sent.len() implies framed(
            servers[i].core@,
            frames[i],
            servers[i + 1].core@,
            #[trigger] sent[i],
        ) by {
            if i > 0 {
                assert(sent1[i - 1] == sent[i]);
                assert(frames1[i - 1] == frames[i]);
            }
        }
    }
}

/// What a core sends back for a frame are the bytes of a response that can be read, and that is the
/// answer of the appliance's own handling of the frame.
pub proof fn lemma_response_can_be_read<T: Tropic, S: WitnessSig>(
    before: ApplianceView<T, S>,
    frame: Seq<u8>,
    after: ApplianceView<T, S>,
    out: Seq<u8>,
)
    requires
        handled(before, frame, after, out),
        out.len() <= u64::MAX,
    ensures
        message_of::<pb::ApplianceResponse>(out) matches Some(resp) && handle_spec(
            before,
            frame,
            after,
            resp,
        ),
{
    let resp = choose|resp: pb::ApplianceResponseView|
        {
            &&& #[trigger] handle_spec(before, frame, after, resp)
            &&& out == pb::ApplianceResponse::encoded(resp)
        };
    lemma_response_round_trip(resp);
}

/// What a server sends for a complete frame is the response behind its length, in four bytes, and
/// the frame is off the buffer. Without a complete frame nothing is sent and the core is not asked.
pub proof fn lemma_respond_in_full<T: Tropic, S: WitnessSig>(
    before: Server<T, S>,
    after: Server<T, S>,
    sent: Option<Seq<u8>>,
)
    requires
        before.responds(&after, sent),
    ensures
        ({
            let rx = before.rx@;
            let n = rx[0] + 0x100 * rx[1] + 0x1_0000 * rx[2] + 0x100_0000 * rx[3];
            let complete = rx.len() >= 4 && n <= 8192 && rx.len() >= 4 + n;
            &&& sent is Some <==> complete
            &&& !complete ==> after.core@ == before.core@
            &&& !complete ==> after.rx@ == if rx.len() >= 4 && n > 8192 {
                Seq::empty()
            } else {
                rx
            }
            &&& complete ==> after.rx@ == rx.skip(4 + n)
            &&& sent matches Some(bytes) ==> {
                &&& bytes.len() >= 4
                &&& bytes.take(4) == le_bytes((bytes.len() - 4) as nat, 4)
                &&& handled(
                    before.core@,
                    rx.subrange(4, 4 + n),
                    after.core@,
                    bytes.skip(4),
                )
            }
        }),
{
    let rx = before.rx@;
    lemma_next_frame_in_full(rx);
    if let (Some(frame), rest) = next_frame_spec(rx) {
        let bytes = sent->0;
        let out = choose|out: Seq<u8>|
            {
                &&& #[trigger] handled(before.core@, frame, after.core@, out)
                &&& bytes == var_bytes(out)
            };
        lemma_var_bytes_layout(out);
        assert(bytes.take(4) =~= le_bytes(out.len(), 4)) by {
            lemma_le_bytes_len(out.len(), 4);
        }
        assert(frame =~= rx.subrange(4, 4 + frame.len() as int));
        assert(rest =~= rx.skip(4 + frame.len() as int));
    } else if rx.len() < 4 {
    } else {
        assert(after.rx@ =~= next_frame_spec(rx).1);
    }
}

} // verus!

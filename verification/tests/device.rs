//! What a device needs around the appliance: framing, the server, the self-test, the log line.
use anchor_core::appliance::RecoverOutcome;
use anchor_core::framing::{frame_bytes, sent_after, FrameBuffer, WriteReply, MAX_RX_FRAME};
use anchor_core::hash::kdf;
use anchor_core::line::{recover_line, LineBuffer, LINE_LEN};
use anchor_core::proto::{decode_response, encode_request, pb};
use anchor_core::secure_core::{SecureCore, Server};
use anchor_core::self_test::{
    bare_request, filled, prepare_request, repeated, report, rt, self_test, verified, SelfTest,
    ANCHOR, ENROLL_H0, GENESIS, NEXT_ROOT,
};
use anchor_core::service::err;
use anchor_core::sig::WotsBlake3;
use anchor_core::tropic::{Tropic, TropicError};

struct Chip {
    h: u32,
    alive: bool,
}

impl Tropic for Chip {
    fn mac_and_destroy(&mut self, q: u16, x: &[u8; 32]) -> Result<[u8; 32], TropicError> {
        if self.alive {
            Ok(kdf(&[0xC0; 32], "test/macandd", &[&q.to_le_bytes(), x]))
        } else {
            Err(TropicError::Comm)
        }
    }

    fn counter_get(&mut self) -> Result<u32, TropicError> {
        Ok(self.h)
    }

    fn counter_update(&mut self) -> Result<(), TropicError> {
        if self.h == 0 {
            return Err(TropicError::CounterExhausted);
        }
        self.h -= 1;
        Ok(())
    }
}

fn secure_core(alive: bool) -> SecureCore<Chip, WotsBlake3> {
    let chip = Chip { h: ENROLL_H0, alive };
    SecureCore::new(chip, ENROLL_H0, filled(GENESIS), filled(ANCHOR), 5)
}

#[test]
fn frames_have_a_length_in_front() {
    assert_eq!(frame_bytes(&[7, 8, 9]), vec![3, 0, 0, 0, 7, 8, 9]);
    assert_eq!(frame_bytes(&[]), vec![0, 0, 0, 0]);
}

#[test]
fn frames_come_out_however_they_are_cut() {
    let mut sent = frame_bytes(&[1, 2, 3]);
    sent.extend_from_slice(&frame_bytes(&[]));
    sent.extend_from_slice(&frame_bytes(&[4; 300]));
    for size in [1, 2, 5, 64, 1000] {
        let mut rx = FrameBuffer::new();
        let mut got: Vec<Vec<u8>> = Vec::new();
        for chunk in sent.chunks(size) {
            rx.receive(chunk);
            while let Some(frame) = rx.next_frame() {
                got.push(frame);
            }
        }
        assert_eq!(got, vec![vec![1, 2, 3], vec![], vec![4; 300]]);
    }
}

#[test]
fn the_largest_frame_fits_and_no_larger() {
    let mut rx = FrameBuffer::new();
    rx.receive(&frame_bytes(&vec![5; MAX_RX_FRAME]));
    assert_eq!(rx.next_frame().unwrap().len(), MAX_RX_FRAME);

    // more than the cap empties the buffer
    let mut rx = FrameBuffer::new();
    rx.receive(&[9]);
    rx.receive(&vec![0; MAX_RX_FRAME + 4]);
    assert!(rx.next_frame().is_none());
    rx.receive(&frame_bytes(&[6]));
    assert_eq!(rx.next_frame(), Some(vec![6]));

    // a length above the cap empties the buffer
    let mut rx = FrameBuffer::new();
    rx.receive(&((MAX_RX_FRAME as u32) + 1).to_le_bytes());
    rx.receive(&[1, 2]);
    assert!(rx.next_frame().is_none());
    rx.receive(&frame_bytes(&[7]));
    assert_eq!(rx.next_frame(), Some(vec![7]));
}

#[test]
fn the_server_answers_every_complete_frame() {
    let mut server = Server::new(secure_core(true));
    let status = encode_request(&bare_request(pb::Op::Status));
    let mut sent = frame_bytes(&status);
    sent.extend_from_slice(&frame_bytes(&[0xFF]));
    sent.extend_from_slice(&frame_bytes(&status)[..3]);
    server.receive(&sent);

    let first = server.respond().unwrap();
    let body = first[4..].to_vec();
    assert_eq!(frame_bytes(&body), first);
    let resp = decode_response(&body).unwrap();
    assert!(resp.ok);
    assert_eq!(resp.active_root, vec![GENESIS; 32]);

    let second = server.respond().unwrap();
    let resp = decode_response(&second[4..]).unwrap();
    assert!(!resp.ok);
    assert_eq!(resp.error, err::BAD_PROTO);

    assert!(server.respond().is_none());
    server.receive(&frame_bytes(&status)[3..]);
    assert!(server.respond().is_some());
}

#[test]
fn the_self_test_passes_on_a_working_chip() {
    let mut c = secure_core(true);
    let found = self_test(&mut c).unwrap();
    let expected = SelfTest {
        ops_ok: true,
        pk_len: 32,
        sig_len: 67 * 32,
        st_index: 1,
        st_status: 0,
        verify_ok: true,
        frontier_match: true,
    };
    assert_eq!(found, expected);
    assert!(found.passed());
    // it starts from the first root, so it does not pass twice
    let again = self_test(&mut c).unwrap();
    assert!(!again.passed());
    assert_eq!(again.st_index, 1);
}

#[test]
fn the_self_test_fails_on_a_dead_chip() {
    let found = self_test(&mut secure_core(false)).unwrap();
    let expected = SelfTest {
        ops_ok: false,
        pk_len: 0,
        sig_len: 0,
        st_index: 0,
        st_status: 0,
        verify_ok: false,
        frontier_match: false,
    };
    assert_eq!(found, expected);
    assert!(!found.passed());
}

#[test]
fn each_finding_is_needed_to_pass() {
    let good = SelfTest {
        ops_ok: true,
        pk_len: 32,
        sig_len: 2144,
        st_index: 1,
        st_status: 0,
        verify_ok: true,
        frontier_match: true,
    };
    assert!(good.passed());
    assert!(!SelfTest { ops_ok: false, ..good }.passed());
    assert!(!SelfTest { pk_len: 31, ..good }.passed());
    assert!(!SelfTest { sig_len: 0, ..good }.passed());
    assert!(!SelfTest { st_index: 0, ..good }.passed());
    assert!(!SelfTest { st_status: 2, ..good }.passed());
    assert!(!SelfTest { verify_ok: false, ..good }.passed());
    assert!(!SelfTest { frontier_match: false, ..good }.passed());
}

#[test]
fn the_report_reads_the_responses() {
    let ok = pb::ApplianceResponse { ok: true, ..Default::default() };
    let fin = pb::ApplianceResponse { active_root: repeated(NEXT_ROOT, 32), ..ok.clone() };
    let st = pb::ApplianceResponse { active_index: 8, status: 2, ..ok.clone() };
    let found = report(&ok, &ok, &ok, &fin, &st);
    assert!(found.ops_ok && found.frontier_match && !found.verify_ok);
    assert_eq!((found.pk_len, found.sig_len), (0, 0));
    assert_eq!((found.st_index, found.st_status), (8, 2));
    let bad = pb::ApplianceResponse::default();
    assert!(!report(&ok, &bad, &ok, &fin, &st).ops_ok);
    assert!(!report(&ok, &ok, &ok, &bad, &st).frontier_match);
}

#[test]
fn a_tampered_release_is_not_verified() {
    let mut c = secure_core(true);
    assert!(rt(&mut c, &prepare_request()).unwrap().ok);
    assert!(rt(&mut c, &bare_request(pb::Op::Commit)).unwrap().ok);
    let emitted = rt(&mut c, &bare_request(pb::Op::Emit)).unwrap().release;
    assert!(verified(&emitted));
    assert!(!verified(&None));
    let mut tampered = emitted.clone();
    if let Some(rel) = &mut tampered {
        if let Some(t) = &mut rel.transition {
            t.action_fields.push(1);
        }
    }
    assert!(!verified(&tampered));
}

#[test]
fn a_line_takes_what_fits() {
    let mut line = LineBuffer::new();
    assert!(line.as_bytes().is_empty());
    line.write(b"abc");
    line.write(b"de");
    assert_eq!(line.as_bytes(), b"abcde");
    line.write(&[b'x'; LINE_LEN]);
    assert_eq!(line.as_bytes().len(), LINE_LEN);
    assert_eq!(&line.as_bytes()[..6], b"abcdex");
    line.write(b"y");
    assert_eq!(line.as_bytes().len(), LINE_LEN);
    assert!(!line.as_bytes().contains(&b'y'));
}

#[test]
fn writing_goes_on_until_all_is_taken() {
    assert_eq!(sent_after(0, 0, WriteReply::Full), None);
    assert_eq!(sent_after(0, 10, WriteReply::Full), Some(0));
    assert_eq!(sent_after(0, 10, WriteReply::Took(4)), Some(4));
    assert_eq!(sent_after(4, 10, WriteReply::Took(0)), Some(4));
    assert_eq!(sent_after(4, 10, WriteReply::Full), Some(4));
    assert_eq!(sent_after(4, 10, WriteReply::Took(6)), None);
    assert_eq!(sent_after(4, 10, WriteReply::Took(usize::MAX)), None);
    assert_eq!(sent_after(4, 10, WriteReply::Failed), None);
    assert_eq!(sent_after(12, 10, WriteReply::Full), None);
}

#[test]
fn recoveries_have_their_lines() {
    let root = [7; 32];
    let lines = [
        (RecoverOutcome::Accept(root), "[T6] recover: Accept (ready)\r\n"),
        (RecoverOutcome::ReemitCommitted(root), "[T6] recover: ReemitCommitted\r\n"),
        (RecoverOutcome::DowngradeOnline, "[T6] recover: DowngradeOnline\r\n"),
        (RecoverOutcome::FailClosed, "[T6] recover: FailClosed\r\n"),
        (RecoverOutcome::ExhaustedOnlineOnly, "[T6] recover: ExhaustedOnlineOnly\r\n"),
        (RecoverOutcome::AcceptPreparedCanComplete, "[T6] recover: PreparedCanComplete\r\n"),
        (RecoverOutcome::OnlineCancelOrResolve, "[T6] recover: OnlineCancelOrResolve\r\n"),
    ];
    for (outcome, line) in lines {
        assert_eq!(recover_line(outcome), line);
    }
}

//! The device's log: a bounded buffer for one line, and the line that reports a recovery.
use crate::appliance::RecoverOutcome;
use crate::util::append;
use vstd::prelude::*;
use vstd::slice::slice_subrange;
use vstd::string::*;

verus! {

/// The longest line.
pub const LINE_LEN: usize = 224;

/// A line after `bytes` were written to it: what does not fit is dropped.
pub open spec fn written_spec(line: Seq<u8>, bytes: Seq<u8>) -> Seq<u8> {
    let room = LINE_LEN - line.len();
    if bytes.len() <= room {
        line + bytes
    } else {
        line + bytes.take(room)
    }
}

/// One line of the log.
pub struct LineBuffer {
    line: Vec<u8>,
}

impl View for LineBuffer {
    type V = Seq<u8>;

    closed spec fn view(&self) -> Seq<u8> {
        self.line@
    }
}

impl LineBuffer {
    /// The line is within its length.
    pub open spec fn wf(&self) -> bool {
        self@.len() <= LINE_LEN
    }

    /// An empty line.
    pub fn new() -> (line: Self)
        ensures
            line@ == Seq::<u8>::empty(),
            line.wf(),
    {
        LineBuffer { line: Vec::new() }
    }

    /// Writes as much of `bytes` as fits.
    pub fn write(&mut self, bytes: &[u8])
        requires
            old(self).wf(),
        ensures
            final(self)@ == written_spec(old(self)@, bytes@),
            final(self).wf(),
    {
        let room: usize = LINE_LEN - self.line.len();
        if bytes.len() <= room {
            append(&mut self.line, bytes);
        } else {
            let front: &[u8] = slice_subrange(bytes, 0, room);
            assert(front@ =~= bytes@.take(room as int));
            append(&mut self.line, front);
        }
    }

    /// What was written.
    pub fn as_bytes(&self) -> (bytes: &[u8])
        ensures
            bytes@ == self@,
    {
        self.line.as_slice()
    }
}

/// The log line of a recovery.
pub open spec fn recover_line_spec(outcome: RecoverOutcome) -> &'static str {
    match outcome {
        RecoverOutcome::Accept(_) => "[T6] recover: Accept (ready)\r\n",
        RecoverOutcome::ReemitCommitted(_) => "[T6] recover: ReemitCommitted\r\n",
        RecoverOutcome::DowngradeOnline => "[T6] recover: DowngradeOnline\r\n",
        RecoverOutcome::FailClosed => "[T6] recover: FailClosed\r\n",
        RecoverOutcome::ExhaustedOnlineOnly => "[T6] recover: ExhaustedOnlineOnly\r\n",
        RecoverOutcome::AcceptPreparedCanComplete => "[T6] recover: PreparedCanComplete\r\n",
        RecoverOutcome::OnlineCancelOrResolve => "[T6] recover: OnlineCancelOrResolve\r\n",
    }
}

/// The log line of a recovery.
pub fn recover_line(outcome: RecoverOutcome) -> (line: &'static str)
    ensures
        line == recover_line_spec(outcome),
{
    match outcome {
        RecoverOutcome::Accept(_) => "[T6] recover: Accept (ready)\r\n",
        RecoverOutcome::ReemitCommitted(_) => "[T6] recover: ReemitCommitted\r\n",
        RecoverOutcome::DowngradeOnline => "[T6] recover: DowngradeOnline\r\n",
        RecoverOutcome::FailClosed => "[T6] recover: FailClosed\r\n",
        RecoverOutcome::ExhaustedOnlineOnly => "[T6] recover: ExhaustedOnlineOnly\r\n",
        RecoverOutcome::AcceptPreparedCanComplete => "[T6] recover: PreparedCanComplete\r\n",
        RecoverOutcome::OnlineCancelOrResolve => "[T6] recover: OnlineCancelOrResolve\r\n",
    }
}

/// Writing in pieces is writing at once: only the length of the whole decides what is dropped.
pub proof fn lemma_pieces_join(line: Seq<u8>, first: Seq<u8>, second: Seq<u8>)
    requires
        line.len() <= LINE_LEN,
    ensures
        written_spec(written_spec(line, first), second) == written_spec(line, first + second),
{
    assert(written_spec(written_spec(line, first), second) =~= written_spec(line, first + second));
}

/// What a line holds after a write is the beginning of all that was written to it, up to 224 bytes.
pub proof fn lemma_line_is_a_beginning(line: Seq<u8>, bytes: Seq<u8>)
    requires
        line.len() <= 224,
    ensures
        written_spec(line, bytes).len() == if line.len() + bytes.len() <= 224 {
            line.len() + bytes.len()
        } else {
            224
        },
        forall|i: int|
            0 <= i < written_spec(line, bytes).len() ==> #[trigger] written_spec(line, bytes)[i]
                == (line + bytes)[i],
{
}

/// Recoveries with different outcomes are logged with different lines.
pub proof fn lemma_recover_lines_differ(a: RecoverOutcome, b: RecoverOutcome)
    requires
        recover_line_spec(a)@ == recover_line_spec(b)@,
    ensures
        a is Accept <==> b is Accept,
        a is ReemitCommitted <==> b is ReemitCommitted,
        a is DowngradeOnline <==> b is DowngradeOnline,
        a is FailClosed <==> b is FailClosed,
        a is ExhaustedOnlineOnly <==> b is ExhaustedOnlineOnly,
        a is AcceptPreparedCanComplete <==> b is AcceptPreparedCanComplete,
        a is OnlineCancelOrResolve <==> b is OnlineCancelOrResolve,
{
    reveal_strlit("[T6] recover: Accept (ready)\r\n");
    reveal_strlit("[T6] recover: ReemitCommitted\r\n");
    reveal_strlit("[T6] recover: DowngradeOnline\r\n");
    reveal_strlit("[T6] recover: FailClosed\r\n");
    reveal_strlit("[T6] recover: ExhaustedOnlineOnly\r\n");
    reveal_strlit("[T6] recover: PreparedCanComplete\r\n");
    reveal_strlit("[T6] recover: OnlineCancelOrResolve\r\n");
    assert forall|o: RecoverOutcome| #![trigger recover_line_spec(o)]
        {
            &&& o is Accept <==> recover_line_spec(o)@[14] == 'A'
            &&& o is ReemitCommitted <==> recover_line_spec(o)@[14] == 'R'
            &&& o is DowngradeOnline <==> recover_line_spec(o)@[14] == 'D'
            &&& o is FailClosed <==> recover_line_spec(o)@[14] == 'F'
            &&& o is ExhaustedOnlineOnly <==> recover_line_spec(o)@[14] == 'E'
            &&& o is AcceptPreparedCanComplete <==> recover_line_spec(o)@[14] == 'P'
        } by {}
}

/// The line names the outcome behind a common beginning of 14 characters.
pub proof fn lemma_recover_line_names_the_outcome(outcome: RecoverOutcome)
    ensures
        recover_line_spec(outcome)@ == "[T6] recover: "@ + (match outcome {
            RecoverOutcome::Accept(_) => "Accept (ready)\r\n"@,
            RecoverOutcome::ReemitCommitted(_) => "ReemitCommitted\r\n"@,
            RecoverOutcome::DowngradeOnline => "DowngradeOnline\r\n"@,
            RecoverOutcome::FailClosed => "FailClosed\r\n"@,
            RecoverOutcome::ExhaustedOnlineOnly => "ExhaustedOnlineOnly\r\n"@,
            RecoverOutcome::AcceptPreparedCanComplete => "PreparedCanComplete\r\n"@,
            RecoverOutcome::OnlineCancelOrResolve => "OnlineCancelOrResolve\r\n"@,
        }),
{
    reveal_strlit("[T6] recover: ");
    reveal_strlit("Accept (ready)\r\n");
    reveal_strlit("ReemitCommitted\r\n");
    reveal_strlit("DowngradeOnline\r\n");
    reveal_strlit("FailClosed\r\n");
    reveal_strlit("ExhaustedOnlineOnly\r\n");
    reveal_strlit("PreparedCanComplete\r\n");
    reveal_strlit("OnlineCancelOrResolve\r\n");
    reveal_strlit("[T6] recover: Accept (ready)\r\n");
    reveal_strlit("[T6] recover: ReemitCommitted\r\n");
    reveal_strlit("[T6] recover: DowngradeOnline\r\n");
    reveal_strlit("[T6] recover: FailClosed\r\n");
    reveal_strlit("[T6] recover: ExhaustedOnlineOnly\r\n");
    reveal_strlit("[T6] recover: PreparedCanComplete\r\n");
    reveal_strlit("[T6] recover: OnlineCancelOrResolve\r\n");
}

} // verus!

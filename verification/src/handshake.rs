//! The replica's side of the replication handshake.
//!
//! A replica sends `PING`, `REPLCONF listening-port <port>`,
//! `REPLCONF capa psync2` and `PSYNC ? -1`, each after the reply to the one
//! before. The master answers the last with `+FULLRESYNC ...` and a
//! snapshot. A [`Handshake`] does no I/O: the caller sends what it is given
//! and hands back what it reads.
use vstd::prelude::*;
use vstd::slice::{slice_subrange, slice_to_vec};
use vstd::string::StringExecFns;
use vstd::utf8::encode_utf8;
use crate::parser::{read_number, scan_number, Scan, Step, MAX_BULK_LEN};
use crate::wire::{
    array_header, begins_with, bulk_bytes, bulk_string, command_frame, decimal,
    encode_command, push_bulk_bytes, push_bytes, push_crlf, push_decimal, starts_with, CR, DOLLAR,
    LF, PLUS, STAR,
};

verus! {

/// The longest reply line that the handshake reads, in bytes.
pub const MAX_LINE_LEN: usize = 65536;

/// Where a handshake stands: which reply it waits for, or how it ended.
#[derive(Debug, Clone, Copy, PartialEq, Eq, Structural)]
pub enum HandshakeStage {
    /// `PING` is sent.
    AwaitPong,
    /// `REPLCONF listening-port` is sent.
    AwaitPortAck,
    /// `REPLCONF capa` is sent.
    AwaitCapaAck,
    /// `PSYNC` is sent.
    AwaitFullResync,
    /// The master has acknowledged the resynchronisation; the snapshot is
    /// still to come.
    AwaitSnapshot,
    /// The snapshot is in: what follows on the connection are propagated
    /// commands.
    Established,
    /// The master gave an answer that the handshake does not allow for, or
    /// closed the connection.
    Failed,
}

/// What the caller is to do next.
#[derive(Debug)]
pub enum HandshakeStep {
    /// Send these bytes to the master, then read.
    Send(Vec<u8>),
    /// Read more.
    Wait,
    /// The handshake is done. `snapshot` is what the master sent as its
    /// dataset; `rest` are the bytes read after it, the beginning of the
    /// stream of propagated commands.
    Established { snapshot: Vec<u8>, rest: Vec<u8> },
    /// Give up: the handshake has failed.
    Failed,
}

/// The mathematical content of a [`HandshakeStep`].
pub enum HandshakeStepView {
    Send(Seq<u8>),
    Wait,
    Established { snapshot: Seq<u8>, rest: Seq<u8> },
    Failed,
}

impl View for HandshakeStep {
    type V = HandshakeStepView;

    open spec fn view(&self) -> HandshakeStepView {
        match self {
            HandshakeStep::Send(bytes) => HandshakeStepView::Send(bytes@),
            HandshakeStep::Wait => HandshakeStepView::Wait,
            HandshakeStep::Established { snapshot, rest } => HandshakeStepView::Established {
                snapshot: snapshot@,
                rest: rest@,
            },
            HandshakeStep::Failed => HandshakeStepView::Failed,
        }
    }
}

/// The state of a handshake.
pub struct Handshake {
    stage: HandshakeStage,
    pending: Vec<u8>,
    port: u16,
}

/// The mathematical content of a [`Handshake`].
pub struct HandshakeView {
    /// Where the handshake stands.
    pub stage: HandshakeStage,
    /// The bytes read that belong to no reply taken in so far.
    pub pending: Seq<u8>,
    /// The port on which the replica itself listens.
    pub port: u16,
}

/// What a read leads to: the step for the caller, and the handshake
/// afterwards.
pub struct HandshakeProgress {
    pub step: HandshakeStepView,
    pub stage: HandshakeStage,
    pub pending: Seq<u8>,
}

/// `PING`.
pub open spec fn ping_request() -> Seq<u8> {
    command_frame("PING"@, Seq::empty())
}

/// `REPLCONF listening-port <port>`.
pub open spec fn listening_port_request(port: u16) -> Seq<u8> {
    array_header(3) + bulk_string("REPLCONF"@) + bulk_string("listening-port"@) + bulk_bytes(
        decimal(port as nat),
    )
}

/// `REPLCONF capa psync2`.
pub open spec fn capabilities_request() -> Seq<u8> {
    command_frame("REPLCONF"@, seq!["capa"@, "psync2"@])
}

/// `PSYNC ? -1`: the request for a full resynchronisation.
pub open spec fn psync_request() -> Seq<u8> {
    command_frame("PSYNC"@, seq!["?"@, "-1"@])
}

/// The number of bytes at the front of `s` that end no line.
pub open spec fn line_run(s: Seq<u8>) -> nat
    decreases s.len(),
{
    if s.len() > 0 && s[0] != CR && s[0] != LF {
        1 + line_run(s.drop_first())
    } else {
        0
    }
}

/// Scans one simple string, `+<text>\r\n`, and gives its text. The text
/// holds no line terminator and at most [`MAX_LINE_LEN`] bytes.
pub open spec fn scan_simple_string(s: Seq<u8>) -> Scan<Seq<u8>> {
    if s.len() == 0 {
        Scan::Incomplete
    } else if s[0] != PLUS {
        Scan::Malformed
    } else {
        let text = s.skip(1);
        let run = line_run(text);
        if run > MAX_LINE_LEN {
            Scan::Malformed
        } else if text.len() == run {
            Scan::Incomplete
        } else if text[run as int] != CR {
            Scan::Malformed
        } else if text.len() == run + 1 {
            Scan::Incomplete
        } else if text[run as int + 1] != LF {
            Scan::Malformed
        } else {
            Scan::Done { value: text.take(run as int), used: run + 3 }
        }
    }
}

/// Scans a snapshot: `$<len>\r\n` and `len` bytes, with no line terminator
/// after them.
pub open spec fn scan_snapshot(s: Seq<u8>) -> Scan<Seq<u8>> {
    if s.len() == 0 {
        Scan::Incomplete
    } else if s[0] != DOLLAR {
        Scan::Malformed
    } else {
        match scan_number(s.skip(1), MAX_BULK_LEN as nat) {
            Scan::Done { value: len, used } => {
                let start = 1 + used;
                if s.len() < start + len {
                    Scan::Incomplete
                } else {
                    Scan::Done {
                        value: s.subrange(start as int, start as int + len as int),
                        used: start + len,
                    }
                }
            },
            Scan::Incomplete => Scan::Incomplete,
            Scan::Malformed => Scan::Malformed,
        }
    }
}

/// A handshake that has failed.
pub open spec fn failure() -> HandshakeProgress {
    HandshakeProgress {
        step: HandshakeStepView::Failed,
        stage: HandshakeStage::Failed,
        pending: Seq::empty(),
    }
}

/// What the pending bytes lead to once the master has acknowledged the
/// resynchronisation: the handshake is done when the snapshot is complete.
pub open spec fn snapshot_progress(pending: Seq<u8>) -> HandshakeProgress {
    match scan_snapshot(pending) {
        Scan::Done { value, used } => HandshakeProgress {
            step: HandshakeStepView::Established {
                snapshot: value,
                rest: pending.skip(used as int),
            },
            stage: HandshakeStage::Established,
            pending: Seq::empty(),
        },
        Scan::Incomplete => HandshakeProgress {
            step: HandshakeStepView::Wait,
            stage: HandshakeStage::AwaitSnapshot,
            pending,
        },
        Scan::Malformed => failure(),
    }
}

/// What the pending bytes lead to while a reply is awaited.
///
/// Every reply must be a simple string. The replies to `PING` and to
/// `REPLCONF` are taken whatever they say, and the next request is sent; the
/// reply to `PSYNC` must begin with `FULLRESYNC `, and the snapshot follows
/// it.
pub open spec fn reply_progress(stage: HandshakeStage, pending: Seq<u8>, port: u16) -> HandshakeProgress {
    if stage == HandshakeStage::AwaitSnapshot {
        snapshot_progress(pending)
    } else {
        match scan_simple_string(pending) {
            Scan::Done { value: line, used } => {
                let rest = pending.skip(used as int);
                match stage {
                    HandshakeStage::AwaitPong => HandshakeProgress {
                        step: HandshakeStepView::Send(listening_port_request(port)),
                        stage: HandshakeStage::AwaitPortAck,
                        pending: rest,
                    },
                    HandshakeStage::AwaitPortAck => HandshakeProgress {
                        step: HandshakeStepView::Send(capabilities_request()),
                        stage: HandshakeStage::AwaitCapaAck,
                        pending: rest,
                    },
                    HandshakeStage::AwaitCapaAck => HandshakeProgress {
                        step: HandshakeStepView::Send(psync_request()),
                        stage: HandshakeStage::AwaitFullResync,
                        pending: rest,
                    },
                    _ => if begins_with(line, encode_utf8("FULLRESYNC "@)) {
                        snapshot_progress(rest)
                    } else {
                        failure()
                    },
                }
            },
            Scan::Incomplete => HandshakeProgress {
                step: HandshakeStepView::Wait,
                stage,
                pending,
            },
            Scan::Malformed => failure(),
        }
    }
}

/// What a read of `bytes` leads to.
///
/// A handshake that is done ignores what is read. One that has failed
/// stays failed, and a read of no bytes, the end of the stream, makes any
/// other fail. Otherwise the bytes are added to the pending ones and the
/// awaited reply is looked for among them.
pub open spec fn receive_progress(handshake: HandshakeView, bytes: Seq<u8>) -> HandshakeProgress {
    if handshake.stage == HandshakeStage::Established {
        HandshakeProgress {
            step: HandshakeStepView::Wait,
            stage: handshake.stage,
            pending: handshake.pending,
        }
    } else if handshake.stage == HandshakeStage::Failed || bytes.len() == 0 {
        failure()
    } else {
        reply_progress(handshake.stage, handshake.pending + bytes, handshake.port)
    }
}

/// A run of `k` bytes that end no line, followed by the end of `s` or by a
/// byte that ends a line, is the line run of `s`.
proof fn lemma_line_run_is(s: Seq<u8>, k: nat)
    requires
        k <= s.len(),
        forall|j: int| 0 <= j < k ==> #[trigger] s[j] != CR && s[j] != LF,
        k < s.len() ==> s[k as int] == CR || s[k as int] == LF,
    ensures
        line_run(s) == k,
    decreases k,
{
    if k > 0 {
        let rest = s.drop_first();
        assert forall|j: int| 0 <= j < k - 1 implies #[trigger] rest[j] != CR && rest[j] != LF by {
            assert(rest[j] == s[j + 1]);
        }
        if k < s.len() {
            assert(rest[k - 1] == s[k as int]);
        }
        lemma_line_run_is(rest, (k - 1) as nat);
    }
}

/// The line run of `s` is at least as long as any run of bytes at its front
/// that end no line.
proof fn lemma_line_run_at_least(s: Seq<u8>, k: nat)
    requires
        k <= s.len(),
        forall|j: int| 0 <= j < k ==> #[trigger] s[j] != CR && s[j] != LF,
    ensures
        line_run(s) >= k,
    decreases k,
{
    if k > 0 {
        let rest = s.drop_first();
        assert forall|j: int| 0 <= j < k - 1 implies #[trigger] rest[j] != CR && rest[j] != LF by {
            assert(rest[j] == s[j + 1]);
        }
        lemma_line_run_at_least(rest, (k - 1) as nat);
    }
}

/// Reads the simple string at the front of `buf`: the position at which its
/// text ends, and the position after its line terminator.
fn read_simple_string(buf: &[u8]) -> (step: Step<usize>)
    ensures
        match step {
            Step::Done(end, next) => {
                &&& 1 <= end < next <= buf.len()
                &&& scan_simple_string(buf@) == Scan::Done {
                    value: buf@.subrange(1, end as int),
                    used: next as nat,
                }
            },
            Step::Incomplete => scan_simple_string(buf@) is Incomplete,
            Step::Malformed => scan_simple_string(buf@) is Malformed,
        },
{
    let len = buf.len();
    if len == 0 {
        return Step::Incomplete;
    }
    if buf[0] != PLUS {
        return Step::Malformed;
    }
    let ghost text = buf@.skip(1);
    let mut i: usize = 1;
    while i < len && buf[i] != CR && buf[i] != LF
        invariant
            1 <= i <= len,
            len == buf.len(),
            text == buf@.skip(1),
            buf@[0] == PLUS,
            i - 1 <= MAX_LINE_LEN,
            forall|j: int| 0 <= j < i - 1 ==> #[trigger] text[j] != CR && text[j] != LF,
        decreases len - i,
    {
        assert(text[i - 1] == buf[i as int]);
        if i > MAX_LINE_LEN {
            proof {
                lemma_line_run_at_least(text, i as nat);
            }
            return Step::Malformed;
        }
        i += 1;
    }
    proof {
        if i < len {
            assert(text[i - 1] == buf[i as int]);
        }
        lemma_line_run_is(text, (i - 1) as nat);
        assert(text.take(i - 1) =~= buf@.subrange(1, i as int));
    }
    if i == len {
        Step::Incomplete
    } else if buf[i] != CR {
        Step::Malformed
    } else if i + 1 == len {
        Step::Incomplete
    } else if buf[i + 1] != LF {
        assert(text[i as int] == buf[i + 1]);
        Step::Malformed
    } else {
        assert(text[i as int] == buf[i + 1]);
        Step::Done(i, i + 2)
    }
}

/// Reads the snapshot at the front of `buf`: the positions at which its
/// bytes begin and end.
fn read_snapshot(buf: &[u8]) -> (step: Step<usize>)
    ensures
        match step {
            Step::Done(start, end) => {
                &&& start <= end <= buf.len()
                &&& scan_snapshot(buf@) == Scan::Done {
                    value: buf@.subrange(start as int, end as int),
                    used: end as nat,
                }
            },
            Step::Incomplete => scan_snapshot(buf@) is Incomplete,
            Step::Malformed => scan_snapshot(buf@) is Malformed,
        },
{
    let len = buf.len();
    if len == 0 {
        return Step::Incomplete;
    }
    if buf[0] != DOLLAR {
        return Step::Malformed;
    }
    match read_number(buf, 1, MAX_BULK_LEN) {
        Step::Done(size, start) => {
            if len - start < size {
                Step::Incomplete
            } else {
                Step::Done(start, start + size)
            }
        },
        Step::Incomplete => Step::Incomplete,
        Step::Malformed => Step::Malformed,
    }
}

/// The request `PING`.
pub fn ping_master() -> (request: Vec<u8>)
    ensures
        request@ == ping_request(),
{
    let args: Vec<String> = Vec::new();
    assert(args.deep_view() =~= Seq::<Seq<char>>::empty());
    encode_command("PING", &args)
}

/// The request `REPLCONF listening-port <port>`.
pub fn replconf_listening_port(port: u16) -> (request: Vec<u8>)
    ensures
        request@ == listening_port_request(port),
{
    let mut request: Vec<u8> = Vec::new();
    request.push(STAR);
    push_decimal(&mut request, 3);
    push_crlf(&mut request);
    push_bulk_bytes(&mut request, "REPLCONF".as_bytes());
    push_bulk_bytes(&mut request, "listening-port".as_bytes());
    let mut digits: Vec<u8> = Vec::new();
    push_decimal(&mut digits, port as u128);
    assert(digits@ =~= decimal(port as nat));
    push_bulk_bytes(&mut request, digits.as_slice());
    assert(request@ =~= listening_port_request(port));
    request
}

/// The request `REPLCONF capa psync2`.
pub fn replconf_capabilities() -> (request: Vec<u8>)
    ensures
        request@ == capabilities_request(),
{
    let mut args: Vec<String> = Vec::new();
    args.push(String::from_str("capa"));
    args.push(String::from_str("psync2"));
    assert(args.deep_view() =~= seq!["capa"@, "psync2"@]);
    encode_command("REPLCONF", &args)
}

/// The request `PSYNC ? -1`.
pub fn psync_master() -> (request: Vec<u8>)
    ensures
        request@ == psync_request(),
{
    let mut args: Vec<String> = Vec::new();
    args.push(String::from_str("?"));
    args.push(String::from_str("-1"));
    assert(args.deep_view() =~= seq!["?"@, "-1"@]);
    encode_command("PSYNC", &args)
}

impl View for Handshake {
    type V = HandshakeView;

    closed spec fn view(&self) -> HandshakeView {
        HandshakeView { stage: self.stage, pending: self.pending@, port: self.port }
    }
}

impl Handshake {
    /// Begins the handshake of a replica that listens on `port`. Returns
    /// the handshake and the first request to send, `PING`.
    pub fn begin(port: u16) -> (start: (Handshake, Vec<u8>))
        ensures
            start.0@ == (HandshakeView {
                stage: HandshakeStage::AwaitPong,
                pending: Seq::empty(),
                port,
            }),
            start.1@ == ping_request(),
    {
        (Handshake { stage: HandshakeStage::AwaitPong, pending: Vec::new(), port }, ping_master())
    }

    /// Where the handshake stands.
    pub fn stage(&self) -> (stage: HandshakeStage)
        ensures
            stage == self@.stage,
    {
        self.stage
    }

    /// Ends the handshake as failed.
    fn fail(&mut self) -> (step: HandshakeStep)
        ensures
            step@ == failure().step,
            final(self)@ == (HandshakeView {
                stage: failure().stage,
                pending: failure().pending,
                port: old(self)@.port,
            }),
    {
        self.stage = HandshakeStage::Failed;
        self.pending = Vec::new();
        HandshakeStep::Failed
    }

    /// Looks for the snapshot at the position `at` of the pending bytes.
    fn take_snapshot(&mut self, at: usize) -> (step: HandshakeStep)
        requires
            at <= old(self)@.pending.len(),
        ensures
            ({
                let progress = snapshot_progress(old(self)@.pending.skip(at as int));
                &&& step@ == progress.step
                &&& final(self)@ == (HandshakeView {
                    stage: progress.stage,
                    pending: progress.pending,
                    port: old(self)@.port,
                })
            }),
    {
        let ghost window = self.pending@.skip(at as int);
        let len = self.pending.len();
        let view = slice_subrange(self.pending.as_slice(), at, len);
        assert(view@ =~= window);
        match read_snapshot(view) {
            Step::Done(start, end) => {
                let snapshot = slice_to_vec(slice_subrange(view, start, end));
                let rest = slice_to_vec(slice_subrange(view, end, view.len()));
                assert(rest@ =~= window.skip(end as int));
                self.stage = HandshakeStage::Established;
                self.pending = Vec::new();
                HandshakeStep::Established { snapshot, rest }
            },
            Step::Incomplete => {
                let kept = slice_to_vec(view);
                self.stage = HandshakeStage::AwaitSnapshot;
                self.pending = kept;
                HandshakeStep::Wait
            },
            Step::Malformed => self.fail(),
        }
    }

    /// Takes in what was read from the master and says what to do next.
    pub fn receive(&mut self, bytes: &[u8]) -> (step: HandshakeStep)
        ensures
            ({
                let progress = receive_progress(old(self)@, bytes@);
                &&& step@ == progress.step
                &&& final(self)@ == (HandshakeView {
                    stage: progress.stage,
                    pending: progress.pending,
                    port: old(self)@.port,
                })
            }),
    {
        match self.stage {
            HandshakeStage::Established => {
                return HandshakeStep::Wait;
            },
            HandshakeStage::Failed => {
                return self.fail();
            },
            _ => {},
        }
        if bytes.len() == 0 {
            return self.fail();
        }
        push_bytes(&mut self.pending, bytes);
        let ghost pending = self.pending@;
        assert(pending.skip(0) =~= pending);
        match self.stage {
            HandshakeStage::AwaitSnapshot => {
                return self.take_snapshot(0);
            },
            _ => {},
        }
        match read_simple_string(self.pending.as_slice()) {
            Step::Done(end, next) => {
                match self.stage {
                    HandshakeStage::AwaitPong => {
                        let rest = self.pending.split_off(next);
                        self.pending = rest;
                        self.stage = HandshakeStage::AwaitPortAck;
                        HandshakeStep::Send(replconf_listening_port(self.port))
                    },
                    HandshakeStage::AwaitPortAck => {
                        let rest = self.pending.split_off(next);
                        self.pending = rest;
                        self.stage = HandshakeStage::AwaitCapaAck;
                        HandshakeStep::Send(replconf_capabilities())
                    },
                    HandshakeStage::AwaitCapaAck => {
                        let rest = self.pending.split_off(next);
                        self.pending = rest;
                        self.stage = HandshakeStage::AwaitFullResync;
                        HandshakeStep::Send(psync_master())
                    },
                    _ => {
                        let line = slice_subrange(self.pending.as_slice(), 1, end);
                        if starts_with(line, "FULLRESYNC ".as_bytes()) {
                            self.take_snapshot(next)
                        } else {
                            self.fail()
                        }
                    },
                }
            },
            Step::Incomplete => HandshakeStep::Wait,
            Step::Malformed => self.fail(),
        }
    }
}

} // verus!

//! The system management network behind the PCI configuration space, and the
//! handshake by which a mailbox on it takes a command.
use vstd::prelude::*;

use crate::model::{excess, over};
use crate::numbers::{hex, hex_text};
use crate::text::owned;

verus! {

// ---------- the bridge ----------

/// The configuration space in which the bridge lies.
pub fn cfg_path() -> (r: &'static str)
    ensures
        r@ == "/sys/bus/pci/devices/0000:00:00.0/config"@,
{
    "/sys/bus/pci/devices/0000:00:00.0/config"
}

/// A bridge: where the address goes in the configuration space, and where the
/// data is.
#[derive(Clone, Copy, Debug, PartialEq, Eq, Structural)]
pub struct Smn {
    pub idx_reg: u64,
    pub data_reg: u64,
}

/// Four bytes to be written at an offset of the configuration space.
#[derive(Clone, Copy, Debug, PartialEq, Eq)]
pub struct Store {
    pub offset: u64,
    pub bytes: [u8; 4],
}

/// The bytes of a number, least significant first.
pub open spec fn le_bytes(v: u32) -> Seq<u8> {
    seq![
        (v % 0x100) as u8,
        (v / 0x100 % 0x100) as u8,
        (v / 0x1_0000 % 0x100) as u8,
        (v / 0x100_0000) as u8,
    ]
}

/// The number that the bytes make up, least significant first.
pub open spec fn le_number(b: Seq<u8>) -> int {
    b[0] + 0x100 * b[1] + 0x1_0000 * b[2] + 0x100_0000 * b[3]
}

/// What is written as a word reads back as the same word.
pub proof fn lemma_word_reads_back(v: u32)
    ensures
        le_number(le_bytes(v)) == v,
{
}

fn bytes_of(v: u32) -> (r: [u8; 4])
    ensures
        r@ == le_bytes(v),
{
    let r = [
        (v % 0x100) as u8,
        (v / 0x100 % 0x100) as u8,
        (v / 0x1_0000 % 0x100) as u8,
        (v / 0x100_0000) as u8,
    ];
    assert(r@ =~= le_bytes(v));
    r
}

/// The word that four bytes make up.
pub fn word_of(b: [u8; 4]) -> (r: u32)
    ensures
        r == le_number(b@),
{
    b[0] as u32 + 0x100 * b[1] as u32 + 0x1_0000 * b[2] as u32 + 0x100_0000 * b[3] as u32
}

impl Smn {
    pub fn open(idx_reg: u64, data_reg: u64) -> (r: Smn)
        ensures
            r == (Smn { idx_reg, data_reg }),
    {
        Smn { idx_reg, data_reg }
    }

    /// To read a word: what is written first, and the offset at which the four
    /// bytes of the word are read then.
    pub fn smn_read(&self, addr: u32) -> (r: (Store, u64))
        ensures
            r.0.offset == self.idx_reg,
            r.0.bytes@ == le_bytes(addr),
            r.1 == self.data_reg,
    {
        (Store { offset: self.idx_reg, bytes: bytes_of(addr) }, self.data_reg)
    }

    /// To write a word: what is written, one after the other.
    pub fn smn_write(&self, addr: u32, val: u32) -> (r: (Store, Store))
        ensures
            r.0.offset == self.idx_reg,
            r.0.bytes@ == le_bytes(addr),
            r.1.offset == self.data_reg,
            r.1.bytes@ == le_bytes(val),
    {
        (
            Store { offset: self.idx_reg, bytes: bytes_of(addr) },
            Store { offset: self.data_reg, bytes: bytes_of(val) },
        )
    }

    /// Starts to send a command: see `Handshake`.
    pub fn send_command(
        &self,
        rsp: u32,
        cmd: u32,
        args_addr: u32,
        op: u32,
        args: [u32; 6],
        now: u64,
    ) -> (r: Handshake)
        requires
            args_addr <= u32::MAX - 20,
        ensures
            r.wf(),
            r@ == started(Mailbox { cmd, rsp, args: args_addr }, op, args@, now),
    {
        let r = Handshake {
            mailbox: Mailbox { cmd, rsp, args: args_addr },
            op,
            args,
            phase: Phase::Ready,
            since: now,
            reply: 0,
            results: [0, 0, 0, 0, 0, 0],
        };
        assert(r.results@ =~= seq![0u32, 0, 0, 0, 0, 0]);
        r
    }
}

// ---------- the handshake ----------

/// The addresses of a mailbox: of the command, of the response and of the first
/// of the six arguments.
#[derive(Clone, Copy, Debug, PartialEq, Eq, Structural)]
pub struct Mailbox {
    pub cmd: u32,
    pub rsp: u32,
    pub args: u32,
}

/// How far a handshake has come.
#[derive(Clone, Copy, Debug, PartialEq, Eq, Structural)]
pub enum Phase {
    /// Waits until the response is not zero.
    Ready,
    /// Does the write at this place of the script.
    Write(usize),
    /// Waits until the response to the command is not zero.
    Answer,
    /// Reads back the argument at this place.
    Collect(usize),
    /// Has the response and the arguments.
    Done,
    /// The mailbox did not become ready in time.
    NotReady,
    /// The command was not answered in time.
    NoAnswer,
}

/// What is to be done next.
#[derive(Clone, Copy, Debug, PartialEq, Eq)]
pub enum Access {
    Read(u32),
    Write(u32, u32),
    Finished,
}

/// A command on its way through a mailbox.
#[derive(Clone, Copy, Debug)]
pub struct Handshake {
    pub mailbox: Mailbox,
    pub op: u32,
    pub args: [u32; 6],
    pub phase: Phase,
    pub since: u64,
    pub reply: u32,
    pub results: [u32; 6],
}

/// What a `Handshake` says.
#[verifier::ext_equal]
pub struct HandshakeModel {
    pub mailbox: Mailbox,
    pub op: u32,
    pub args: Seq<u32>,
    pub phase: Phase,
    pub since: u64,
    pub reply: u32,
    pub results: Seq<u32>,
}

impl View for Handshake {
    type V = HandshakeModel;

    open spec fn view(&self) -> HandshakeModel {
        HandshakeModel {
            mailbox: self.mailbox,
            op: self.op,
            args: self.args@,
            phase: self.phase,
            since: self.since,
            reply: self.reply,
            results: self.results@,
        }
    }
}

/// How long a mailbox may take to become ready, in nanoseconds.
pub const READY_NANOS: u64 = 500_000_000;

/// How long a command may take, in nanoseconds.
pub const ANSWER_NANOS: u64 = 1_500_000_000;

pub open spec fn started(mailbox: Mailbox, op: u32, args: Seq<u32>, now: u64) -> HandshakeModel {
    HandshakeModel {
        mailbox,
        op,
        args,
        phase: Phase::Ready,
        since: now,
        reply: 0,
        results: seq![0u32, 0, 0, 0, 0, 0],
    }
}

/// The address of the argument at a place.
pub open spec fn arg_addr(mailbox: Mailbox, i: int) -> u32 {
    (mailbox.args + 4 * i) as u32
}

/// The writes that a command takes: the response is cleared, the six arguments
/// are set, and the command is given.
pub open spec fn script(m: HandshakeModel, k: int) -> (u32, u32) {
    if k == 0 {
        (m.mailbox.rsp, 0)
    } else if k < 7 {
        (arg_addr(m.mailbox, k - 1), m.args[k - 1])
    } else {
        (m.mailbox.cmd, m.op)
    }
}

impl HandshakeModel {
    pub open spec fn wf(self) -> bool {
        &&& self.mailbox.args <= u32::MAX - 20
        &&& self.args.len() == 6
        &&& self.results.len() == 6
        &&& match self.phase {
            Phase::Write(k) => k < 8,
            Phase::Collect(k) => k < 6 && self.reply != 0,
            Phase::Done => self.reply != 0,
            _ => true,
        }
    }

    /// What is done in this phase.
    pub open spec fn access(self) -> Access {
        match self.phase {
            Phase::Ready => Access::Read(self.mailbox.rsp),
            Phase::Write(k) => Access::Write(script(self, k as int).0, script(self, k as int).1),
            Phase::Answer => Access::Read(self.mailbox.rsp),
            Phase::Collect(k) => Access::Read(arg_addr(self.mailbox, k as int)),
            _ => Access::Finished,
        }
    }

    /// The state after it was done: `value` is what was read, where something
    /// was, and `now` the time after it.
    pub open spec fn next(self, value: u32, now: u64) -> HandshakeModel {
        match self.phase {
            Phase::Ready => if value != 0 {
                HandshakeModel { phase: Phase::Write(0), ..self }
            } else if over(now, self.since) >= READY_NANOS {
                HandshakeModel { phase: Phase::NotReady, ..self }
            } else {
                self
            },
            Phase::Write(k) => if k < 7 {
                HandshakeModel { phase: Phase::Write((k + 1) as usize), ..self }
            } else {
                HandshakeModel { phase: Phase::Answer, since: now, ..self }
            },
            Phase::Answer => if value != 0 {
                HandshakeModel { phase: Phase::Collect(0), reply: value, ..self }
            } else if over(now, self.since) >= ANSWER_NANOS {
                HandshakeModel { phase: Phase::NoAnswer, ..self }
            } else {
                self
            },
            Phase::Collect(k) => HandshakeModel {
                phase: if k < 5 {
                    Phase::Collect((k + 1) as usize)
                } else {
                    Phase::Done
                },
                results: self.results.update(k as int, value),
                ..self
            },
            _ => self,
        }
    }
}

impl Handshake {
    pub open spec fn wf(&self) -> bool {
        self@.wf()
    }

    /// What is to be done next.
    pub fn access(&self) -> (r: Access)
        requires
            self.wf(),
        ensures
            r == self@.access(),
    {
        match self.phase {
            Phase::Ready => Access::Read(self.mailbox.rsp),
            Phase::Write(k) => if k == 0 {
                Access::Write(self.mailbox.rsp, 0)
            } else if k < 7 {
                Access::Write(self.mailbox.args + 4 * (k - 1) as u32, self.args[k - 1])
            } else {
                Access::Write(self.mailbox.cmd, self.op)
            },
            Phase::Answer => Access::Read(self.mailbox.rsp),
            Phase::Collect(k) => Access::Read(self.mailbox.args + 4 * k as u32),
            _ => Access::Finished,
        }
    }

    /// Goes on after it was done.
    pub fn step(&mut self, value: u32, now: u64)
        requires
            old(self).wf(),
        ensures
            final(self).wf(),
            final(self)@ == old(self)@.next(value, now),
    {
        match self.phase {
            Phase::Ready => {
                if value != 0 {
                    self.phase = Phase::Write(0);
                } else if excess(now, self.since) >= READY_NANOS {
                    self.phase = Phase::NotReady;
                }
            },
            Phase::Write(k) => {
                if k < 7 {
                    self.phase = Phase::Write(k + 1);
                } else {
                    self.phase = Phase::Answer;
                    self.since = now;
                }
            },
            Phase::Answer => {
                if value != 0 {
                    self.phase = Phase::Collect(0);
                    self.reply = value;
                } else if excess(now, self.since) >= ANSWER_NANOS {
                    self.phase = Phase::NoAnswer;
                }
            },
            Phase::Collect(k) => {
                self.results[k] = value;
                self.phase = if k < 5 {
                    Phase::Collect(k + 1)
                } else {
                    Phase::Done
                };
            },
            _ => {},
        }
    }

    /// What came of the command, where the handshake is over.
    pub open spec fn ending(&self) -> Option<Result<(u32, Seq<u32>), HandshakeError>> {
        match self.phase {
            Phase::Done => Some(Ok((self.reply, self.results@))),
            Phase::NotReady => Some(Err(HandshakeError::NotReady(self.mailbox.rsp))),
            Phase::NoAnswer => Some(Err(HandshakeError::NoAnswer(self.op))),
            _ => None,
        }
    }

    /// What came of the command, where the handshake is over.
    pub fn outcome(&self) -> (r: Option<Result<(u32, [u32; 6]), HandshakeError>>)
        ensures
            match r {
                Some(Ok((reply, results))) => {
                    &&& self.phase == Phase::Done
                    &&& reply == self.reply
                    &&& results@ == self.results@
                },
                Some(Err(HandshakeError::NotReady(rsp))) => {
                    &&& self.phase == Phase::NotReady
                    &&& rsp == self.mailbox.rsp
                },
                Some(Err(HandshakeError::NoAnswer(op))) => {
                    &&& self.phase == Phase::NoAnswer
                    &&& op == self.op
                },
                None => self.phase != Phase::Done && self.phase != Phase::NotReady && self.phase
                    != Phase::NoAnswer,
            },
            match (r, self.ending()) {
                (Some(Ok((a, b))), Some(Ok((c, d)))) => a == c && b@ == d,
                (Some(Err(a)), Some(Err(b))) => a == b,
                (None, None) => true,
                _ => false,
            },
    {
        match self.phase {
            Phase::Done => Some(Ok((self.reply, self.results))),
            Phase::NotReady => Some(Err(HandshakeError::NotReady(self.mailbox.rsp))),
            Phase::NoAnswer => Some(Err(HandshakeError::NoAnswer(self.op))),
            _ => None,
        }
    }
}

#[derive(Clone, Copy, Debug, PartialEq, Eq, Structural)]
pub enum HandshakeError {
    /// The response register at this address stayed zero.
    NotReady(u32),
    /// The response to this command stayed zero.
    NoAnswer(u32),
}

pub open spec fn handshake_message(e: HandshakeError) -> Seq<char> {
    match e {
        HandshakeError::NotReady(rsp) => "RSP 0x"@ + hex(rsp as nat, 0) + " 初始等待超时"@,
        HandshakeError::NoAnswer(op) => "命令 0x"@ + hex(op as nat, 0) + " 处理超时"@,
    }
}

impl HandshakeError {
    pub fn message(&self) -> (r: String)
        ensures
            r@ == handshake_message(*self),
    {
        match self {
            HandshakeError::NotReady(rsp) => owned("RSP 0x").concat(
                hex_text(*rsp as u64, 0).as_str(),
            ).concat(" 初始等待超时"),
            HandshakeError::NoAnswer(op) => owned("命令 0x").concat(
                hex_text(*op as u64, 0).as_str(),
            ).concat(" 处理超时"),
        }
    }
}

// ---------- laws ----------

/// The state after a row of accesses: what each read gave, and when it was done.
pub open spec fn after(m: HandshakeModel, events: Seq<(u32, u64)>) -> HandshakeModel
    decreases events.len(),
{
    if events.len() == 0 {
        m
    } else {
        after(m, events.drop_last()).next(events.last().0, events.last().1)
    }
}

/// The writes that were done on the way.
pub open spec fn writes(m: HandshakeModel, events: Seq<(u32, u64)>) -> Seq<(u32, u32)>
    decreases events.len(),
{
    if events.len() == 0 {
        Seq::empty()
    } else {
        let done = writes(m, events.drop_last());
        match after(m, events.drop_last()).access() {
            Access::Write(addr, value) => done.push((addr, value)),
            _ => done,
        }
    }
}

/// How many writes of the script are behind a phase.
pub open spec fn written_before(p: Phase) -> nat {
    match p {
        Phase::Ready => 0,
        Phase::NotReady => 0,
        Phase::Write(k) => k as nat,
        _ => 8,
    }
}

/// Whatever the hardware answers, a handshake writes the eight words of its
/// script in their order and nothing else: none before the mailbox is ready,
/// and all of them before it waits for an answer.
pub proof fn lemma_writes_follow_the_script(
    mailbox: Mailbox,
    op: u32,
    args: Seq<u32>,
    now: u64,
    events: Seq<(u32, u64)>,
)
    requires
        args.len() == 6,
        mailbox.args <= u32::MAX - 20,
    ensures
        ({
            let start = started(mailbox, op, args, now);
            let end = after(start, events);
            &&& end.wf()
            &&& end.mailbox == mailbox
            &&& end.op == op
            &&& end.args == args
            &&& written_before(end.phase) <= 8
            &&& writes(start, events) == Seq::new(
                written_before(end.phase),
                |k: int| script(start, k),
            )
        }),
    decreases events.len(),
{
    let start = started(mailbox, op, args, now);
    if events.len() > 0 {
        lemma_writes_follow_the_script(mailbox, op, args, now, events.drop_last());
    }
    let end = after(start, events);
    assert(writes(start, events) =~= Seq::new(
        written_before(end.phase),
        |k: int| script(start, k),
    ));
}

/// A handshake that has just ended well holds the six words that were read last,
/// and the response read before them, which is not zero.
pub proof fn lemma_results_are_what_was_read(
    mailbox: Mailbox,
    op: u32,
    args: Seq<u32>,
    now: u64,
    events: Seq<(u32, u64)>,
)
    requires
        args.len() == 6,
        mailbox.args <= u32::MAX - 20,
        events.len() > 0,
        after(started(mailbox, op, args, now), events).phase == Phase::Done,
        after(started(mailbox, op, args, now), events.drop_last()).phase != Phase::Done,
    ensures
        ({
            let end = after(started(mailbox, op, args, now), events);
            let n = events.len();
            &&& n >= 7
            &&& end.reply == events[n - 7].0
            &&& end.reply != 0
            &&& forall|i: int| 0 <= i < 6 ==> end.results[i] == events[n - 6 + i].0
        }),
{
    lemma_collected(mailbox, op, args, now, events.drop_last());
    lemma_writes_follow_the_script(mailbox, op, args, now, events);
}

proof fn lemma_collected(
    mailbox: Mailbox,
    op: u32,
    args: Seq<u32>,
    now: u64,
    events: Seq<(u32, u64)>,
)
    requires
        args.len() == 6,
        mailbox.args <= u32::MAX - 20,
    ensures
        ({
            let end = after(started(mailbox, op, args, now), events);
            end.phase matches Phase::Collect(k) ==> {
                let n = events.len();
                &&& n >= k + 1
                &&& end.reply == events[n - 1 - k].0
                &&& end.reply != 0
                &&& end.results.len() == 6
                &&& forall|i: int| 0 <= i < k ==> end.results[i] == events[n - k + i].0
            }
        }),
    decreases events.len(),
{
    if events.len() > 0 {
        lemma_collected(mailbox, op, args, now, events.drop_last());
        lemma_writes_follow_the_script(mailbox, op, args, now, events.drop_last());
    }
}

} // verus!

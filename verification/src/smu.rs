//! The mailboxes of the system management unit: which processors they are known
//! for, and the search for one that answers.
use vstd::prelude::*;

use crate::lists::{first, lemma_first_at, lemma_first_none, put, seen, views};
use crate::numbers::{dec, dec_text, decimal_u32, hex, hex_text, left, pad_right, parse_u32};
use crate::smn::{Mailbox, Smn};
use crate::text::{
    after_prefix, chars, lines, owned, pieces, spells, split, split_lines, strip_prefix, trim,
    trimmed,
};

verus! {

// ---------- the processor ----------

#[derive(Clone, Copy, Debug, PartialEq, Eq, Structural)]
pub enum CpuError {
    /// The file on the processors could not be read.
    Unreadable,
    /// The mailboxes of this family are not known.
    Family(u32),
    /// The family is not told.
    Unknown,
}

/// The family of a processor, from a line about it.
pub open spec fn family_fn() -> spec_fn(Seq<char>) -> Option<u32> {
    |line: Seq<char>|
        match after_prefix(line, "cpu family"@) {
            Some(rest) => {
                let p = pieces(rest, ':');
                if p.len() > 1 {
                    match decimal_u32(trimmed(p[1])) {
                        Some(n) => Some(n as u32),
                        None => None,
                    }
                } else {
                    None
                }
            },
            None => None,
        }
}

/// The family for which the addresses and the messages are known.
pub const FAMILY: u32 = 26;

pub open spec fn cpu_supported(forced: Option<Seq<char>>, cpuinfo: Option<Seq<char>>) -> Result<
    (),
    CpuError,
> {
    if forced == Some("1"@) {
        Ok(())
    } else {
        match cpuinfo {
            None => Err(CpuError::Unreadable),
            Some(text) => match first(lines(text), family_fn()) {
                Some(f) => if f == FAMILY {
                    Ok(())
                } else {
                    Err(CpuError::Family(f))
                },
                None => Err(CpuError::Unknown),
            },
        }
    }
}

fn read_family(cpuinfo: &str) -> (r: Option<u32>)
    ensures
        r == first(lines(cpuinfo@), family_fn()),
{
    let t = chars(cpuinfo);
    let ls = split_lines(t.as_slice());
    let ghost all = lines(cpuinfo@);
    let mut i: usize = 0;
    while i < ls.len()
        invariant
            i <= ls.len(),
            views(ls@) == all,
            all == lines(cpuinfo@),
            forall|j: int| 0 <= j < i ==> family_fn()(#[trigger] all[j]) is None,
        decreases ls.len() - i,
    {
        assert(all[i as int] == ls@[i as int]@);
        if let Some(rest) = strip_prefix(ls[i], "cpu family") {
            let p = split(rest, ':');
            assert(views(p@) == pieces(rest@, ':'));
            if p.len() > 1 {
                assert(pieces(rest@, ':')[1] == p@[1]@);
                if let Some(n) = parse_u32(trim(p[1])) {
                    proof {
                        lemma_first_at(all, family_fn(), i as int);
                    }
                    return Some(n);
                }
            }
        }
        i = i + 1;
    }
    proof {
        lemma_first_none(all, family_fn());
    }
    None
}

fn says_one(forced: Option<&str>) -> (r: bool)
    ensures
        r == (seen(forced) == Some("1"@)),
{
    match forced {
        Some(f) => spells(chars(f).as_slice(), "1"),
        None => false,
    }
}

/// Whether the processor is one whose mailboxes are known. `forced` is what the
/// user set to skip this test, with the value `1`.
pub fn require_supported_cpu(forced: Option<&str>, cpuinfo: Option<&str>) -> (r: Result<
    (),
    CpuError,
>)
    ensures
        r == cpu_supported(seen(forced), seen(cpuinfo)),
{
    if says_one(forced) {
        return Ok(());
    }
    match cpuinfo {
        None => Err(CpuError::Unreadable),
        Some(text) => match read_family(text) {
            Some(f) => if f == FAMILY {
                Ok(())
            } else {
                Err(CpuError::Family(f))
            },
            None => Err(CpuError::Unknown),
        },
    }
}

pub open spec fn cpu_message(e: CpuError, cause: Seq<char>) -> Seq<char> {
    match e {
        CpuError::Unreadable => "读 /proc/cpuinfo: "@ + cause,
        CpuError::Family(f) => "CPU family "@ + dec(f as nat) + " (0x"@ + hex(f as nat, 0)
            + ") 未验证 — smu/smuctl 的邮箱与消息表仅适配 family 26 (0x1A, Zen 5 移动)。确要尝试: RUSTINFO_SMU_FORCE=1"@,
        CpuError::Unknown => "无法识别 CPU family。确要尝试: RUSTINFO_SMU_FORCE=1"@,
    }
}

impl CpuError {
    /// The error in words; `cause` is why the file could not be read.
    pub fn message(&self, cause: &str) -> (r: String)
        ensures
            r@ == cpu_message(*self, cause@),
    {
        match self {
            CpuError::Unreadable => owned("读 /proc/cpuinfo: ").concat(cause),
            CpuError::Family(f) => owned("CPU family ").concat(
                dec_text(*f as u64).as_str(),
            ).concat(" (0x").concat(hex_text(*f as u64, 0).as_str()).concat(
                ") 未验证 — smu/smuctl 的邮箱与消息表仅适配 family 26 (0x1A, Zen 5 移动)。确要尝试: RUSTINFO_SMU_FORCE=1",
            ),
            CpuError::Unknown => owned("无法识别 CPU family。确要尝试: RUSTINFO_SMU_FORCE=1"),
        }
    }
}

// ---------- the search for a mailbox ----------

/// A version of the firmware, in words.
pub open spec fn version_text(v: u32) -> Seq<char> {
    dec((v / 0x1_0000 % 0x100) as nat) + "."@ + dec((v / 0x100 % 0x100) as nat) + "."@ + dec(
        (v % 0x100) as nat,
    )
}

pub fn version_str(v: u32) -> (r: String)
    ensures
        r@ == version_text(v),
{
    dec_text((v / 0x1_0000 % 0x100) as u64).concat(".").concat(
        dec_text((v / 0x100 % 0x100) as u64).as_str(),
    ).concat(".").concat(dec_text((v % 0x100) as u64).as_str())
}

/// How many bridges, and how many mailboxes behind each, are tried.
pub const BRIDGES: usize = 2;

pub const MAILBOXES: usize = 7;

pub open spec fn bridge(i: int) -> Smn {
    if i == 0 {
        Smn { idx_reg: 0xC4, data_reg: 0xC8 }
    } else {
        Smn { idx_reg: 0xB8, data_reg: 0xBC }
    }
}

pub open spec fn mailbox_name(i: int) -> Seq<char> {
    if i == 0 {
        "RSMU-APU"@
    } else if i == 1 {
        "MP1-IFv13"@
    } else if i == 2 {
        "MP1-IFv12"@
    } else if i == 3 {
        "RSMU-桌面"@
    } else if i == 4 {
        "MP1-IFv11"@
    } else if i == 5 {
        "MP1-IFv9"@
    } else {
        "RSMU-TR"@
    }
}

pub open spec fn mailbox(i: int) -> Mailbox {
    if i == 0 {
        Mailbox { cmd: 0x3B10_A20, rsp: 0x3B10_A80, args: 0x3B10_A88 }
    } else if i == 1 {
        Mailbox { cmd: 0x3B10_528, rsp: 0x3B10_578, args: 0x3B10_998 }
    } else if i == 2 {
        Mailbox { cmd: 0x3B10_528, rsp: 0x3B10_564, args: 0x3B10_998 }
    } else if i == 3 {
        Mailbox { cmd: 0x3B10_524, rsp: 0x3B10_570, args: 0x3B10_A40 }
    } else if i == 4 {
        Mailbox { cmd: 0x3B10_530, rsp: 0x3B10_57C, args: 0x3B10_9C4 }
    } else if i == 5 {
        Mailbox { cmd: 0x3B10_528, rsp: 0x3B10_564, args: 0x3B10_598 }
    } else {
        Mailbox { cmd: 0x3B10_51C, rsp: 0x3B10_568, args: 0x3B10_590 }
    }
}

fn bridge_at(i: usize) -> (r: Smn)
    ensures
        r == bridge(i as int),
{
    if i == 0 {
        Smn { idx_reg: 0xC4, data_reg: 0xC8 }
    } else {
        Smn { idx_reg: 0xB8, data_reg: 0xBC }
    }
}

fn name_at(i: usize) -> (r: &'static str)
    ensures
        r@ == mailbox_name(i as int),
{
    if i == 0 {
        "RSMU-APU"
    } else if i == 1 {
        "MP1-IFv13"
    } else if i == 2 {
        "MP1-IFv12"
    } else if i == 3 {
        "RSMU-桌面"
    } else if i == 4 {
        "MP1-IFv11"
    } else if i == 5 {
        "MP1-IFv9"
    } else {
        "RSMU-TR"
    }
}

fn mailbox_at(i: usize) -> (r: Mailbox)
    ensures
        r == mailbox(i as int),
{
    if i == 0 {
        Mailbox { cmd: 0x3B10_A20, rsp: 0x3B10_A80, args: 0x3B10_A88 }
    } else if i == 1 {
        Mailbox { cmd: 0x3B10_528, rsp: 0x3B10_578, args: 0x3B10_998 }
    } else if i == 2 {
        Mailbox { cmd: 0x3B10_528, rsp: 0x3B10_564, args: 0x3B10_998 }
    } else if i == 3 {
        Mailbox { cmd: 0x3B10_524, rsp: 0x3B10_570, args: 0x3B10_A40 }
    } else if i == 4 {
        Mailbox { cmd: 0x3B10_530, rsp: 0x3B10_57C, args: 0x3B10_9C4 }
    } else if i == 5 {
        Mailbox { cmd: 0x3B10_528, rsp: 0x3B10_564, args: 0x3B10_598 }
    } else {
        Mailbox { cmd: 0x3B10_51C, rsp: 0x3B10_568, args: 0x3B10_590 }
    }
}

/// How far the search has come.
#[derive(Clone, Copy, Debug, PartialEq, Eq, Structural)]
pub enum Probe {
    /// Opens a bridge.
    Open { bridge: usize },
    /// Asks a mailbox behind a bridge for the version.
    Ask { bridge: usize, mailbox: usize },
    /// A mailbox has answered.
    Hit,
    /// None has.
    Missed,
}

/// What the search wants done.
#[derive(Clone, Copy, Debug, PartialEq, Eq)]
pub enum ProbeAction {
    Open(Smn),
    Send { mailbox: Mailbox, op: u32, args: [u32; 6] },
    Hit,
    Missed,
}

/// What came of it.
#[derive(Clone, Debug)]
pub enum ProbeEvent {
    Opened,
    NotOpened(String),
    Reply { ret: u32, arg0: u32 },
    NoReply(String),
}

#[verifier::ext_equal]
pub enum ProbeEventModel {
    Opened,
    NotOpened(Seq<char>),
    Reply { ret: u32, arg0: u32 },
    NoReply(Seq<char>),
}

impl View for ProbeEvent {
    type V = ProbeEventModel;

    open spec fn view(&self) -> ProbeEventModel {
        match self {
            ProbeEvent::Opened => ProbeEventModel::Opened,
            ProbeEvent::NotOpened(e) => ProbeEventModel::NotOpened(e@),
            ProbeEvent::Reply { ret, arg0 } => ProbeEventModel::Reply { ret: *ret, arg0: *arg0 },
            ProbeEvent::NoReply(e) => ProbeEventModel::NoReply(e@),
        }
    }
}

/// The command that asks for the version of the firmware.
pub const ASK_VERSION: u32 = 0x02;

/// Whether a mailbox has told its version.
pub open spec fn is_hit(ret: u32, arg0: u32) -> bool {
    ret == 1 && arg0 > 1
}

impl Probe {
    pub open spec fn wf(self) -> bool {
        match self {
            Probe::Open { bridge } => bridge < BRIDGES,
            Probe::Ask { bridge, mailbox } => bridge < BRIDGES && mailbox < MAILBOXES,
            _ => true,
        }
    }

    /// Goes on to the bridge after this one, if there is one.
    pub open spec fn past(bridge: usize) -> Probe {
        if bridge + 1 < BRIDGES {
            Probe::Open { bridge: (bridge + 1) as usize }
        } else {
            Probe::Missed
        }
    }

    /// Whether the event is one that can follow on this state.
    pub open spec fn fits(self, event: ProbeEventModel) -> bool {
        match self {
            Probe::Open { bridge } => event is Opened || event is NotOpened,
            Probe::Ask { bridge, mailbox } => event is Reply || event is NoReply,
            _ => false,
        }
    }

    /// The state after the event; the same where the event does not fit.
    pub open spec fn next(self, event: ProbeEventModel) -> Probe {
        match (self, event) {
            (Probe::Open { bridge }, ProbeEventModel::Opened) => Probe::Ask { bridge, mailbox: 0 },
            (Probe::Open { bridge }, ProbeEventModel::NotOpened(e)) => Probe::past(bridge),
            (Probe::Ask { bridge, mailbox }, ProbeEventModel::Reply { ret, arg0 }) => if is_hit(
                ret,
                arg0,
            ) {
                Probe::Hit
            } else if mailbox + 1 < MAILBOXES {
                Probe::Ask { bridge, mailbox: (mailbox + 1) as usize }
            } else {
                Probe::past(bridge)
            },
            (Probe::Ask { bridge, mailbox }, ProbeEventModel::NoReply(e)) => if mailbox + 1
                < MAILBOXES {
                Probe::Ask { bridge, mailbox: (mailbox + 1) as usize }
            } else {
                Probe::past(bridge)
            },
            _ => self,
        }
    }

    /// What is printed on the event.
    pub open spec fn notes(self, event: ProbeEventModel) -> Seq<Seq<char>> {
        match (self, event) {
            (Probe::Open { bridge: b }, ProbeEventModel::Opened) => seq![
                "SMN 桥 config 0x"@ + hex(bridge(b as int).idx_reg as nat, 0) + "/0x"@ + hex(
                    bridge(b as int).data_reg as nat,
                    0,
                ) + ":"@,
            ],
            (Probe::Open { bridge: b }, ProbeEventModel::NotOpened(e)) => seq![
                "SMN 桥 0x"@ + hex(bridge(b as int).idx_reg as nat, 0) + "/0x"@ + hex(
                    bridge(b as int).data_reg as nat,
                    0,
                ) + ": "@ + e,
            ],
            (Probe::Ask { bridge: b, mailbox }, ProbeEventModel::Reply { ret, arg0 }) => {
                let name = mailbox_name(mailbox as int);
                let told = "  "@ + left(name, 9) + " RSP 0x"@ + hex(ret as nat, 2) + "  arg0 0x"@
                    + hex(arg0 as nat, 8);
                if is_hit(ret, arg0) {
                    seq![
                        told,
                        "  ✅ 命中: "@ + name + " — SMU 版本 "@ + version_text(arg0) + " (0x"@ + hex(
                            arg0 as nat,
                            8,
                        ) + ")"@,
                    ]
                } else {
                    seq![told]
                }
            },
            (Probe::Ask { bridge: b, mailbox }, ProbeEventModel::NoReply(e)) => seq![
                "  "@ + left(mailbox_name(mailbox as int), 9) + " "@ + e,
            ],
            _ => Seq::empty(),
        }
    }

    /// The mailbox that is asked, by which command and with which arguments.
    pub open spec fn question(self) -> Option<(Mailbox, u32, Seq<u32>)> {
        match self {
            Probe::Ask { bridge: b, mailbox: m } => Some(
                (mailbox(m as int), ASK_VERSION, seq![1u32, 0, 0, 0, 0, 0]),
            ),
            _ => None,
        }
    }

    pub fn action(&self) -> (r: ProbeAction)
        requires
            self.wf(),
        ensures
            match *self {
                Probe::Open { bridge: b } => r == ProbeAction::Open(bridge(b as int)),
                Probe::Ask { bridge: b, mailbox: m } => {
                    &&& r matches ProbeAction::Send { mailbox: sent, op, args }
                    &&& sent == mailbox(m as int)
                    &&& op == ASK_VERSION
                    &&& args@ == seq![1u32, 0, 0, 0, 0, 0]
                },
                Probe::Hit => r is Hit,
                Probe::Missed => r is Missed,
            },
            r matches ProbeAction::Send { mailbox: sent, op, args } ==> self.question() == Some(
                (sent, op, args@),
            ),
    {
        match self {
            Probe::Open { bridge: b } => ProbeAction::Open(bridge_at(*b)),
            Probe::Ask { bridge: b, mailbox: m } => {
                let args = [1u32, 0, 0, 0, 0, 0];
                assert(args@ =~= seq![1u32, 0, 0, 0, 0, 0]);
                ProbeAction::Send { mailbox: mailbox_at(*m), op: ASK_VERSION, args }
            },
            Probe::Hit => ProbeAction::Hit,
            Probe::Missed => ProbeAction::Missed,
        }
    }

    fn go_past(bridge: usize) -> (r: Probe)
        requires
            bridge < BRIDGES,
        ensures
            r == Probe::past(bridge),
    {
        if bridge + 1 < BRIDGES {
            Probe::Open { bridge: bridge + 1 }
        } else {
            Probe::Missed
        }
    }

    fn go_on(bridge: usize, mailbox: usize) -> (r: Probe)
        requires
            bridge < BRIDGES,
            mailbox < MAILBOXES,
        ensures
            r == (if mailbox + 1 < MAILBOXES {
                Probe::Ask { bridge, mailbox: (mailbox + 1) as usize }
            } else {
                Probe::past(bridge)
            }),
    {
        if mailbox + 1 < MAILBOXES {
            Probe::Ask { bridge, mailbox: mailbox + 1 }
        } else {
            Probe::go_past(bridge)
        }
    }

    /// Goes on after the event, and says what is to be printed.
    pub fn step(&mut self, event: ProbeEvent) -> (r: Vec<String>)
        requires
            old(self).wf(),
        ensures
            final(self).wf(),
            *final(self) == old(self).next(event@),
            views(r@) == old(self).notes(event@),
    {
        let mut out: Vec<String> = Vec::new();
        let ghost from = *self;
        match (*self, &event) {
            (Probe::Open { bridge: b }, ProbeEvent::Opened) => {
                let s = bridge_at(b);
                put(
                    &mut out,
                    owned("SMN 桥 config 0x").concat(hex_text(s.idx_reg, 0).as_str()).concat(
                        "/0x",
                    ).concat(hex_text(s.data_reg, 0).as_str()).concat(":"),
                );
                *self = Probe::Ask { bridge: b, mailbox: 0 };
            },
            (Probe::Open { bridge: b }, ProbeEvent::NotOpened(e)) => {
                let s = bridge_at(b);
                put(
                    &mut out,
                    owned("SMN 桥 0x").concat(hex_text(s.idx_reg, 0).as_str()).concat("/0x").concat(
                        hex_text(s.data_reg, 0).as_str(),
                    ).concat(": ").concat(e.as_str()),
                );
                *self = Probe::go_past(b);
            },
            (Probe::Ask { bridge: b, mailbox: m }, ProbeEvent::Reply { ret, arg0 }) => {
                let name = name_at(m);
                put(
                    &mut out,
                    owned("  ").concat(pad_right(name, 9).as_str()).concat(" RSP 0x").concat(
                        hex_text(*ret as u64, 2).as_str(),
                    ).concat("  arg0 0x").concat(hex_text(*arg0 as u64, 8).as_str()),
                );
                if *ret == 1 && *arg0 > 1 {
                    put(
                        &mut out,
                        owned("  ✅ 命中: ").concat(name).concat(" — SMU 版本 ").concat(
                            version_str(*arg0).as_str(),
                        ).concat(" (0x").concat(hex_text(*arg0 as u64, 8).as_str()).concat(")"),
                    );
                    *self = Probe::Hit;
                } else {
                    *self = Probe::go_on(b, m);
                }
            },
            (Probe::Ask { bridge: b, mailbox: m }, ProbeEvent::NoReply(e)) => {
                put(
                    &mut out,
                    owned("  ").concat(pad_right(name_at(m), 9).as_str()).concat(" ").concat(
                        e.as_str(),
                    ),
                );
                *self = Probe::go_on(b, m);
            },
            _ => {},
        }
        assert(views(out@) =~= from.notes(event@));
        out
    }

    /// The place of a state in the search.
    pub open spec fn place(self) -> nat {
        match self {
            Probe::Open { bridge } => (bridge * (MAILBOXES + 1)) as nat,
            Probe::Ask { bridge, mailbox } => (bridge * (MAILBOXES + 1) + mailbox + 1) as nat,
            Probe::Hit => (BRIDGES * (MAILBOXES + 1)) as nat,
            Probe::Missed => (BRIDGES * (MAILBOXES + 1)) as nat,
        }
    }
}

/// What is printed before the search.
pub fn probe_heading() -> (r: &'static str)
    ensures
        r@ == "SMU 邮箱探针 — 只发只读命令 0x02 (GetSMUVersion), 命中即停"@,
{
    "SMU 邮箱探针 — 只发只读命令 0x02 (GetSMUVersion), 命中即停"
}

/// The error where no mailbox has answered.
pub fn probe_failure() -> (r: &'static str)
    ensures
        r@ == "所有候选邮箱均未命中 — 固件可能用了新邮箱布局, 需要进一步逆向"@,
{
    "所有候选邮箱均未命中 — 固件可能用了新邮箱布局, 需要进一步逆向"
}

/// Starts the search with the first bridge, where the processor is one for which
/// the mailboxes are known.
pub fn probe(forced: Option<&str>, cpuinfo: Option<&str>) -> (r: Result<Probe, CpuError>)
    ensures
        match cpu_supported(seen(forced), seen(cpuinfo)) {
            Ok(u) => r == Ok::<Probe, CpuError>(Probe::Open { bridge: 0 }),
            Err(e) => r == Err::<Probe, CpuError>(e),
        },
{
    match require_supported_cpu(forced, cpuinfo) {
        Ok(()) => Ok(Probe::Open { bridge: 0 }),
        Err(e) => Err(e),
    }
}

/// The search only goes forward: it asks no mailbox behind a bridge twice, and
/// it comes to an end.
pub proof fn lemma_probe_goes_forward(p: Probe, event: ProbeEventModel)
    requires
        p.wf(),
        p.fits(event),
    ensures
        p.next(event).wf(),
        p.place() < p.next(event).place() <= BRIDGES * (MAILBOXES + 1),
{
}

/// A mailbox that tells its version ends the search, and nothing follows on it.
pub proof fn lemma_probe_stops_at_a_hit(
    b: usize,
    m: usize,
    ret: u32,
    arg0: u32,
    event: ProbeEventModel,
)
    requires
        is_hit(ret, arg0),
    ensures
        (Probe::Ask { bridge: b, mailbox: m }).next(ProbeEventModel::Reply { ret, arg0 }).next(event)
            == Probe::Hit,
{
}

} // verus!

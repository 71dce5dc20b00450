//! Direct control of the system management unit: the messages it takes, how
//! their values are written, and what its responses mean.
use vstd::prelude::*;

use crate::lists::{first, lemma_first_at, lemma_first_none, put, seen, views};
use crate::numbers::{
    dec, dec_text, decimal_i64, hex, hex_text, left, pad_left, pad_right, parse_i64, right,
};
use crate::smn::{Mailbox, Smn};
use crate::smu::{cpu_message, cpu_supported, require_supported_cpu, CpuError};
use crate::text::{chars, lower, lowered, owned, same, separated, spells};

verus! {

// ---------- the messages ----------

/// A message: the names it goes by, its number, the unit of its value, and what
/// it does.
#[derive(Clone, Debug)]
pub struct Cmd {
    pub names: Vec<&'static str>,
    pub id: u32,
    pub unit: &'static str,
    pub desc: &'static str,
}

/// What a `Cmd` says.
#[verifier::ext_equal]
pub struct CmdModel {
    pub names: Seq<Seq<char>>,
    pub id: u32,
    pub unit: Seq<char>,
    pub desc: Seq<char>,
}

impl View for Cmd {
    type V = CmdModel;

    open spec fn view(&self) -> CmdModel {
        CmdModel { names: views(self.names@), id: self.id, unit: self.unit@, desc: self.desc@ }
    }
}

/// How many messages there are.
pub const MESSAGES: usize = 19;

pub open spec fn entry(
    names: Seq<Seq<char>>,
    id: u32,
    unit: Seq<char>,
    desc: Seq<char>,
) -> CmdModel {
    CmdModel { names, id, unit, desc }
}

/// The message at a place of the table.
pub open spec fn message(i: int) -> CmdModel {
    if i == 0 {
        entry(seq!["stapm-limit"@, "stapm"@], 0x14, "mW"@, "STAPM 持续功耗墙"@)
    } else if i == 1 {
        entry(seq!["fast-limit"@, "fast"@], 0x15, "mW"@, "PPT 快速功耗墙"@)
    } else if i == 2 {
        entry(seq!["slow-limit"@, "slow"@], 0x16, "mW"@, "PPT 慢速功耗墙"@)
    } else if i == 3 {
        entry(seq!["slow-time"@], 0x17, "s"@, "PPT 慢速时间常数"@)
    } else if i == 4 {
        entry(seq!["stapm-time"@], 0x18, "s"@, "STAPM 时间常数"@)
    } else if i == 5 {
        entry(seq!["tctl-temp"@, "tctl"@], 0x19, "°C"@, "温度墙"@)
    } else if i == 6 {
        entry(seq!["vrm-current"@, "tdc"@], 0x1A, "mA"@, "TDC VDD 电流限制"@)
    } else if i == 7 {
        entry(seq!["vrmsoc-current"@], 0x1B, "mA"@, "TDC SoC 电流限制"@)
    } else if i == 8 {
        entry(seq!["vrmmax-current"@, "edc"@], 0x1C, "mA"@, "EDC VDD 电流限制"@)
    } else if i == 9 {
        entry(seq!["vrmsocmax-current"@], 0x1D, "mA"@, "EDC SoC 电流限制"@)
    } else if i == 10 {
        entry(seq!["prochot-ramp"@], 0x1F, "?"@, "Prochot 释放斜坡时间"@)
    } else if i == 11 {
        entry(seq!["dgpu-skin-temp"@], 0x34, "°C"@, "dGPU 表皮温度限制"@)
    } else if i == 12 {
        entry(seq!["skin-temp-power"@], 0x4A, "mW"@, "表皮温度功耗限制"@)
    } else if i == 13 {
        entry(seq!["coall"@, "co"@], 0x4C, "CO"@, "全核 Curve Optimizer (28 位补码, 负值=降压)"@)
    } else if i == 14 {
        entry(seq!["coper"@], 0x4B, "CO"@, "单核 Curve Optimizer (参数结构未验证)"@)
    } else if i == 15 {
        entry(seq!["psi0-current"@], 0x1E, "mA"@, "PSI0 电流限制 (判别实验: 45000 被接受且不钉频)"@)
    } else if i == 16 {
        entry(seq!["apu-slow-limit"@], 0x23, "mW"@, "APU 慢速功耗墙 (判别实验: 45000mW 接受且不钉频, mW 语义实锤)"@)
    } else if i == 17 {
        entry(seq!["power-saving"@], 0x12, "?"@, "省电模式 (未验证)"@)
    } else {
        entry(seq!["max-performance"@], 0x11, "?"@, "最大性能模式 (未验证)"@)
    }
}

/// All messages.
pub open spec fn messages() -> Seq<CmdModel> {
    Seq::new(MESSAGES as nat, |i: int| message(i))
}

fn one(name: &'static str, id: u32, unit: &'static str, desc: &'static str) -> (r: Cmd)
    ensures
        r@ == entry(seq![name@], id, unit@, desc@),
{
    let mut names: Vec<&'static str> = Vec::new();
    names.push(name);
    let r = Cmd { names, id, unit, desc };
    assert(r@.names =~= seq![name@]);
    r
}

fn two(
    name: &'static str,
    alias: &'static str,
    id: u32,
    unit: &'static str,
    desc: &'static str,
) -> (r: Cmd)
    ensures
        r@ == entry(seq![name@, alias@], id, unit@, desc@),
{
    let mut names: Vec<&'static str> = Vec::new();
    names.push(name);
    names.push(alias);
    let r = Cmd { names, id, unit, desc };
    assert(r@.names =~= seq![name@, alias@]);
    r
}

fn message_at(i: usize) -> (r: Cmd)
    ensures
        r@ == message(i as int),
{
    if i == 0 {
        two("stapm-limit", "stapm", 0x14, "mW", "STAPM 持续功耗墙")
    } else if i == 1 {
        two("fast-limit", "fast", 0x15, "mW", "PPT 快速功耗墙")
    } else if i == 2 {
        two("slow-limit", "slow", 0x16, "mW", "PPT 慢速功耗墙")
    } else if i == 3 {
        one("slow-time", 0x17, "s", "PPT 慢速时间常数")
    } else if i == 4 {
        one("stapm-time", 0x18, "s", "STAPM 时间常数")
    } else if i == 5 {
        two("tctl-temp", "tctl", 0x19, "°C", "温度墙")
    } else if i == 6 {
        two("vrm-current", "tdc", 0x1A, "mA", "TDC VDD 电流限制")
    } else if i == 7 {
        one("vrmsoc-current", 0x1B, "mA", "TDC SoC 电流限制")
    } else if i == 8 {
        two("vrmmax-current", "edc", 0x1C, "mA", "EDC VDD 电流限制")
    } else if i == 9 {
        one("vrmsocmax-current", 0x1D, "mA", "EDC SoC 电流限制")
    } else if i == 10 {
        one("prochot-ramp", 0x1F, "?", "Prochot 释放斜坡时间")
    } else if i == 11 {
        one("dgpu-skin-temp", 0x34, "°C", "dGPU 表皮温度限制")
    } else if i == 12 {
        one("skin-temp-power", 0x4A, "mW", "表皮温度功耗限制")
    } else if i == 13 {
        two("coall", "co", 0x4C, "CO", "全核 Curve Optimizer (28 位补码, 负值=降压)")
    } else if i == 14 {
        one("coper", 0x4B, "CO", "单核 Curve Optimizer (参数结构未验证)")
    } else if i == 15 {
        one("psi0-current", 0x1E, "mA", "PSI0 电流限制 (判别实验: 45000 被接受且不钉频)")
    } else if i == 16 {
        one("apu-slow-limit", 0x23, "mW", "APU 慢速功耗墙 (判别实验: 45000mW 接受且不钉频, mW 语义实锤)")
    } else if i == 17 {
        one("power-saving", 0x12, "?", "省电模式 (未验证)")
    } else {
        one("max-performance", 0x11, "?", "最大性能模式 (未验证)")
    }
}

/// Whether a message goes by the name, whatever the case of its letters.
pub open spec fn goes_by(c: CmdModel, name: Seq<char>) -> bool {
    exists|j: int| 0 <= j < c.names.len() && lower(#[trigger] c.names[j]) == lower(name)
}

pub open spec fn named(name: Seq<char>) -> spec_fn(CmdModel) -> Option<CmdModel> {
    |c: CmdModel|
        if goes_by(c, name) {
            Some(c)
        } else {
            None
        }
}

/// The first message that goes by the name.
pub fn find(name: &str) -> (r: Option<Cmd>)
    ensures
        seen(r) == first(messages(), named(name@)),
{
    let wanted = lowered(chars(name).as_slice());
    let mut i: usize = 0;
    while i < MESSAGES
        invariant
            i <= MESSAGES,
            wanted@ == lower(name@),
            forall|k: int| 0 <= k < i ==> named(name@)(#[trigger] messages()[k]) is None,
        decreases MESSAGES - i,
    {
        let c = message_at(i);
        let mut j: usize = 0;
        let mut hit = false;
        while j < c.names.len()
            invariant
                j <= c.names.len(),
                wanted@ == lower(name@),
                hit == (exists|k: int|
                    0 <= k < j && lower(#[trigger] c@.names[k]) == lower(name@)),
            decreases c.names.len() - j,
        {
            assert(c@.names[j as int] == c.names@[j as int]@);
            if same(lowered(chars(c.names[j]).as_slice()).as_slice(), wanted.as_slice()) {
                hit = true;
            }
            j = j + 1;
        }
        assert(messages()[i as int] == c@);
        if hit {
            assert(goes_by(c@, name@));
            proof {
                lemma_first_at(messages(), named(name@), i as int);
            }
            return Some(c);
        }
        assert(!goes_by(c@, name@));
        i = i + 1;
    }
    proof {
        lemma_first_none(messages(), named(name@));
    }
    None
}

/// The place of the message that goes by a name in small letters.
spec fn place_of(s: Seq<char>) -> int {
    if s.len() == 2 {
        13
    } else if s.len() == 3 {
        if s[0] == 'e' {
            8
        } else {
            6
        }
    } else if s.len() == 4 {
        if s[0] == 'f' {
            1
        } else if s[0] == 's' {
            2
        } else {
            5
        }
    } else if s.len() == 5 {
        if s[0] == 'c' {
            if s[2] == 'a' {
                13
            } else {
                14
            }
        } else {
            0
        }
    } else if s.len() == 9 {
        if s[0] == 's' {
            3
        } else {
            5
        }
    } else if s.len() == 10 {
        if s[0] == 'f' {
            1
        } else {
            if s[2] == 'a' {
                4
            } else {
                2
            }
        }
    } else if s.len() == 11 {
        if s[0] == 's' {
            0
        } else {
            6
        }
    } else if s.len() == 12 {
        if s[2] == 'i' {
            15
        } else if s[2] == 'o' {
            10
        } else {
            17
        }
    } else if s.len() == 14 {
        if s[0] == 'a' {
            16
        } else if s[0] == 'd' {
            11
        } else {
            if s[3] == 'm' {
                8
            } else {
                7
            }
        }
    } else if s.len() == 15 {
        if s[0] == 'm' {
            18
        } else {
            12
        }
    } else if s.len() == 17 {
        9
    } else {
        -1
    }
}

proof fn lemma_place_of_name(i: int, j: int)
    requires
        0 <= i < MESSAGES,
        0 <= j < message(i).names.len(),
    ensures
        place_of(lower(message(i).names[j])) == i,
{
    if i == 0 {
        reveal_strlit("stapm-limit");
        reveal_strlit("stapm");
    } else if i == 1 {
        reveal_strlit("fast-limit");
        reveal_strlit("fast");
    } else if i == 2 {
        reveal_strlit("slow-limit");
        reveal_strlit("slow");
    } else if i == 3 {
        reveal_strlit("slow-time");
    } else if i == 4 {
        reveal_strlit("stapm-time");
    } else if i == 5 {
        reveal_strlit("tctl-temp");
        reveal_strlit("tctl");
    } else if i == 6 {
        reveal_strlit("vrm-current");
        reveal_strlit("tdc");
    } else if i == 7 {
        reveal_strlit("vrmsoc-current");
    } else if i == 8 {
        reveal_strlit("vrmmax-current");
        reveal_strlit("edc");
    } else if i == 9 {
        reveal_strlit("vrmsocmax-current");
    } else if i == 10 {
        reveal_strlit("prochot-ramp");
    } else if i == 11 {
        reveal_strlit("dgpu-skin-temp");
    } else if i == 12 {
        reveal_strlit("skin-temp-power");
    } else if i == 13 {
        reveal_strlit("coall");
        reveal_strlit("co");
    } else if i == 14 {
        reveal_strlit("coper");
    } else if i == 15 {
        reveal_strlit("psi0-current");
    } else if i == 16 {
        reveal_strlit("apu-slow-limit");
    } else if i == 17 {
        reveal_strlit("power-saving");
    } else {
        reveal_strlit("max-performance");
    }
}

/// No name is shared: each message is found by each of its names, in whatever
/// case it is written.
pub proof fn lemma_each_name_finds_its_message(i: int, j: int, name: Seq<char>)
    requires
        0 <= i < MESSAGES,
        0 <= j < message(i).names.len(),
        lower(name) == lower(message(i).names[j]),
    ensures
        first(messages(), named(name)) == Some(message(i)),
{
    lemma_place_of_name(i, j);
    assert(goes_by(message(i), name));
    assert forall|k: int| 0 <= k < i implies named(name)(#[trigger] messages()[k]) is None by {
        if goes_by(message(k), name) {
            let m = choose|m: int|
                0 <= m < message(k).names.len() && lower(#[trigger] message(k).names[m]) == lower(
                    name,
                );
            lemma_place_of_name(k, m);
        }
    }
    lemma_first_at(messages(), named(name), i);
}

// ---------- the values ----------

/// The message for all cores, and that for one, whose values are offsets on a
/// curve.
pub const ALL_CORES: u32 = 0x4C;

pub const ONE_CORE: u32 = 0x4B;

/// How a value is written for a message: an offset in the 28 bits of two's
/// complement, if it fits in, and any other value in 32 bits.
pub open spec fn encoded(id: u32, value: i64) -> Option<u32> {
    if id == ALL_CORES || id == ONE_CORE {
        if -0x800_0000 <= value < 0x800_0000 {
            Some((value as int % 0x1000_0000) as u32)
        } else {
            None
        }
    } else {
        Some((value as int % 0x1_0000_0000) as u32)
    }
}

/// The offset that 28 bits in two's complement stand for.
pub open spec fn offset_of(raw: u32) -> int {
    if raw < 0x800_0000 {
        raw as int
    } else {
        raw - 0x1000_0000
    }
}

/// An offset that is written reads back as the same offset, and takes no more
/// than 28 bits.
pub proof fn lemma_offset_reads_back(id: u32, value: i64)
    requires
        id == ALL_CORES || id == ONE_CORE,
    ensures
        encoded(id, value) matches Some(raw) ==> raw < 0x1000_0000 && offset_of(raw) == value,
{
}

/// A value that is no offset and fits in 32 bits is written as it is.
pub proof fn lemma_plain_value_is_kept(id: u32, value: i64)
    requires
        id != ALL_CORES,
        id != ONE_CORE,
        0 <= value <= u32::MAX,
    ensures
        encoded(id, value) == Some(value as u32),
{
}

fn encode(id: u32, value: i64) -> (r: Option<u32>)
    ensures
        r == encoded(id, value),
{
    if id == ALL_CORES || id == ONE_CORE {
        if -0x800_0000 <= value && value < 0x800_0000 {
            if value < 0 {
                Some((value + 0x1000_0000) as u32)
            } else {
                Some(value as u32)
            }
        } else {
            None
        }
    } else if value >= 0 {
        Some((value as u64 % 0x1_0000_0000) as u32)
    } else {
        let below: u64 = (-(value + 1)) as u64 % 0x1_0000_0000;
        assert(value as int % 0x1_0000_0000 == 0xFFFF_FFFF - below);
        Some((0xFFFF_FFFF - below) as u32)
    }
}

// ---------- the request ----------

#[derive(Clone, Debug)]
pub enum CtlError {
    /// No value was given for this message.
    NoValue(String),
    /// This value is not a whole number.
    NotWhole(String),
    /// No message goes by this name.
    UnknownMessage(String),
    /// This offset does not fit.
    OutOfRange(i64),
    Cpu(CpuError),
    /// The responses other than that for success.
    Failed,
    UnknownCmd,
    Rejected,
    Busy,
    Response(u32),
}

/// What a `CtlError` says.
#[verifier::ext_equal]
pub enum CtlErrorModel {
    NoValue(Seq<char>),
    NotWhole(Seq<char>),
    UnknownMessage(Seq<char>),
    OutOfRange(i64),
    Cpu(CpuError),
    Failed,
    UnknownCmd,
    Rejected,
    Busy,
    Response(u32),
}

impl View for CtlError {
    type V = CtlErrorModel;

    open spec fn view(&self) -> CtlErrorModel {
        match self {
            CtlError::NoValue(name) => CtlErrorModel::NoValue(name@),
            CtlError::NotWhole(text) => CtlErrorModel::NotWhole(text@),
            CtlError::UnknownMessage(name) => CtlErrorModel::UnknownMessage(name@),
            CtlError::OutOfRange(value) => CtlErrorModel::OutOfRange(*value),
            CtlError::Cpu(e) => CtlErrorModel::Cpu(*e),
            CtlError::Failed => CtlErrorModel::Failed,
            CtlError::UnknownCmd => CtlErrorModel::UnknownCmd,
            CtlError::Rejected => CtlErrorModel::Rejected,
            CtlError::Busy => CtlErrorModel::Busy,
            CtlError::Response(r) => CtlErrorModel::Response(*r),
        }
    }
}

/// A whole number with its sign, in decimal.
pub open spec fn signed(n: int) -> Seq<char> {
    if n < 0 {
        "-"@ + dec((-n) as nat)
    } else {
        dec(n as nat)
    }
}

fn signed_text(n: i64) -> (r: String)
    ensures
        r@ == signed(n as int),
{
    if n < 0 {
        let magnitude: u64 = (-(n + 1)) as u64 + 1;
        owned("-").concat(dec_text(magnitude).as_str())
    } else {
        dec_text(n as u64)
    }
}

pub open spec fn ctl_message(e: CtlErrorModel, cause: Seq<char>) -> Seq<char> {
    match e {
        CtlErrorModel::NoValue(name) => "缺少值: rustinfo smuctl "@ + name
            + " <值>   (list 查看全部消息)"@,
        CtlErrorModel::NotWhole(text) => "值 \""@ + text + "\" 不是整数 (CO 负值直接写 -27): "@
            + cause,
        CtlErrorModel::UnknownMessage(name) => "未知消息 \""@ + name
            + "\" — 用 `rustinfo smuctl list` 查看全部 ("@ + dec(MESSAGES as nat) + ")"@,
        CtlErrorModel::OutOfRange(value) => "CO 值 "@ + signed(value as int)
            + " 超出 28 位补码范围 (±134217728)"@,
        CtlErrorModel::Cpu(e) => cpu_message(e, cause),
        CtlErrorModel::Failed => "❌ SMU 拒绝执行 (Failed) — 值可能超出固件允许范围"@,
        CtlErrorModel::UnknownCmd => "❌ UnknownCmd — 此 PMFW 不支持该消息"@,
        CtlErrorModel::Rejected => "❌ RejectedPrereq — 前置条件不满足"@,
        CtlErrorModel::Busy => "❌ Busy — SMU 忙, 稍后重试"@,
        CtlErrorModel::Response(r) => "未知响应 0x"@ + hex(r as nat, 0),
    }
}

impl CtlError {
    /// The error in words; `cause` is why a text is not a number, or why a file
    /// could not be read.
    pub fn message(&self, cause: &str) -> (r: String)
        ensures
            r@ == ctl_message(self@, cause@),
    {
        match self {
            CtlError::NoValue(name) => owned("缺少值: rustinfo smuctl ").concat(
                name.as_str(),
            ).concat(" <值>   (list 查看全部消息)"),
            CtlError::NotWhole(text) => owned("值 \"").concat(text.as_str()).concat(
                "\" 不是整数 (CO 负值直接写 -27): ",
            ).concat(cause),
            CtlError::UnknownMessage(name) => owned("未知消息 \"").concat(name.as_str()).concat(
                "\" — 用 `rustinfo smuctl list` 查看全部 (",
            ).concat(dec_text(MESSAGES as u64).as_str()).concat(")"),
            CtlError::OutOfRange(value) => owned("CO 值 ").concat(
                signed_text(*value).as_str(),
            ).concat(" 超出 28 位补码范围 (±134217728)"),
            CtlError::Cpu(e) => e.message(cause),
            CtlError::Failed => owned("❌ SMU 拒绝执行 (Failed) — 值可能超出固件允许范围"),
            CtlError::UnknownCmd => owned("❌ UnknownCmd — 此 PMFW 不支持该消息"),
            CtlError::Rejected => owned("❌ RejectedPrereq — 前置条件不满足"),
            CtlError::Busy => owned("❌ Busy — SMU 忙, 稍后重试"),
            CtlError::Response(r) => owned("未知响应 0x").concat(hex_text(*r as u64, 0).as_str()),
        }
    }
}

/// A message that is to be sent, with its value as it was given and as it is
/// written.
#[derive(Clone, Debug)]
pub struct Order {
    pub name: String,
    pub value: i64,
    pub id: u32,
    pub unit: &'static str,
    pub raw: u32,
}

/// What an `Order` says.
#[verifier::ext_equal]
pub struct OrderModel {
    pub name: Seq<char>,
    pub value: i64,
    pub id: u32,
    pub unit: Seq<char>,
    pub raw: u32,
}

impl View for Order {
    type V = OrderModel;

    open spec fn view(&self) -> OrderModel {
        OrderModel {
            name: self.name@,
            value: self.value,
            id: self.id,
            unit: self.unit@,
            raw: self.raw,
        }
    }
}

/// The order that a name and a value make, or why they make none.
pub open spec fn ordered(
    name: Seq<char>,
    value: i64,
    forced: Option<Seq<char>>,
    cpuinfo: Option<Seq<char>>,
) -> Result<OrderModel, CtlErrorModel> {
    match first(messages(), named(name)) {
        None => Err(CtlErrorModel::UnknownMessage(name)),
        Some(c) => match encoded(c.id, value) {
            None => Err(CtlErrorModel::OutOfRange(value)),
            Some(raw) => match cpu_supported(forced, cpuinfo) {
                Err(e) => Err(CtlErrorModel::Cpu(e)),
                Ok(u) => Ok(OrderModel { name, value, id: c.id, unit: c.unit, raw }),
            },
        },
    }
}

pub open spec fn same_result(
    r: Result<Order, CtlError>,
    m: Result<OrderModel, CtlErrorModel>,
) -> bool {
    match (r, m) {
        (Ok(a), Ok(b)) => a@ == b,
        (Err(a), Err(b)) => a@ == b,
        _ => false,
    }
}

/// Makes an order of a name and a value. It is only made for a processor whose
/// mailbox and messages are known.
pub fn set(name: &str, value: i64, forced: Option<&str>, cpuinfo: Option<&str>) -> (r: Result<
    Order,
    CtlError,
>)
    ensures
        same_result(r, ordered(name@, value, seen(forced), seen(cpuinfo))),
{
    let c = match find(name) {
        Some(c) => c,
        None => {
            return Err(CtlError::UnknownMessage(owned(name)));
        },
    };
    let raw: u32 = match encode(c.id, value) {
        Some(raw) => raw,
        None => {
            return Err(CtlError::OutOfRange(value));
        },
    };
    match require_supported_cpu(forced, cpuinfo) {
        Ok(()) => Ok(Order { name: owned(name), value, id: c.id, unit: c.unit, raw }),
        Err(e) => Err(CtlError::Cpu(e)),
    }
}

/// What the arguments ask for.
#[derive(Clone, Debug)]
pub enum Request {
    List,
    Send(Order),
}

/// Whether the arguments ask for the list of messages.
pub open spec fn asks_for_list(args: Seq<Seq<char>>) -> bool {
    args.len() == 0 || args[0] == "list"@ || args[0] == "-h"@ || args[0] == "--help"@
}

pub open spec fn requested(
    r: Result<Request, CtlError>,
    args: Seq<Seq<char>>,
    forced: Option<Seq<char>>,
    cpuinfo: Option<Seq<char>>,
) -> bool {
    if asks_for_list(args) {
        r matches Ok(Request::List)
    } else if args.len() < 2 {
        r matches Err(e) && e@ == CtlErrorModel::NoValue(args[0])
    } else {
        match decimal_i64(args[1]) {
            None => r matches Err(e) && e@ == CtlErrorModel::NotWhole(args[1]),
            Some(v) => match (r, ordered(args[0], v as i64, forced, cpuinfo)) {
                (Ok(Request::Send(a)), Ok(b)) => a@ == b,
                (Err(a), Err(b)) => a@ == b,
                _ => false,
            },
        }
    }
}

/// What is asked for by `list`, or by the name of a message and its value.
pub fn run(args: &[String], forced: Option<&str>, cpuinfo: Option<&str>) -> (r: Result<
    Request,
    CtlError,
>)
    ensures
        requested(r, views(args@), seen(forced), seen(cpuinfo)),
{
    if args.len() == 0 {
        return Ok(Request::List);
    }
    assert(views(args@)[0] == args@[0]@);
    let name = chars(args[0].as_str());
    if spells(name.as_slice(), "list") || spells(name.as_slice(), "-h") || spells(
        name.as_slice(),
        "--help",
    ) {
        return Ok(Request::List);
    }
    if args.len() < 2 {
        return Err(CtlError::NoValue(owned(args[0].as_str())));
    }
    assert(views(args@)[1] == args@[1]@);
    match parse_i64(chars(args[1].as_str()).as_slice()) {
        None => Err(CtlError::NotWhole(owned(args[1].as_str()))),
        Some(v) => match set(args[0].as_str(), v, forced, cpuinfo) {
            Ok(order) => Ok(Request::Send(order)),
            Err(e) => Err(e),
        },
    }
}

// ---------- the mailbox and its responses ----------

/// The bridge to the mailbox that takes the messages.
pub fn ctl_bridge() -> (r: Smn)
    ensures
        r == (Smn { idx_reg: 0xB8, data_reg: 0xBC }),
{
    Smn { idx_reg: 0xB8, data_reg: 0xBC }
}

pub fn ctl_mailbox() -> (r: Mailbox)
    ensures
        r == (Mailbox { cmd: 0x3B10_928, rsp: 0x3B10_978, args: 0x3B10_998 }),
{
    Mailbox { cmd: 0x3B10_928, rsp: 0x3B10_978, args: 0x3B10_998 }
}

impl Order {
    /// The arguments of the message.
    pub fn args(&self) -> (r: [u32; 6])
        ensures
            r@ == seq![self.raw, 0, 0, 0, 0, 0],
    {
        let r = [self.raw, 0, 0, 0, 0, 0];
        assert(r@ =~= seq![self.raw, 0, 0, 0, 0, 0]);
        r
    }
}

/// A word as a whole number in 32 bits of two's complement.
pub open spec fn as_signed(w: u32) -> int {
    if w < 0x8000_0000 {
        w as int
    } else {
        w - 0x1_0000_0000
    }
}

/// What is printed where a message was taken.
pub open spec fn taken(o: OrderModel, arg0: u32) -> Seq<Seq<char>> {
    let told = "✅ "@ + o.name + " (0x"@ + hex(o.id as nat, 2) + ") ← "@ + signed(o.value as int)
        + " "@ + o.unit + " — SMU 响应 OK"@;
    if o.id == ALL_CORES {
        seq![told, "   SMU 读回 arg0 = "@ + signed(as_signed(arg0)) + " (CO 步进值)"@]
    } else {
        seq![told]
    }
}

/// What a response means for the message: what is printed, or the error.
pub open spec fn response(o: OrderModel, resp: u32, arg0: u32) -> Result<
    Seq<Seq<char>>,
    CtlErrorModel,
> {
    if resp == 1 {
        Ok(taken(o, arg0))
    } else if resp == 0xFF {
        Err(CtlErrorModel::Failed)
    } else if resp == 0xFE {
        Err(CtlErrorModel::UnknownCmd)
    } else if resp == 0xFD {
        Err(CtlErrorModel::Rejected)
    } else if resp == 0xFC {
        Err(CtlErrorModel::Busy)
    } else {
        Err(CtlErrorModel::Response(resp))
    }
}

/// What a response means for the message: what is printed, or the error.
pub fn answer(order: &Order, resp: u32, arg0: u32) -> (r: Result<Vec<String>, CtlError>)
    ensures
        match r {
            Ok(lines) => resp == 1 && views(lines@) == taken(order@, arg0),
            Err(e) => {
                &&& resp != 1
                &&& e@ == (if resp == 0xFF {
                    CtlErrorModel::Failed
                } else if resp == 0xFE {
                    CtlErrorModel::UnknownCmd
                } else if resp == 0xFD {
                    CtlErrorModel::Rejected
                } else if resp == 0xFC {
                    CtlErrorModel::Busy
                } else {
                    CtlErrorModel::Response(resp)
                })
            },
        },
        match (r, response(order@, resp, arg0)) {
            (Ok(a), Ok(b)) => views(a@) == b,
            (Err(a), Err(b)) => a@ == b,
            _ => false,
        },
{
    if resp == 1 {
        let mut lines: Vec<String> = Vec::new();
        put(
            &mut lines,
            owned("✅ ").concat(order.name.as_str()).concat(" (0x").concat(
                hex_text(order.id as u64, 2).as_str(),
            ).concat(") ← ").concat(signed_text(order.value).as_str()).concat(" ").concat(
                order.unit,
            ).concat(" — SMU 响应 OK"),
        );
        if order.id == ALL_CORES {
            let back: i64 = if arg0 < 0x8000_0000 {
                arg0 as i64
            } else {
                arg0 as i64 - 0x1_0000_0000
            };
            put(
                &mut lines,
                owned("   SMU 读回 arg0 = ").concat(signed_text(back).as_str()).concat(
                    " (CO 步进值)",
                ),
            );
        }
        assert(views(lines@) =~= taken(order@, arg0));
        Ok(lines)
    } else if resp == 0xFF {
        Err(CtlError::Failed)
    } else if resp == 0xFE {
        Err(CtlError::UnknownCmd)
    } else if resp == 0xFD {
        Err(CtlError::Rejected)
    } else if resp == 0xFC {
        Err(CtlError::Busy)
    } else {
        Err(CtlError::Response(resp))
    }
}

// ---------- the list ----------

pub open spec fn list_line(c: CmdModel) -> Seq<char> {
    left(separated(c.names, "/"@), 22) + " 0x"@ + hex(c.id as nat, 4) + " "@ + right(c.unit, ' ', 8)
        + "  "@ + c.desc
}

pub open spec fn list_lines() -> Seq<Seq<char>> {
    seq![
        left("名称(别名)"@, 22) + " "@ + right("msg"@, ' ', 6) + " "@ + right("单位"@, ' ', 8)
            + "  "@ + "说明"@,
    ] + Seq::new(MESSAGES as nat, |i: int| list_line(message(i))) + seq![
        ""@,
        "用法: rustinfo smuctl <名称> <值>"@,
        "示例: rustinfo smuctl co -27   |   rustinfo smuctl psi0-current 45000"@,
        "所有写入均为易失状态, 重启回 BIOS 默认; 响应码实时校验 (OK/Failed/UnknownCmd/Rejected)。"@,
    ]
}

fn join_names(names: &Vec<&'static str>) -> (r: String)
    ensures
        r@ == separated(views(names@), "/"@),
{
    if names.len() == 0 {
        let r = owned("");
        proof {
            reveal_strlit("");
        }
        assert(r@ =~= Seq::<char>::empty());
        return r;
    }
    let ghost all = views(names@);
    let mut out = owned(names[0]);
    let mut i: usize = 1;
    assert(all.take(1)[0] == names@[0]@);
    while i < names.len()
        invariant
            1 <= i <= names.len(),
            all == views(names@),
            out@ == separated(all.take(i as int), "/"@),
        decreases names.len() - i,
    {
        assert(all.take(i + 1).drop_last() =~= all.take(i as int));
        assert(all.take(i + 1).last() == names@[i as int]@);
        out = out.concat("/").concat(names[i]);
        i = i + 1;
    }
    assert(all.take(i as int) =~= all);
    out
}

/// The list of all messages, as it is printed.
pub fn list() -> (r: Vec<String>)
    ensures
        views(r@) == list_lines(),
{
    let mut out: Vec<String> = Vec::new();
    put(
        &mut out,
        pad_right("名称(别名)", 22).concat(" ").concat(pad_left("msg", ' ', 6).as_str()).concat(
            " ",
        ).concat(pad_left("单位", ' ', 8).as_str()).concat("  ").concat("说明"),
    );
    let ghost head = views(out@);
    let mut i: usize = 0;
    while i < MESSAGES
        invariant
            i <= MESSAGES,
            views(out@) =~= head + Seq::new(i as nat, |k: int| list_line(message(k))),
        decreases MESSAGES - i,
    {
        let c = message_at(i);
        put(
            &mut out,
            pad_right(join_names(&c.names).as_str(), 22).concat(" 0x").concat(
                hex_text(c.id as u64, 4).as_str(),
            ).concat(" ").concat(pad_left(c.unit, ' ', 8).as_str()).concat("  ").concat(c.desc),
        );
        i = i + 1;
    }
    put(&mut out, owned(""));
    put(&mut out, owned("用法: rustinfo smuctl <名称> <值>"));
    put(&mut out, owned("示例: rustinfo smuctl co -27   |   rustinfo smuctl psi0-current 45000"));
    put(
        &mut out,
        owned(
            "所有写入均为易失状态, 重启回 BIOS 默认; 响应码实时校验 (OK/Failed/UnknownCmd/Rejected)。",
        ),
    );
    assert(views(out@) =~= list_lines());
    out
}

/// On a processor whose mailbox is not known, no order is made.
pub proof fn lemma_no_order_on_an_unknown_processor(
    name: Seq<char>,
    value: i64,
    forced: Option<Seq<char>>,
    cpuinfo: Option<Seq<char>>,
)
    requires
        cpu_supported(forced, cpuinfo) is Err,
    ensures
        ordered(name, value, forced, cpuinfo) is Err,
{
}

} // verus!

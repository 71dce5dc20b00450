//! The way to the telemetry table of the system management unit: three commands
//! that only read, a look at the memory map, and the table itself.
use vstd::prelude::*;

use crate::firmware::{word, word_at_offset};
use crate::lists::{first, lemma_first_at, lemma_first_none, put, seen, views};
use crate::numbers::{dec, dec_text, hex, hex_text, hexadecimal_u64, parse_hex};
use crate::output::{plain, text_row, Piece, PieceModel, Row};
use crate::smn::{Mailbox, Smn};
use crate::smu::{cpu_supported, require_supported_cpu, CpuError};
use crate::text::{
    chars, contains, cut, cut_text, in_lower_case, lines, occurs, owned, split_lines, split_once,
    split_once_text, string, trim, trimmed,
};

verus! {

/// The bridge and the mailbox that take the commands.
pub open spec fn table_bridge() -> Smn {
    Smn { idx_reg: 0xC4, data_reg: 0xC8 }
}

pub open spec fn table_mailbox() -> Mailbox {
    Mailbox { cmd: 0x3B10_A20, rsp: 0x3B10_A80, args: 0x3B10_A88 }
}

/// The bridge through which the table is asked for.
pub fn bridge_of_table() -> (r: Smn)
    ensures
        r == table_bridge(),
{
    Smn { idx_reg: 0xC4, data_reg: 0xC8 }
}

fn mailbox_of_table() -> (r: Mailbox)
    ensures
        r == table_mailbox(),
{
    Mailbox { cmd: 0x3B10_A20, rsp: 0x3B10_A80, args: 0x3B10_A88 }
}

/// The commands: the version of the table, its address, and its transfer.
pub const VERSION: u32 = 0x06;

pub const ADDRESS: u32 = 0x66;

pub const TRANSFER: u32 = 0x65;

/// The highest address that is believed.
pub const HIGHEST: u64 = 0x8000_0000_0000;

/// The most, and the least, that is read of the table.
pub const MOST: u64 = 0x1000;

pub const LEAST: u64 = 0x100;

/// What is printed before the first command.
pub fn table_heading() -> (r: &'static str)
    ensures
        r@ == "== 1/4 pm_table 版本 (cmd 0x06) =="@,
{
    "== 1/4 pm_table 版本 (cmd 0x06) =="
}

/// Where the table is kept once it was read.
pub fn table_path() -> (r: &'static str)
    ensures
        r@ == "/tmp/smu_pm_table.bin"@,
{
    "/tmp/smu_pm_table.bin"
}

// ---------- the memory map ----------

/// The first and the last address, and the label, on a line of the memory map.
pub open spec fn map_line(line: Seq<char>) -> Option<(int, int, Seq<char>)> {
    match cut_text(line, " : "@) {
        Some((range, label)) => match cut(trimmed(range), '-') {
            Some((a, b)) => match (hexadecimal_u64(a), hexadecimal_u64(b)) {
                (Some(start), Some(end)) => Some((start, end, trimmed(label))),
                _ => None,
            },
            None => None,
        },
        None => None,
    }
}

/// The label of the region that the line gives, and how many bytes there are in
/// it from the address on, where it holds the address.
pub open spec fn region_fn(base: u64) -> spec_fn(Seq<char>) -> Option<(Seq<char>, int)> {
    |line: Seq<char>|
        match map_line(line) {
            Some((start, end, label)) => if start <= base <= end {
                Some((label, end - base + 1))
            } else {
                None
            },
            None => None,
        }
}

fn read_map_line(line: &[char]) -> (r: Option<(u64, u64, String)>)
    ensures
        match r {
            Some((a, b, label)) => map_line(line@) == Some((a as int, b as int, label@)),
            None => map_line(line@) is None,
        },
{
    match split_once_text(line, " : ") {
        Some((range, label)) => match split_once(trim(range), '-') {
            Some((a, b)) => match (parse_hex(a), parse_hex(b)) {
                (Some(start), Some(end)) => Some((start, end, string(trim(label)))),
                _ => None,
            },
            None => None,
        },
        None => None,
    }
}

/// Whether every region of the map ends below the last address there is.
pub open spec fn ends_below_the_top(ls: Seq<Seq<char>>) -> bool {
    forall|i: int|
        0 <= i < ls.len() ==> match map_line(#[trigger] ls[i]) {
            Some((start, end, label)) => end < u64::MAX,
            None => true,
        }
}

/// The region that holds the address: its label, and how many bytes there are in
/// it from the address on.
pub fn iomem_region(base: u64, map: &str) -> (r: Option<(String, u64)>)
    requires
        base > 0 || ends_below_the_top(lines(map@)),
    ensures
        match r {
            Some((label, avail)) => first(lines(map@), region_fn(base)) == Some(
                (label@, avail as int),
            ),
            None => first(lines(map@), region_fn(base)) is None,
        },
{
    let t = chars(map);
    let ls = split_lines(t.as_slice());
    let ghost all = lines(map@);
    let mut i: usize = 0;
    while i < ls.len()
        invariant
            i <= ls.len(),
            base > 0 || ends_below_the_top(all),
            views(ls@) == all,
            all == lines(map@),
            forall|j: int| 0 <= j < i ==> region_fn(base)(#[trigger] all[j]) is None,
        decreases ls.len() - i,
    {
        assert(all[i as int] == ls@[i as int]@);
        if let Some((start, end, label)) = read_map_line(ls[i]) {
            if start <= base && base <= end {
                proof {
                    lemma_first_at(all, region_fn(base), i as int);
                }
                return Some((label, end - base + 1));
            }
        }
        i = i + 1;
    }
    proof {
        lemma_first_none(all, region_fn(base));
    }
    None
}

// ---------- the steps ----------

#[derive(Clone, Copy, Debug, PartialEq, Eq, Structural)]
pub enum TableError {
    /// The version was refused with this response.
    Version(u32),
    /// The address was refused with this response.
    Address(u32),
    /// This address cannot be one.
    Base(u64),
    /// The memory map could not be read.
    NoMap,
    /// The memory map does not hold this address.
    Unmapped(u64),
    /// The address is one of main memory.
    SystemRam,
    /// Only this many bytes can be read.
    TooSmall(u64),
    /// The transfer was refused with this response.
    Transfer(u32),
    /// The memory could not be read.
    Memory,
}

pub open spec fn table_message(e: TableError, cause: Seq<char>) -> Seq<char> {
    match e {
        TableError::Version(ret) => "返回 0x"@ + hex(ret as nat, 2)
            + " (0xFE=UnknownCmd → 这代命令号可能平移, 需查 ryzenadj 源码)"@,
        TableError::Address(ret) => "返回 0x"@ + hex(ret as nat, 2),
        TableError::Base(base) => "基址异常: 0x"@ + hex(base as nat, 0),
        TableError::NoMap => "读 /proc/iomem (需 root): "@ + cause,
        TableError::Unmapped(base) => "基址 0x"@ + hex(base as nat, 0) + " 不在任何 iomem 区域内"@,
        TableError::SystemRam => "目标落在 System RAM — 拒绝读取 (安全护栏)"@,
        TableError::TooSmall(len) => "可读区域过小 (0x"@ + hex(len as nat, 0) + ")"@,
        TableError::Transfer(ret) => "传输命令返回 0x"@ + hex(ret as nat, 2),
        TableError::Memory => "/dev/mem 读取失败: "@ + cause
            + " (IO_STRICT_DEVMEM 内核请先加载 module/rustinfo_smu.ko)"@,
    }
}

impl TableError {
    /// The error in words; `cause` is why a file could not be read.
    pub fn message(&self, cause: &str) -> (r: String)
        ensures
            r@ == table_message(*self, cause@),
    {
        match self {
            TableError::Version(ret) => owned("返回 0x").concat(
                hex_text(*ret as u64, 2).as_str(),
            ).concat(" (0xFE=UnknownCmd → 这代命令号可能平移, 需查 ryzenadj 源码)"),
            TableError::Address(ret) => owned("返回 0x").concat(hex_text(*ret as u64, 2).as_str()),
            TableError::Base(base) => owned("基址异常: 0x").concat(hex_text(*base, 0).as_str()),
            TableError::NoMap => owned("读 /proc/iomem (需 root): ").concat(cause),
            TableError::Unmapped(base) => owned("基址 0x").concat(
                hex_text(*base, 0).as_str(),
            ).concat(" 不在任何 iomem 区域内"),
            TableError::SystemRam => owned("目标落在 System RAM — 拒绝读取 (安全护栏)"),
            TableError::TooSmall(len) => owned("可读区域过小 (0x").concat(
                hex_text(*len, 0).as_str(),
            ).concat(")"),
            TableError::Transfer(ret) => owned("传输命令返回 0x").concat(
                hex_text(*ret as u64, 2).as_str(),
            ),
            TableError::Memory => owned("/dev/mem 读取失败: ").concat(cause).concat(
                " (IO_STRICT_DEVMEM 内核请先加载 module/rustinfo_smu.ko)",
            ),
        }
    }
}

/// How far the way to the table has been gone.
#[derive(Clone, Copy, Debug, PartialEq, Eq, Structural)]
pub enum TableRun {
    /// Asks for the version of the table.
    Version,
    /// Asks for its address.
    Address,
    /// Looks the address up in the memory map.
    Regions { base: u64 },
    /// Tries to get the table from the kernel module.
    Module { base: u64, len: u64 },
    /// Has the table transferred.
    Transfer { base: u64, len: u64 },
    /// Reads the memory that holds it.
    Memory { base: u64, len: u64 },
    /// Has the table.
    Ready,
    Failed(TableError),
}

/// What is to be done next.
#[derive(Clone, Copy, Debug, PartialEq, Eq)]
pub enum TableAction {
    Send { mailbox: Mailbox, op: u32, args: [u32; 6] },
    ReadRegions,
    ReadModule,
    ReadMemory { base: u64, len: u64 },
    Ready,
    Failed(TableError),
}

/// What came of it. A table is told by its length.
#[derive(Clone, Debug)]
pub enum TableEvent {
    /// The response to a command, and its first two results.
    Reply { ret: u32, arg0: u32, arg1: u32 },
    /// The memory map, where it could be read.
    Regions(Option<String>),
    /// The table, where it could be read.
    Table(Option<u64>),
}

#[verifier::ext_equal]
pub enum TableEventModel {
    Reply { ret: u32, arg0: u32, arg1: u32 },
    Regions(Option<Seq<char>>),
    Table(Option<u64>),
}

impl View for TableEvent {
    type V = TableEventModel;

    open spec fn view(&self) -> TableEventModel {
        match self {
            TableEvent::Reply { ret, arg0, arg1 } => TableEventModel::Reply {
                ret: *ret,
                arg0: *arg0,
                arg1: *arg1,
            },
            TableEvent::Regions(text) => TableEventModel::Regions(seen(*text)),
            TableEvent::Table(len) => TableEventModel::Table(*len),
        }
    }
}

/// The address that the two results make up.
pub open spec fn address(arg0: u32, arg1: u32) -> u64 {
    (arg0 + 0x1_0000_0000 * arg1) as u64
}

/// What the memory map says of an address: how many bytes are to be read there.
pub open spec fn window(base: u64, map: Option<Seq<char>>) -> Result<u64, TableError> {
    match map {
        None => Err(TableError::NoMap),
        Some(text) => match first(lines(text), region_fn(base)) {
            None => Err(TableError::Unmapped(base)),
            Some((label, avail)) => if occurs(in_lower_case(label), "system ram"@) {
                Err(TableError::SystemRam)
            } else {
                let len = if avail < MOST {
                    avail as u64
                } else {
                    MOST
                };
                if len < LEAST {
                    Err(TableError::TooSmall(len))
                } else {
                    Ok(len)
                }
            },
        },
    }
}

impl TableRun {
    pub open spec fn wf(self) -> bool {
        match self {
            TableRun::Regions { base } => 0 < base <= HIGHEST,
            TableRun::Module { base, len } => 0 < base <= HIGHEST && LEAST <= len <= MOST,
            TableRun::Transfer { base, len } => 0 < base <= HIGHEST && LEAST <= len <= MOST,
            TableRun::Memory { base, len } => 0 < base <= HIGHEST && LEAST <= len <= MOST,
            _ => true,
        }
    }

    /// The state after the event; the same where the event does not fit.
    pub open spec fn next(self, event: TableEventModel) -> TableRun {
        match (self, event) {
            (TableRun::Version, TableEventModel::Reply { ret, arg0, arg1 }) => if ret == 1 {
                TableRun::Address
            } else {
                TableRun::Failed(TableError::Version(ret))
            },
            (TableRun::Address, TableEventModel::Reply { ret, arg0, arg1 }) => {
                let base = address(arg0, arg1);
                if ret != 1 {
                    TableRun::Failed(TableError::Address(ret))
                } else if base == 0 || base > HIGHEST {
                    TableRun::Failed(TableError::Base(base))
                } else {
                    TableRun::Regions { base }
                }
            },
            (TableRun::Regions { base }, TableEventModel::Regions(map)) => match window(base, map) {
                Ok(len) => TableRun::Module { base, len },
                Err(e) => TableRun::Failed(e),
            },
            (TableRun::Module { base, len }, TableEventModel::Table(table)) => match table {
                Some(n) => TableRun::Ready,
                None => TableRun::Transfer { base, len },
            },
            (TableRun::Transfer { base, len }, TableEventModel::Reply { ret, arg0, arg1 }) => if ret
                == 1 {
                TableRun::Memory { base, len }
            } else {
                TableRun::Failed(TableError::Transfer(ret))
            },
            (TableRun::Memory { base, len }, TableEventModel::Table(table)) => match table {
                Some(n) => TableRun::Ready,
                None => TableRun::Failed(TableError::Memory),
            },
            _ => self,
        }
    }

    /// What is printed on the event.
    pub open spec fn notes(self, event: TableEventModel) -> Seq<Seq<char>> {
        match (self, event) {
            (TableRun::Version, TableEventModel::Reply { ret, arg0, arg1 }) => if ret == 1 {
                seq![
                    "  pm_table 版本 0x"@ + hex(arg0 as nat, 6),
                    "== 2/4 DRAM 基址 (cmd 0x66) =="@,
                ]
            } else {
                Seq::empty()
            },
            (TableRun::Address, TableEventModel::Reply { ret, arg0, arg1 }) => {
                if self.next(event) is Regions {
                    seq![
                        "  SMU 保留区基址 0x"@ + hex(address(arg0, arg1) as nat, 12),
                        "== 3/4 /proc/iomem 安全校验 =="@,
                    ]
                } else {
                    Seq::empty()
                }
            },
            (TableRun::Regions { base }, TableEventModel::Regions(Some(text))) => {
                match first(lines(text), region_fn(base)) {
                    Some((label, avail)) => {
                        let told = "  区域「"@ + label + "」从基址起可读 0x"@ + hex(avail as nat, 0)
                            + " 字节"@;
                        if window(base, Some(text)) is Ok {
                            seq![told, "== 4/4 表传输 (cmd 0x65) + 只读读取 =="@]
                        } else {
                            seq![told]
                        }
                    },
                    None => Seq::empty(),
                }
            },
            (TableRun::Module { base, len }, TableEventModel::Table(Some(n))) => seq![
                "  经 rustinfo_smu 模块读取 0x"@ + hex(n as nat, 0) + " 字节 → "@
                    + "/tmp/smu_pm_table.bin"@,
            ],
            (TableRun::Memory { base, len }, TableEventModel::Table(Some(n))) => seq![
                "  已读取 0x"@ + hex(n as nat, 0) + " 字节 → "@ + "/tmp/smu_pm_table.bin"@,
            ],
            _ => Seq::empty(),
        }
    }

    /// The mailbox that is asked, by which command and with which arguments.
    pub open spec fn question(self) -> Option<(Mailbox, u32, Seq<u32>)> {
        match self {
            TableRun::Version => Some((table_mailbox(), VERSION, seq![0u32, 0, 0, 0, 0, 0])),
            TableRun::Address => Some((table_mailbox(), ADDRESS, seq![1u32, 1, 0, 0, 0, 0])),
            TableRun::Transfer { base, len } => Some(
                (table_mailbox(), TRANSFER, seq![0u32, 0, 0, 0, 0, 0]),
            ),
            _ => None,
        }
    }

    pub fn action(&self) -> (r: TableAction)
        ensures
            match *self {
                TableRun::Version => {
                    &&& r matches TableAction::Send { mailbox, op, args }
                    &&& mailbox == table_mailbox()
                    &&& op == VERSION
                    &&& args@ == seq![0u32, 0, 0, 0, 0, 0]
                },
                TableRun::Address => {
                    &&& r matches TableAction::Send { mailbox, op, args }
                    &&& mailbox == table_mailbox()
                    &&& op == ADDRESS
                    &&& args@ == seq![1u32, 1, 0, 0, 0, 0]
                },
                TableRun::Regions { base } => r is ReadRegions,
                TableRun::Module { base, len } => r is ReadModule,
                TableRun::Transfer { base, len } => {
                    &&& r matches TableAction::Send { mailbox, op, args }
                    &&& mailbox == table_mailbox()
                    &&& op == TRANSFER
                    &&& args@ == seq![0u32, 0, 0, 0, 0, 0]
                },
                TableRun::Memory { base, len } => r == (TableAction::ReadMemory { base, len }),
                TableRun::Ready => r is Ready,
                TableRun::Failed(e) => r == TableAction::Failed(e),
            },
            r matches TableAction::Send { mailbox, op, args } ==> self.question() == Some(
                (mailbox, op, args@),
            ),
    {
        match self {
            TableRun::Version => {
                let args = [0u32, 0, 0, 0, 0, 0];
                assert(args@ =~= seq![0u32, 0, 0, 0, 0, 0]);
                TableAction::Send { mailbox: mailbox_of_table(), op: VERSION, args }
            },
            TableRun::Address => {
                let args = [1u32, 1, 0, 0, 0, 0];
                assert(args@ =~= seq![1u32, 1, 0, 0, 0, 0]);
                TableAction::Send { mailbox: mailbox_of_table(), op: ADDRESS, args }
            },
            TableRun::Regions { base } => TableAction::ReadRegions,
            TableRun::Module { base, len } => TableAction::ReadModule,
            TableRun::Transfer { base, len } => {
                let args = [0u32, 0, 0, 0, 0, 0];
                assert(args@ =~= seq![0u32, 0, 0, 0, 0, 0]);
                TableAction::Send { mailbox: mailbox_of_table(), op: TRANSFER, args }
            },
            TableRun::Memory { base, len } => TableAction::ReadMemory { base: *base, len: *len },
            TableRun::Ready => TableAction::Ready,
            TableRun::Failed(e) => TableAction::Failed(*e),
        }
    }

    fn look_up(base: u64, map: Option<&str>, out: &mut Vec<String>) -> (r: TableRun)
        requires
            0 < base <= HIGHEST,
            views(old(out)@) == Seq::<Seq<char>>::empty(),
        ensures
            r.wf(),
            r == (TableRun::Regions { base }).next(TableEventModel::Regions(seen(map))),
            views(final(out)@) == (TableRun::Regions { base }).notes(TableEventModel::Regions(seen(map))),
    {
        let ghost state = TableRun::Regions { base };
        let ghost event = TableEventModel::Regions(seen(map));
        let text = match map {
            Some(t) => t,
            None => {
                return TableRun::Failed(TableError::NoMap);
            },
        };
        match iomem_region(base, text) {
            None => TableRun::Failed(TableError::Unmapped(base)),
            Some((label, avail)) => {
                put(
                    out,
                    owned("  区域「").concat(label.as_str()).concat("」从基址起可读 0x").concat(
                        hex_text(avail, 0).as_str(),
                    ).concat(" 字节"),
                );
                let small = label.as_str().to_lowercase();
                if contains(chars(small.as_str()).as_slice(), "system ram") {
                    assert(views(out@) =~= state.notes(event));
                    return TableRun::Failed(TableError::SystemRam);
                }
                let len: u64 = if avail < MOST {
                    avail
                } else {
                    MOST
                };
                if len < LEAST {
                    assert(views(out@) =~= state.notes(event));
                    return TableRun::Failed(TableError::TooSmall(len));
                }
                put(out, owned("== 4/4 表传输 (cmd 0x65) + 只读读取 =="));
                assert(views(out@) =~= state.notes(event));
                TableRun::Module { base, len }
            },
        }
    }

    /// Goes on after the event, and says what is to be printed.
    pub fn step(&mut self, event: TableEvent) -> (r: Vec<String>)
        requires
            old(self).wf(),
        ensures
            final(self).wf(),
            *final(self) == old(self).next(event@),
            views(r@) == old(self).notes(event@),
    {
        let mut out: Vec<String> = Vec::new();
        let ghost from = *self;
        assert(views(out@) =~= Seq::<Seq<char>>::empty());
        match (*self, &event) {
            (TableRun::Version, TableEvent::Reply { ret, arg0, arg1 }) => {
                if *ret == 1 {
                    put(
                        &mut out,
                        owned("  pm_table 版本 0x").concat(hex_text(*arg0 as u64, 6).as_str()),
                    );
                    put(&mut out, owned("== 2/4 DRAM 基址 (cmd 0x66) =="));
                    *self = TableRun::Address;
                } else {
                    *self = TableRun::Failed(TableError::Version(*ret));
                }
            },
            (TableRun::Address, TableEvent::Reply { ret, arg0, arg1 }) => {
                let base: u64 = *arg0 as u64 + 0x1_0000_0000 * *arg1 as u64;
                if *ret != 1 {
                    *self = TableRun::Failed(TableError::Address(*ret));
                } else if base == 0 || base > HIGHEST {
                    *self = TableRun::Failed(TableError::Base(base));
                } else {
                    put(
                        &mut out,
                        owned("  SMU 保留区基址 0x").concat(hex_text(base, 12).as_str()),
                    );
                    put(&mut out, owned("== 3/4 /proc/iomem 安全校验 =="));
                    *self = TableRun::Regions { base };
                }
            },
            (TableRun::Regions { base }, TableEvent::Regions(map)) => {
                let map = match map {
                    Some(t) => Some(t.as_str()),
                    None => None,
                };
                *self = TableRun::look_up(base, map, &mut out);
            },
            (TableRun::Module { base, len }, TableEvent::Table(table)) => match table {
                Some(n) => {
                    put(
                        &mut out,
                        owned("  经 rustinfo_smu 模块读取 0x").concat(
                            hex_text(*n, 0).as_str(),
                        ).concat(" 字节 → ").concat(table_path()),
                    );
                    *self = TableRun::Ready;
                },
                None => {
                    *self = TableRun::Transfer { base, len };
                },
            },
            (TableRun::Transfer { base, len }, TableEvent::Reply { ret, arg0, arg1 }) => {
                if *ret == 1 {
                    *self = TableRun::Memory { base, len };
                } else {
                    *self = TableRun::Failed(TableError::Transfer(*ret));
                }
            },
            (TableRun::Memory { base, len }, TableEvent::Table(table)) => match table {
                Some(n) => {
                    put(
                        &mut out,
                        owned("  已读取 0x").concat(hex_text(*n, 0).as_str()).concat(
                            " 字节 → ",
                        ).concat(table_path()),
                    );
                    *self = TableRun::Ready;
                },
                None => {
                    *self = TableRun::Failed(TableError::Memory);
                },
            },
            _ => {},
        }
        assert(views(out@) =~= from.notes(event@));
        out
    }
}

/// Starts on the way to the table, where the processor is one for which the
/// mailboxes are known.
pub fn smu_table(forced: Option<&str>, cpuinfo: Option<&str>) -> (r: Result<TableRun, CpuError>)
    ensures
        match cpu_supported(seen(forced), seen(cpuinfo)) {
            Ok(u) => r == Ok::<TableRun, CpuError>(TableRun::Version),
            Err(e) => r == Err::<TableRun, CpuError>(e),
        },
{
    match require_supported_cpu(forced, cpuinfo) {
        Ok(()) => Ok(TableRun::Version),
        Err(e) => Err(e),
    }
}

/// Whether a line of the memory map gives a region, other than main memory, with
/// all of the `len` bytes from the address on.
pub open spec fn may_hold(line: Seq<char>, base: u64, len: u64) -> bool {
    match map_line(line) {
        Some((start, end, label)) => {
            &&& start <= base
            &&& base + len - 1 <= end
            &&& !occurs(in_lower_case(label), "system ram"@)
        },
        None => false,
    }
}

/// What is to be read of an address lies within one region of the memory map,
/// and that region is not main memory.
pub proof fn lemma_window_within_a_region(base: u64, map: Option<Seq<char>>)
    ensures
        window(base, map) matches Ok(len) ==> {
            &&& LEAST <= len <= MOST
            &&& map is Some
            &&& exists|i: int|
                0 <= i < lines(map->0).len() && #[trigger] may_hold(lines(map->0)[i], base, len)
        },
{
    if let Ok(len) = window(base, map) {
        lemma_first_is_somewhere(lines(map->0), base);
        let i = choose|i: int|
            0 <= i < lines(map->0).len() && region_fn(base)(#[trigger] lines(map->0)[i]) == first(
                lines(map->0),
                region_fn(base),
            );
        assert(may_hold(lines(map->0)[i], base, len));
    }
}

proof fn lemma_first_is_somewhere(s: Seq<Seq<char>>, base: u64)
    requires
        first(s, region_fn(base)) is Some,
    ensures
        exists|i: int|
            0 <= i < s.len() && region_fn(base)(#[trigger] s[i]) == first(s, region_fn(base)),
    decreases s.len(),
{
    if s.len() > 0 {
        if region_fn(base)(s[0]) is None {
            lemma_first_is_somewhere(s.drop_first(), base);
            let i = choose|i: int|
                0 <= i < s.drop_first().len() && region_fn(base)(#[trigger] s.drop_first()[i]) == first(
                    s.drop_first(),
                    region_fn(base),
                );
            assert(s[i + 1] == s.drop_first()[i]);
        }
    }
}

/// The command that a state sends, if it sends one.
pub open spec fn command(run: TableRun) -> Option<u32> {
    match run {
        TableRun::Version => Some(VERSION),
        TableRun::Address => Some(ADDRESS),
        TableRun::Transfer { base, len } => Some(TRANSFER),
        _ => None,
    }
}

/// The state after a row of events.
pub open spec fn reached(events: Seq<TableEventModel>) -> TableRun
    decreases events.len(),
{
    if events.len() == 0 {
        TableRun::Version
    } else {
        reached(events.drop_last()).next(events.last())
    }
}

/// The commands that were answered on the way.
pub open spec fn answered(events: Seq<TableEventModel>) -> Seq<u32>
    decreases events.len(),
{
    if events.len() == 0 {
        Seq::empty()
    } else {
        let done = answered(events.drop_last());
        match (command(reached(events.drop_last())), events.last()) {
            (Some(op), TableEventModel::Reply { ret, arg0, arg1 }) => done.push(op),
            _ => done,
        }
    }
}

/// How many commands are behind a state that has not failed.
pub open spec fn commands_before(run: TableRun) -> nat {
    match run {
        TableRun::Version => 0,
        TableRun::Address => 1,
        TableRun::Memory { base, len } => 3,
        _ => 2,
    }
}

/// Whatever is answered, the commands are those for the version, the address and
/// the transfer, in this order, each at most once; memory is read only after all
/// three.
pub proof fn lemma_only_three_commands(events: Seq<TableEventModel>)
    ensures
        reached(events).wf(),
        answered(events) == seq![VERSION, ADDRESS, TRANSFER].take(answered(events).len() as int),
        answered(events).len() <= 3,
        !(reached(events) is Failed) && !(reached(events) is Ready) ==> answered(events).len()
            == commands_before(reached(events)),
    decreases events.len(),
{
    if events.len() > 0 {
        lemma_only_three_commands(events.drop_last());
        if reached(events.drop_last()) is Regions {
            lemma_window_within_a_region(
                reached(events.drop_last())->Regions_base,
                match events.last() {
                    TableEventModel::Regions(map) => map,
                    _ => None,
                },
            );
        }
    }
    assert(answered(events) =~= seq![VERSION, ADDRESS, TRANSFER].take(
        answered(events).len() as int,
    ));
}

/// A response other than the one for success ends the run, and nothing follows.
pub proof fn lemma_a_refusal_ends_the_run(
    run: TableRun,
    ret: u32,
    arg0: u32,
    arg1: u32,
    event: TableEventModel,
)
    requires
        command(run) is Some,
        ret != 1,
    ensures
        ({
            let refused = run.next(TableEventModel::Reply { ret, arg0, arg1 });
            refused is Failed && refused.next(event) == refused
        }),
{
}

// ---------- showing the table ----------

/// Whether a number of the table is worth showing: finite, and above a
/// thousandth whatever its sign.
pub open spec fn worth_showing(bits: u32) -> bool {
    0x3A83_126F < bits % 0x8000_0000 < 0x7F80_0000
}

/// The first `n` numbers from an offset on that are worth showing.
pub open spec fn shown_parts(buf: Seq<u8>, off: int, n: nat) -> Seq<PieceModel>
    decreases n,
{
    if n == 0 {
        Seq::empty()
    } else {
        let o = off + 4 * (n - 1);
        let done = shown_parts(buf, off, (n - 1) as nat);
        if worth_showing(word_at_offset(buf, o)) {
            (if done.len() == 0 {
                done
            } else {
                done.push(PieceModel::Text(" "@))
            }) + seq![
                PieceModel::Text(hex(o as nat, 4) + ":"@),
                PieceModel::Single { bits: word_at_offset(buf, o), decimals: Some(2u8) },
            ]
        } else {
            done
        }
    }
}

pub open spec fn shown(buf: Seq<u8>, off: int) -> Seq<PieceModel> {
    if shown_parts(buf, off, 4).len() == 0 {
        plain("-"@)
    } else {
        shown_parts(buf, off, 4)
    }
}

/// The four numbers from an offset on, as far as they are worth showing.
pub fn hex_f32(buf: &[u8], off: usize) -> (r: Row)
    requires
        off + 16 <= buf@.len(),
    ensures
        r@ == shown(buf@, off as int),
{
    let mut out: Vec<Piece> = Vec::new();
    let size: usize = buf.len();
    let mut i: usize = 0;
    while i < 4
        invariant
            i <= 4,
            size == buf@.len(),
            off + 16 <= size,
            views(out@) =~= shown_parts(buf@, off as int, i as nat),
        decreases 4 - i,
    {
        let o: usize = off + 4 * i;
        let v = word(buf, o);
        let low: u32 = v % 0x8000_0000;
        let ghost before = views(out@);
        if 0x3A83_126F < low && low < 0x7F80_0000 {
            if out.len() > 0 {
                put(&mut out, Piece::Text(owned(" ")));
            }
            put(&mut out, Piece::Text(hex_text(o as u64, 4).concat(":")));
            put(&mut out, Piece::Single { bits: v, decimals: Some(2) });
        }
        i = i + 1;
        assert(views(out@) =~= shown_parts(buf@, off as int, i as nat));
    }
    if out.len() == 0 {
        return text_row(owned("-"));
    }
    Row { pieces: out }
}

/// The first `n` bytes from an offset on, in hexadecimal.
pub open spec fn hex_bytes(buf: Seq<u8>, off: int, n: nat) -> Seq<char>
    decreases n,
{
    if n == 0 {
        Seq::empty()
    } else if n == 1 {
        hex(buf[off] as nat, 2)
    } else {
        hex_bytes(buf, off, (n - 1) as nat) + " "@ + hex(buf[off + n - 1] as nat, 2)
    }
}

fn write_bytes(buf: &[u8], off: usize) -> (r: String)
    requires
        off + 16 <= buf@.len(),
    ensures
        r@ == hex_bytes(buf@, off as int, 16),
{
    let mut out = hex_text(buf[off] as u64, 2);
    let size: usize = buf.len();
    let mut i: usize = 1;
    while i < 16
        invariant
            1 <= i <= 16,
            size == buf@.len(),
            off + 16 <= size,
            out@ == hex_bytes(buf@, off as int, i as nat),
        decreases 16 - i,
    {
        out = out.concat(" ").concat(hex_text(buf[off + i] as u64, 2).as_str());
        i = i + 1;
    }
    out
}

/// One row of sixteen bytes: the offset, the bytes, and the numbers in them.
pub open spec fn dump_row(buf: Seq<u8>, off: int) -> Seq<PieceModel> {
    plain("  "@ + hex(off as nat, 4) + ": "@ + hex_bytes(buf, off, 16) + "  "@) + shown(buf, off)
}

/// One number of the table.
pub open spec fn value_row(buf: Seq<u8>, off: int) -> Seq<PieceModel> {
    seq![
        PieceModel::Text("0x"@ + hex(off as nat, 4) + " "@),
        PieceModel::Single { bits: word_at_offset(buf, off), decimals: None },
    ]
}

/// The table as it is printed: what is known of it, its first bytes, and all of
/// its numbers.
pub open spec fn table_rows(buf: Seq<u8>) -> Seq<Seq<PieceModel>> {
    seq![
        plain(""@),
        plain("已知偏移候选:"@),
        seq![
            PieceModel::Text("  0x7C VDDCR ≈ "@),
            PieceModel::Single { bits: word_at_offset(buf, 0x7C), decimals: Some(1u8) },
        ],
        plain(""@),
        plain("前 0x80 字节 hexdump:"@),
    ] + Seq::new(8, |i: int| dump_row(buf, 16 * i)) + seq![
        plain(""@),
        plain("全表 f32 转储 ("@ + dec(buf.len()) + " 字节):"@),
    ] + Seq::new(buf.len() / 4, |i: int| value_row(buf, 4 * i)) + seq![
        plain(""@),
        plain("用 ryzenadj --dump-table 对照同偏移即可验证; 非零 float 密集区即遥测区。"@),
    ]
}

fn single_row(label: String, bits: u32, decimals: Option<u8>) -> (r: Row)
    ensures
        r@ == seq![PieceModel::Text(label@), PieceModel::Single { bits, decimals }],
{
    let mut pieces: Vec<Piece> = Vec::new();
    put(&mut pieces, Piece::Text(label));
    put(&mut pieces, Piece::Single { bits, decimals });
    let r = Row { pieces };
    assert(r@ =~= seq![PieceModel::Text(label@), PieceModel::Single { bits, decimals }]);
    r
}

fn write_dump_row(buf: &[u8], off: usize) -> (r: Row)
    requires
        off + 16 <= buf@.len(),
    ensures
        r@ == dump_row(buf@, off as int),
{
    let mut row = text_row(
        owned("  ").concat(hex_text(off as u64, 4).as_str()).concat(": ").concat(
            write_bytes(buf, off).as_str(),
        ).concat("  "),
    );
    let mut more = hex_f32(buf, off);
    let ghost (a, b) = (row@, more@);
    row.pieces.append(&mut more.pieces);
    assert(row@ =~= a + b);
    row
}

/// Shows the table.
pub fn table_report(buf: &[u8]) -> (r: Vec<Row>)
    requires
        buf@.len() >= 0x80,
    ensures
        views(r@) == table_rows(buf@),
{
    let mut out: Vec<Row> = Vec::new();
    put(&mut out, text_row(owned("")));
    put(&mut out, text_row(owned("已知偏移候选:")));
    put(&mut out, single_row(owned("  0x7C VDDCR ≈ "), word(buf, 0x7C), Some(1)));
    put(&mut out, text_row(owned("")));
    put(&mut out, text_row(owned("前 0x80 字节 hexdump:")));
    let ghost head = views(out@);
    let mut i: usize = 0;
    while i < 8
        invariant
            i <= 8,
            buf@.len() >= 0x80,
            views(out@) =~= head + Seq::new(i as nat, |j: int| dump_row(buf@, 16 * j)),
        decreases 8 - i,
    {
        put(&mut out, write_dump_row(buf, 16 * i));
        i = i + 1;
    }
    put(&mut out, text_row(owned("")));
    put(
        &mut out,
        text_row(
            owned("全表 f32 转储 (").concat(dec_text(buf.len() as u64).as_str()).concat(
                " 字节):",
            ),
        ),
    );
    let ghost middle = views(out@);
    let mut i: usize = 0;
    let size: usize = buf.len();
    let n: usize = size / 4;
    while i < n
        invariant
            i <= n,
            n == size / 4,
            size == buf@.len(),
            views(out@) =~= middle + Seq::new(i as nat, |j: int| value_row(buf@, 4 * j)),
        decreases n - i,
    {
        let off: usize = 4 * i;
        put(
            &mut out,
            single_row(
                owned("0x").concat(hex_text(off as u64, 4).as_str()).concat(" "),
                word(buf, off),
                None,
            ),
        );
        i = i + 1;
    }
    put(&mut out, text_row(owned("")));
    put(
        &mut out,
        text_row(
            owned("用 ryzenadj --dump-table 对照同偏移即可验证; 非零 float 密集区即遥测区。"),
        ),
    );
    assert(views(out@) =~= table_rows(buf@));
    out
}

} // verus!

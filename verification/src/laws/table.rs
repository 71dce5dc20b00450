//! The way to the firmware's table, and how the table is shown.
use vstd::prelude::*;

use crate::firmware::word_at_offset;
use crate::laws::text::{
    as_lines, blank, lemma_as_lines, lemma_cut_at, lemma_trimmed, lemma_white_space, one_line,
};
use crate::lists::{first, lemma_first_at, lemma_first_none};
use crate::numbers::{
    dec, digit_value, digits_value, hex, hexadecimal_u64, lemma_written_reads_back, written,
};
use crate::output::{plain, PieceModel};
use crate::pm_table::{
    address, command, dump_row, hex_bytes, map_line, reached, region_fn, shown, shown_parts,
    table_bridge, table_mailbox, table_message, table_rows, window, worth_showing, TableError,
    TableEventModel, TableRun,
};
use crate::smn::{Mailbox, Smn};
use crate::text::{
    find_text, in_lower_case, is_space, lemma_find_text, lines, lower, occurs, starts,
};

verus! {

// ---------- the memory map ----------

/// A line of the memory map, as in `  00100000-bfffffff : System RAM`.
pub open spec fn map_row(gap: Seq<char>, a: u64, b: u64, label: Seq<char>) -> Seq<char> {
    gap + hex(a as nat, 0) + "-"@ + hex(b as nat, 0) + " : "@ + label
}

proof fn lemma_hex_digits(n: nat)
    ensures
        hex(n, 0).len() > 0,
        forall|i: int|
            0 <= i < hex(n, 0).len() ==> '0' <= #[trigger] hex(n, 0)[i] <= '9' || 'A' <= hex(
                n,
                0,
            )[i] <= 'F',
    decreases n,
{
    if n >= 16 {
        lemma_hex_digits(n / 16);
        let (s, t) = (written(n, 16), written(n / 16, 16));
        assert forall|i: int| 0 <= i < s.len() implies '0' <= #[trigger] s[i] <= '9' || 'A' <= s[i]
            <= 'F' by {
            if i < t.len() {
                assert(s[i] == hex(n / 16, 0)[i]);
            }
        }
    }
}

/// A line of the memory map is a range of addresses, from the first to the last, and
/// a label.
pub proof fn lemma_map_row(gap: Seq<char>, a: u64, b: u64, label: Seq<char>)
    requires
        blank(gap),
        label.len() > 0,
        !is_space(label[0]) && !is_space(label.last()),
    ensures
        map_line(map_row(gap, a, b, label)) == Some((a as int, b as int, label)),
{
    reveal_strlit("-");
    reveal_strlit(" : ");
    let (x, y) = (hex(a as nat, 0), hex(b as nat, 0));
    let none = Seq::<char>::empty();
    lemma_hex_digits(a as nat);
    lemma_hex_digits(b as nat);
    lemma_written_reads_back(a);
    lemma_written_reads_back(b);
    let range = x + "-"@ + y;
    let head = gap + range;
    let line = map_row(gap, a, b, label);
    assert(line =~= head + " : "@ + label);
    assert forall|i: int| 0 <= i < head.len() implies #[trigger] head[i] != ':' by {
        if i >= gap.len() {
            let j = i - gap.len();
            if j < x.len() {
                assert(head[i] == x[j]);
            } else if j > x.len() {
                assert(head[i] == y[j - x.len() - 1]);
            }
        }
    }
    lemma_find_text(line, " : "@);
    assert(line.skip(head.len() as int) =~= " : "@ + label);
    assert(starts(line.skip(head.len() as int), " : "@)) by {
        assert((" : "@ + label).take(3) =~= " : "@);
    }
    let k = find_text(line, " : "@)->0 as int;
    assert(line.subrange(k, k + 3)[1] == line[k + 1]);
    assert(line[k + 1] == ':');
    assert(k >= head.len()) by {
        if k + 1 < head.len() {
            assert(line[k + 1] == head[k + 1]);
        } else if k + 1 == head.len() {
            assert(line[head.len() as int] == ' ');
        }
    }
    assert(k == head.len());
    assert(line.take(k) =~= head);
    assert(line.skip(k + 3) =~= label);
    assert('0' <= x[0] <= '9' || 'A' <= x[0] <= 'F');
    lemma_white_space(x[0]);
    lemma_white_space(y.last());
    assert(range[0] == x[0] && range.last() == y.last());
    lemma_trimmed(gap, range, none);
    assert(gap + range + none =~= head);
    assert(!x.contains('-'));
    assert(range =~= x + seq!['-'] + y);
    lemma_cut_at(x, '-', y);
    lemma_trimmed(none, label, none);
}

/// Small letters in hexadecimal stand for what capital ones do.
pub proof fn lemma_small_digits(s: Seq<char>, t: Seq<char>)
    requires
        s.len() == t.len(),
        forall|i: int|
            0 <= i < s.len() ==> s[i] == #[trigger] t[i] || 'A' <= t[i] <= 'F' && s[i] as int
                == t[i] as int + 32,
    ensures
        hexadecimal_u64(s) == hexadecimal_u64(t),
{
    lemma_small_values(s, t);
    if s.len() > 0 && s[0] == '+' {
        assert(t[0] == '+');
        lemma_small_values(s.drop_first(), t.drop_first());
    }
    if t.len() > 0 && t[0] == '+' {
        assert(s[0] == '+');
    }
}

proof fn lemma_small_values(s: Seq<char>, t: Seq<char>)
    requires
        s.len() == t.len(),
        forall|i: int|
            0 <= i < s.len() ==> s[i] == #[trigger] t[i] || 'A' <= t[i] <= 'F' && s[i] as int
                == t[i] as int + 32,
    ensures
        digits_value(s, 16) == digits_value(t, 16),
    decreases s.len(),
{
    if s.len() > 0 {
        let n = s.len() - 1;
        assert(s[n] == t[n] || 'A' <= t[n] <= 'F' && s[n] as int == t[n] as int + 32);
        assert(digit_value(s[n], 16) == digit_value(t[n], 16));
        lemma_small_values(s.drop_last(), t.drop_last());
    }
}

/// How much of the table is read, by the first line of the memory map that holds its
/// address: from there to the end of the region, and at most 4096 bytes; nothing of
/// main memory, and nothing where there are fewer than 256 bytes.
pub proof fn lemma_window(
    base: u64,
    before: Seq<Seq<char>>,
    gap: Seq<char>,
    a: u64,
    b: u64,
    label: Seq<char>,
    rest: Seq<char>,
)
    requires
        base > 0,
        blank(gap),
        one_line(gap),
        label.len() > 0,
        one_line(label),
        !is_space(label[0]) && !is_space(label.last()),
        forall|i: int|
            0 <= i < before.len() ==> one_line(#[trigger] before[i]) && region_fn(base)(before[i]) is None,
    ensures
        ({
            let text = as_lines(before.push(map_row(gap, a, b, label))) + rest;
            let r = window(base, Some(text));
            let main = occurs(in_lower_case(label), "system ram"@);
            let there = b - base + 1;
            &&& a <= base <= b && main ==> r == Err::<u64, TableError>(TableError::SystemRam)
            &&& a <= base <= b && !main && there < 256 ==> r == Err::<u64, TableError>(
                TableError::TooSmall(there as u64),
            )
            &&& a <= base <= b && !main && 256 <= there <= 4096 ==> r == Ok::<u64, TableError>(
                there as u64,
            )
            &&& a <= base <= b && !main && there > 4096 ==> r == Ok::<u64, TableError>(4096)
            &&& !(a <= base <= b) ==> window(
                base,
                Some(as_lines(before.push(map_row(gap, a, b, label)))),
            ) == Err::<u64, TableError>(TableError::Unmapped(base))
            &&& window(base, None) == Err::<u64, TableError>(TableError::NoMap)
        }),
{
    reveal_strlit("-");
    reveal_strlit(" : ");
    let row = map_row(gap, a, b, label);
    lemma_map_row(gap, a, b, label);
    let (x, y) = (hex(a as nat, 0), hex(b as nat, 0));
    lemma_hex_digits(a as nat);
    lemma_hex_digits(b as nat);
    assert forall|i: int| 0 <= i < row.len() implies #[trigger] row[i] != '\n' && row[i] != '\r' by {
        let g = gap.len();
        if i < g {
            assert(row[i] == gap[i]);
        } else if i < g + x.len() {
            assert(row[i] == x[i - g]);
        } else if i == g + x.len() {
            assert(row[i] == '-');
        } else if i < g + x.len() + 1 + y.len() {
            assert(row[i] == y[i - g - x.len() - 1]);
        } else if i < g + x.len() + 4 + y.len() {
            assert(row[i] == " : "@[i - g - x.len() - 1 - y.len()]);
        } else {
            assert(row[i] == label[i - g - x.len() - 4 - y.len()]);
        }
    }
    assert(one_line(row));
    let rows = before.push(row);
    assert forall|i: int| 0 <= i < rows.len() implies one_line(#[trigger] rows[i]) by {
        if i < before.len() {
            assert(rows[i] == before[i]);
        }
    }
    let none = Seq::<char>::empty();
    lemma_as_lines(rows, rest);
    lemma_as_lines(rows, none);
    assert(as_lines(rows) + none =~= as_lines(rows));
    assert(lines(none).len() == 0);
    assert(lines(as_lines(rows)) =~= rows);
    let all = lines(as_lines(rows) + rest);
    assert(all[before.len() as int] == row);
    assert forall|i: int| 0 <= i < before.len() implies region_fn(base)(#[trigger] all[i]) is None by {
        assert(all[i] == before[i]);
    }
    if a <= base <= b {
        lemma_first_at(all, region_fn(base), before.len() as int);
    } else {
        lemma_first_none(rows, region_fn(base));
    }
}

// ---------- the way ----------

/// The table is asked for through one mailbox, by three commands.
pub proof fn lemma_commands(base: u64, len: u64)
    ensures
        table_bridge() == (Smn { idx_reg: 0xC4, data_reg: 0xC8 }),
        table_mailbox() == (Mailbox { cmd: 0x03B1_0A20, rsp: 0x03B1_0A80, args: 0x03B1_0A88 }),
        command(TableRun::Version) == Some(6u32),
        command(TableRun::Address) == Some(102u32),
        command(TableRun::Transfer { base, len }) == Some(101u32),
        command(TableRun::Regions { base }) is None,
        command(TableRun::Module { base, len }) is None,
        command(TableRun::Memory { base, len }) is None,
        command(TableRun::Ready) is None,
{
}

/// The address comes in two words, the lower one first, and is believed up to the
/// 48th bit.
pub proof fn lemma_address(low: u32, high: u32, ret: u32)
    ensures
        ({
            let base = low + 4_294_967_296 * high;
            let r = TableRun::Address.next(TableEventModel::Reply { ret, arg0: low, arg1: high });
            &&& address(low, high) == base
            &&& ret != 1 ==> r == TableRun::Failed(TableError::Address(ret))
            &&& ret == 1 && 0 < base <= 140_737_488_355_328 ==> r == (TableRun::Regions {
                base: base as u64,
            })
            &&& ret == 1 && (base == 0 || base > 140_737_488_355_328) ==> r == TableRun::Failed(
                TableError::Base(base as u64),
            )
        }),
{
}

/// A run in which all goes well: the version, the address, the memory map, and the
/// table from the module or, where there is none, from memory after its transfer.
pub proof fn lemma_good_run(v: u32, w: u32, low: u32, high: u32, map: Seq<char>, len: u64, n: u64)
    requires
        0 < low + 4_294_967_296 * high <= 140_737_488_355_328,
        window((low + 4_294_967_296 * high) as u64, Some(map)) == Ok::<u64, TableError>(len),
    ensures
        ({
            let base = (low + 4_294_967_296 * high) as u64;
            let version = TableEventModel::Reply { ret: 1, arg0: v, arg1: w };
            let place = TableEventModel::Reply { ret: 1, arg0: low, arg1: high };
            let regions = TableEventModel::Regions(Some(map));
            let start = seq![version, place, regions];
            &&& reached(Seq::empty()) == TableRun::Version
            &&& reached(seq![version]) == TableRun::Address
            &&& reached(seq![version, place]) == (TableRun::Regions { base })
            &&& reached(start) == (TableRun::Module { base, len })
            &&& reached(start.push(TableEventModel::Table(Some(n)))) == TableRun::Ready
            &&& reached(start.push(TableEventModel::Table(None))) == (TableRun::Transfer {
                base,
                len,
            })
            &&& reached(start.push(TableEventModel::Table(None)).push(version)) == (
            TableRun::Memory { base, len })
            &&& reached(
                start.push(TableEventModel::Table(None)).push(version).push(
                    TableEventModel::Table(Some(n)),
                ),
            ) == TableRun::Ready
        }),
{
    let version = TableEventModel::Reply { ret: 1, arg0: v, arg1: w };
    let place = TableEventModel::Reply { ret: 1, arg0: low, arg1: high };
    let regions = TableEventModel::Regions(Some(map));
    let start = seq![version, place, regions];
    let missing = start.push(TableEventModel::Table(None));
    lemma_address(low, high, 1);
    assert(seq![version].drop_last() =~= Seq::<TableEventModel>::empty());
    assert(seq![version, place].drop_last() =~= seq![version]);
    assert(start.drop_last() =~= seq![version, place]);
    assert(start.push(TableEventModel::Table(Some(n))).drop_last() =~= start);
    assert(missing.drop_last() =~= start);
    assert(missing.push(version).drop_last() =~= missing);
    assert(missing.push(version).push(TableEventModel::Table(Some(n))).drop_last()
        =~= missing.push(version));
}

/// What goes wrong on the way is told by what it was: a command that is not answered
/// by 1, a memory map that does not allow it, or memory that cannot be read.
pub proof fn lemma_bad_run(
    base: u64,
    len: u64,
    ret: u32,
    a: u32,
    b: u32,
    map: Option<Seq<char>>,
    e: TableError,
)
    requires
        ret != 1,
        window(base, map) == Err::<u64, TableError>(e),
    ensures
        TableRun::Version.next(TableEventModel::Reply { ret, arg0: a, arg1: b })
            == TableRun::Failed(TableError::Version(ret)),
        (TableRun::Regions { base }).next(TableEventModel::Regions(map)) == TableRun::Failed(e),
        (TableRun::Transfer { base, len }).next(TableEventModel::Reply { ret, arg0: a, arg1: b })
            == TableRun::Failed(TableError::Transfer(ret)),
        (TableRun::Memory { base, len }).next(TableEventModel::Table(None)) == TableRun::Failed(
            TableError::Memory,
        ),
{
}

/// What is told on the way.
pub proof fn lemma_notes(
    base: u64,
    len: u64,
    low: u32,
    high: u32,
    n: u64,
    map: Seq<char>,
    label: Seq<char>,
    there: u64,
)
    requires
        0 < low + 4_294_967_296 * high <= 140_737_488_355_328,
        first(lines(map), region_fn(base)) == Some((label, there as int)),
    ensures
        TableRun::Version.notes(TableEventModel::Reply { ret: 1, arg0: low, arg1: high }) == seq![
            "  pm_table 版本 0x"@ + hex(low as nat, 6),
            "== 2/4 DRAM 基址 (cmd 0x66) =="@,
        ],
        TableRun::Address.notes(TableEventModel::Reply { ret: 1, arg0: low, arg1: high }) == seq![
            "  SMU 保留区基址 0x"@ + hex((low + 4_294_967_296 * high) as nat, 12),
            "== 3/4 /proc/iomem 安全校验 =="@,
        ],
        window(base, Some(map)) is Ok ==> (TableRun::Regions { base }).notes(
            TableEventModel::Regions(Some(map)),
        ) == seq![
            "  区域「"@ + label + "」从基址起可读 0x"@ + hex(there as nat, 0) + " 字节"@,
            "== 4/4 表传输 (cmd 0x65) + 只读读取 =="@,
        ],
        (TableRun::Module { base, len }).notes(TableEventModel::Table(Some(n))) == seq![
            "  经 rustinfo_smu 模块读取 0x"@ + hex(n as nat, 0) + " 字节 → "@
                + "/tmp/smu_pm_table.bin"@,
        ],
        (TableRun::Memory { base, len }).notes(TableEventModel::Table(Some(n))) == seq![
            "  已读取 0x"@ + hex(n as nat, 0) + " 字节 → "@ + "/tmp/smu_pm_table.bin"@,
        ],
        (TableRun::Module { base, len }).notes(TableEventModel::Table(None)).len() == 0,
{
    lemma_address(low, high, 1);
}

// ---------- how it is shown ----------

/// A number of the table is worth showing where it is finite and its magnitude above
/// the single that is nearest to a thousandth: that has the exponent 117, and its
/// fraction makes it 8589935 of 2 to the 33rd power parts.
pub proof fn lemma_worth_showing(minus: bool, exponent: u32, fraction: u32)
    requires
        exponent < 256,
        fraction < 8_388_608,
    ensures
        ({
            let bits = ((if minus {
                2_147_483_648int
            } else {
                0
            }) + 8_388_608 * exponent + fraction) as u32;
            worth_showing(bits) <==> exponent != 255 && (exponent > 117 || exponent == 117
                && 8_388_608 + fraction > 8_589_935)
        }),
        -500 <= 1000 * 8_589_935 - 8_589_934_592 <= 500,
{
}

/// Four numbers from an offset on are shown with their offsets, each after a space but
/// the first; where none is worth it there is a dash.
pub proof fn lemma_shown(buf: Seq<u8>, off: int, n: nat)
    requires
        0 <= off,
    ensures
        ({
            let at = off + 4 * n;
            let w = word_at_offset(buf, at);
            let (a, b) = (shown_parts(buf, off, n), shown_parts(buf, off, n + 1));
            let parts = seq![
                PieceModel::Text(hex(at as nat, 4) + ":"@),
                PieceModel::Single { bits: w, decimals: Some(2u8) },
            ];
            &&& shown_parts(buf, off, 0).len() == 0
            &&& !worth_showing(w) ==> b == a
            &&& worth_showing(w) && a.len() == 0 ==> b == parts
            &&& worth_showing(w) && a.len() > 0 ==> b == a + seq![PieceModel::Text(" "@)] + parts
            &&& shown_parts(buf, off, 4).len() == 0 ==> shown(buf, off) == plain("-"@)
            &&& shown_parts(buf, off, 4).len() > 0 ==> shown(buf, off) == shown_parts(buf, off, 4)
        }),
{
    let at = off + 4 * n;
    let w = word_at_offset(buf, at);
    let (a, b) = (shown_parts(buf, off, n), shown_parts(buf, off, n + 1));
    let parts = seq![
        PieceModel::Text(hex(at as nat, 4) + ":"@),
        PieceModel::Single { bits: w, decimals: Some(2u8) },
    ];
    assert(worth_showing(w) && a.len() == 0 ==> b =~= parts);
    assert(worth_showing(w) && a.len() > 0 ==> b =~= a + seq![PieceModel::Text(" "@)] + parts);
}

/// The table as it is shown: the number at 124, eight rows of sixteen bytes, and every
/// number with its offset.
pub proof fn lemma_table_rows(buf: Seq<u8>, i: int, j: int)
    requires
        buf.len() >= 128,
        0 <= i < 8,
        0 <= j < buf.len() / 4,
    ensures
        ({
            let r = table_rows(buf);
            &&& r.len() == 17 + buf.len() / 4
            &&& r[2][1] == (PieceModel::Single {
                bits: word_at_offset(buf, 124),
                decimals: Some(1u8),
            })
            &&& r[5 + i] == dump_row(buf, 16 * i)
            &&& r[15 + j] == seq![
                PieceModel::Text("0x"@ + hex((4 * j) as nat, 4) + " "@),
                PieceModel::Single { bits: word_at_offset(buf, 4 * j), decimals: None },
            ]
            &&& r[14] == plain("全表 f32 转储 ("@ + dec(buf.len()) + " 字节):"@)
        }),
{
}

/// What is told of what went wrong on the way.
pub proof fn lemma_table_messages(r: u32, base: u64, cause: Seq<char>)
    ensures
        table_message(TableError::Version(r), cause) == "返回 0x"@ + hex(r as nat, 2)
            + " (0xFE=UnknownCmd → 这代命令号可能平移, 需查 ryzenadj 源码)"@,
        table_message(TableError::Address(r), cause) == "返回 0x"@ + hex(r as nat, 2),
        table_message(TableError::Base(base), cause) == "基址异常: 0x"@ + hex(base as nat, 0),
        table_message(TableError::NoMap, cause) == "读 /proc/iomem (需 root): "@ + cause,
        table_message(TableError::Unmapped(base), cause) == "基址 0x"@ + hex(base as nat, 0)
            + " 不在任何 iomem 区域内"@,
        table_message(TableError::SystemRam, cause)
            == "目标落在 System RAM — 拒绝读取 (安全护栏)"@,
        table_message(TableError::TooSmall(base), cause) == "可读区域过小 (0x"@ + hex(
            base as nat,
            0,
        ) + ")"@,
        table_message(TableError::Transfer(r), cause) == "传输命令返回 0x"@ + hex(r as nat, 2),
        table_message(TableError::Memory, cause) == "/dev/mem 读取失败: "@ + cause
            + " (IO_STRICT_DEVMEM 内核请先加载 module/rustinfo_smu.ko)"@,
{
}

/// The bytes of a row are written in two digits each, with spaces between them.
pub proof fn lemma_hex_bytes(buf: Seq<u8>, off: int, n: nat)
    requires
        n > 0,
    ensures
        hex_bytes(buf, off, 1) == hex(buf[off] as nat, 2),
        hex_bytes(buf, off, n + 1) == hex_bytes(buf, off, n) + " "@ + hex(buf[off + n] as nat, 2),
        dump_row(buf, off) == seq![
            PieceModel::Text(
                "  "@ + hex(off as nat, 4) + ": "@ + hex_bytes(buf, off, 16) + "  "@,
            ),
        ] + shown(buf, off),
{
}

/// A label of ASCII is looked at in small letters.
pub proof fn lemma_label_in_small_letters(label: Seq<char>)
    requires
        forall|i: int| 0 <= i < label.len() ==> (#[trigger] label[i] as u32) < 128,
    ensures
        in_lower_case(label) == lower(label),
{
}

/// The three questions, with their arguments.
pub proof fn lemma_questions(base: u64, len: u64)
    ensures
        ({
            let m = Mailbox { cmd: 0x03B1_0A20, rsp: 0x03B1_0A80, args: 0x03B1_0A88 };
            &&& TableRun::Version.question() == Some((m, 6u32, seq![0u32, 0, 0, 0, 0, 0]))
            &&& TableRun::Address.question() == Some((m, 102u32, seq![1u32, 1, 0, 0, 0, 0]))
            &&& (TableRun::Transfer { base, len }).question() == Some(
                (m, 101u32, seq![0u32, 0, 0, 0, 0, 0]),
            )
            &&& (TableRun::Regions { base }).question() is None
            &&& (TableRun::Module { base, len }).question() is None
            &&& (TableRun::Memory { base, len }).question() is None
        }),
{
}

} // verus!

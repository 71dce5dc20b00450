//! Control: the messages by their names, the values they carry, and the processors
//! that they are for.
use vstd::prelude::*;

use crate::laws::text::{
    as_lines, blank, lemma_as_lines, lemma_cut_at, lemma_lower, lemma_number_reads_back,
    lemma_prefix_and_suffix, lemma_trimmed, lemma_written_number, one_line,
};
use crate::lists::{first, lemma_first_at, lemma_first_none};
use crate::numbers::{dec, decimal_i64, hex, left, right};
use crate::smn::{
    handshake_message, le_bytes, le_number, script, started, Access, Handshake, HandshakeError,
    HandshakeModel, Mailbox, Phase, Smn,
};
use crate::smu::{
    bridge, cpu_message, cpu_supported, family_fn, is_hit, mailbox, mailbox_name, version_text,
    CpuError, Probe, ProbeEventModel,
};
use crate::smuctl::{
    as_signed, asks_for_list, ctl_message, goes_by, lemma_each_name_finds_its_message, list_lines,
    message, messages, named, ordered, requested, response, signed, taken, CtlError, CtlErrorModel,
    OrderModel, Request,
};
use crate::text::{is_digit, lines, lower, pieces, separated, starts};

verus! {

// ---------- messages ----------

/// Whether the message that is found by what was typed has this number, and takes a
/// value in this unit.
pub open spec fn finds(typed: Seq<char>, id: u32, unit: Seq<char>) -> bool {
    &&& first(messages(), named(typed)) matches Some(c)
    &&& c.id == id
    &&& c.unit == unit
}

proof fn lemma_small(s: Seq<char>)
    requires
        forall|i: int| 0 <= i < s.len() ==> !('A' <= #[trigger] s[i] <= 'Z'),
    ensures
        lower(s) == s,
{
    assert forall|i: int| 0 <= i < s.len() implies lower(s)[i] == s[i] by {
        lemma_lower(s, i);
    }
    assert(lower(s) =~= s);
}

proof fn lemma_by_name(typed: Seq<char>, name: Seq<char>, i: int, j: int)
    requires
        lower(typed) == name,
        forall|k: int| 0 <= k < name.len() ==> !('A' <= #[trigger] name[k] <= 'Z'),
        0 <= i < 19,
        0 <= j < message(i).names.len(),
        message(i).names[j] == name,
    ensures
        first(messages(), named(typed)) == Some(message(i)),
{
    lemma_small(name);
    lemma_each_name_finds_its_message(i, j, typed);
}
/// The limits on power and their time constants: what is typed, in whatever case, has
/// one number and one unit.
pub proof fn lemma_message_limits(typed: Seq<char>)
    ensures
        lower(typed) == "stapm-limit"@ ==> finds(typed, 0x14, "mW"@),
        lower(typed) == "stapm"@ ==> finds(typed, 0x14, "mW"@),
        lower(typed) == "fast-limit"@ ==> finds(typed, 0x15, "mW"@),
        lower(typed) == "fast"@ ==> finds(typed, 0x15, "mW"@),
        lower(typed) == "slow-limit"@ ==> finds(typed, 0x16, "mW"@),
        lower(typed) == "slow"@ ==> finds(typed, 0x16, "mW"@),
        lower(typed) == "slow-time"@ ==> finds(typed, 0x17, "s"@),
        lower(typed) == "stapm-time"@ ==> finds(typed, 0x18, "s"@),
{
    if lower(typed) == "stapm-limit"@ {
        reveal_strlit("stapm-limit");
        lemma_by_name(typed, "stapm-limit"@, 0, 0);
    }
    if lower(typed) == "stapm"@ {
        reveal_strlit("stapm");
        lemma_by_name(typed, "stapm"@, 0, 1);
    }
    if lower(typed) == "fast-limit"@ {
        reveal_strlit("fast-limit");
        lemma_by_name(typed, "fast-limit"@, 1, 0);
    }
    if lower(typed) == "fast"@ {
        reveal_strlit("fast");
        lemma_by_name(typed, "fast"@, 1, 1);
    }
    if lower(typed) == "slow-limit"@ {
        reveal_strlit("slow-limit");
        lemma_by_name(typed, "slow-limit"@, 2, 0);
    }
    if lower(typed) == "slow"@ {
        reveal_strlit("slow");
        lemma_by_name(typed, "slow"@, 2, 1);
    }
    if lower(typed) == "slow-time"@ {
        reveal_strlit("slow-time");
        lemma_by_name(typed, "slow-time"@, 3, 0);
    }
    if lower(typed) == "stapm-time"@ {
        reveal_strlit("stapm-time");
        lemma_by_name(typed, "stapm-time"@, 4, 0);
    }
}

/// The limits on the temperature and on currents, by what is typed in whatever case.
pub proof fn lemma_message_temperature_and_current(typed: Seq<char>)
    ensures
        lower(typed) == "tctl-temp"@ ==> finds(typed, 0x19, "°C"@),
        lower(typed) == "tctl"@ ==> finds(typed, 0x19, "°C"@),
        lower(typed) == "vrm-current"@ ==> finds(typed, 0x1A, "mA"@),
        lower(typed) == "tdc"@ ==> finds(typed, 0x1A, "mA"@),
        lower(typed) == "vrmsoc-current"@ ==> finds(typed, 0x1B, "mA"@),
        lower(typed) == "vrmmax-current"@ ==> finds(typed, 0x1C, "mA"@),
        lower(typed) == "edc"@ ==> finds(typed, 0x1C, "mA"@),
        lower(typed) == "vrmsocmax-current"@ ==> finds(typed, 0x1D, "mA"@),
{
    if lower(typed) == "tctl-temp"@ {
        reveal_strlit("tctl-temp");
        lemma_by_name(typed, "tctl-temp"@, 5, 0);
    }
    if lower(typed) == "tctl"@ {
        reveal_strlit("tctl");
        lemma_by_name(typed, "tctl"@, 5, 1);
    }
    if lower(typed) == "vrm-current"@ {
        reveal_strlit("vrm-current");
        lemma_by_name(typed, "vrm-current"@, 6, 0);
    }
    if lower(typed) == "tdc"@ {
        reveal_strlit("tdc");
        lemma_by_name(typed, "tdc"@, 6, 1);
    }
    if lower(typed) == "vrmsoc-current"@ {
        reveal_strlit("vrmsoc-current");
        lemma_by_name(typed, "vrmsoc-current"@, 7, 0);
    }
    if lower(typed) == "vrmmax-current"@ {
        reveal_strlit("vrmmax-current");
        lemma_by_name(typed, "vrmmax-current"@, 8, 0);
    }
    if lower(typed) == "edc"@ {
        reveal_strlit("edc");
        lemma_by_name(typed, "edc"@, 8, 1);
    }
    if lower(typed) == "vrmsocmax-current"@ {
        reveal_strlit("vrmsocmax-current");
        lemma_by_name(typed, "vrmsocmax-current"@, 9, 0);
    }
}

/// The limits on the skin temperature, the ramp, and the offsets on the curve, by what
/// is typed in whatever case.
pub proof fn lemma_message_skin_and_offsets(typed: Seq<char>)
    ensures
        lower(typed) == "prochot-ramp"@ ==> finds(typed, 0x1F, "?"@),
        lower(typed) == "dgpu-skin-temp"@ ==> finds(typed, 0x34, "°C"@),
        lower(typed) == "skin-temp-power"@ ==> finds(typed, 0x4A, "mW"@),
        lower(typed) == "coall"@ ==> finds(typed, 0x4C, "CO"@),
        lower(typed) == "co"@ ==> finds(typed, 0x4C, "CO"@),
        lower(typed) == "coper"@ ==> finds(typed, 0x4B, "CO"@),
{
    if lower(typed) == "prochot-ramp"@ {
        reveal_strlit("prochot-ramp");
        lemma_by_name(typed, "prochot-ramp"@, 10, 0);
    }
    if lower(typed) == "dgpu-skin-temp"@ {
        reveal_strlit("dgpu-skin-temp");
        lemma_by_name(typed, "dgpu-skin-temp"@, 11, 0);
    }
    if lower(typed) == "skin-temp-power"@ {
        reveal_strlit("skin-temp-power");
        lemma_by_name(typed, "skin-temp-power"@, 12, 0);
    }
    if lower(typed) == "coall"@ {
        reveal_strlit("coall");
        lemma_by_name(typed, "coall"@, 13, 0);
    }
    if lower(typed) == "co"@ {
        reveal_strlit("co");
        lemma_by_name(typed, "co"@, 13, 1);
    }
    if lower(typed) == "coper"@ {
        reveal_strlit("coper");
        lemma_by_name(typed, "coper"@, 14, 0);
    }
}

/// The remaining limits, and the two modes, by what is typed in whatever case.
pub proof fn lemma_message_modes(typed: Seq<char>)
    ensures
        lower(typed) == "psi0-current"@ ==> finds(typed, 0x1E, "mA"@),
        lower(typed) == "apu-slow-limit"@ ==> finds(typed, 0x23, "mW"@),
        lower(typed) == "power-saving"@ ==> finds(typed, 0x12, "?"@),
        lower(typed) == "max-performance"@ ==> finds(typed, 0x11, "?"@),
{
    if lower(typed) == "psi0-current"@ {
        reveal_strlit("psi0-current");
        lemma_by_name(typed, "psi0-current"@, 15, 0);
    }
    if lower(typed) == "apu-slow-limit"@ {
        reveal_strlit("apu-slow-limit");
        lemma_by_name(typed, "apu-slow-limit"@, 16, 0);
    }
    if lower(typed) == "power-saving"@ {
        reveal_strlit("power-saving");
        lemma_by_name(typed, "power-saving"@, 17, 0);
    }
    if lower(typed) == "max-performance"@ {
        reveal_strlit("max-performance");
        lemma_by_name(typed, "max-performance"@, 18, 0);
    }
}

/// The names that messages go by.
pub open spec fn known_names() -> Seq<Seq<char>> {
    seq![
        "stapm-limit"@,
        "stapm"@,
        "fast-limit"@,
        "fast"@,
        "slow-limit"@,
        "slow"@,
        "slow-time"@,
        "stapm-time"@,
        "tctl-temp"@,
        "tctl"@,
        "vrm-current"@,
        "tdc"@,
        "vrmsoc-current"@,
        "vrmmax-current"@,
        "edc"@,
        "vrmsocmax-current"@,
        "prochot-ramp"@,
        "dgpu-skin-temp"@,
        "skin-temp-power"@,
        "coall"@,
        "co"@,
        "coper"@,
        "psi0-current"@,
        "apu-slow-limit"@,
        "power-saving"@,
        "max-performance"@,
    ]
}

/// What is typed finds no message where it is none of the names in whatever case.
pub proof fn lemma_unknown_name(typed: Seq<char>)
    requires
        !known_names().contains(lower(typed)),
    ensures
        first(messages(), named(typed)) is None,
{
    let known = known_names();
    assert forall|k: int| 0 <= k < messages().len() implies named(typed)(
        #[trigger] messages()[k],
    ) is None by {
        if goes_by(message(k), typed) {
            let j = choose|j: int|
                0 <= j < message(k).names.len() && lower(#[trigger] message(k).names[j]) == lower(
                    typed,
                );
            lemma_names_are_known(k, j);
        }
    }
    lemma_first_none(messages(), named(typed));
}

proof fn lemma_names_are_known(k: int, j: int)
    requires
        0 <= k < 19,
        0 <= j < message(k).names.len(),
    ensures
        known_names().contains(lower(message(k).names[j])),
{
    let known = known_names();
    if k == 0 {
        reveal_strlit("stapm-limit");
        lemma_small("stapm-limit"@);
        assert(known[0] == "stapm-limit"@);
        reveal_strlit("stapm");
        lemma_small("stapm"@);
        assert(known[1] == "stapm"@);
    } else if k == 1 {
        reveal_strlit("fast-limit");
        lemma_small("fast-limit"@);
        assert(known[2] == "fast-limit"@);
        reveal_strlit("fast");
        lemma_small("fast"@);
        assert(known[3] == "fast"@);
    } else if k == 2 {
        reveal_strlit("slow-limit");
        lemma_small("slow-limit"@);
        assert(known[4] == "slow-limit"@);
        reveal_strlit("slow");
        lemma_small("slow"@);
        assert(known[5] == "slow"@);
    } else if k == 3 {
        reveal_strlit("slow-time");
        lemma_small("slow-time"@);
        assert(known[6] == "slow-time"@);
    } else if k == 4 {
        reveal_strlit("stapm-time");
        lemma_small("stapm-time"@);
        assert(known[7] == "stapm-time"@);
    } else if k == 5 {
        reveal_strlit("tctl-temp");
        lemma_small("tctl-temp"@);
        assert(known[8] == "tctl-temp"@);
        reveal_strlit("tctl");
        lemma_small("tctl"@);
        assert(known[9] == "tctl"@);
    } else if k == 6 {
        reveal_strlit("vrm-current");
        lemma_small("vrm-current"@);
        assert(known[10] == "vrm-current"@);
        reveal_strlit("tdc");
        lemma_small("tdc"@);
        assert(known[11] == "tdc"@);
    } else if k == 7 {
        reveal_strlit("vrmsoc-current");
        lemma_small("vrmsoc-current"@);
        assert(known[12] == "vrmsoc-current"@);
    } else if k == 8 {
        reveal_strlit("vrmmax-current");
        lemma_small("vrmmax-current"@);
        assert(known[13] == "vrmmax-current"@);
        reveal_strlit("edc");
        lemma_small("edc"@);
        assert(known[14] == "edc"@);
    } else if k == 9 {
        reveal_strlit("vrmsocmax-current");
        lemma_small("vrmsocmax-current"@);
        assert(known[15] == "vrmsocmax-current"@);
    } else if k == 10 {
        reveal_strlit("prochot-ramp");
        lemma_small("prochot-ramp"@);
        assert(known[16] == "prochot-ramp"@);
    } else if k == 11 {
        reveal_strlit("dgpu-skin-temp");
        lemma_small("dgpu-skin-temp"@);
        assert(known[17] == "dgpu-skin-temp"@);
    } else if k == 12 {
        reveal_strlit("skin-temp-power");
        lemma_small("skin-temp-power"@);
        assert(known[18] == "skin-temp-power"@);
    } else if k == 13 {
        reveal_strlit("coall");
        lemma_small("coall"@);
        assert(known[19] == "coall"@);
        reveal_strlit("co");
        lemma_small("co"@);
        assert(known[20] == "co"@);
    } else if k == 14 {
        reveal_strlit("coper");
        lemma_small("coper"@);
        assert(known[21] == "coper"@);
    } else if k == 15 {
        reveal_strlit("psi0-current");
        lemma_small("psi0-current"@);
        assert(known[22] == "psi0-current"@);
    } else if k == 16 {
        reveal_strlit("apu-slow-limit");
        lemma_small("apu-slow-limit"@);
        assert(known[23] == "apu-slow-limit"@);
    } else if k == 17 {
        reveal_strlit("power-saving");
        lemma_small("power-saving"@);
        assert(known[24] == "power-saving"@);
    } else {
        reveal_strlit("max-performance");
        lemma_small("max-performance"@);
        assert(known[25] == "max-performance"@);
    }
}

/// Whether the processor may be sent messages.
pub open spec fn allowed(forced: Option<Seq<char>>, cpuinfo: Option<Seq<char>>) -> bool {
    cpu_supported(forced, cpuinfo) is Ok
}

/// An order carries the number and the unit of its message, and its value as a word:
/// a value that is not negative as it is, and a negative one 32 bits further on. The
/// offsets on the curve have 28 bits, and none that does not fit is ordered.
pub proof fn lemma_order(
    typed: Seq<char>,
    id: u32,
    unit: Seq<char>,
    value: i64,
    forced: Option<Seq<char>>,
    cpuinfo: Option<Seq<char>>,
)
    requires
        finds(typed, id, unit),
        allowed(forced, cpuinfo),
    ensures
        ({
            let r = ordered(typed, value, forced, cpuinfo);
            let curve = id == 0x4B || id == 0x4C;
            let fits = -134_217_728 <= value < 134_217_728;
            &&& curve && !fits ==> r == Err::<OrderModel, CtlErrorModel>(
                CtlErrorModel::OutOfRange(value),
            )
            &&& !curve || fits ==> {
                &&& r matches Ok(o)
                &&& o.name == typed
                &&& o.id == id
                &&& o.unit == unit
                &&& o.value == value
                &&& curve && value >= 0 ==> o.raw == value
                &&& curve && value < 0 ==> o.raw == value + 268_435_456
                &&& !curve && 0 <= value < 4_294_967_296 ==> o.raw == value
                &&& !curve && -4_294_967_296 <= value < 0 ==> o.raw == value + 4_294_967_296
                &&& !curve ==> (value - o.raw) % 4_294_967_296 == 0
            }
        }),
{
}

/// Nothing is ordered by an unknown name, nor on a processor that is not known.
pub proof fn lemma_no_order(
    typed: Seq<char>,
    id: u32,
    unit: Seq<char>,
    value: i64,
    forced: Option<Seq<char>>,
    cpuinfo: Option<Seq<char>>,
    e: CpuError,
)
    ensures
        first(messages(), named(typed)) is None ==> ordered(typed, value, forced, cpuinfo) == Err::<
            OrderModel,
            CtlErrorModel,
        >(CtlErrorModel::UnknownMessage(typed)),
        finds(typed, id, unit) && -134_217_728 <= value < 134_217_728 && cpu_supported(
            forced,
            cpuinfo,
        ) == Err::<(), CpuError>(e) ==> ordered(typed, value, forced, cpuinfo) == Err::<
            OrderModel,
            CtlErrorModel,
        >(CtlErrorModel::Cpu(e)),
{
}

/// The list is asked for by three words, and where nothing is said.
pub proof fn lemma_list_is_asked_for(word: Seq<char>, more: Seq<Seq<char>>)
    ensures
        asks_for_list(Seq::empty()),
        asks_for_list(seq![word] + more) <==> word == "list"@ || word == "-h"@ || word == "--help"@,
{
    assert((seq![word] + more)[0] == word);
}

/// A number with its sign is read as what it was written from.
pub proof fn lemma_signed(n: i64)
    ensures
        decimal_i64(signed(n as int)) == Some(n as int),
{
    if n < 0 {
        lemma_number_reads_back((-n) as nat);
    } else {
        lemma_number_reads_back(n as nat);
    }
}

/// What is told of a message that was taken: its name, number, value and unit; and
/// of the offset for all cores also the word that came back, by its sign.
pub proof fn lemma_taken(o: OrderModel, back: i32)
    ensures
        ({
            let word = if back < 0 {
                (back + 4_294_967_296) as u32
            } else {
                back as u32
            };
            let told = taken(o, word);
            &&& told[0] == "✅ "@ + o.name + " (0x"@ + hex(o.id as nat, 2) + ") ← "@ + signed(
                o.value as int,
            ) + " "@ + o.unit + " — SMU 响应 OK"@
            &&& as_signed(word) == back
            &&& o.id != 0x4C ==> told.len() == 1
            &&& o.id == 0x4C ==> told.len() == 2 && told[1] == "   SMU 读回 arg0 = "@ + signed(
                back as int,
            ) + " (CO 步进值)"@
        }),
{
}

/// The list has a line on each message, with its number and its unit, between one
/// line in front and four behind.
pub proof fn lemma_list(i: int)
    requires
        0 <= i < 19,
    ensures
        list_lines().len() == 24,
        message(i).names.len() == 1 ==> list_lines()[1 + i] == left(message(i).names[0], 22)
            + " 0x"@ + hex(message(i).id as nat, 4) + " "@ + right(message(i).unit, ' ', 8) + "  "@
            + message(i).desc,
        message(i).names.len() == 2 ==> list_lines()[1 + i] == left(
            message(i).names[0] + "/"@ + message(i).names[1],
            22,
        ) + " 0x"@ + hex(message(i).id as nat, 4) + " "@ + right(message(i).unit, ' ', 8) + "  "@
            + message(i).desc,
{
    let names = message(i).names;
    if names.len() == 2 {
        assert(names.drop_last() =~= seq![names[0]]);
        assert(separated(names.drop_last(), "/"@) == names[0]);
        assert(separated(names, "/"@) == names[0] + "/"@ + names[1]);
    }
}

// ---------- the processor ----------

/// The line on the family of a processor, with blanks around the colon.
pub open spec fn family_row(a: Seq<char>, b: Seq<char>, n: u32) -> Seq<char> {
    "cpu family"@ + a + ":"@ + b + dec(n as nat)
}

proof fn lemma_family_row(a: Seq<char>, b: Seq<char>, n: u32)
    requires
        blank(a),
        blank(b),
    ensures
        family_fn()(family_row(a, b, n)) == Some(n),
{
    reveal_strlit(":");
    let d = dec(n as nat);
    lemma_written_number(n as nat);
    lemma_number_reads_back(n as nat);
    let rest = a + seq![':'] + (b + d);
    assert(family_row(a, b, n) =~= "cpu family"@ + rest);
    lemma_prefix_and_suffix("cpu family"@, rest);
    assert(!a.contains(':'));
    lemma_cut_at(a, ':', b + d);
    assert(!(b + d).contains(':')) by {
        if (b + d).contains(':') {
            let i = choose|i: int| 0 <= i < (b + d).len() && (b + d)[i] == ':';
            if i < b.len() {
                assert(b[i] == ':');
            } else {
                assert(is_digit(d[i - b.len()]));
            }
        }
    }
    lemma_cut_at(b + d, ':', Seq::empty());
    assert(pieces(rest, ':') =~= seq![a, b + d]);
    lemma_trimmed(b, d, Seq::empty());
    assert(b + d + Seq::<char>::empty() =~= b + d);
}

/// Messages are sent to processors of family 26 and to no others, by the first line
/// that tells the family, but for the user who says `1` to that.
pub proof fn lemma_family(
    before: Seq<Seq<char>>,
    a: Seq<char>,
    b: Seq<char>,
    n: u32,
    rest: Seq<char>,
    forced: Option<Seq<char>>,
)
    requires
        blank(a),
        blank(b),
        one_line(a),
        one_line(b),
        forall|i: int|
            0 <= i < before.len() ==> one_line(#[trigger] before[i]) && !starts(
                before[i],
                "cpu family"@,
            ),
    ensures
        ({
            let text = as_lines(before.push(family_row(a, b, n))) + rest;
            let r = cpu_supported(forced, Some(text));
            &&& forced == Some("1"@) ==> r is Ok
            &&& forced != Some("1"@) && n == 26 ==> r is Ok
            &&& forced != Some("1"@) && n != 26 ==> r == Err::<(), CpuError>(CpuError::Family(n))
            &&& forced != Some("1"@) ==> cpu_supported(forced, Some(as_lines(before))) == Err::<
                (),
                CpuError,
            >(CpuError::Unknown)
            &&& forced != Some("1"@) ==> cpu_supported(forced, None) == Err::<(), CpuError>(
                CpuError::Unreadable,
            )
        }),
{
    reveal_strlit("cpu family");
    reveal_strlit(":");
    let row = family_row(a, b, n);
    let d = dec(n as nat);
    lemma_written_number(n as nat);
    assert(one_line(row)) by {
        assert forall|i: int| 0 <= i < row.len() implies #[trigger] row[i] != '\n' && row[i]
            != '\r' by {
            if i >= 11 + a.len() + b.len() {
                assert(is_digit(d[i - 11 - a.len() - b.len()]));
            }
        }
    }
    let rows = before.push(row);
    let text = as_lines(rows) + rest;
    lemma_as_lines(rows, rest);
    lemma_family_row(a, b, n);
    let all = lines(text);
    assert(all[before.len() as int] == row);
    assert forall|i: int| 0 <= i < before.len() implies family_fn()(#[trigger] all[i]) is None by {
        assert(all[i] == before[i]);
    }
    lemma_first_at(all, family_fn(), before.len() as int);
    let none = Seq::<char>::empty();
    lemma_as_lines(before, none);
    assert(as_lines(before) + none =~= as_lines(before));
    assert(lines(none).len() == 0);
    assert(lines(as_lines(before)) =~= before);
    lemma_first_none(before, family_fn());
}

// ---------- mailboxes ----------

proof fn lemma_bytes(v: int, a: int, b: int, c: int, d: int)
    requires
        0 <= a < 256,
        0 <= b < 256,
        0 <= c < 256,
        0 <= d < 256,
        v == a + 256 * b + 65_536 * c + 16_777_216 * d,
    ensures
        v % 0x100 == a,
        v / 0x100 % 0x100 == b,
        v / 0x1_0000 % 0x100 == c,
        v / 0x100_0000 == d,
{
    assert(v / 0x100 == b + 256 * c + 65_536 * d);
    assert(v / 0x1_0000 == c + 256 * d);
}

/// A word is four bytes, the least significant first.
pub proof fn lemma_bytes_of_a_word(a: u8, b: u8, c: u8, d: u8)
    ensures
        le_bytes((a + 256 * b + 65_536 * c + 16_777_216 * d) as u32) == seq![a, b, c, d],
        le_number(seq![a, b, c, d]) == a + 256 * b + 65_536 * c + 16_777_216 * d,
{
    let v = (a + 256 * b + 65_536 * c + 16_777_216 * d) as u32;
    lemma_bytes(v as int, a as int, b as int, c as int, d as int);
    assert(le_bytes(v) =~= seq![a, b, c, d]);
}

/// A version is three of the bytes of its word, the most significant first.
pub proof fn lemma_version(a: u8, b: u8, c: u8, d: u8)
    ensures
        version_text((a + 256 * b + 65_536 * c + 16_777_216 * d) as u32) == dec(c as nat) + "."@
            + dec(b as nat) + "."@ + dec(a as nat),
{
    let v = (a + 256 * b + 65_536 * c + 16_777_216 * d) as u32;
    lemma_bytes(v as int, a as int, b as int, c as int, d as int);
}

/// A command clears the response, sets six arguments four bytes apart, and is then
/// given, in eight writes; the arguments are read back from where they were set.
pub proof fn lemma_command(m: HandshakeModel, i: usize)
    requires
        m.mailbox.args <= u32::MAX - 20,
        i < 6,
    ensures
        script(m, 0) == (m.mailbox.rsp, 0u32),
        script(m, i + 1) == ((m.mailbox.args + 4 * i) as u32, m.args[i as int]),
        script(m, 7) == (m.mailbox.cmd, m.op),
        (HandshakeModel { phase: Phase::Ready, ..m }).access() == Access::Read(m.mailbox.rsp),
        (HandshakeModel { phase: Phase::Answer, ..m }).access() == Access::Read(m.mailbox.rsp),
        (HandshakeModel { phase: Phase::Collect(i), ..m }).access() == Access::Read(
            (m.mailbox.args + 4 * i) as u32,
        ),
{
}

/// A mailbox has half a second to be ready and a second and a half to answer; as long
/// as that has not passed, it is asked again.
pub proof fn lemma_patience(m: HandshakeModel, value: u32, waited: u64)
    requires
        m.since + waited <= u64::MAX,
    ensures
        ({
            let now = (m.since + waited) as u64;
            let ready = (HandshakeModel { phase: Phase::Ready, ..m });
            let answer = (HandshakeModel { phase: Phase::Answer, ..m });
            &&& value != 0 ==> ready.next(value, now) == (HandshakeModel {
                phase: Phase::Write(0),
                ..m
            })
            &&& value != 0 ==> answer.next(value, now) == (HandshakeModel {
                phase: Phase::Collect(0),
                reply: value,
                ..m
            })
            &&& waited < 500_000_000 ==> ready.next(0, now) == ready
            &&& waited >= 500_000_000 ==> ready.next(0, now).phase == Phase::NotReady
            &&& waited < 1_500_000_000 ==> answer.next(0, now) == answer
            &&& waited >= 1_500_000_000 ==> answer.next(0, now).phase == Phase::NoAnswer
        }),
{
}

/// The mailboxes that are tried, behind two bridges.
pub proof fn lemma_mailboxes()
    ensures
        bridge(0) == (Smn { idx_reg: 0xC4, data_reg: 0xC8 }),
        bridge(1) == (Smn { idx_reg: 0xB8, data_reg: 0xBC }),
        mailbox_name(0) == "RSMU-APU"@,
        mailbox(0) == (Mailbox { cmd: 0x03B1_0A20, rsp: 0x03B1_0A80, args: 0x03B1_0A88 }),
        mailbox_name(1) == "MP1-IFv13"@,
        mailbox(1) == (Mailbox { cmd: 0x03B1_0528, rsp: 0x03B1_0578, args: 0x03B1_0998 }),
        mailbox_name(2) == "MP1-IFv12"@,
        mailbox(2) == (Mailbox { cmd: 0x03B1_0528, rsp: 0x03B1_0564, args: 0x03B1_0998 }),
        mailbox_name(3) == "RSMU-桌面"@,
        mailbox(3) == (Mailbox { cmd: 0x03B1_0524, rsp: 0x03B1_0570, args: 0x03B1_0A40 }),
        mailbox_name(4) == "MP1-IFv11"@,
        mailbox(4) == (Mailbox { cmd: 0x03B1_0530, rsp: 0x03B1_057C, args: 0x03B1_09C4 }),
        mailbox_name(5) == "MP1-IFv9"@,
        mailbox(5) == (Mailbox { cmd: 0x03B1_0528, rsp: 0x03B1_0564, args: 0x03B1_0598 }),
        mailbox_name(6) == "RSMU-TR"@,
        mailbox(6) == (Mailbox { cmd: 0x03B1_051C, rsp: 0x03B1_0568, args: 0x03B1_0590 }),
{
}

/// The search: a mailbox that answers 1 and tells more than 1 is a hit; after any
/// other answer, or none, the next of the seven is asked, and after the last of them
/// the other bridge is opened, as it is where the first cannot be.
pub proof fn lemma_search(b: usize, m: usize, ret: u32, arg0: u32, why: Seq<char>)
    requires
        b < 2,
        m < 7,
    ensures
        ({
            let ask = Probe::Ask { bridge: b, mailbox: m };
            let open = Probe::Open { bridge: b };
            let reply = ProbeEventModel::Reply { ret, arg0 };
            let hit = ret == 1 && arg0 > 1;
            let other = if b == 0 {
                Probe::Open { bridge: 1 }
            } else {
                Probe::Missed
            };
            &&& open.next(ProbeEventModel::Opened) == (Probe::Ask { bridge: b, mailbox: 0 })
            &&& open.next(ProbeEventModel::NotOpened(why)) == other
            &&& hit ==> ask.next(reply) == Probe::Hit
            &&& is_hit(ret, arg0) <==> hit
            &&& m < 6 && !hit ==> ask.next(reply) == (Probe::Ask {
                bridge: b,
                mailbox: (m + 1) as usize,
            })
            &&& m < 6 ==> ask.next(ProbeEventModel::NoReply(why)) == (Probe::Ask {
                bridge: b,
                mailbox: (m + 1) as usize,
            })
            &&& m == 6 && !hit ==> ask.next(reply) == other
            &&& m == 6 ==> ask.next(ProbeEventModel::NoReply(why)) == other
        }),
{
}

/// What is told on the search: the bridge that is opened, the answer of each mailbox,
/// and the version where it is a hit.
pub proof fn lemma_search_notes(b: usize, m: usize, ret: u32, arg0: u32, why: Seq<char>)
    requires
        b < 2,
        m < 7,
    ensures
        ({
            let ask = Probe::Ask { bridge: b, mailbox: m };
            let name = mailbox_name(m as int);
            let told = "  "@ + left(name, 9) + " RSP 0x"@ + hex(ret as nat, 2) + "  arg0 0x"@ + hex(
                arg0 as nat,
                8,
            );
            let reply = ProbeEventModel::Reply { ret, arg0 };
            &&& (Probe::Open { bridge: 0 }).notes(ProbeEventModel::Opened) == seq![
                "SMN 桥 config 0x"@ + hex(196, 0) + "/0x"@ + hex(200, 0) + ":"@,
            ]
            &&& (Probe::Open { bridge: 1 }).notes(ProbeEventModel::Opened) == seq![
                "SMN 桥 config 0x"@ + hex(184, 0) + "/0x"@ + hex(188, 0) + ":"@,
            ]
            &&& (Probe::Open { bridge: 0 }).notes(ProbeEventModel::NotOpened(why)) == seq![
                "SMN 桥 0x"@ + hex(196, 0) + "/0x"@ + hex(200, 0) + ": "@ + why,
            ]
            &&& ret == 1 && arg0 > 1 ==> ask.notes(reply) == seq![
                told,
                "  ✅ 命中: "@ + name + " — SMU 版本 "@ + version_text(arg0) + " (0x"@ + hex(
                    arg0 as nat,
                    8,
                ) + ")"@,
            ]
            &&& !(ret == 1 && arg0 > 1) ==> ask.notes(reply) == seq![told]
            &&& ask.notes(ProbeEventModel::NoReply(why)) == seq![
                "  "@ + left(name, 9) + " "@ + why,
            ]
        }),
{
}

/// What the arguments ask for: a value that is missing, or is no whole number, is told;
/// otherwise the order that the name and the value make.
pub proof fn lemma_request(
    r: Result<Request, CtlError>,
    name: Seq<char>,
    value: i64,
    word: Seq<char>,
    forced: Option<Seq<char>>,
    cpuinfo: Option<Seq<char>>,
)
    requires
        name != "list"@ && name != "-h"@ && name != "--help"@,
    ensures
        requested(r, seq![name], forced, cpuinfo) ==> (r matches Err(e) && e@
            == CtlErrorModel::NoValue(name)),
        requested(r, seq![name, word], forced, cpuinfo) && decimal_i64(word) is None ==> (
        r matches Err(e) && e@ == CtlErrorModel::NotWhole(word)),
        requested(r, seq![name, signed(value as int)], forced, cpuinfo) ==> match ordered(
            name,
            value,
            forced,
            cpuinfo,
        ) {
            Ok(o) => r matches Ok(Request::Send(a)) && a@ == o,
            Err(e) => r matches Err(x) && x@ == e,
        },
        requested(r, Seq::empty(), forced, cpuinfo) ==> r matches Ok(Request::List),
        requested(r, seq!["list"@], forced, cpuinfo) ==> r matches Ok(Request::List),
{
    lemma_signed(value);
    let args = seq![name, signed(value as int)];
    assert(args[0] == name && args[1] == signed(value as int));
    let other = seq![name, word];
    assert(other[0] == name && other[1] == word);
    assert(seq![name][0] == name);
}

/// What is told of what went wrong with a message.
pub proof fn lemma_control_messages(
    name: Seq<char>,
    value: i64,
    r: u32,
    e: CpuError,
    cause: Seq<char>,
)
    ensures
        ctl_message(CtlErrorModel::NoValue(name), cause) == "缺少值: rustinfo smuctl "@ + name
            + " <值>   (list 查看全部消息)"@,
        ctl_message(CtlErrorModel::NotWhole(name), cause) == "值 \""@ + name
            + "\" 不是整数 (CO 负值直接写 -27): "@ + cause,
        ctl_message(CtlErrorModel::UnknownMessage(name), cause) == "未知消息 \""@ + name
            + "\" — 用 `rustinfo smuctl list` 查看全部 ("@ + dec(19) + ")"@,
        ctl_message(CtlErrorModel::OutOfRange(value), cause) == "CO 值 "@ + signed(value as int)
            + " 超出 28 位补码范围 (±134217728)"@,
        ctl_message(CtlErrorModel::Cpu(e), cause) == cpu_message(e, cause),
        ctl_message(CtlErrorModel::Failed, cause)
            == "❌ SMU 拒绝执行 (Failed) — 值可能超出固件允许范围"@,
        ctl_message(CtlErrorModel::UnknownCmd, cause)
            == "❌ UnknownCmd — 此 PMFW 不支持该消息"@,
        ctl_message(CtlErrorModel::Rejected, cause) == "❌ RejectedPrereq — 前置条件不满足"@,
        ctl_message(CtlErrorModel::Busy, cause) == "❌ Busy — SMU 忙, 稍后重试"@,
        ctl_message(CtlErrorModel::Response(r), cause) == "未知响应 0x"@ + hex(r as nat, 0),
        cpu_message(CpuError::Unreadable, cause) == "读 /proc/cpuinfo: "@ + cause,
        cpu_message(CpuError::Family(r), cause) == "CPU family "@ + dec(r as nat) + " (0x"@ + hex(
            r as nat,
            0,
        )
            + ") 未验证 — smu/smuctl 的邮箱与消息表仅适配 family 26 (0x1A, Zen 5 移动)。确要尝试: RUSTINFO_SMU_FORCE=1"@,
        cpu_message(CpuError::Unknown, cause)
            == "无法识别 CPU family。确要尝试: RUSTINFO_SMU_FORCE=1"@,
        handshake_message(HandshakeError::NotReady(r)) == "RSP 0x"@ + hex(r as nat, 0)
            + " 初始等待超时"@,
        handshake_message(HandshakeError::NoAnswer(r)) == "命令 0x"@ + hex(r as nat, 0)
            + " 处理超时"@,
{
}

/// A command starts with nothing read, and goes on write by write and word by word: the
/// eighth write is followed by the wait for its answer, and the sixth word ends it.
pub proof fn lemma_steps(
    mailbox: Mailbox,
    op: u32,
    args: Seq<u32>,
    m: HandshakeModel,
    k: usize,
    value: u32,
    now: u64,
)
    requires
        m.results.len() == 6,
    ensures
        started(mailbox, op, args, now) == (HandshakeModel {
            mailbox,
            op,
            args,
            phase: Phase::Ready,
            since: now,
            reply: 0,
            results: seq![0u32, 0, 0, 0, 0, 0],
        }),
        k < 7 ==> (HandshakeModel { phase: Phase::Write(k), ..m }).next(value, now) == (
        HandshakeModel { phase: Phase::Write((k + 1) as usize), ..m }),
        (HandshakeModel { phase: Phase::Write(7), ..m }).next(value, now) == (HandshakeModel {
            phase: Phase::Answer,
            since: now,
            ..m
        }),
        k < 5 ==> (HandshakeModel { phase: Phase::Collect(k), ..m }).next(value, now) == (
        HandshakeModel {
            phase: Phase::Collect((k + 1) as usize),
            results: m.results.update(k as int, value),
            ..m
        }),
        (HandshakeModel { phase: Phase::Collect(5), ..m }).next(value, now) == (HandshakeModel {
            phase: Phase::Done,
            results: m.results.update(5, value),
            ..m
        }),
        (HandshakeModel { phase: Phase::Done, ..m }).next(value, now) == (HandshakeModel {
            phase: Phase::Done,
            ..m
        }),
{
}

/// Whether the message that is found by the name is described so.
pub open spec fn described(name: Seq<char>, desc: Seq<char>) -> bool {
    first(messages(), named(name)) matches Some(c) && c.names[0] == name && c.desc == desc
}

/// What each message does, by its first name.
pub proof fn lemma_descriptions()
    ensures
        described("stapm-limit"@, "STAPM 持续功耗墙"@),
        described("fast-limit"@, "PPT 快速功耗墙"@),
        described("slow-limit"@, "PPT 慢速功耗墙"@),
        described("slow-time"@, "PPT 慢速时间常数"@),
        described("stapm-time"@, "STAPM 时间常数"@),
        described("tctl-temp"@, "温度墙"@),
        described("vrm-current"@, "TDC VDD 电流限制"@),
        described("vrmsoc-current"@, "TDC SoC 电流限制"@),
        described("vrmmax-current"@, "EDC VDD 电流限制"@),
        described("vrmsocmax-current"@, "EDC SoC 电流限制"@),
        described("prochot-ramp"@, "Prochot 释放斜坡时间"@),
        described("dgpu-skin-temp"@, "dGPU 表皮温度限制"@),
        described("skin-temp-power"@, "表皮温度功耗限制"@),
        described("coall"@, "全核 Curve Optimizer (28 位补码, 负值=降压)"@),
        described("coper"@, "单核 Curve Optimizer (参数结构未验证)"@),
        described("psi0-current"@, "PSI0 电流限制 (判别实验: 45000 被接受且不钉频)"@),
        described("apu-slow-limit"@, "APU 慢速功耗墙 (判别实验: 45000mW 接受且不钉频, mW 语义实锤)"@),
        described("power-saving"@, "省电模式 (未验证)"@),
        described("max-performance"@, "最大性能模式 (未验证)"@),
{
    lemma_each_name_finds_its_message(0, 0, "stapm-limit"@);
    lemma_each_name_finds_its_message(1, 0, "fast-limit"@);
    lemma_each_name_finds_its_message(2, 0, "slow-limit"@);
    lemma_each_name_finds_its_message(3, 0, "slow-time"@);
    lemma_each_name_finds_its_message(4, 0, "stapm-time"@);
    lemma_each_name_finds_its_message(5, 0, "tctl-temp"@);
    lemma_each_name_finds_its_message(6, 0, "vrm-current"@);
    lemma_each_name_finds_its_message(7, 0, "vrmsoc-current"@);
    lemma_each_name_finds_its_message(8, 0, "vrmmax-current"@);
    lemma_each_name_finds_its_message(9, 0, "vrmsocmax-current"@);
    lemma_each_name_finds_its_message(10, 0, "prochot-ramp"@);
    lemma_each_name_finds_its_message(11, 0, "dgpu-skin-temp"@);
    lemma_each_name_finds_its_message(12, 0, "skin-temp-power"@);
    lemma_each_name_finds_its_message(13, 0, "coall"@);
    lemma_each_name_finds_its_message(14, 0, "coper"@);
    lemma_each_name_finds_its_message(15, 0, "psi0-current"@);
    lemma_each_name_finds_its_message(16, 0, "apu-slow-limit"@);
    lemma_each_name_finds_its_message(17, 0, "power-saving"@);
    lemma_each_name_finds_its_message(18, 0, "max-performance"@);
}

/// A command ends with its answer and the words that were read, or with the address of
/// the response or the command that took too long; until that it has not ended.
pub proof fn lemma_endings(h: Handshake)
    ensures
        h.phase == Phase::Done ==> h.ending() == Some(
            Ok::<(u32, Seq<u32>), HandshakeError>((h.reply, h.results@)),
        ),
        h.phase == Phase::NotReady ==> h.ending() == Some(
            Err::<(u32, Seq<u32>), HandshakeError>(HandshakeError::NotReady(h.mailbox.rsp)),
        ),
        h.phase == Phase::NoAnswer ==> h.ending() == Some(
            Err::<(u32, Seq<u32>), HandshakeError>(HandshakeError::NoAnswer(h.op)),
        ),
        h.phase != Phase::Done && h.phase != Phase::NotReady && h.phase != Phase::NoAnswer
            ==> h.ending() is None,
        h@.reply == h.reply && h@.results == h.results@ && h@.args == h.args@ && h@.op == h.op,
{
}

/// What a response means: 1 that the message was taken, and four others why it was not.
pub proof fn lemma_responses(o: OrderModel, resp: u32, arg0: u32)
    ensures
        response(o, 1, arg0) == Ok::<Seq<Seq<char>>, CtlErrorModel>(taken(o, arg0)),
        response(o, 255, arg0) == Err::<Seq<Seq<char>>, CtlErrorModel>(CtlErrorModel::Failed),
        response(o, 254, arg0) == Err::<Seq<Seq<char>>, CtlErrorModel>(CtlErrorModel::UnknownCmd),
        response(o, 253, arg0) == Err::<Seq<Seq<char>>, CtlErrorModel>(CtlErrorModel::Rejected),
        response(o, 252, arg0) == Err::<Seq<Seq<char>>, CtlErrorModel>(CtlErrorModel::Busy),
        resp != 1 && resp != 255 && resp != 254 && resp != 253 && resp != 252 ==> response(
            o,
            resp,
            arg0,
        ) == Err::<Seq<Seq<char>>, CtlErrorModel>(CtlErrorModel::Response(resp)),
{
}

/// Each mailbox is asked for the version by command 2 with a 1 as its argument.
pub proof fn lemma_question(b: usize, m: usize)
    ensures
        (Probe::Ask { bridge: b, mailbox: m }).question() == Some(
            (mailbox(m as int), 2u32, seq![1u32, 0, 0, 0, 0, 0]),
        ),
        (Probe::Open { bridge: b }).question() is None,
        Probe::Hit.question() is None,
        Probe::Missed.question() is None,
{
}

} // verus!

//! The command line.
use vstd::prelude::*;

use crate::double::Double;
use crate::lists::{put, seen, views};
use crate::numbers::{decimal, is_decimal};
use crate::text::{before_trailing, chars, owned, spells, string, trim, trim_trailing, trimmed};

verus! {

/// The bits of the shortest and the longest time between two samples, a fifth of
/// a second and a minute, and of a second, which is the time where none is given.
pub const SHORTEST_INTERVAL: u64 = 0x3FC9_9999_9999_999A;

pub const LONGEST_INTERVAL: u64 = 0x404E_0000_0000_0000;

pub const SECOND: u64 = 0x3FF0_0000_0000_0000;

/// The bits of half a second, for which a log at least waits before it starts.
pub const HALF_SECOND: u64 = 0x3FE0_0000_0000_0000;

/// What is to be done.
#[derive(Clone, Debug)]
pub enum Command {
    Help,
    Tui,
    Dump,
    /// Keeps a log, in the file where one is named.
    Log(Option<String>),
    SmuProbe,
    SmuTable,
    /// Sends a message, by the arguments.
    Smuctl(Vec<String>),
    Unknown(String),
}

/// What a `Command` says.
#[verifier::ext_equal]
pub enum CommandModel {
    Help,
    Tui,
    Dump,
    Log(Option<Seq<char>>),
    SmuProbe,
    SmuTable,
    Smuctl(Seq<Seq<char>>),
    Unknown(Seq<char>),
}

impl View for Command {
    type V = CommandModel;

    open spec fn view(&self) -> CommandModel {
        match self {
            Command::Help => CommandModel::Help,
            Command::Tui => CommandModel::Tui,
            Command::Dump => CommandModel::Dump,
            Command::Log(path) => CommandModel::Log(seen(*path)),
            Command::SmuProbe => CommandModel::SmuProbe,
            Command::SmuTable => CommandModel::SmuTable,
            Command::Smuctl(args) => CommandModel::Smuctl(views(args@)),
            Command::Unknown(name) => CommandModel::Unknown(name@),
        }
    }
}

#[derive(Clone, Copy, Debug, PartialEq, Eq, Structural)]
pub enum CliError {
    /// There is no argument behind the option for the interval.
    NoInterval,
    /// The argument at this place is no number.
    NotANumber(usize),
    /// The interval is not above zero.
    NotPositive,
}

// ---------- the interval ----------

/// The part of an argument that writes the interval: without the spaces around
/// it and the letters for seconds behind it.
pub open spec fn interval_words(s: Seq<char>) -> Seq<char> {
    trimmed(before_trailing(trimmed(s), 's'))
}

/// The text that is to be read as the interval.
pub fn interval_text(s: &str) -> (r: String)
    ensures
        r@ == interval_words(s@),
{
    let t = chars(s);
    string(trim(trim_trailing(trim(t.as_slice()), 's')))
}

/// The interval that an argument gives, `value` being the number that the text
/// in it writes. What is not above zero is refused, and so is what is no number
/// though it is written like one.
pub open spec fn interval_of(s: Seq<char>, i: usize, value: Option<Double>) -> Result<
    Double,
    CliError,
> {
    match value {
        Some(v) => if !is_decimal(interval_words(s)) {
            Err(CliError::NotANumber(i))
        } else if v.above(0) {
            Ok(v)
        } else {
            Err(CliError::NotPositive)
        },
        None => Err(CliError::NotANumber(i)),
    }
}

pub fn parse_interval(s: &str, i: usize, value: Option<Double>) -> (r: Result<Double, CliError>)
    ensures
        r == interval_of(s@, i, value),
{
    match value {
        Some(v) => {
            let t = interval_text(s);
            if !decimal(chars(t.as_str()).as_slice()) {
                Err(CliError::NotANumber(i))
            } else if v.gt_whole(0) {
                Ok(v)
            } else {
                Err(CliError::NotPositive)
            }
        },
        None => Err(CliError::NotANumber(i)),
    }
}

/// The interval held between the shortest and the longest.
pub open spec fn held(interval: Double) -> Double {
    interval.clamped(Double { bits: SHORTEST_INTERVAL }, Double { bits: LONGEST_INTERVAL })
}

// ---------- the arguments ----------

/// What is read of the arguments: whether help is wanted, the interval, and the
/// arguments that are no options.
#[verifier::ext_equal]
pub struct Parsed {
    pub help: bool,
    pub interval: Double,
    pub positional: Seq<Seq<char>>,
}

/// The number at a place of a list.
pub open spec fn number_at(numbers: Seq<Option<Double>>, i: int) -> Option<Double> {
    if 0 <= i < numbers.len() {
        numbers[i]
    } else {
        None
    }
}

/// Reads the arguments from the one at `i` on.
pub open spec fn parsed(
    args: Seq<Seq<char>>,
    numbers: Seq<Option<Double>>,
    i: int,
    interval: Double,
    positional: Seq<Seq<char>>,
) -> Result<Parsed, CliError>
    decreases args.len() - i,
{
    if i >= args.len() || i < 0 {
        Ok(Parsed { help: false, interval, positional })
    } else if args[i] == "-i"@ || args[i] == "--interval"@ {
        if i + 1 >= args.len() {
            Err(CliError::NoInterval)
        } else {
            match interval_of(args[i + 1], (i + 1) as usize, number_at(numbers, i + 1)) {
                Ok(v) => parsed(args, numbers, i + 2, v, positional),
                Err(e) => Err(e),
            }
        }
    } else if args[i] == "-h"@ || args[i] == "--help"@ {
        Ok(Parsed { help: true, interval, positional })
    } else {
        parsed(args, numbers, i + 1, interval, positional.push(args[i]))
    }
}

/// The command that the arguments name.
pub open spec fn command(p: Parsed) -> CommandModel {
    let name = if p.positional.len() > 0 {
        p.positional[0]
    } else {
        "tui"@
    };
    if p.help {
        CommandModel::Help
    } else if name == "tui"@ {
        CommandModel::Tui
    } else if name == "dump"@ {
        CommandModel::Dump
    } else if name == "log"@ {
        CommandModel::Log(
            if p.positional.len() > 1 {
                Some(p.positional[1])
            } else {
                None
            },
        )
    } else if name == "smu-probe"@ {
        CommandModel::SmuProbe
    } else if name == "smu-table"@ {
        CommandModel::SmuTable
    } else if name == "smuctl"@ {
        CommandModel::Smuctl(p.positional.skip(1))
    } else {
        CommandModel::Unknown(name)
    }
}

fn copy_from(args: &Vec<String>, from: usize) -> (r: Vec<String>)
    requires
        from <= args@.len(),
    ensures
        views(r@) == views(args@).skip(from as int),
{
    let mut out: Vec<String> = Vec::new();
    let ghost all = views(args@);
    let mut i: usize = from;
    while i < args.len()
        invariant
            from <= i <= args.len(),
            all == views(args@),
            views(out@) =~= all.subrange(from as int, i as int),
        decreases args.len() - i,
    {
        assert(all[i as int] == args@[i as int]@);
        put(&mut out, owned(args[i].as_str()));
        i = i + 1;
    }
    assert(views(out@) =~= all.skip(from as int));
    out
}

fn choose_command(positional: &Vec<String>) -> (r: Command)
    ensures
        forall|interval: Double|
            r@ == #[trigger] command(
                Parsed { help: false, interval, positional: views(positional@) },
            ),
{
    let ghost all = views(positional@);
    let name = if positional.len() > 0 {
        assert(all[0] == positional@[0]@);
        chars(positional[0].as_str())
    } else {
        chars("tui")
    };
    let t = name.as_slice();
    if spells(t, "tui") {
        Command::Tui
    } else if spells(t, "dump") {
        Command::Dump
    } else if spells(t, "log") {
        if positional.len() > 1 {
            assert(all[1] == positional@[1]@);
            Command::Log(Some(owned(positional[1].as_str())))
        } else {
            Command::Log(None)
        }
    } else if spells(t, "smu-probe") {
        Command::SmuProbe
    } else if spells(t, "smu-table") {
        Command::SmuTable
    } else if spells(t, "smuctl") {
        if positional.len() > 0 {
            Command::Smuctl(copy_from(positional, 1))
        } else {
            proof {
                reveal_strlit("tui");
                reveal_strlit("smuctl");
            }
            assert("tui"@.len() != "smuctl"@.len());
            Command::Smuctl(Vec::new())
        }
    } else {
        Command::Unknown(string(t))
    }
}

/// Reads the command line. `numbers` has, for each argument, the number that
/// `interval_text` of it writes, if it writes one. The interval that comes out
/// is held within its bounds.
pub fn parse_args(args: &Vec<String>, numbers: &Vec<Option<Double>>) -> (r: Result<
    (Command, Double),
    CliError,
>)
    ensures
        match parsed(views(args@), numbers@, 0, Double { bits: SECOND }, Seq::empty()) {
            Ok(p) => match r {
                Ok((c, interval)) => c@ == command(p) && interval == held(p.interval),
                Err(e) => false,
            },
            Err(e) => r == Err::<(Command, Double), CliError>(e),
        },
        r matches Ok((c, interval)) ==> {
            &&& !interval.is_nan()
            &&& (Double { bits: SHORTEST_INTERVAL }).at_most(interval)
            &&& interval.at_most(Double { bits: LONGEST_INTERVAL })
        },
{
    let ghost all = views(args@);
    let ghost start = parsed(all, numbers@, 0, Double { bits: SECOND }, Seq::empty());
    let low = Double { bits: SHORTEST_INTERVAL };
    let high = Double { bits: LONGEST_INTERVAL };
    let mut interval = Double { bits: SECOND };
    let mut positional: Vec<String> = Vec::new();
    assert(views(positional@) =~= Seq::<Seq<char>>::empty());
    let mut i: usize = 0;
    while i < args.len()
        invariant
            i <= args.len(),
            all == views(args@),
            low == (Double { bits: SHORTEST_INTERVAL }),
            high == (Double { bits: LONGEST_INTERVAL }),
            start == parsed(all, numbers@, 0, Double { bits: SECOND }, Seq::empty()),
            start == parsed(all, numbers@, i as int, interval, views(positional@)),
        decreases args.len() - i,
    {
        assert(all[i as int] == args@[i as int]@);
        let arg = chars(args[i].as_str());
        let t = arg.as_slice();
        if spells(t, "-i") || spells(t, "--interval") {
            i = i + 1;
            if i >= args.len() {
                return Err(CliError::NoInterval);
            }
            assert(all[i as int] == args@[i as int]@);
            let value = if i < numbers.len() {
                numbers[i]
            } else {
                None
            };
            match parse_interval(args[i].as_str(), i, value) {
                Ok(v) => {
                    interval = v;
                },
                Err(e) => {
                    return Err(e);
                },
            }
        } else if spells(t, "-h") || spells(t, "--help") {
            proof {
                lemma_interval_is_held(all, numbers@);
            }
            return Ok((Command::Help, interval.clamp(low, high)));
        } else {
            put(&mut positional, owned(args[i].as_str()));
        }
        i = i + 1;
    }
    proof {
        lemma_interval_is_held(all, numbers@);
    }
    Ok((choose_command(&positional), interval.clamp(low, high)))
}

/// Whatever the arguments are and whatever numbers they write, the interval that
/// is read from them is a number between the shortest and the longest.
pub proof fn lemma_interval_is_held(args: Seq<Seq<char>>, numbers: Seq<Option<Double>>)
    ensures
        match parsed(args, numbers, 0, Double { bits: SECOND }, Seq::empty()) {
            Ok(p) => {
                &&& p.interval.above(0)
                &&& (Double { bits: SHORTEST_INTERVAL }).at_most(held(p.interval))
                &&& held(p.interval).at_most(Double { bits: LONGEST_INTERVAL })
            },
            Err(e) => true,
        },
{
    lemma_bounds();
    crate::double::lemma_magnitude_grows(0, SECOND as nat);
    lemma_interval_is_positive(args, numbers, 0, Double { bits: SECOND }, Seq::empty());
}

proof fn lemma_interval_is_positive(
    args: Seq<Seq<char>>,
    numbers: Seq<Option<Double>>,
    i: int,
    interval: Double,
    positional: Seq<Seq<char>>,
)
    requires
        interval.above(0),
    ensures
        match parsed(args, numbers, i, interval, positional) {
            Ok(p) => p.interval.above(0),
            Err(e) => true,
        },
    decreases args.len() - i,
{
    if 0 <= i < args.len() {
        if args[i] == "-i"@ || args[i] == "--interval"@ {
            if i + 1 < args.len() {
                let v = interval_of(args[i + 1], (i + 1) as usize, number_at(numbers, i + 1));
                if let Ok(v) = v {
                    lemma_interval_is_positive(args, numbers, i + 2, v, positional);
                }
            }
        } else {
            lemma_interval_is_positive(args, numbers, i + 1, interval, positional.push(args[i]));
        }
    }
}

/// The shortest interval is below the longest.
pub proof fn lemma_bounds()
    ensures
        (Double { bits: SHORTEST_INTERVAL }).less(Double { bits: LONGEST_INTERVAL }),
{
    crate::double::lemma_magnitude_grows(SHORTEST_INTERVAL as nat, LONGEST_INTERVAL as nat);
}

/// An interval, or half a second where that is longer.
pub open spec fn first_wait(interval: Double) -> Double {
    interval.larger(Double { bits: HALF_SECOND })
}

/// How long a log waits before it starts.
pub fn warm_up(interval: Double) -> (r: Double)
    ensures
        r == interval.larger(Double { bits: HALF_SECOND }),
        r == first_wait(interval),
{
    interval.max(Double { bits: HALF_SECOND })
}

// ---------- help ----------

pub open spec fn help() -> Seq<Seq<char>> {
    seq![
        "rustinfo — Linux 硬件监控 (HWiNFO 风格, 纯 sysfs/procfs 采集, Rust 实现)"@,
        ""@,
        "用法: rustinfo [子命令] [-i 秒数]"@,
        "  tui           实时终端面板 (默认)"@,
        "  dump          打印一次所有读数后退出"@,
        "  log [文件]    无界面 CSV 记录, Ctrl-C 结束 (默认 rustinfo_时间戳.csv)"@,
        "  smu-probe     SMU 邮箱通道探测"@,
        "  smu-table     抓取 SMU pm_table 遥测"@,
        "  smuctl        SMU 直控 (替代 ryzenadj, 仅 family 0x1A): smuctl list | smuctl <名称> <值>"@,
        ""@,
        "按键 (tui): q 退出 │ 空格 暂停 │ l CSV记录 │ +/- 调整采样间隔"@,
    ]
}

/// The lines that explain the command line.
pub fn print_help() -> (r: Vec<&'static str>)
    ensures
        views(r@) == help(),
{
    let r = vec![
        "rustinfo — Linux 硬件监控 (HWiNFO 风格, 纯 sysfs/procfs 采集, Rust 实现)",
        "",
        "用法: rustinfo [子命令] [-i 秒数]",
        "  tui           实时终端面板 (默认)",
        "  dump          打印一次所有读数后退出",
        "  log [文件]    无界面 CSV 记录, Ctrl-C 结束 (默认 rustinfo_时间戳.csv)",
        "  smu-probe     SMU 邮箱通道探测",
        "  smu-table     抓取 SMU pm_table 遥测",
        "  smuctl        SMU 直控 (替代 ryzenadj, 仅 family 0x1A): smuctl list | smuctl <名称> <值>",
        "",
        "按键 (tui): q 退出 │ 空格 暂停 │ l CSV记录 │ +/- 调整采样间隔",
    ];
    assert(views(r@) =~= help());
    r
}

pub open spec fn cli_message(e: CliError, cause: Seq<char>) -> Seq<char> {
    match e {
        CliError::NoInterval => "-i 需要一个秒数参数"@,
        CliError::NotANumber(i) => cause,
        CliError::NotPositive => "采样间隔必须大于 0"@,
    }
}

impl CliError {
    /// The error in words; `cause` is why a text is no number.
    pub fn message(&self, cause: &str) -> (r: String)
        ensures
            r@ == cli_message(*self, cause@),
    {
        match self {
            CliError::NoInterval => owned("-i 需要一个秒数参数"),
            CliError::NotANumber(i) => owned(cause),
            CliError::NotPositive => owned("采样间隔必须大于 0"),
        }
    }
}

} // verus!

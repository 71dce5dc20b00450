use rustinfo::numbers::hex_text;
use rustinfo::output::{Piece, Row};
use rustinfo::pm_table::{
    bridge_of_table, hex_f32, iomem_region, smu_table, table_heading, table_path, table_report,
    TableAction, TableError, TableEvent, TableRun,
};
use rustinfo::smn::{cfg_path, word_of, Access, Handshake, HandshakeError, Smn};
use rustinfo::smu::{
    probe, probe_failure, probe_heading, require_supported_cpu, version_str, CpuError, Probe,
    ProbeAction, ProbeEvent,
};
use rustinfo::smuctl::{
    answer, ctl_bridge, ctl_mailbox, find, list, run, CtlError, Order, Request,
};

const MS: u64 = 1_000_000;
const ZEN5: &str = "processor\t: 0\ncpu family\t: 26\nmodel\t: 36\n";

fn strings(v: &[&str]) -> Vec<String> {
    v.iter().map(|s| s.to_string()).collect()
}

fn shown(row: &Row) -> String {
    row.pieces
        .iter()
        .map(|p| match p {
            Piece::Text(s) => s.clone(),
            Piece::Single { bits, decimals: Some(d) } => {
                format!("{:.1$}", f32::from_bits(*bits), *d as usize)
            }
            Piece::Single { bits, decimals: None } => format!("{}", f32::from_bits(*bits)),
            other => panic!("{other:?}"),
        })
        .collect()
}

// ---------- the bridge and the handshake ----------

#[test]
fn words_are_little_endian() {
    let smn = Smn::open(0xC4, 0xC8);
    let (store, from) = smn.smn_read(0x03B1_0A80);
    assert_eq!((store.offset, store.bytes, from), (0xC4, [0x80, 0x0A, 0xB1, 0x03], 0xC8));
    let (a, b) = smn.smn_write(0x03B1_0A80, 0xFFFF_FFE5);
    assert_eq!((a.offset, a.bytes), (0xC4, [0x80, 0x0A, 0xB1, 0x03]));
    assert_eq!((b.offset, b.bytes), (0xC8, [0xE5, 0xFF, 0xFF, 0xFF]));
    for v in [0u32, 1, 0xFF, 0x1234_5678, u32::MAX] {
        assert_eq!(word_of(smn.smn_read(v).0.bytes), v);
        assert_eq!(smn.smn_read(v).0.bytes, v.to_le_bytes());
    }
    assert_eq!(cfg_path(), "/sys/bus/pci/devices/0000:00:00.0/config");
}

fn start(now: u64) -> Handshake {
    Smn::open(0xB8, 0xBC).send_command(0x80, 0x20, 0x88, 0x66, [1, 2, 3, 4, 5, 6], now)
}

#[test]
fn a_command_goes_through_in_six_steps() {
    let mut h = start(0);
    let mut writes = Vec::new();
    let mut waits = 0;
    let mut reads = 0;
    let mut now = 0;
    while h.outcome().is_none() {
        now += MS;
        match h.access() {
            Access::Read(0x80) => {
                waits += 1;
                // ready at the third look, answered at the second
                let value = if waits == 3 { 7 } else if waits == 5 { 1 } else { 0 };
                h.step(value, now);
            }
            Access::Read(addr) => {
                assert_eq!(addr, 0x88 + 4 * reads);
                h.step(100 + reads, now);
                reads += 1;
            }
            Access::Write(addr, value) => {
                writes.push((addr, value));
                h.step(0, now);
            }
            Access::Finished => unreachable!(),
        }
    }
    assert_eq!(
        writes,
        vec![
            (0x80, 0),
            (0x88, 1),
            (0x8C, 2),
            (0x90, 3),
            (0x94, 4),
            (0x98, 5),
            (0x9C, 6),
            (0x20, 0x66),
        ]
    );
    assert_eq!(waits, 5);
    assert_eq!(h.outcome(), Some(Ok((1, [100, 101, 102, 103, 104, 105]))));
}

#[test]
fn a_mailbox_that_stays_silent_is_given_up() {
    let mut h = start(10);
    h.step(0, 10 + 500 * MS - 1);
    assert!(h.outcome().is_none());
    h.step(0, 10 + 500 * MS);
    let e = h.outcome().unwrap().unwrap_err();
    assert_eq!(e, HandshakeError::NotReady(0x80));
    assert_eq!(e.message(), "RSP 0x80 初始等待超时");
}

#[test]
fn a_command_that_is_not_answered_is_given_up() {
    let mut h = start(0);
    h.step(1, 0);
    for _ in 0..8 {
        h.step(0, 5);
    }
    assert_eq!(h.access(), Access::Read(0x80));
    h.step(0, 5 + 1500 * MS - 1);
    assert!(h.outcome().is_none());
    h.step(0, 5 + 1500 * MS);
    let e = h.outcome().unwrap().unwrap_err();
    assert_eq!(e, HandshakeError::NoAnswer(0x66));
    assert_eq!(e.message(), "命令 0x66 处理超时");
}

#[test]
fn an_answer_at_the_last_moment_counts() {
    let mut h = start(0);
    h.step(9, 900 * MS);
    assert_eq!(h.access(), Access::Write(0x80, 0));
}

// ---------- the processor ----------

#[test]
fn only_one_family_is_supported() {
    assert_eq!(require_supported_cpu(None, Some(ZEN5)), Ok(()));
    assert_eq!(
        require_supported_cpu(None, Some("cpu family : 25\ncpu family : 26\n")),
        Err(CpuError::Family(25))
    );
    assert_eq!(require_supported_cpu(None, Some("cpu family\nx: 26\n")), Err(CpuError::Unknown));
    assert_eq!(require_supported_cpu(None, None), Err(CpuError::Unreadable));
    assert_eq!(require_supported_cpu(Some("1"), None), Ok(()));
    assert_eq!(require_supported_cpu(Some("yes"), None), Err(CpuError::Unreadable));
}

#[test]
fn unsupported_processors_are_told_why() {
    assert_eq!(
        CpuError::Family(25).message(""),
        "CPU family 25 (0x19) 未验证 — smu/smuctl 的邮箱与消息表仅适配 family 26 (0x1A, Zen 5 移动)。确要尝试: RUSTINFO_SMU_FORCE=1"
    );
    assert_eq!(
        CpuError::Unknown.message(""),
        "无法识别 CPU family。确要尝试: RUSTINFO_SMU_FORCE=1"
    );
    assert_eq!(CpuError::Unreadable.message("gone"), "读 /proc/cpuinfo: gone");
}

// ---------- the search ----------

#[test]
fn versions_have_three_parts() {
    assert_eq!(version_str(0x0B5D_0B00), "93.11.0");
    assert_eq!(version_str(0xFFFF_FFFF), "255.255.255");
}

#[test]
fn the_search_needs_a_supported_processor() {
    assert_eq!(probe(None, Some("cpu family: 23\n")), Err(CpuError::Family(23)));
    assert_eq!(probe(None, Some(ZEN5)), Ok(Probe::Open { bridge: 0 }));
}

#[test]
fn the_search_stops_at_the_first_mailbox_that_tells_its_version() {
    let mut p = probe(None, Some(ZEN5)).unwrap();
    assert!(matches!(p.action(), ProbeAction::Open(Smn { idx_reg: 0xC4, data_reg: 0xC8 })));
    assert_eq!(p.step(ProbeEvent::Opened), vec!["SMN 桥 config 0xC4/0xC8:"]);
    match p.action() {
        ProbeAction::Send { mailbox, op, args } => {
            assert_eq!((mailbox.cmd, mailbox.rsp, mailbox.args), (0x3B10A20, 0x3B10A80, 0x3B10A88));
            assert_eq!((op, args), (2, [1, 0, 0, 0, 0, 0]));
        }
        other => panic!("{other:?}"),
    }
    assert_eq!(
        p.step(ProbeEvent::Reply { ret: 1, arg0: 1 }),
        vec!["  RSMU-APU  RSP 0x01  arg0 0x00000001"]
    );
    assert_eq!(p.step(ProbeEvent::NoReply("超时".into())), vec!["  MP1-IFv13 超时"]);
    assert_eq!(
        p.step(ProbeEvent::Reply { ret: 1, arg0: 0x0B5D_0B00 }),
        vec![
            "  MP1-IFv12 RSP 0x01  arg0 0x0B5D0B00",
            "  ✅ 命中: MP1-IFv12 — SMU 版本 93.11.0 (0x0B5D0B00)",
        ]
    );
    assert_eq!(p, Probe::Hit);
    assert!(p.step(ProbeEvent::Opened).is_empty());
    assert!(matches!(p.action(), ProbeAction::Hit));
}

#[test]
fn the_search_tries_every_mailbox_behind_every_bridge() {
    let mut p = probe(Some("1"), None).unwrap();
    let mut opened = Vec::new();
    let mut asked = Vec::new();
    loop {
        match p.action() {
            ProbeAction::Open(smn) => {
                opened.push(smn.idx_reg);
                p.step(ProbeEvent::Opened);
            }
            ProbeAction::Send { mailbox, op, .. } => {
                assert_eq!(op, 2);
                asked.push(mailbox.rsp);
                p.step(ProbeEvent::Reply { ret: 0xFE, arg0: 9 });
            }
            ProbeAction::Hit => panic!(),
            ProbeAction::Missed => break,
        }
    }
    assert_eq!(opened, vec![0xC4, 0xB8]);
    let behind = vec![
        0x3B10_A80, 0x3B10_578, 0x3B10_564, 0x3B10_570, 0x3B10_57C, 0x3B10_564, 0x3B10_568,
    ];
    assert_eq!(asked[..7], behind);
    assert_eq!(asked[7..], behind);
    let mut p = probe(Some("1"), None).unwrap();
    assert_eq!(p.step(ProbeEvent::NotOpened("x".into())), vec!["SMN 桥 0xC4/0xC8: x"]);
    p.step(ProbeEvent::NotOpened("x".into()));
    assert_eq!(p, Probe::Missed);
    assert!(probe_failure().contains("未命中"));
    assert!(probe_heading().contains("0x02"));
}

// ---------- the table ----------

const MAP: &str = "00001000-0009ffff : System RAM\n100000000-1ffffffff : reserved\n\
                   bad\n  200000000-2000000ff :  Reserved : x \n300000000-3000000fe : small\n";

#[test]
fn regions_hold_their_ends() {
    assert_eq!(iomem_region(0x1000, MAP), Some(("System RAM".into(), 0x9f000)));
    assert_eq!(iomem_region(0x9ffff, MAP), Some(("System RAM".into(), 1)));
    assert_eq!(iomem_region(0xa0000, MAP), None);
    assert_eq!(iomem_region(0, "00000000-00000fff : Reserved\n"), Some(("Reserved".into(), 0x1000)));
    assert_eq!(iomem_region(0, "1000-1fff : Reserved\n"), None);
    assert_eq!(iomem_region(1, "0-ffffffffffffffff : all\n"), Some(("all".into(), u64::MAX)));
    assert_eq!(iomem_region(0x2_0000_0000, MAP), Some(("Reserved : x".into(), 0x100)));
}

fn reply(ret: u32, arg0: u32, arg1: u32) -> TableEvent {
    TableEvent::Reply { ret, arg0, arg1 }
}

fn op(run: &TableRun) -> u32 {
    match run.action() {
        TableAction::Send { mailbox, op, args } => {
            assert_eq!(mailbox.rsp, 0x3B10A80);
            assert_eq!(args, if op == 0x66 { [1, 1, 0, 0, 0, 0] } else { [0; 6] });
            op
        }
        other => panic!("{other:?}"),
    }
}

#[test]
fn the_table_is_read_through_memory() {
    let mut run = smu_table(None, Some(ZEN5)).unwrap();
    assert_eq!(table_heading(), "== 1/4 pm_table 版本 (cmd 0x06) ==");
    assert_eq!(bridge_of_table(), Smn { idx_reg: 0xC4, data_reg: 0xC8 });
    assert_eq!(op(&run), 0x06);
    assert_eq!(
        run.step(reply(1, 0x5D0009, 0)),
        vec!["  pm_table 版本 0x5D0009", "== 2/4 DRAM 基址 (cmd 0x66) =="]
    );
    assert_eq!(op(&run), 0x66);
    assert_eq!(
        run.step(reply(1, 0x100, 1)),
        vec!["  SMU 保留区基址 0x000100000100", "== 3/4 /proc/iomem 安全校验 =="]
    );
    assert_eq!(run.action(), TableAction::ReadRegions);
    assert_eq!(
        run.step(TableEvent::Regions(Some(MAP.into()))),
        vec![
            "  区域「reserved」从基址起可读 0xFFFFFF00 字节",
            "== 4/4 表传输 (cmd 0x65) + 只读读取 ==",
        ]
    );
    assert_eq!(run.action(), TableAction::ReadModule);
    assert!(run.step(TableEvent::Table(None)).is_empty());
    assert_eq!(op(&run), 0x65);
    assert!(run.step(reply(1, 0, 0)).is_empty());
    assert_eq!(run.action(), TableAction::ReadMemory { base: 0x1_0000_0100, len: 0x1000 });
    assert_eq!(
        run.step(TableEvent::Table(Some(0x1000))),
        vec!["  已读取 0x1000 字节 → /tmp/smu_pm_table.bin"]
    );
    assert_eq!(run.action(), TableAction::Ready);
    assert_eq!(table_path(), "/tmp/smu_pm_table.bin");
}

#[test]
fn the_table_is_taken_from_the_module_where_there_is_one() {
    let mut run = TableRun::Module { base: 1, len: 0x100 };
    assert_eq!(
        run.step(TableEvent::Table(Some(0xD54))),
        vec!["  经 rustinfo_smu 模块读取 0xD54 字节 → /tmp/smu_pm_table.bin"]
    );
    assert_eq!(run, TableRun::Ready);
}

fn failed(mut run: TableRun, event: TableEvent) -> (TableError, Vec<String>) {
    let notes = run.step(event);
    match run {
        TableRun::Failed(e) => {
            assert_eq!(run.action(), TableAction::Failed(e));
            (e, notes)
        }
        other => panic!("{other:?}"),
    }
}

#[test]
fn every_step_to_the_table_can_fail() {
    assert_eq!(smu_table(None, None), Err(CpuError::Unreadable));
    let (e, notes) = failed(TableRun::Version, reply(0xFE, 0, 0));
    assert_eq!(e, TableError::Version(0xFE));
    assert!(notes.is_empty());
    assert!(e.message("").starts_with("返回 0xFE (0xFE=UnknownCmd"));
    let (e, _) = failed(TableRun::Address, reply(0, 0, 0));
    assert_eq!(e.message(""), "返回 0x00");
    let (e, _) = failed(TableRun::Address, reply(1, 0, 0));
    assert_eq!(e.message(""), "基址异常: 0x0");
    let (e, _) = failed(TableRun::Address, reply(1, 1, 0x8000));
    assert_eq!(e, TableError::Base(0x8000_0000_0001));
    let mut run = TableRun::Address;
    run.step(reply(1, 0, 0x8000));
    assert_eq!(run, TableRun::Regions { base: 0x8000_0000_0000 });
    let (e, _) = failed(TableRun::Regions { base: 5 }, TableEvent::Regions(None));
    assert_eq!(e.message("no"), "读 /proc/iomem (需 root): no");
    let (e, _) = failed(TableRun::Regions { base: 5 }, TableEvent::Regions(Some(MAP.into())));
    assert_eq!(e.message(""), "基址 0x5 不在任何 iomem 区域内");
    let (e, notes) =
        failed(TableRun::Regions { base: 0x3_0000_0000 }, TableEvent::Regions(Some(MAP.into())));
    assert_eq!(e.message(""), "可读区域过小 (0xFF)");
    assert_eq!(notes, vec!["  区域「small」从基址起可读 0xFF 字节"]);
    let (e, _) = failed(TableRun::Transfer { base: 1, len: 0x100 }, reply(0xFF, 0, 0));
    assert_eq!(e.message(""), "传输命令返回 0xFF");
    let (e, _) = failed(TableRun::Memory { base: 1, len: 0x100 }, TableEvent::Table(None));
    assert_eq!(
        e.message("EPERM"),
        "/dev/mem 读取失败: EPERM (IO_STRICT_DEVMEM 内核请先加载 module/rustinfo_smu.ko)"
    );
}

#[test]
fn main_memory_is_never_read() {
    for label in ["System RAM", "SYSTEM RAM", "my system ram x", "Ä System RAM", "SYSTEM RAM é"] {
        let map = format!("1000-ffffff : {label}\n");
        let (e, notes) = failed(TableRun::Regions { base: 0x1000 }, TableEvent::Regions(Some(map)));
        assert_eq!(e, TableError::SystemRam, "{label}");
        assert_eq!(notes.len(), 1);
        assert_eq!(e.message(""), "目标落在 System RAM — 拒绝读取 (安全护栏)");
    }
    let mut run = TableRun::Regions { base: 0x1000 };
    run.step(TableEvent::Regions(Some("1000-10ff : System ROM É\n".into())));
    assert_eq!(run, TableRun::Module { base: 0x1000, len: 0x100 });
}

#[test]
fn events_that_do_not_fit_change_nothing() {
    let mut run = TableRun::Version;
    assert!(run.step(TableEvent::Table(Some(1))).is_empty());
    assert_eq!(run, TableRun::Version);
    let mut run = TableRun::Ready;
    assert!(run.step(reply(0, 0, 0)).is_empty());
    assert_eq!(run, TableRun::Ready);
}

#[test]
fn the_table_is_shown_in_bytes_and_numbers() {
    let mut buf = vec![0u8; 0x8A];
    buf[0..4].copy_from_slice(&54.5f32.to_le_bytes());
    buf[8..12].copy_from_slice(&(-0.25f32).to_le_bytes());
    buf[12..16].copy_from_slice(&0.001f32.to_le_bytes());
    buf[0x10..0x14].copy_from_slice(&f32::INFINITY.to_le_bytes());
    buf[0x7C..0x80].copy_from_slice(&912.34f32.to_le_bytes());
    assert_eq!(shown(&hex_f32(&buf, 0)), "0000:54.50 0008:-0.25");
    assert_eq!(shown(&hex_f32(&buf, 0x10)), "-");
    let rows: Vec<String> = table_report(&buf).iter().map(shown).collect();
    assert_eq!(rows.len(), 5 + 8 + 2 + 0x22 + 2);
    assert_eq!(rows[0], "");
    assert_eq!(rows[1], "已知偏移候选:");
    assert_eq!(rows[2], "  0x7C VDDCR ≈ 912.3");
    assert_eq!(rows[4], "前 0x80 字节 hexdump:");
    assert_eq!(
        rows[5],
        "  0000: 00 00 5A 42 00 00 00 00 00 00 80 BE 6F 12 83 3A  0000:54.50 0008:-0.25"
    );
    assert_eq!(rows[6], "  0010: 00 00 80 7F 00 00 00 00 00 00 00 00 00 00 00 00  -");
    assert_eq!(rows[14], "全表 f32 转储 (138 字节):");
    assert_eq!(rows[15], "0x0000 54.5");
    assert_eq!(rows[17], "0x0008 -0.25");
    assert_eq!(rows[19], "0x0010 inf");
    assert_eq!(rows[15 + 0x1F], "0x007C 912.34");
    assert_eq!(rows[15 + 0x21], "0x0084 0");
}

// ---------- direct control ----------

fn order(name: &str, value: i64) -> Order {
    rustinfo::smuctl::set(name, value, None, Some(ZEN5)).unwrap()
}

#[test]
fn offsets_are_written_in_28_bits() {
    assert_eq!(order("co", -27).raw, 0x0FFF_FFE5);
    assert_eq!(order("coall", 5).raw, 5);
    assert_eq!(order("coper", -1).raw, 0x0FFF_FFFF);
    assert_eq!(order("co", -(1 << 27)).raw, 0x0800_0000);
    assert_eq!(order("co", (1 << 27) - 1).raw, 0x07FF_FFFF);
    for v in [1 << 27, -(1 << 27) - 1] {
        let e = rustinfo::smuctl::set("co", v, None, Some(ZEN5)).unwrap_err();
        assert_eq!(e.message(""), format!("CO 值 {v} 超出 28 位补码范围 (±134217728)"));
    }
}

#[test]
fn other_values_are_cut_to_32_bits() {
    for v in [0i64, 45000, -1, i64::MAX, i64::MIN, 1 << 32, (1 << 32) + 7, -(1 << 32) - 7] {
        assert_eq!(order("stapm", v).raw, v as u32, "{v}");
    }
}

#[test]
fn names_are_found_in_any_case() {
    assert_eq!(find("STAPM").unwrap().id, 0x14);
    assert_eq!(find("Edc").unwrap().id, 0x1C);
    assert_eq!(find("max-performance").unwrap().id, 0x11);
    assert_eq!(find("apu-slow-limit").unwrap().unit, "mW");
    assert!(find("fclk-max").is_none());
    assert!(find("").is_none());
    let lines = list();
    assert_eq!(lines[22], "示例: rustinfo smuctl co -27   |   rustinfo smuctl psi0-current 45000");
    for example in lines[22].split("smuctl ").skip(1) {
        assert!(find(example.split(' ').next().unwrap()).is_some());
    }
    for line in &lines[1..20] {
        let names = line.split(' ').next().unwrap();
        let id = line.split("0x").nth(1).unwrap().split(' ').next().unwrap();
        for name in names.split('/') {
            let c = find(&name.to_uppercase()).unwrap();
            assert_eq!(hex_text(c.id as u64, 4), id);
        }
    }
}

#[test]
fn messages_are_only_sent_on_known_processors() {
    let e = rustinfo::smuctl::set("stapm", 1, None, Some("cpu family: 25\n")).unwrap_err();
    assert!(matches!(e, CtlError::Cpu(CpuError::Family(25))));
    let e = rustinfo::smuctl::set("stapm", 1, None, None).unwrap_err();
    assert_eq!(e.message("gone"), "读 /proc/cpuinfo: gone");
    assert!(rustinfo::smuctl::set("stapm", 1, Some("1"), None).is_ok());
    // what is wrong with the message itself is told first
    let e = rustinfo::smuctl::set("nothing", 1, None, None).unwrap_err();
    assert_eq!(e.message(""), "未知消息 \"nothing\" — 用 `rustinfo smuctl list` 查看全部 (19)");
}

#[test]
fn arguments_ask_for_the_list_or_a_message() {
    for args in [vec![], strings(&["list"]), strings(&["-h", "x"]), strings(&["--help"])] {
        assert!(matches!(run(&args, None, None), Ok(Request::List)));
    }
    match run(&strings(&["Co", "-27", "more"]), None, Some(ZEN5)) {
        Ok(Request::Send(o)) => {
            assert_eq!((o.name.as_str(), o.value, o.id, o.unit), ("Co", -27, 0x4C, "CO"));
            assert_eq!(o.args(), [0x0FFF_FFE5, 0, 0, 0, 0, 0]);
        }
        other => panic!("{other:?}"),
    }
    let e = run(&strings(&["co"]), None, Some(ZEN5)).unwrap_err();
    assert_eq!(e.message(""), "缺少值: rustinfo smuctl co <值>   (list 查看全部消息)");
    let e = run(&strings(&["co", "1.5"]), None, Some(ZEN5)).unwrap_err();
    assert_eq!(e.message("why"), "值 \"1.5\" 不是整数 (CO 负值直接写 -27): why");
    let e = run(&strings(&["co", "99999999999999999999"]), None, Some(ZEN5)).unwrap_err();
    assert!(matches!(e, CtlError::NotWhole(_)));
}

#[test]
fn responses_have_their_meanings() {
    let o = order("co", -27);
    assert_eq!(
        answer(&o, 1, 0xFFFF_FFE5).unwrap(),
        vec!["✅ co (0x4C) ← -27 CO — SMU 响应 OK", "   SMU 读回 arg0 = -27 (CO 步进值)"]
    );
    assert_eq!(
        answer(&order("FAST", 45000), 1, 3).unwrap(),
        vec!["✅ FAST (0x15) ← 45000 mW — SMU 响应 OK"]
    );
    for (resp, message) in [
        (0xFF, "❌ SMU 拒绝执行 (Failed) — 值可能超出固件允许范围"),
        (0xFE, "❌ UnknownCmd — 此 PMFW 不支持该消息"),
        (0xFD, "❌ RejectedPrereq — 前置条件不满足"),
        (0xFC, "❌ Busy — SMU 忙, 稍后重试"),
        (0x2A, "未知响应 0x2A"),
        (0, "未知响应 0x0"),
    ] {
        assert_eq!(answer(&o, resp, 0).unwrap_err().message(""), message);
    }
}

#[test]
fn the_list_has_a_line_for_each_message() {
    let lines = list();
    assert_eq!(lines.len(), 24);
    assert_eq!(lines[0], format!("{:<22} {:>6} {:>8}  {}", "名称(别名)", "msg", "单位", "说明"));
    assert_eq!(
        lines[1],
        format!("{:<22} 0x{:04X} {:>8}  {}", "stapm-limit/stapm", 0x14, "mW", "STAPM 持续功耗墙")
    );
    assert_eq!(lines[6], format!("{:<22} 0x0019 {:>8}  {}", "tctl-temp/tctl", "°C", "温度墙"));
    assert_eq!(lines[20], "");
    assert_eq!(lines[21], "用法: rustinfo smuctl <名称> <值>");
    assert_eq!(ctl_bridge(), Smn { idx_reg: 0xB8, data_reg: 0xBC });
    let m = ctl_mailbox();
    assert_eq!((m.cmd, m.rsp, m.args), (0x3B10_928, 0x3B10_978, 0x3B10_998));
}

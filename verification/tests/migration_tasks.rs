//! The handshake machines, the wire codec, and the slot algebra.

use undermoon::cluster::{MigrationMeta, MigrationTaskMeta, SlotRange, SlotRangeTag};
use undermoon::digits::{parse_u64, u64_to_string};
use undermoon::migration::{
    AtomicMigrationState, MgrSubCmd, MigrationError, MigrationState, ScanResponse, SlotRangeArray,
    SwitchArg, parse_switch_command,
};
use undermoon::protocol::{Array, BulkStr, Resp, get_resp_strings};
use undermoon::scan::ScanProducer;
use undermoon::slot::get_slot;
use undermoon::tasks::{DBSendError, RedisScanImportingTask, RedisScanMigratingTask, TaskAction};
use undermoon::utils::has_flags;
use undermoon::version::UNDERMOON_MIGRATION_VERSION;

fn sample_meta() -> MigrationMeta {
    MigrationMeta {
        epoch: 233,
        src_proxy_address: "127.0.0.1:7000".to_string(),
        src_node_address: "127.0.0.1:6379".to_string(),
        dst_proxy_address: "127.0.0.1:7001".to_string(),
        dst_node_address: "127.0.0.1:6380".to_string(),
    }
}

fn meta_eq(a: &MigrationMeta, b: &MigrationMeta) -> bool {
    a.epoch == b.epoch
        && a.src_proxy_address == b.src_proxy_address
        && a.src_node_address == b.src_node_address
        && a.dst_proxy_address == b.dst_proxy_address
        && a.dst_node_address == b.dst_node_address
}

#[test]
fn decimal_round_trip() {
    assert_eq!(u64_to_string(0), "0");
    assert_eq!(u64_to_string(84219), "84219");
    assert_eq!(u64_to_string(u64::MAX), "18446744073709551615");
    assert_eq!(parse_u64("84219"), Some(84219));
    assert_eq!(parse_u64("0"), Some(0));
    assert_eq!(parse_u64(""), None);
    assert_eq!(parse_u64("12a"), None);
    assert_eq!(parse_u64("18446744073709551615"), Some(u64::MAX));
    assert_eq!(parse_u64("18446744073709551616"), None);
}

#[test]
fn slot_hashing_matches_known_values() {
    // The CCITT check value: CRC16("123456789") = 0x31C3 = 12739.
    assert_eq!(get_slot(b"123456789"), 12739);
    assert_eq!(get_slot(b"foo"), 12182);
    assert_eq!(get_slot(b"bar"), 5061);
    // An empty key hashes to zero.
    assert_eq!(get_slot(b""), 0);
    // A hash-tag restricts hashing to the tag text.
    assert_eq!(get_slot(b"{bar}extra"), get_slot(b"bar"));
    assert_eq!(get_slot(b"x{bar}y"), get_slot(b"bar"));
    // An empty tag leaves the whole key hashed.
    assert_ne!(get_slot(b"{}bar"), get_slot(b"bar"));
}

#[test]
fn key_membership_agrees_with_brute_force() {
    let ranges = SlotRangeArray {
        ranges: vec![(0, 100), (5000, 5061), (16000, 16383)],
    };
    let keys: Vec<&[u8]> = vec![b"foo", b"bar", b"123456789", b"", b"{bar}k", b"abcdef"];
    for key in keys {
        let slot = get_slot(key);
        let brute = ranges
            .ranges
            .iter()
            .any(|(start, end)| *start <= slot && slot <= *end);
        assert_eq!(ranges.is_key_inside(key), brute);
    }
    assert!(ranges.is_key_inside(b"bar"));
    assert_eq!(ranges.info(), "0-100,5000-5061,16000-16383");
    // The display is ordered by start, whatever order the ranges came
    // in.
    let unsorted = SlotRangeArray {
        ranges: vec![(200, 300), (0, 100)],
    };
    assert_eq!(unsorted.info(), "0-100,200-300");
}

#[test]
fn switch_arg_round_trip() {
    let arg = SwitchArg {
        version: UNDERMOON_MIGRATION_VERSION.to_string(),
        meta: MigrationTaskMeta {
            db_name: "c1".to_string(),
            slot_range: SlotRange {
                start: 4096,
                end: 8191,
                tag: SlotRangeTag::Migrating(sample_meta()),
            },
        },
    };
    let strings = arg.into_strings();
    assert_eq!(
        strings,
        vec![
            "0.0.1".to_string(),
            "c1".to_string(),
            "4096".to_string(),
            "8191".to_string(),
            "MIGRATING".to_string(),
            "233".to_string(),
            "127.0.0.1:7000".to_string(),
            "127.0.0.1:6379".to_string(),
            "127.0.0.1:7001".to_string(),
            "127.0.0.1:6380".to_string(),
        ]
    );
    let parsed = SwitchArg::from_strings(&strings, 0).expect("round trip failed");
    assert_eq!(parsed.version, "0.0.1");
    assert_eq!(parsed.meta.db_name, "c1");
    assert_eq!(parsed.meta.slot_range.start, 4096);
    assert_eq!(parsed.meta.slot_range.end, 8191);
    match &parsed.meta.slot_range.tag {
        SlotRangeTag::Migrating(m) => assert!(meta_eq(m, &sample_meta())),
        _ => panic!("expected a migrating tag"),
    }
    // A normal-tagged record also survives the trip.
    let normal = MigrationTaskMeta {
        db_name: "db".to_string(),
        slot_range: SlotRange {
            start: 0,
            end: 1,
            tag: SlotRangeTag::Normal,
        },
    };
    let strings = normal.into_strings();
    assert_eq!(strings, vec!["db", "0", "1"]);
    let parsed = MigrationTaskMeta::from_strings(&strings, 0).unwrap();
    assert!(matches!(parsed.slot_range.tag, SlotRangeTag::Normal));
}

fn bulk(s: &str) -> Resp {
    Resp::Bulk(BulkStr::Str(s.as_bytes().to_vec()))
}

#[test]
fn parse_switch_command_reads_the_payload() {
    let task = RedisScanMigratingTask::new("c1".to_string(), (4096, 8191), sample_meta());
    let tokens = task.gen_switch_arg(MgrSubCmd::PreSwitch);
    assert_eq!(tokens[0], "UMCTL");
    assert_eq!(tokens[1], "PRESWITCH");
    let resp = Resp::Arr(Array::Arr(
        tokens.iter().map(|t| bulk(t)).collect::<Vec<Resp>>(),
    ));
    let arg = parse_switch_command(&resp).expect("command did not parse");
    assert_eq!(arg.version, UNDERMOON_MIGRATION_VERSION);
    assert_eq!(arg.meta.db_name, "c1");
    match &arg.meta.slot_range.tag {
        SlotRangeTag::Migrating(m) => assert!(meta_eq(m, &sample_meta())),
        _ => panic!("expected a migrating tag"),
    }
    // Too short a command does not parse.
    let short = Resp::Arr(Array::Arr(vec![bulk("UMCTL")]));
    assert!(parse_switch_command(&short).is_none());
}

#[test]
fn resp_strings_need_utf8() {
    let ok = Resp::Arr(Array::Arr(vec![bulk("a"), Resp::Simple(b"b".to_vec())]));
    assert_eq!(
        get_resp_strings(&ok),
        Some(vec!["a".to_string(), "b".to_string()])
    );
    let bad = Resp::Arr(Array::Arr(vec![Resp::Bulk(BulkStr::Str(vec![0xff, 0xfe]))]));
    assert!(get_resp_strings(&bad).is_none());
    assert!(get_resp_strings(&Resp::Simple(b"x".to_vec())).is_none());
}

#[test]
fn scan_parsing_and_filtering() {
    let page = Resp::Arr(Array::Arr(vec![
        bulk("42"),
        Resp::Arr(Array::Arr(vec![bulk("foo"), bulk("bar"), bulk("baz")])),
    ]));
    let resp = ScanResponse::parse_scan(page).expect("scan page did not parse");
    assert_eq!(resp.next_index, 42);
    assert_eq!(resp.keys.len(), 3);
    // Only keys inside the migrating ranges are forwarded.
    let ranges = SlotRangeArray {
        ranges: vec![(5000, 5100)],
    };
    let mut producer = ScanProducer::new(ranges);
    producer.start().unwrap();
    assert!(matches!(
        producer.start(),
        Err(MigrationError::AlreadyStarted)
    ));
    let selected = producer.handle_scan_response(resp);
    assert_eq!(selected, vec![b"bar".to_vec()]);
    assert_eq!(producer.cursor, 42);
    assert!(!producer.finished);
    let done = ScanResponse {
        next_index: 0,
        keys: vec![],
    };
    producer.handle_scan_response(done);
    assert!(producer.finished);
    // A cursor that is not a number fails the parse.
    let bad = Resp::Arr(Array::Arr(vec![bulk("x42"), Resp::Arr(Array::Arr(vec![]))]));
    assert!(ScanResponse::parse_scan(bad).is_none());
}

#[test]
fn state_counter_is_monotonic() {
    let mut st = AtomicMigrationState::new();
    assert_eq!(st.get_state(), MigrationState::PreCheck);
    st.set_state(MigrationState::PreSwitch);
    assert_eq!(st.get_state(), MigrationState::PreSwitch);
    // An out-of-order request is ignored.
    st.set_state(MigrationState::PreBlocking);
    assert_eq!(st.get_state(), MigrationState::PreSwitch);
    st.set_state(MigrationState::SwitchCommitted);
    assert_eq!(st.get_state(), MigrationState::SwitchCommitted);
    st.set_state(MigrationState::Scanning);
    assert_eq!(st.get_state(), MigrationState::SwitchCommitted);
}

fn not_ready() -> Resp {
    Resp::Error(b"NOT_READY_FOR_SWITCHING".to_vec())
}

fn ok_reply() -> Resp {
    Resp::Simple(b"OK".to_vec())
}

#[test]
fn migration_progression_counts_probes() {
    let mut task = RedisScanMigratingTask::new("c1".to_string(), (0, 8191), sample_meta());
    // Every probe goes to the destination proxy.
    assert_eq!(task.probe_target(), "127.0.0.1:7001");
    task.start().unwrap();
    assert!(matches!(task.start(), Err(MigrationError::AlreadyStarted)));
    let mut probes: usize = 0;
    let mut not_ready_left: usize = 3;
    loop {
        match task.next_action() {
            TaskAction::SendPreCheck | TaskAction::SendPreSwitch | TaskAction::SendFinalSwitch => {
                probes += 1;
                if not_ready_left > 0 {
                    not_ready_left -= 1;
                    assert!(!task.handle_reply(&not_ready()));
                } else {
                    assert!(task.handle_reply(&ok_reply()));
                    not_ready_left = 3;
                }
            }
            TaskAction::LocalBlock => task.pre_block(),
            TaskAction::RunScan => task.handle_scan_complete(),
            TaskAction::Done => break,
            TaskAction::Canceled => panic!("task was not stopped"),
        }
    }
    assert_eq!(probes, 12);
    assert_eq!(task.get_state(), MigrationState::SwitchCommitted);
}

#[test]
fn cancellation_collapses_task() {
    let mut task = RedisScanMigratingTask::new("c1".to_string(), (0, 8191), sample_meta());
    task.start().unwrap();
    assert!(matches!(task.next_action(), TaskAction::SendPreCheck));
    assert!(task.handle_reply(&ok_reply()));
    assert_eq!(task.get_state(), MigrationState::PreBlocking);
    task.stop().unwrap();
    assert!(matches!(task.next_action(), TaskAction::Canceled));
    assert!(matches!(task.stop(), Err(MigrationError::AlreadyEnded)));
}

#[test]
fn migrating_send_routes_by_phase() {
    let mut task = RedisScanMigratingTask::new("c1".to_string(), (0, 8191), sample_meta());
    match task.send("GET k") {
        Err(DBSendError::SlotNotFound(cmd)) => assert_eq!(cmd, "GET k"),
        _ => panic!("commands fall through before the handshake"),
    }
    assert!(task.handle_reply(&ok_reply()));
    match task.send("GET k") {
        Ok((target, _)) => assert_eq!(target, "127.0.0.1:7000"),
        _ => panic!("blocked phase redirects to the source proxy"),
    }
    task.pre_block();
    match task.send("GET k") {
        Ok((target, _)) => assert_eq!(target, "127.0.0.1:7001"),
        _ => panic!("switched phase redirects to the destination proxy"),
    }
}

#[test]
fn importing_side_follows_sub_commands() {
    let mut task = RedisScanImportingTask::new("c1".to_string(), sample_meta());
    let arg = |version: &str| SwitchArg {
        version: version.to_string(),
        meta: MigrationTaskMeta {
            db_name: "c1".to_string(),
            slot_range: SlotRange {
                start: 0,
                end: 8191,
                tag: SlotRangeTag::Migrating(sample_meta()),
            },
        },
    };
    let r = task.handle_switch(arg("9.9.9"), MgrSubCmd::PreCheck);
    assert!(matches!(r, Err(MigrationError::IncompatibleVersion)));
    task.handle_switch(arg(UNDERMOON_MIGRATION_VERSION), MgrSubCmd::PreCheck)
        .unwrap();
    assert_eq!(task.get_state(), MigrationState::PreCheck);
    // Before the switch, clients are redirected back to the source.
    match task.send("SET k v") {
        Ok((target, _)) => assert_eq!(target, "127.0.0.1:7000"),
        _ => panic!("expected a redirection"),
    }
    task.handle_switch(arg(UNDERMOON_MIGRATION_VERSION), MgrSubCmd::PreSwitch)
        .unwrap();
    assert_eq!(task.get_state(), MigrationState::PreSwitch);
    // A repeated PRECHECK cannot move the task backwards.
    task.handle_switch(arg(UNDERMOON_MIGRATION_VERSION), MgrSubCmd::PreCheck)
        .unwrap();
    assert_eq!(task.get_state(), MigrationState::PreSwitch);
    match task.send("SET k v") {
        Err(DBSendError::SlotNotFound(_)) => {}
        _ => panic!("accepted commands fall through to local routing"),
    }
    task.handle_switch(arg(UNDERMOON_MIGRATION_VERSION), MgrSubCmd::FinalSwitch)
        .unwrap();
    assert_eq!(task.get_state(), MigrationState::SwitchCommitted);
}

#[test]
fn flags_match_caselessly() {
    assert!(has_flags("a,WithScores,b", ',', "withscores"));
    assert!(has_flags("WITHSCORES", ',', "withscores"));
    assert!(!has_flags("a,b", ',', "withscores"));
    assert!(!has_flags("", ',', "withscores"));
}

use geminus::diagnosis::linux;
use geminus::diagnosis::windows;
use geminus::diagnosis::{
    build_disk, check_smartctl, device_or_empty, diagnose, parse_extended_test_minutes,
    run_helper_if_requested, worst_level, DeepCheckPid,
};
use geminus::error::{FailureKind, Fault, IoFailure};
use geminus::sys::System;
use geminus::CmdError;

const ATA_HEALTHY: &str = "\
ID# ATTRIBUTE_NAME          FLAG     VALUE WORST THRESH TYPE      UPDATED  WHEN_FAILED RAW_VALUE
  5 Reallocated_Sector_Ct   0x0033   100   100   005    Pre-fail  Always       -       0
197 Current_Pending_Sector  0x0012   100   100   000    Old_age   Always       -       0
";

const ATA_PENDING: &str = "\
ID# ATTRIBUTE_NAME          FLAG     VALUE WORST THRESH TYPE      UPDATED  WHEN_FAILED RAW_VALUE
  5 Reallocated_Sector_Ct   0x0033   100   100   005    Pre-fail  Always       -       0
197 Current_Pending_Sector  0x0012   100   100   000    Old_age   Always       -       3
";

const ATA_WITH_COMMENT: &str = "\
ID# ATTRIBUTE_NAME          FLAG     VALUE WORST THRESH TYPE      UPDATED  WHEN_FAILED RAW_VALUE
  5 Reallocated_Sector_Ct   0x0033   100   100   005    Pre-fail  Always       -       12 (Average 8)
197 Current_Pending_Sector  0x0012   100   100   000    Old_age   Always       -       0
";

const NVME_HEALTHY: &str = "\
SMART/Health Information (NVMe Log 0x02)
Critical Warning:                   0x00
Temperature:                        41 Celsius
Available Spare:                    100%
Available Spare Threshold:          10%
Percentage Used:                    3%
Data Units Read:                    12,345,678 [6.32 TB]
Media and Data Integrity Errors:    0
Error Information Log Entries:      5
";

const NVME_SPARE_GONE: &str = "\
SMART/Health Information (NVMe Log 0x02)
Critical Warning:                   0x00
Available Spare:                    8%
Available Spare Threshold:          10%
Percentage Used:                    99%
Media and Data Integrity Errors:    0
";

const NVME_WORN: &str = "\
SMART/Health Information (NVMe Log 0x02)
Critical Warning:                   0x00
Available Spare:                    90%
Available Spare Threshold:          10%
Percentage Used:                    112%
Media and Data Integrity Errors:    0
";

const NVME_FLAGGED: &str = "\
SMART/Health Information (NVMe Log 0x02)
Critical Warning:                   0x04
Available Spare:                    100%
Available Spare Threshold:          10%
Percentage Used:                    2%
Media and Data Integrity Errors:    0
";

const UNREADABLE: &str = "\
smartctl 7.4 2023-08-01 r5530 [x86_64-linux] (local build)
Copyright (C) 2002-23, Bruce Allen, Christian Franke

SMART support is: Unavailable - device lacks SMART capability.
";

fn level_of(smart: &str) -> String {
    build_disk("/dev/sda", smart).level
}

fn fault(text: &str) -> Fault<String> {
    Fault { failure: IoFailure { kind: FailureKind::Other, raw: None }, text: text.to_string() }
}

fn says(e: &CmdError, code: &str, detail: &str) -> bool {
    e.code == code && e.detail == detail
}

#[test]
fn ata_disk_is_read_as_before() {
    assert_eq!(level_of(ATA_HEALTHY), "ok");
    assert_eq!(level_of(ATA_PENDING), "warning");
    assert_eq!(level_of(ATA_WITH_COMMENT), "critical");
}

#[test]
fn nvme_disk_is_read_instead_of_assumed_healthy() {
    assert_eq!(level_of(NVME_HEALTHY), "ok");
    assert_eq!(level_of(NVME_SPARE_GONE), "critical");
    assert_eq!(level_of(NVME_WORN), "warning");
    assert_eq!(level_of(NVME_FLAGGED), "critical");
}

#[test]
fn a_report_without_readable_values_is_unknown() {
    assert_eq!(level_of(UNREADABLE), "unknown");
    assert_eq!(level_of(""), "unknown");
    assert_eq!(level_of("NO_DEVICE"), "unknown");
    assert!(!build_disk("/dev/sda", UNREADABLE).smart_available);
}

#[test]
fn declared_test_length_survives_both_shapes() {
    let ata = "Extended self-test routine\nrecommended polling time: \t (  74) minutes.\n";
    assert_eq!(parse_extended_test_minutes(ata), 74);
    assert_eq!(parse_extended_test_minutes(NVME_HEALTHY), 0);
}

#[test]
fn ten_pending_sectors_are_critical() {
    let report = "197 Current_Pending_Sector 0x0012 100 100 000 Old_age Always - 10\n";
    assert_eq!(level_of(report), "critical");
    let report = "197 Current_Pending_Sector 0x0012 100 100 000 Old_age Always - 9\n";
    assert_eq!(level_of(report), "warning");
    let report = "197 Current_Pending_Sector 0x0012 100 100 000 Old_age Always - x\n";
    assert_eq!(level_of(report), "unknown");
}

#[test]
fn integrity_errors_of_a_solid_state_disk() {
    assert_eq!(level_of("Media and Data Integrity Errors: 1\n"), "warning");
    assert_eq!(level_of("Media and Data Integrity Errors: 10\n"), "critical");
    assert_eq!(level_of("Critical Warning: 0XFF\n"), "critical");
    assert_eq!(level_of("Critical Warning: zero\n"), "unknown");
    assert_eq!(level_of("Percentage Used: 99%\n"), "ok");
}

#[test]
fn a_bridge_that_hides_the_disk_is_unknown() {
    let report = format!("{}Unknown USB bridge [0x1234]\n", ATA_HEALTHY);
    let disk = build_disk("/dev/sdb", &report);
    assert_eq!(disk.level, "unknown");
    assert_eq!(disk.estimated_deep_minutes, 0);
    assert_eq!(disk.device, "/dev/sdb");
}

#[test]
fn a_healthy_disk_says_how_long_its_test_takes() {
    let report = format!(
        "{}Extended self-test routine\nrecommended polling time: ( 120) minutes.\n",
        ATA_HEALTHY
    );
    let disk = build_disk("/dev/sda", &report);
    assert!(disk.smart_available);
    assert_eq!(disk.estimated_deep_minutes, 120);
}

#[test]
fn the_declared_length_has_to_follow_the_name_of_the_test() {
    assert_eq!(
        parse_extended_test_minutes("Extended self-test routine\nx\nrecommended polling time: (5)\n"),
        0
    );
    assert_eq!(
        parse_extended_test_minutes("Extended self-test routine\nrecommended polling time: )5(\n"),
        0
    );
    assert_eq!(
        parse_extended_test_minutes("Extended self-test routine\nrecommended polling time: (+5)\n"),
        5
    );
}

#[test]
fn the_worse_level_wins() {
    assert_eq!(worst_level("ok", "warning"), "warning");
    assert_eq!(worst_level("critical", "unknown"), "critical");
    assert_eq!(worst_level("unknown", "warning"), "unknown");
    assert_eq!(worst_level("ok", "ok"), "ok");
    let both = diagnose("/dev/sda", ATA_HEALTHY, "/dev/sdb", NVME_WORN);
    assert_eq!(both.disk_a.level, "ok");
    assert_eq!(both.disk_b.level, "warning");
    assert_eq!(both.overall_level, "warning");
}

#[test]
fn a_check_that_was_killed_counts_as_cancelled() {
    let mut state = DeepCheckPid::new();
    assert!(state.kill().is_none());
    state.started(42, "/run/user/1000/geminus/deep-1.cancel".to_string());
    assert!(!state.finished());
    state.started(43, "s".to_string());
    let told = state.kill();
    assert_eq!(told.unwrap(), (43, "s".to_string()));
    assert!(state.finished());
}

#[test]
fn the_status_of_the_tool_names_the_system() {
    let there = check_smartctl(System::Linux, &Some("/usr/sbin/smartctl".to_string()));
    assert!(there.available);
    assert_eq!(there.system, "linux");
    let gone = check_smartctl(System::Windows, &None);
    assert!(!gone.available);
    assert_eq!(gone.system, "windows");
    assert_eq!(device_or_empty(Ok("/dev/sda".to_string())), "/dev/sda");
    assert_eq!(device_or_empty(Err(CmdError::plain("disk_not_resolved"))), "");
}

#[test]
fn the_script_answers_for_both_disks() {
    let stdout = format!(
        "===SMART_A===\n{}===END_SMART_A===\n===SMART_B===\nNO_DEVICE\n===END_SMART_B===\n",
        ATA_HEALTHY
    );
    let run = linux::ToolRun {
        success: true,
        code: Some(0),
        stdout: stdout.as_bytes().to_vec(),
        stderr: Vec::new(),
    };
    let result = linux::run_disk_diagnosis("/dev/sda", "", Ok(run)).unwrap();
    assert_eq!(result.disk_a.level, "ok");
    assert_eq!(result.disk_b.level, "unknown");
    assert_eq!(result.overall_level, "unknown");
}

#[test]
fn a_refused_prompt_is_told_from_a_failure() {
    let refused = linux::diagnosis_from("", "", false, Some(126), "", "");
    assert!(says(&refused.unwrap_err(), "auth_dismissed", ""));
    let refused = linux::diagnosis_from("", "", false, Some(127), "", "");
    assert!(says(&refused.unwrap_err(), "auth_dismissed", ""));
    let failed = linux::diagnosis_from("", "", false, Some(1), "", "  broken \n");
    assert!(says(&failed.unwrap_err(), "diagnosis_failed", "broken"));
    let failed = linux::run_disk_diagnosis("", "", Err(fault("no pkexec (os error 2)")));
    assert!(says(&failed.unwrap_err(), "diagnosis_failed", "no pkexec"));
}

#[test]
fn bytes_that_are_no_text_do_not_hide_the_rest() {
    let run = linux::ToolRun {
        success: false,
        code: None,
        stdout: Vec::new(),
        stderr: vec![b' ', b'b', b'a', b'd', 0xff, b'\n'],
    };
    let failed = linux::run_disk_diagnosis("", "", Ok(run));
    assert!(says(&failed.unwrap_err(), "diagnosis_failed", "bad\u{fffd}"));
}

#[test]
fn names_and_places_of_the_script() {
    assert_eq!(linux::random_token(0xabc), "0000000000000abc");
    assert_eq!(linux::random_token(u64::MAX), "ffffffffffffffff");
    assert_eq!(linux::script_name("diag", "00ff"), "diag-00ff.sh");
    assert_eq!(
        linux::private_dir(Some(("/run/user/1000".to_string(), true)), None),
        "/run/user/1000/geminus"
    );
    assert_eq!(
        linux::private_dir(
            Some(("/run/user/1000".to_string(), false)),
            Some("/home/lucix".to_string())
        ),
        "/home/lucix/.cache/geminus"
    );
    assert_eq!(linux::private_dir(None, None), "./.cache/geminus");
    assert!(linux::is_stale(Some(86401)));
    assert!(!linux::is_stale(Some(86400)));
    assert!(!linux::is_stale(None));
}

#[test]
fn the_desktop_names_the_folder_for_downloads() {
    let home = || Some("/home/lucix".to_string());
    assert_eq!(
        linux::resolve_downloads_dir(home(), Some(b"/home/lucix/Scaricati\n".to_vec())),
        "/home/lucix/Scaricati"
    );
    assert_eq!(
        linux::resolve_downloads_dir(home(), Some(b"/home/lucix\n".to_vec())),
        "/home/lucix/Downloads"
    );
    assert_eq!(linux::resolve_downloads_dir(home(), None), "/home/lucix/Downloads");
    assert_eq!(linux::resolve_downloads_dir(None, Some(b" \n".to_vec())), "/tmp/Downloads");
}

#[test]
fn labels_are_safe_in_a_file_name() {
    assert_eq!(linux::sanitize_label("/media/luca/Backup 4T"), "Backup_4T");
    assert_eq!(linux::sanitize_label("/media/luca/Backup 4T//"), "Backup_4T");
    assert_eq!(linux::sanitize_label("/"), "disk");
    assert_eq!(linux::sanitize_label("usb-1_x"), "usb-1_x");
    assert_eq!(linux::sanitize_label("/mnt/perch\u{e9}"), "perch_");
    assert_eq!(windows::sanitize_label("C:\\Users\\me\\My Disk\\"), "My_Disk");
    assert_eq!(windows::sanitize_label("C:\\"), "C");
    assert_eq!(windows::sanitize_label("D:/Backup"), "Backup");
    assert_eq!(windows::sanitize_label("\\\\"), "disk");
}

fn deep() -> linux::DeepCheck {
    linux::DeepCheck::run_deep_check(
        "/dev/sda",
        "/media/luca/Backup 4T",
        "Checked on {date}.",
        "/home/lucix/Downloads".to_string(),
    )
    .unwrap()
}

#[test]
fn an_extended_check_goes_through() {
    let mut check = deep();
    assert_eq!(check.stage(), linux::DeepStage::Spawn);
    assert!(!check.accepts(&linux::DeepReply::Saved));
    let out = check.next(linux::DeepReply::Spawned);
    assert!(out.started.is_none() && !out.cleanup && out.result.is_none());
    check.next(linux::DeepReply::Output(true));
    let out = check.next(linux::DeepReply::Line("ESTIMATED:74".to_string()));
    let started = out.started.unwrap();
    assert_eq!(started.device, "/dev/sda");
    assert_eq!(started.estimated_minutes, 74);
    assert!(check.next(linux::DeepReply::Line("ESTIMATED:x".to_string())).started.is_none());
    check.next(linux::DeepReply::Line("WHEN: 2026-03-04 05:06:07".to_string()));
    check.next(linux::DeepReply::Line(linux::REPORT_MARK.to_string()));
    check.next(linux::DeepReply::Line("all is well".to_string()));
    check.next(linux::DeepReply::Line("WHEN:never".to_string()));
    check.next(linux::DeepReply::NoMoreLines);
    let out = check.next(linux::DeepReply::Exited(true, Some(0), false));
    assert!(out.cleanup && out.result.is_none());
    let (path, text) = check.report();
    assert_eq!(path, "/home/lucix/Downloads/geminus_health_Backup_4T_20260304_050607.txt");
    assert_eq!(text, "Checked on 2026-03-04 05:06:07.\n\nall is well\nWHEN:never\n");
    let result = check.next(linux::DeepReply::Saved).result.unwrap();
    assert!(result.success && !result.cancelled && result.error.is_none());
    assert_eq!(result.saved_path, path);
    assert_eq!(check.stage(), linux::DeepStage::Ended);
    assert!(!check.accepts(&linux::DeepReply::Saved));
}

fn waiting() -> linux::DeepCheck {
    let mut check = deep();
    check.next(linux::DeepReply::Spawned);
    check.next(linux::DeepReply::Output(true));
    check.next(linux::DeepReply::Line(linux::REPORT_MARK.to_string()));
    check.next(linux::DeepReply::Line("x".to_string()));
    check.next(linux::DeepReply::NoMoreLines);
    check
}

#[test]
fn every_way_an_extended_check_can_fail() {
    let bad = linux::DeepCheck::run_deep_check("sda", "/", "", "/tmp".to_string());
    assert!(says(&bad.unwrap_err(), "invalid_device", ""));
    assert!(says(&linux::check_device("sda").unwrap_err(), "invalid_device", ""));
    assert!(linux::check_device("/dev/sda").is_ok());

    let mut check = deep();
    let out = check.next(linux::DeepReply::SpawnFailed(fault("gone (os error 2)")));
    assert!(out.cleanup);
    assert!(says(&out.result.unwrap().error.unwrap(), "deep_check_failed", "gone"));

    let mut check = deep();
    check.next(linux::DeepReply::Spawned);
    let out = check.next(linux::DeepReply::Output(false));
    assert!(says(&out.result.unwrap().error.unwrap(), "deep_check_failed", ""));

    let out = waiting().next(linux::DeepReply::WaitFailed(fault("no child")));
    assert!(says(&out.result.unwrap().error.unwrap(), "deep_check_failed", "no child"));

    let out = waiting().next(linux::DeepReply::Exited(false, Some(130), true));
    let result = out.result.unwrap();
    assert!(result.cancelled && !result.success && result.error.is_none());

    let out = waiting().next(linux::DeepReply::Exited(false, Some(127), false));
    assert!(says(&out.result.unwrap().error.unwrap(), "auth_dismissed", ""));

    let out = waiting().next(linux::DeepReply::Exited(false, None, false));
    assert!(says(&out.result.unwrap().error.unwrap(), "deep_check_failed", "exit -1"));

    let mut check = deep();
    check.next(linux::DeepReply::Spawned);
    check.next(linux::DeepReply::Output(true));
    check.next(linux::DeepReply::NoMoreLines);
    let out = check.next(linux::DeepReply::Exited(true, Some(0), false));
    assert!(says(&out.result.unwrap().error.unwrap(), "deep_check_no_report", ""));

    let mut check = waiting();
    check.next(linux::DeepReply::Exited(true, Some(0), false));
    assert!(check.report().0.ends_with("_unknown.txt"));
    let out = check.next(linux::DeepReply::SaveFailed(fault("disk full (os error 28)")));
    assert!(!out.cleanup);
    assert!(says(&out.result.unwrap().error.unwrap(), "report_not_saved", "disk full"));
}

fn strings(list: &[&str]) -> Vec<String> {
    list.iter().map(|s| s.to_string()).collect()
}

#[test]
fn only_the_hidden_arguments_start_the_elevated_half() {
    let report = strings(&["geminus.exe", "--disk-report", "pipe", "/dev/sda", "/dev/sdb"]);
    match run_helper_if_requested(System::Windows, &report) {
        Some(windows::HelperJob::Report(rest)) => {
            assert_eq!(rest, strings(&["pipe", "/dev/sda", "/dev/sdb"]));
            let (channel, devices) = windows::report_args(rest).unwrap();
            assert_eq!(channel, "pipe");
            assert_eq!(devices, strings(&["/dev/sda", "/dev/sdb"]));
        }
        _ => panic!("a report was asked for"),
    }
    let test = strings(&["geminus.exe", "--disk-longtest", "pipe", "/dev/sda"]);
    match run_helper_if_requested(System::Windows, &test) {
        Some(windows::HelperJob::LongTest(rest)) => assert_eq!(rest, strings(&["pipe", "/dev/sda"])),
        _ => panic!("a test was asked for"),
    }
    assert!(run_helper_if_requested(System::Windows, &strings(&["geminus.exe"])).is_none());
    assert!(run_helper_if_requested(System::Linux, &report).is_none());
    assert!(windows::report_args(Vec::new()).is_none());
}

#[test]
fn what_the_elevated_half_writes_is_read_back() {
    let answers = strings(&["first\nanswer", "", "third"]);
    let written = windows::read_both_disks(&answers);
    assert_eq!(
        written,
        "\n===GEMINUS-DISK===\nfirst\nanswer\n===GEMINUS-DISK===\n\n===GEMINUS-DISK===\nthird"
    );
    let bytes = written.as_bytes().to_vec();
    assert_eq!(windows::ask_elevated(&bytes, 3), answers);
    assert_eq!(windows::ask_elevated(&bytes, 1), strings(&["first\nanswer"]));
    assert_eq!(windows::sections("nothing", 2), strings(&["", ""]));
}

#[test]
fn the_tool_answers_with_what_it_prints_or_complains_about() {
    let ran = windows::ToolRun::Ran(b" \n".to_vec(), b"oops".to_vec(), Some(4));
    assert_eq!(windows::run_tool(ran), ("oops".to_string(), 4));
    let ran = windows::ToolRun::Ran(b"fine".to_vec(), b"oops".to_vec(), None);
    assert_eq!(windows::run_tool(ran), ("fine".to_string(), -1));
    assert_eq!(windows::run_tool(windows::ToolRun::Missing), ("NO_DEVICE".to_string(), -1));
    assert_eq!(
        windows::run_tool(windows::ToolRun::NotRun("denied".to_string())),
        ("NO_DEVICE (denied)".to_string(), -1)
    );
}

#[test]
fn the_status_of_a_test_is_read_from_its_number() {
    assert!(windows::self_test_running("Self-test execution status:      ( 249)\tgoing\n"));
    assert!(windows::self_test_running("Self-test execution status:      ( 240)\n"));
    assert!(!windows::self_test_running("Self-test execution status:      (   0)\tdone\n"));
    assert!(!windows::self_test_running("Self-test execution status: )x(\nSelf-test execution status: (25)\n"));
    assert!(windows::self_test_running("nothing of the kind"));
    assert_eq!(windows::first_line("\n  \n  not now \nmore"), "not now");
    assert_eq!(windows::first_line(" \n"), "Extended Check Did Not Start");
}

#[test]
fn a_long_test_waits_asks_and_reports() {
    let args = strings(&["pipe", "/dev/sda"]);
    let (mut test, channel, device) = windows::LongTest::run_long_test(&args).unwrap();
    assert_eq!((channel.as_str(), device.as_str()), ("pipe", "/dev/sda"));
    assert!(windows::LongTest::run_long_test(&strings(&["pipe"])).is_none());
    test.next(windows::TestReply::Opened(true));
    test.next(windows::TestReply::Tool(true));
    let caps = "Extended self-test routine\nrecommended polling time: ( 1) minutes.\n";
    test.next(windows::TestReply::Answer(caps.to_string(), 0));
    assert_eq!(test.stage(), windows::TestStage::SayEstimate);
    assert_eq!(test.message(), "EST:1\n");
    test.next(windows::TestReply::Wrote(true));
    test.next(windows::TestReply::Answer("started".to_string(), 64));
    assert_eq!(test.stage(), windows::TestStage::Sleep);
    // The first answer is not trusted, although it says that the test is over.
    test.next(windows::TestReply::Slept);
    assert_eq!(test.message(), ".");
    test.next(windows::TestReply::Wrote(true));
    let over = "Self-test execution status: ( 0)\n";
    test.next(windows::TestReply::Answer(over.to_string(), 0));
    assert_eq!(test.stage(), windows::TestStage::Sleep);
    test.next(windows::TestReply::Slept);
    test.next(windows::TestReply::Wrote(true));
    test.next(windows::TestReply::Answer(over.to_string(), 0));
    assert_eq!(test.stage(), windows::TestStage::AskFull);
    test.next(windows::TestReply::Answer("everything".to_string(), 0));
    test.next(windows::TestReply::Answer("the log".to_string(), 0));
    assert_eq!(test.stage(), windows::TestStage::SayLast);
    let last = test.message();
    assert_eq!(
        last,
        "\n===GEMINUS-REPORT===\n=== smartctl -a ===\neverything\n=== smartctl -l selftest ===\nthe log"
    );
    assert!(test.accepts(&windows::TestReply::Wrote(true)));
    test.next(windows::TestReply::Wrote(false));
    assert_eq!(test.stage(), windows::TestStage::Ended);
    let all = format!("EST:1\n..{}", last).into_bytes();
    match windows::read_outcome(&all) {
        windows::Outcome::Report(body) => assert_eq!(
            body,
            "=== smartctl -a ===\neverything\n=== smartctl -l selftest ===\nthe log"
        ),
        _ => panic!("a report was written"),
    }
}

fn asleep() -> windows::LongTest {
    let (mut test, _, _) = windows::LongTest::run_long_test(&strings(&["p", "d"])).unwrap();
    test.next(windows::TestReply::Opened(true));
    test.next(windows::TestReply::Tool(true));
    let caps = "Extended self-test routine\nrecommended polling time: ( 1) minutes.\n";
    test.next(windows::TestReply::Answer(caps.to_string(), 0));
    test.next(windows::TestReply::Wrote(true));
    test.next(windows::TestReply::Answer(String::new(), 0));
    test
}

#[test]
fn a_long_test_that_nobody_listens_to_is_stopped() {
    let mut test = asleep();
    test.next(windows::TestReply::Slept);
    test.next(windows::TestReply::Wrote(false));
    assert_eq!(test.stage(), windows::TestStage::Abort);
    test.next(windows::TestReply::Answer(String::new(), 0));
    assert_eq!(test.stage(), windows::TestStage::Ended);
}

#[test]
fn a_long_test_that_never_ends_is_given_up() {
    let mut test = asleep();
    let mut looks = 0;
    while test.stage() == windows::TestStage::Sleep {
        test.next(windows::TestReply::Slept);
        test.next(windows::TestReply::Wrote(true));
        test.next(windows::TestReply::Answer("still going".to_string(), 0));
        looks += 1;
    }
    assert_eq!(looks, 12);
    assert_eq!(test.stage(), windows::TestStage::GiveUp);
    test.next(windows::TestReply::Answer(String::new(), 0));
    assert_eq!(test.stage(), windows::TestStage::AskFull);
}

#[test]
fn a_long_test_that_cannot_start_says_why() {
    let (mut test, _, _) = windows::LongTest::run_long_test(&strings(&["p", "d"])).unwrap();
    test.next(windows::TestReply::Opened(true));
    test.next(windows::TestReply::Tool(false));
    assert_eq!(test.message(), "\n===GEMINUS-ERROR===\ntool not available");

    let (mut test, _, _) = windows::LongTest::run_long_test(&strings(&["p", "d"])).unwrap();
    test.next(windows::TestReply::Opened(true));
    test.next(windows::TestReply::Tool(true));
    test.next(windows::TestReply::Answer(String::new(), 0));
    assert_eq!(test.message(), "EST:0\n");
    test.next(windows::TestReply::Wrote(true));
    test.next(windows::TestReply::Answer("\n busy \n".to_string(), 66));
    assert_eq!(test.message(), "\n===GEMINUS-ERROR===\nbusy");
    match windows::outcome_of(&format!("EST:0\n{}", test.message())) {
        windows::Outcome::Failed(e) => assert!(says(&e, "deep_check_failed", "busy")),
        _ => panic!("the test did not start"),
    }

    let (mut test, _, _) = windows::LongTest::run_long_test(&strings(&["p", "d"])).unwrap();
    test.next(windows::TestReply::Opened(false));
    assert_eq!(test.stage(), windows::TestStage::Ended);
}

#[test]
fn the_name_that_the_tool_uses_for_a_disk() {
    assert_eq!(windows::tool_name("\\\\.\\PhysicalDrive0"), "/dev/sda");
    assert_eq!(windows::tool_name("\\\\.\\PhysicalDrive25"), "/dev/sdz");
    assert_eq!(windows::tool_name("\\\\.\\PhysicalDrive26"), "\\\\.\\PhysicalDrive26");
    assert_eq!(windows::tool_name("other"), "other");
}

#[test]
fn two_folders_on_one_disk_are_one_disk() {
    let one = "\\\\.\\PhysicalDrive1";
    let two = "\\\\.\\PhysicalDrive2";
    assert_eq!(windows::wanted_disks(one, one), strings(&["/dev/sdb"]));
    assert_eq!(windows::wanted_disks(one, two), strings(&["/dev/sdb", "/dev/sdc"]));
    assert_eq!(windows::wanted_disks("", two), strings(&["/dev/sdc"]));
    assert_eq!(windows::wanted_disks("", ""), Vec::<String>::new());

    let both = windows::run_disk_diagnosis(one, one, Ok(strings(&[ATA_PENDING]))).unwrap();
    assert_eq!((both.disk_a.level.as_str(), both.disk_b.level.as_str()), ("warning", "warning"));
    let both = windows::run_disk_diagnosis("", two, Ok(strings(&[ATA_HEALTHY]))).unwrap();
    assert_eq!((both.disk_a.level.as_str(), both.disk_b.level.as_str()), ("unknown", "ok"));
    let both = windows::run_disk_diagnosis(one, two, Ok(strings(&[ATA_HEALTHY, NVME_FLAGGED]))).unwrap();
    assert_eq!(both.overall_level, "critical");
    let failed = windows::run_disk_diagnosis(one, two, Err(CmdError::plain("auth_dismissed")));
    assert!(says(&failed.unwrap_err(), "auth_dismissed", ""));
}

#[test]
fn how_the_elevated_half_is_started() {
    assert_eq!(
        windows::elevated_args("--disk-report", "pipe", &strings(&["/dev/sda", "/dev/sdb"])),
        "--disk-report pipe /dev/sda /dev/sdb"
    );
    assert_eq!(windows::elevated_args("f", "c", &Vec::new()), "f c ");
    assert_eq!(windows::channel_name(12, 3), "\\\\.\\pipe\\geminus-disk-12-3");
    assert_ne!(windows::channel_name(12, 3), windows::channel_name(12, 4));
    assert!(windows::launch_elevated(windows::Launch::Running).is_ok());
    let e = windows::launch_elevated(windows::Launch::Refused).unwrap_err();
    assert!(says(&e, "auth_dismissed", ""));
    let e = windows::launch_elevated(windows::Launch::Failed(5)).unwrap_err();
    assert!(says(&e, "elevation_failed", "Windows error 5"));
    let e = windows::launch_elevated(windows::Launch::NoProcess).unwrap_err();
    assert!(says(&e, "elevation_failed", ""));
    assert!(windows::create_channel(true).is_ok());
    assert!(says(&windows::create_channel(false).unwrap_err(), "channel_not_created", ""));
    assert!(windows::send_on_channel(true, true).is_ok());
    assert!(says(&windows::send_on_channel(false, true).unwrap_err(), "channel_not_open", ""));
    assert!(says(&windows::send_on_channel(true, false).unwrap_err(), "channel_write_failed", ""));
    assert!(windows::wrote_all(true, 3, 3));
    assert!(!windows::wrote_all(true, 2, 3));
    assert!(!windows::wrote_all(false, 3, 3));
}

#[test]
fn the_report_of_the_elevated_half_is_read_to_its_end() {
    let late = windows::ReportRead::new(false);
    assert!(says(&late.unwrap_err(), "diagnosis_timed_out", ""));
    let mut read = windows::ReportRead::new(true).unwrap();
    assert!(read.next(windows::PipeRead::Bytes(b"ab".to_vec()), 0).is_none());
    assert!(read.next(windows::PipeRead::Bytes(b"c".to_vec()), 0).is_none());
    assert_eq!(read.raw, b"abc".to_vec());
    assert!(matches!(read.next(windows::PipeRead::Closed, 0), Some(Ok(()))));
    assert!(matches!(read.next(windows::PipeRead::Bytes(Vec::new()), 0), Some(Ok(()))));
    match read.next(windows::PipeRead::Listening, 3) {
        Some(Err(e)) => assert!(says(&e, "elevated_step_failed", "exit 3")),
        _ => panic!("nobody dialed in"),
    }
    match read.next(windows::PipeRead::Failed(6), 0) {
        Some(Err(e)) => assert!(says(&e, "channel_read_failed", "Windows error 6")),
        _ => panic!("the read failed"),
    }
}

#[test]
fn the_extended_check_is_watched_from_this_half() {
    let mut watch = windows::LongWatch::new("/dev/sda".to_string());
    let (step, started) = watch.next(false, windows::PipeRead::Listening, false);
    assert!(matches!(step, windows::WatchStep::Later) && started.is_none());
    let (step, started) = watch.next(false, windows::PipeRead::Bytes(b"EST:7".to_vec()), false);
    assert!(matches!(step, windows::WatchStep::Again) && started.is_none());
    let (_, started) = watch.next(false, windows::PipeRead::Bytes(b"4\n".to_vec()), false);
    assert_eq!(started.unwrap().estimated_minutes, 74);
    let (_, started) = watch.next(false, windows::PipeRead::Bytes(b".".to_vec()), false);
    assert!(started.is_none());
    let (step, _) = watch.next(false, windows::PipeRead::NoData, false);
    assert!(matches!(step, windows::WatchStep::Later));
    let (step, _) = watch.next(true, windows::PipeRead::Closed, false);
    assert!(matches!(step, windows::WatchStep::Over(windows::Outcome::Cancelled)));
    let (step, _) = watch.next(false, windows::PipeRead::Listening, true);
    match step {
        windows::WatchStep::Over(windows::Outcome::Failed(e)) => {
            assert!(says(&e, "elevated_step_failed", ""))
        }
        _ => panic!("nobody will dial in"),
    }
    let (step, _) = watch.next(false, windows::PipeRead::Failed(6), false);
    match step {
        windows::WatchStep::Over(windows::Outcome::Failed(e)) => {
            assert!(says(&e, "channel_read_failed", "Windows error 6"))
        }
        _ => panic!("the read failed"),
    }
    let (step, _) = watch.next(false, windows::PipeRead::Closed, false);
    match step {
        windows::WatchStep::Over(windows::Outcome::Failed(e)) => {
            assert!(says(&e, "deep_check_no_report", ""))
        }
        _ => panic!("no report was written"),
    }
    assert_eq!(windows::estimate_from(&b"EST:12\n".to_vec()), Some(12));
    assert_eq!(windows::estimate_in("EST:12"), None);
    assert_eq!(windows::estimate_in("x\nEST:12\n"), None);
}

#[test]
fn the_report_of_an_extended_check_is_saved_here() {
    let now = windows::LocalTime { year: 2026, month: 3, day: 4, hour: 5, minute: 6, second: 7 };
    let (path, text) = windows::save_report("C:\\Users\\me\\Downloads", "C", "On {date}", "body", &now);
    assert_eq!(path, "C:\\Users\\me\\Downloads\\geminus_health_C_20260304_050607.txt");
    assert_eq!(text, "On 2026-03-04 05:06:07\n\nbody");
    assert!(windows::run_deep_check("\\\\.\\PhysicalDrive0").is_ok());
    assert!(says(&windows::run_deep_check("/dev/sda").unwrap_err(), "invalid_device", ""));
    let done = windows::deep_result(windows::Outcome::Report(String::new()), path.clone(), Ok(()));
    assert!(done.success);
    assert_eq!(done.saved_path, path);
    let failed = windows::deep_result(
        windows::Outcome::Report(String::new()),
        path.clone(),
        Err(fault("full (os error 112)")),
    );
    assert!(says(&failed.error.unwrap(), "report_not_saved", "full"));
    assert!(windows::deep_result(windows::Outcome::Cancelled, path.clone(), Ok(())).cancelled);
    let failed =
        windows::deep_result(windows::Outcome::Failed(CmdError::plain("x")), path, Ok(()));
    assert!(!failed.success && says(&failed.error.unwrap(), "x", ""));
    assert_eq!(windows::downloads_dir(Some(vec![0x43, 0x3a])).unwrap(), "C:");
    assert!(says(&windows::downloads_dir(None).unwrap_err(), "report_not_saved", ""));
}

use rex::carve::{
    bridge_at_work, carve_entry, live_copy_destination, next_stage, start_run, RunEvent, RunStage,
    SESSION_ID_LEN,
};
use rex::session::{parse_carve_args, CarveRequest, RecoverySession, CARVE_CAP};
use rex::text::{decimal_string, digit, push_decimal};

fn args(list: &[&str]) -> Vec<String> {
    list.iter().map(|s| s.to_string()).collect()
}

#[test]
fn decimal_numerals() {
    assert_eq!(decimal_string(0), "0");
    assert_eq!(decimal_string(7), "7");
    assert_eq!(decimal_string(10), "10");
    assert_eq!(decimal_string(1_048_576), "1048576");
    assert_eq!(decimal_string(u64::MAX), "18446744073709551615");
    let mut out = String::from("n=");
    push_decimal(&mut out, 9005);
    assert_eq!(out, "n=9005");
    assert_eq!(digit(0), '0');
    assert_eq!(digit(9), '9');
}

#[test]
fn session_directory_comes_from_the_identifier() {
    let session = RecoverySession::new("abc-123".to_string(), false, true);
    assert_eq!(session.id(), "abc-123");
    assert_eq!(session.output_dir(), "recovered/abc-123");
    assert_eq!(session.carved(), 0);
    assert!(!session.all());
    assert!(session.only_deleted());
    assert!(!session.capped());
}

#[test]
fn carve_paths_hold_counter_offset_and_extension() {
    let mut session = RecoverySession::new("s".to_string(), false, false);
    assert_eq!(session.next_carve_path(0, "png"), "recovered/s/file_0_0.png");
    assert_eq!(session.next_carve_path(600_000, "txt"), "recovered/s/file_0_600000.txt");
    session.record_carve();
    session.record_carve();
    assert_eq!(session.carved(), 2);
    assert_eq!(
        session.next_carve_path(u64::MAX, "jpg"),
        "recovered/s/file_2_18446744073709551615.jpg"
    );
}

#[test]
fn session_is_capped_at_ten_files() {
    let mut session = RecoverySession::new("s".to_string(), false, false);
    for _ in 0..CARVE_CAP {
        assert!(!session.capped());
        session.record_carve();
    }
    assert!(session.capped());
    assert_eq!(session.carved(), 10);

    let mut open = RecoverySession::new("s".to_string(), true, false);
    for _ in 0..25 {
        open.record_carve();
    }
    assert!(!open.capped());
}

#[test]
fn command_line_without_target_asks_for_nothing() {
    assert!(parse_carve_args(&args(&[])).is_none());
    assert!(parse_carve_args(&args(&["rex"])).is_none());
    assert!(parse_carve_args(&args(&["rex", "carve"])).is_none());
    assert!(parse_carve_args(&args(&["rex", "carve", "--only-deleted"])).is_none());
    assert!(parse_carve_args(&args(&["rex", "carve", ""])).is_none());
    assert!(carve_entry(&args(&["rex", "carve"])).is_none());
}

#[test]
fn command_line_flags_come_in_any_order() {
    let request = parse_carve_args(&args(&["rex", "carve", "disk.img"])).unwrap();
    assert_eq!(request.target, "disk.img");
    assert!(!request.all && !request.only_deleted);

    let request =
        parse_carve_args(&args(&["rex", "carve", "--only-deleted", "/dev/sdb", "--all"])).unwrap();
    assert_eq!(request.target, "/dev/sdb");
    assert!(request.all && request.only_deleted);

    // The last target wins, and the first two arguments are never read.
    let request = parse_carve_args(&args(&["--all", "--all", "a.img", "b.img"])).unwrap();
    assert_eq!(request.target, "b.img");
    assert!(!request.all);

    // With --all, a missing target is let through.
    let request = parse_carve_args(&args(&["rex", "carve", "--all"])).unwrap();
    assert_eq!(request.target, "");
    assert!(request.all);
}

#[test]
fn entry_starts_a_fresh_session() {
    let run = carve_entry(&args(&["rex", "carve", "disk.img", "--only-deleted"])).unwrap();
    assert_eq!(run.target, "disk.img");
    assert_eq!(run.session.id().len(), SESSION_ID_LEN);
    assert_eq!(run.session.output_dir(), format!("recovered/{}", run.session.id()));
    assert_eq!(run.session.carved(), 0);
    assert!(run.session.only_deleted());
    assert!(!run.session.all());
    let id = run.session.id();
    assert!(id.chars().all(|c| c == '-' || c.is_ascii_hexdigit()));
}

#[test]
fn run_starts_under_the_given_identifier() {
    let request = CarveRequest { target: "x.img".to_string(), all: true, only_deleted: false };
    let run = start_run(request, "fixed".to_string());
    assert_eq!(run.target, "x.img");
    assert_eq!(run.session.output_dir(), "recovered/fixed");
    assert!(run.session.all());
}

#[test]
fn live_copy_follows_the_scan() {
    let mut stage = RunStage::Scanning;
    assert!(!bridge_at_work(stage));
    for event in [RunEvent::Mounted, RunEvent::CopyFinished, RunEvent::UnmountFinished] {
        stage = next_stage(stage, event, false);
        assert!(stage == RunStage::Scanning);
    }
    stage = next_stage(stage, RunEvent::ScanCompleted, false);
    assert!(stage == RunStage::Mounting);
    assert!(bridge_at_work(stage));
    stage = next_stage(stage, RunEvent::Mounted, false);
    assert!(stage == RunStage::Copying);
    stage = next_stage(stage, RunEvent::CopyFinished, false);
    assert!(stage == RunStage::Unmounting);
    stage = next_stage(stage, RunEvent::UnmountFinished, false);
    assert!(stage == RunStage::Finished);
    assert!(!bridge_at_work(stage));
}

#[test]
fn only_deleted_never_mounts() {
    let events = [
        RunEvent::Mounted,
        RunEvent::ScanCompleted,
        RunEvent::Mounted,
        RunEvent::CopyFinished,
        RunEvent::ScanCompleted,
    ];
    let mut stage = RunStage::Scanning;
    for event in events {
        stage = next_stage(stage, event, true);
        assert!(!bridge_at_work(stage));
    }
    assert!(stage == RunStage::Finished);
}

#[test]
fn mount_failure_skips_the_copy_and_source_failure_gives_up() {
    let stage = next_stage(RunStage::Mounting, RunEvent::MountFailed, false);
    assert!(stage == RunStage::Finished);
    let stage = next_stage(RunStage::Scanning, RunEvent::SourceFailed, false);
    assert!(stage == RunStage::Aborted);
    assert!(next_stage(stage, RunEvent::ScanCompleted, false) == RunStage::Aborted);
}

#[test]
fn live_files_keep_their_relative_path() {
    assert_eq!(live_copy_destination("recovered/s", "etc/passwd"), "recovered/s/etc/passwd");
    assert_eq!(live_copy_destination("recovered/s", "a.txt"), "recovered/s/a.txt");
}

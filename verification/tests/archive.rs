//! Archiving segments of the log.
use beyond_pg::archive::{archive_command, archive_exit_code, archive_plan, CopyOutcome};

const SEGMENT: &str = "000000010000000000000001";

fn metadata(target: Option<&str>) -> String {
    match target {
        Some(t) => {
            format!("{{\"latest\":{{\"meta-data\":{{\"BEYOND_PG_ARCHIVE_TARGET\":\"{t}\"}}}}}}")
        }
        None => "{\"latest\":{\"meta-data\":{}}}".to_string(),
    }
}

/// The exit code where the program, if it is run, exits with this code.
fn run(metadata: &str, path: &str, filename: &str, aws_exit: i32) -> i32 {
    let outcome = match archive_plan(metadata, path, filename) {
        None => CopyOutcome::Nothing,
        Some(_) if aws_exit == 0 => CopyOutcome::Copied,
        Some(_) => CopyOutcome::Failed,
    };
    archive_exit_code(outcome)
}

#[test]
fn no_archive_target_is_noop() {
    let code = run(&metadata(None), "/fake/path", SEGMENT, 1);
    assert_eq!(code, 0, "should exit 0 when no archive target configured");
    assert_eq!(run(&metadata(Some("")), "/fake/path", SEGMENT, 1), 0);
}

#[test]
fn archives_to_correct_s3_path() {
    let m = metadata(Some("s3://my-bucket/wal"));
    let path = "/var/lib/postgresql/18/wal/000000010000000000000001";
    assert_eq!(run(&m, path, SEGMENT, 0), 0, "should exit 0 when aws succeeds");
    let args = archive_plan(&m, path, SEGMENT).unwrap();
    assert_eq!(
        args,
        vec![
            "s3",
            "cp",
            path,
            "s3://my-bucket/wal/000000010000000000000001",
            "--no-progress",
        ]
    );
}

#[test]
fn trailing_slash_on_target_not_doubled() {
    let m = metadata(Some("s3://my-bucket/wal/"));
    let args = archive_plan(&m, "/path", "000000010000000000000002").unwrap();
    assert_eq!(args[3], "s3://my-bucket/wal/000000010000000000000002");
    assert_eq!(
        archive_command(Some("s3://b/"), "p", "f"),
        archive_command(Some("s3://b"), "p", "f")
    );
}

#[test]
fn aws_failure_returns_exit_1() {
    let m = metadata(Some("s3://my-bucket/wal"));
    assert_eq!(run(&m, "/path", SEGMENT, 2), 1, "should propagate failure as exit code 1");
}

#[test]
fn missing_mmds_treated_as_no_target() {
    assert_eq!(run("", "/path", SEGMENT, 1), 0);
    assert_eq!(run("{", "/path", SEGMENT, 1), 0);
    assert_eq!(run("[1]", "/path", SEGMENT, 1), 0);
    let number = "{\"latest\":{\"meta-data\":{\"BEYOND_PG_ARCHIVE_TARGET\":7}}}";
    assert_eq!(run(number, "/path", SEGMENT, 1), 0);
}

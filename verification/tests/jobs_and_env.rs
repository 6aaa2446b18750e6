use lib::env::{filter_env, is_passed_env_var};
use lib::jobs::{Job, JobStatus, Jobs};

fn job(id: u32, command: &str) -> Job {
    Job { job_id: id, job_command: command.to_string() }
}

#[test]
fn new_table_is_empty() {
    let jobs = Jobs::new();
    assert_eq!(jobs.table.len(), 0);
    assert_eq!(jobs.count, 0);
}

#[test]
fn push_appends_and_keeps_the_count() {
    let mut jobs = Jobs::new();
    jobs.push(job(7, "start a"));
    jobs.push(job(9, "start b"));
    assert_eq!(jobs.table.len(), 2);
    assert_eq!(jobs.table[1].job_id, 9);
    assert_eq!(jobs.count, 0);
}

#[test]
fn add_started_counts_the_job() {
    let mut jobs = Jobs::new();
    assert_eq!(jobs.add_started(job(12, "start x")), 1);
    assert_eq!(jobs.add_started(job(13, "start y")), 2);
    assert_eq!(jobs.count, 2);
    assert_eq!(jobs.table[0].job_command, "start x");
}

#[test]
fn status_words() {
    assert_eq!(JobStatus::Running.describe(), "running");
    assert_eq!(JobStatus::Failed.describe(), "exited with error");
    assert_eq!(JobStatus::Exited(0).describe(), "exited with code : 0");
    assert_eq!(JobStatus::Exited(42).describe(), "exited with code : 42");
    assert_eq!(JobStatus::Exited(-3).describe(), "exited with code : -3");
    assert_eq!(JobStatus::Exited(i32::MIN).describe(), "exited with code : -2147483648");
    assert_eq!(JobStatus::Exited(i32::MAX).describe(), "exited with code : 2147483647");
}

#[test]
fn status_line_layout() {
    let j = job(4242, "start notepad");
    assert_eq!(j.status_line(&JobStatus::Running), "4242  \"start notepad\"      running");
    assert_eq!(
        job(u32::MAX, "x").status_line(&JobStatus::Exited(1)),
        "4294967295  \"x\"      exited with code : 1"
    );
    assert_eq!(job(0, "").status_line(&JobStatus::Failed), "0  \"\"      exited with error");
}

#[test]
fn listing_has_header_and_one_line_per_job() {
    let mut jobs = Jobs::new();
    assert_eq!(jobs.render(&vec![]), "PID     Command              Status\n");
    jobs.push(job(10, "start a"));
    jobs.push(job(205, "start b | sort"));
    let text = jobs.render(&vec![JobStatus::Running, JobStatus::Exited(3)]);
    assert_eq!(
        text,
        "PID     Command              Status\n10  \"start a\"      running\n205  \"start b | sort\"      exited with code : 3\n"
    );
}

#[test]
fn passed_variables() {
    for name in ["TERM", "TZ", "LANG", "PATH"] {
        assert!(is_passed_env_var(name));
    }
    for name in ["HOME", "path", "PATH ", "", "LANGUAGE"] {
        assert!(!is_passed_env_var(name));
    }
}

#[test]
fn filter_keeps_passed_variables_in_order() {
    let vars: Vec<(String, String)> = [("HOME", "/root"), ("PATH", "/bin"), ("USER", "me"), ("TERM", "xterm"), ("TZ", "UTC")]
        .iter()
        .map(|(k, v)| (k.to_string(), v.to_string()))
        .collect();
    let kept = filter_env(&vars);
    let names: Vec<&str> = kept.iter().map(|(k, _)| k.as_str()).collect();
    assert_eq!(names, vec!["PATH", "TERM", "TZ"]);
    assert_eq!(kept[0].1, "/bin");
    assert_eq!(filter_env(&kept), kept);
}

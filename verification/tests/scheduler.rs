use jobfather::json::Json;
use jobfather::kubernetes::job::{Job, JobStatus, ObjectMeta, OwnerReference};
use jobfather::kubernetes::job_template::{JobTemplate, JobTemplateSpec};
use jobfather::kubernetes::scheduler::{
    can_look_at, cron_expression, get_last_run_time, is_due, is_schedule_due, is_template_due,
    latest_start, resolve_schedule, template_expression, template_hash, FIRST_START, LAST_START,
    SEARCH_END,
};
use jobfather::time::{self, Timestamp};

fn at(secs: i64) -> Timestamp {
    Timestamp::new(secs, 0).unwrap()
}

fn meta(name: &str, uid: &str) -> ObjectMeta {
    ObjectMeta {
        name: Some(name.to_string()),
        generate_name: None,
        namespace: Some("default".to_string()),
        uid: Some(uid.to_string()),
        creation_timestamp: None,
        annotations: None,
        owner_references: None,
    }
}

fn job_of(uid: &str, start: Option<i64>) -> Job {
    let mut metadata = meta("j", "u");
    metadata.owner_references = Some(vec![OwnerReference {
        api_version: "jobfather.coolkev.com/v1".to_string(),
        kind: "JobTemplate".to_string(),
        name: "t".to_string(),
        uid: uid.to_string(),
        controller: Some(true),
        block_owner_deletion: Some(true),
    }]);
    Job {
        metadata,
        spec: None,
        status: Some(JobStatus {
            start_time: start.map(at),
            completion_time: None,
            conditions: None,
            active: None,
            ready: None,
            succeeded: None,
            failed: None,
        }),
    }
}

#[test]
fn hash_is_that_of_namespace_and_name() {
    assert_eq!(template_hash("default", "backup"), 814139820);
    assert_eq!(template_hash("ci", "nightly"), 1025128002);
}

#[test]
fn keywords_become_cron_expressions() {
    let resolve = |s: &str| resolve_schedule(s, "ci", "nightly");
    assert_eq!(resolve("hourly"), Some("42 * * * *".to_string()));
    assert_eq!(resolve("daily"), Some("42 6 * * *".to_string()));
    assert_eq!(resolve(" Weekly "), Some("42 6 * * 4".to_string()));
    assert_eq!(resolve("MONTHLY"), Some("42 6 19 * *".to_string()));
}

#[test]
fn cron_expressions_are_checked() {
    assert_eq!(resolve_schedule("  */5 * * * * ", "a", "b"), Some("*/5 * * * *".to_string()));
    assert_eq!(resolve_schedule("every tuesday", "a", "b"), None);
    assert_eq!(resolve_schedule("61 * * * *", "a", "b"), None);
    assert_eq!(resolve_schedule("", "a", "b"), None);
}

#[test]
fn expression_from_a_given_hash() {
    assert_eq!(cron_expression("hourly", "hourly", 59), "59 * * * *");
    assert_eq!(cron_expression("monthly", "monthly", 0), "0 0 1 * *");
    assert_eq!(cron_expression(" x y ", "x y", 7), "x y");
}

// 2026-03-07 02:02:30 UTC
const NOW: i64 = 1_772_848_950;

#[test]
fn a_schedule_is_due_once_per_occurrence() {
    let now = at(NOW);
    assert!(can_look_at(&now));
    // The last occurrence is that of 02:02:00.
    assert!(is_schedule_due("2 * * * *", None, &now));
    assert!(is_schedule_due("2 * * * *", Some(at(NOW - 31)), &now));
    assert!(!is_schedule_due("2 * * * *", Some(at(NOW - 30)), &now));
    assert!(!is_schedule_due("2 * * * *", Some(now), &now));
    // The next occurrence is that of 02:03:00: the one before it is an hour old.
    assert!(!is_schedule_due("3 * * * *", Some(at(NOW - 1800)), &now));
    assert!(is_schedule_due("3 * * * *", Some(at(NOW - 3600)), &now));
}

#[test]
fn an_occurrence_at_this_moment_counts() {
    let now = at(NOW - 30);
    assert!(is_schedule_due("2 2 * * *", Some(at(NOW - 31)), &now));
    assert!(!is_schedule_due("2 2 * * *", Some(now), &now));
}

#[test]
fn what_cannot_be_read_is_never_due() {
    assert!(!is_schedule_due("nonsense", None, &at(NOW)));
}

#[test]
fn rare_schedules_are_looked_back_for() {
    // 2026-01-01 00:00:00 UTC
    let new_year = 1_767_225_600;
    assert!(is_schedule_due("0 0 1 1 *", None, &at(NOW)));
    assert!(is_schedule_due("0 0 1 1 *", Some(at(new_year - 1)), &at(NOW)));
    assert!(!is_schedule_due("0 0 1 1 *", Some(at(new_year)), &at(NOW)));
    assert!(is_schedule_due("0 0 1 3 *", None, &at(NOW)));
    // 2026-06-01 and 2024-02-29, both at midnight
    let june = at(1_780_272_000);
    let leap_day = 1_709_164_800;
    assert!(is_schedule_due("0 0 1 1 *", Some(at(new_year - 1)), &june));
    assert!(!is_schedule_due("0 0 1 1 *", Some(at(new_year)), &june));
    assert!(is_schedule_due("0 0 29 2 *", Some(at(leap_day - 1)), &june));
    assert!(!is_schedule_due("0 0 29 2 *", Some(at(leap_day)), &june));
    // There is no such day.
    assert!(!is_schedule_due("0 0 30 2 *", None, &june));
}

#[test]
fn the_ends_of_the_calendar() {
    assert!(can_look_at(&at(FIRST_START)) && !can_look_at(&at(FIRST_START - 1)));
    assert!(can_look_at(&at(LAST_START)) && !can_look_at(&at(LAST_START + 1)));
    // From the second day on, the yearly day comes a year later.
    assert!(!is_schedule_due("0 0 1 1 *", None, &at(FIRST_START + 3600)));
    assert!(is_schedule_due("0 0 * * *", None, &at(FIRST_START + 86_400)));
    // The year 4600 begins: the search behind it is a full one, the one after it is not.
    assert!(is_schedule_due("0 0 1 6 *", None, &at(SEARCH_END - 1)));
    assert!(!is_schedule_due("0 0 1 6 *", None, &at(SEARCH_END)));
    assert!(is_schedule_due("0 0 * * *", None, &at(SEARCH_END)));
    assert!(!is_schedule_due("0 0 1 6 *", None, &at(LAST_START)));
}

#[test]
fn due_rule() {
    assert!(!is_due(None, None));
    assert!(!is_due(None, Some(at(1))));
    assert!(is_due(Some(at(1)), None));
    assert!(is_due(Some(at(2)), Some(at(1))));
    assert!(!is_due(Some(at(1)), Some(at(1))));
}

#[test]
fn the_latest_start_counts() {
    let jobs = vec![job_of("t1", Some(5)), job_of("t2", Some(9)), job_of("t1", Some(7)), job_of("t1", None)];
    assert_eq!(latest_start(&jobs, "t1"), Some(at(7)));
    assert_eq!(latest_start(&jobs, "t2"), Some(at(9)));
    assert_eq!(latest_start(&jobs, "t3"), None);
    let archived = Some(time::to_rfc3339(&at(8)));
    assert_eq!(get_last_run_time(&jobs, "t1", &archived), Some(at(8)));
    assert_eq!(get_last_run_time(&jobs, "t2", &archived), Some(at(9)));
    assert_eq!(get_last_run_time(&jobs, "t3", &archived), Some(at(8)));
    assert_eq!(get_last_run_time(&jobs, "t3", &Some("?".to_string())), None);
}

fn template(schedule: Option<&str>) -> JobTemplate {
    let mut metadata = meta("nightly", "t1");
    metadata.namespace = Some("ci".to_string());
    JobTemplate {
        metadata,
        spec: JobTemplateSpec {
            schedule: schedule.map(|s| s.to_string()),
            acceptance_test: None,
            cleanup_after: None,
            spec: Json::object(),
        },
        status: None,
    }
}

#[test]
fn templates_without_a_schedule_are_passed_over() {
    assert_eq!(template_expression(&template(None)), None);
    assert_eq!(template_expression(&template(Some(""))), None);
    assert_eq!(template_expression(&template(Some("hourly"))), Some("42 * * * *".to_string()));
    assert!(template(Some("hourly")).is_cronjob());
    assert!(!template(None).is_cronjob());
    assert!(!template(None).is_acceptance_test());
    assert_eq!(template(None).cleanup_after(), "30m");
}

#[test]
fn templates_are_due() {
    let now = at(NOW);
    let t = template(Some("2 * * * *"));
    assert!(is_template_due(&t, &vec![], &None, &now));
    assert!(is_template_due(&t, &vec![job_of("t1", Some(NOW - 31))], &None, &now));
    assert!(!is_template_due(&t, &vec![job_of("t1", Some(NOW - 30))], &None, &now));
    // The job of another template does not count.
    assert!(is_template_due(&t, &vec![job_of("t2", Some(NOW - 30))], &None, &now));
    let archived = Some(time::to_rfc3339(&at(NOW - 30)));
    assert!(!is_template_due(&t, &vec![], &archived, &now));
    assert!(!is_template_due(&template(None), &vec![], &None, &now));
    assert!(!is_template_due(&template(Some("x")), &vec![], &None, &now));
}

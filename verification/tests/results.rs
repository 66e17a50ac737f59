use jobfather::kubernetes::job::{Job, JobCondition, JobStatus, ObjectMeta, OwnerReference};
use jobfather::kubernetes::job_template::{JobTemplate, JobTemplateSpec};
use jobfather::json::Json;
use jobfather::metrics::{
    acceptance_run, archived_times, count_consecutive_failures, is_acceptance_failure, is_failure,
    last_times, live_runs, longest_running, namespaces_of, newest_results, seconds_since,
    timed_cases, AcceptanceRun, LastTimes,
};
use jobfather::time::Timestamp;
use jobfather::web::junit::{
    parse_junit_xml, suites_of_events, Element, TestCase, TestCaseStatus, TestSuite, TestSuites,
    XmlEvent,
};
use jobfather::web::test_report::{case_block, results_block, suite_block};

const REPORT: &str = r#"<?xml version="1.0"?>
<testsuites>
  <testsuite name="unit" tests="4" failures="1" errors="1" skipped="1" time="1.5">
    <testcase name="a" classname="m" time="0.1"/>
    <testcase name="b"><failure message="no">1 &lt; 2</failure></testcase>
    <testcase name="c"><error message="broken"/></testcase>
    <testcase name="d"><skipped message="later"/></testcase>
  </testsuite>
  <testsuite name="other" tests="x"></testsuite>
</testsuites>"#;

const PASS: &str = r#"<testsuite name="s" tests="1"><testcase name="a"/></testsuite>"#;

#[test]
fn reports_are_read() {
    let r = parse_junit_xml(REPORT).unwrap();
    assert_eq!(r.suites.len(), 2);
    let s = &r.suites[0];
    assert_eq!((s.name.as_str(), s.tests, s.failures, s.errors, s.skipped), ("unit", 4, 1, 1, 1));
    assert_eq!(s.time.as_deref(), Some("1.5"));
    assert_eq!(s.cases.len(), 4);
    assert_eq!((s.cases[0].name.as_str(), s.cases[0].classname.as_deref(), s.cases[0].time.as_deref()), ("a", Some("m"), Some("0.1")));
    assert!(matches!(&s.cases[0].status, TestCaseStatus::Passed));
    match &s.cases[1].status {
        TestCaseStatus::Failed { message, body } => {
            assert_eq!(message.as_deref(), Some("no"));
            assert_eq!(body.as_deref(), Some("1 < 2"));
        }
        _ => panic!("the test failed"),
    }
    match &s.cases[2].status {
        TestCaseStatus::Error { message, body } => {
            assert_eq!(message.as_deref(), Some("broken"));
            assert_eq!(body.as_deref(), None);
        }
        _ => panic!("the test broke"),
    }
    assert!(matches!(&s.cases[3].status, TestCaseStatus::Skipped { message: Some(m) } if m == "later"));
    assert_eq!(r.suites[1].tests, 0);
    assert_eq!((r.total_tests(), r.total_failures(), r.total_errors(), r.total_skipped()), (4, 1, 1, 1));
    assert_eq!(r.total_passed(), 1);
    assert!(!r.all_passed() && r.totals_fit());
}

#[test]
fn reports_that_cannot_be_read() {
    assert!(parse_junit_xml("").is_none());
    assert!(parse_junit_xml("<testsuites></testsuites>").is_none());
    assert!(parse_junit_xml("<testsuite></wrong>").is_none());
    assert!(parse_junit_xml(PASS).unwrap().all_passed());
}

fn tag(name: &str, attributes: &[(&str, &str)]) -> Element {
    Element {
        name: name.to_string(),
        attributes: attributes.iter().map(|(k, v)| Some((k.to_string(), v.to_string()))).collect(),
    }
}

#[test]
fn reports_from_given_events() {
    let events = vec![
        XmlEvent::Other,
        XmlEvent::Start(tag("testsuite", &[("name", "a"), ("name", "b"), ("tests", "2")])),
        XmlEvent::Start(tag("testcase", &[("name", "c")])),
        XmlEvent::Start(tag("failure", &[("message", "m"), ("message", "n")])),
        XmlEvent::Text(Some("x".to_string())),
        XmlEvent::Text(None),
        XmlEvent::Text(Some("y".to_string())),
        XmlEvent::End("failure".to_string()),
        XmlEvent::Text(Some("z".to_string())),
        XmlEvent::End("testcase".to_string()),
        XmlEvent::Eof,
    ];
    let r = suites_of_events(&events).unwrap();
    // A suite that is not closed counts.
    assert_eq!(r.suites.len(), 1);
    assert_eq!((r.suites[0].name.as_str(), r.suites[0].tests), ("b", 2));
    match &r.suites[0].cases[0].status {
        TestCaseStatus::Failed { message, body } => {
            assert_eq!(message.as_deref(), Some("m"));
            assert_eq!(body.as_deref(), Some("xy"));
        }
        _ => panic!("the test failed"),
    }
    assert!(suites_of_events(&vec![XmlEvent::Error]).is_none());
    assert!(suites_of_events(&vec![XmlEvent::Eof]).is_none());
}

#[test]
fn totals_may_be_too_large() {
    let suite = || TestSuite { tests: u32::MAX, ..TestSuite::default() };
    let r = TestSuites { suites: vec![suite(), suite()] };
    assert!(!r.totals_fit());
    assert_eq!(r.checked_total_tests(), None);
    assert_eq!(r.checked_total_failures(), Some(0));
    assert!(r.all_passed());
}

#[test]
fn acceptance_rule() {
    assert!(!is_acceptance_failure("Succeeded", Some(PASS), None));
    assert!(!is_acceptance_failure("Succeeded", Some(PASS), Some("matches_baseline")));
    assert!(!is_acceptance_failure("Succeeded", Some(PASS), Some("accepted_as_baseline")));
    assert!(is_acceptance_failure("Succeeded", Some(PASS), Some("differs_from_baseline")));
    assert!(is_acceptance_failure("Failed", Some(PASS), None));
    assert!(is_acceptance_failure("Succeeded", None, None));
    assert!(is_acceptance_failure("Succeeded", Some("<"), None));
    assert!(is_acceptance_failure("Succeeded", Some(REPORT), None));
    assert!(is_failure("Succeeded", &None, None));
    assert!(!is_failure("Succeeded", &Some(TestSuites::default()), None));
}

fn run(status: &str, xml: Option<&str>, start: &str) -> AcceptanceRun {
    AcceptanceRun {
        status: status.to_string(),
        junit_xml: xml.map(|x| x.to_string()),
        snapshot_status: None,
        start_time: start.to_string(),
    }
}

#[test]
fn failures_are_counted_back_to_the_last_pass() {
    assert_eq!(count_consecutive_failures(vec![]), 0);
    let runs = vec![
        run("Succeeded", Some(PASS), "2026-01-02"),
        run("Failed", None, "2026-01-04"),
        run("Failed", None, "2026-01-01"),
        run("Succeeded", Some(REPORT), "2026-01-03"),
    ];
    assert_eq!(count_consecutive_failures(runs), 2);
    assert_eq!(count_consecutive_failures(vec![run("Failed", None, "a"), run("Failed", None, "b")]), 2);
    assert_eq!(count_consecutive_failures(vec![run("Succeeded", Some(PASS), "b"), run("Failed", None, "a")]), 0);
}

fn at(secs: i64) -> Timestamp {
    Timestamp::new(secs, 0).unwrap()
}

fn job(name: &str, uid: &str, start: Option<i64>, end: Option<i64>, verdict: &str) -> Job {
    Job {
        metadata: ObjectMeta {
            name: Some(name.to_string()),
            generate_name: None,
            namespace: Some("ci".to_string()),
            uid: None,
            creation_timestamp: None,
            annotations: None,
            owner_references: Some(vec![OwnerReference {
                api_version: String::new(),
                kind: "JobTemplate".to_string(),
                name: "nightly".to_string(),
                uid: uid.to_string(),
                controller: None,
                block_owner_deletion: None,
            }]),
        },
        spec: None,
        status: Some(JobStatus {
            start_time: start.map(at),
            completion_time: end.map(at),
            conditions: Some(vec![JobCondition {
                type_: verdict.to_string(),
                status: "True".to_string(),
                last_transition_time: None,
            }]),
            active: None,
            ready: None,
            succeeded: None,
            failed: None,
        }),
    }
}

#[test]
fn failed_jobs_without_a_completion() {
    let mut failed = job("f", "t1", Some(1), None, "Failed");
    failed.status.as_mut().unwrap().conditions.as_mut().unwrap()[0].last_transition_time =
        Some(at(40));
    let jobs = vec![job("a", "t1", Some(0), Some(20), "Complete"), failed];
    assert_eq!(live_runs(&jobs, "t1", true).len(), 1);
    let runs = live_runs(&jobs, "t1", false);
    assert_eq!((runs[1].name.as_str(), runs[1].status.as_str()), ("f", "Failed"));
    let counted = runs.iter().map(|r| acceptance_run(r, None, None)).collect();
    assert_eq!(count_consecutive_failures(counted), 2);
    let ends = last_times(LastTimes::new(), &jobs, false);
    assert_eq!(seconds_since(&ends, "nightly", "ci", &at(100)), Some(60));
    let only = vec![jobs.into_iter().last().unwrap()];
    let ends = last_times(LastTimes::new(), &only, false);
    assert_eq!(seconds_since(&ends, "nightly", "ci", &at(100)), Some(60));
    let successes = last_times(LastTimes::new(), &only, true);
    assert_eq!(seconds_since(&successes, "nightly", "ci", &at(100)), None);
}

#[test]
fn completed_jobs_of_a_template() {
    let jobs = vec![
        job("a", "t1", Some(1), Some(2), "Complete"),
        job("b", "t1", None, Some(3), "Failed"),
        job("c", "t1", Some(1), None, "Other"),
        job("d", "t2", Some(1), Some(2), "Complete"),
    ];
    let runs = live_runs(&jobs, "t1", true);
    assert_eq!(runs.len(), 2);
    assert_eq!((runs[0].name.as_str(), runs[0].status.as_str()), ("a", "Succeeded"));
    assert_eq!(runs[0].start_time.as_deref(), Some("1970-01-01T00:00:01+00:00"));
    assert_eq!((runs[1].name.as_str(), runs[1].status.as_str()), ("b", "Failed"));
    assert_eq!(runs[1].start_time, None);
    // Without a start, the end tells where it belongs.
    assert_eq!(runs[1].sort_time, "1970-01-01T00:00:03+00:00");
    let r = acceptance_run(&runs[1], Some("x".to_string()), Some("s".to_string()));
    assert_eq!(r.start_time, "1970-01-01T00:00:03+00:00");
    assert_eq!((r.status.as_str(), r.junit_xml.as_deref(), r.snapshot_status.as_deref()), ("Failed", Some("x"), Some("s")));
}

#[test]
fn the_newest_results() {
    let archived = Some(("old".to_string(), "2026-01-02".to_string()));
    let live = vec![
        (Some("2026-01-01".to_string()), "older".to_string()),
        (Some("2026-01-03".to_string()), "new".to_string()),
        (None, "undated".to_string()),
    ];
    assert_eq!(newest_results(archived, &live), Some(("new".to_string(), "2026-01-03".to_string())));
    assert_eq!(newest_results(None, &vec![(None, "undated".to_string())]), None);
}

#[test]
fn cases_with_a_time() {
    let r = parse_junit_xml(REPORT).unwrap();
    assert_eq!(timed_cases(&r), vec![("unit".to_string(), "a".to_string(), "0.1".to_string())]);
}

fn template(name: &str, uid: &str) -> JobTemplate {
    JobTemplate {
        metadata: ObjectMeta {
            name: Some(name.to_string()),
            generate_name: None,
            namespace: Some("ci".to_string()),
            uid: Some(uid.to_string()),
            creation_timestamp: None,
            annotations: None,
            owner_references: None,
        },
        spec: JobTemplateSpec { schedule: None, acceptance_test: None, cleanup_after: None, spec: Json::Null },
        status: None,
    }
}

#[test]
fn the_longest_running_job() {
    let jobs = vec![
        job("a", "t1", Some(10), None, "Other"),
        job("b", "t1", Some(5), None, "Other"),
        job("c", "t1", Some(1), Some(2), "Complete"),
        job("d", "t1", Some(1), None, "Failed"),
        job("e", "t9", Some(1), None, "Other"),
        job("f", "t2", None, None, "Other"),
        job("g", "t3", Some(500), None, "Other"),
    ];
    let templates = vec![template("one", "t1"), template("two", "t2"), template("three", "t3")];
    let m = longest_running(&jobs, &templates, &at(100));
    assert_eq!(m.get("one"), Some(&95));
    assert_eq!(m.get("two"), None);
    // A job that starts in the future has not run yet.
    assert_eq!(m.get("three"), Some(&0));
    let namespaces = namespaces_of(&templates);
    assert_eq!((namespaces.len(), namespaces.key(0).as_str()), (1, "ci"));
}

#[test]
fn times_since_the_last_end() {
    let rows = vec![
        ("nightly".to_string(), "ci".to_string(), Some("1970-01-01T00:00:05+00:00".to_string())),
        ("other".to_string(), "ci".to_string(), Some("?".to_string())),
        ("none".to_string(), "ci".to_string(), None),
    ];
    let archived = archived_times(&rows);
    assert_eq!(archived.len(), 1);
    let jobs = vec![
        job("a", "t1", Some(1), Some(20), "Complete"),
        job("b", "t1", Some(1), Some(30), "Failed"),
        job("c", "t1", Some(1), None, "Other"),
    ];
    let ends = last_times(archived_times(&rows), &jobs, false);
    let successes = last_times(archived, &jobs, true);
    assert_eq!(ends.get("nightly", "ci"), Some(at(30)));
    assert_eq!(successes.get("nightly", "ci"), Some(at(20)));
    assert_eq!(seconds_since(&ends, "nightly", "ci", &at(100)), Some(70));
    assert_eq!(seconds_since(&ends, "other", "ci", &at(100)), None);
    let empty = last_times(LastTimes::new(), &vec![], false);
    assert_eq!(empty.len(), 0);
    let two = empty
        .insert("nightly".to_string(), "ci".to_string(), at(1))
        .insert("nightly".to_string(), "qa".to_string(), at(2))
        .insert("nightly".to_string(), "ci".to_string(), at(3));
    assert_eq!(two.len(), 2);
    assert_eq!((two.key(0).0.as_str(), two.key(0).1.as_str()), ("nightly", "ci"));
    assert_eq!((two.key(1).0.as_str(), two.key(1).1.as_str()), ("nightly", "qa"));
    assert_eq!(two.get("nightly", "ci"), Some(at(3)));
}

#[test]
fn how_results_are_shown() {
    let r = parse_junit_xml(REPORT).unwrap();
    let b = results_block(&r);
    assert_eq!(b.class, "test-summary-bar test-summary-fail");
    assert_eq!(b.icon, "\u{2717}");
    assert_eq!(b.text, " 2 of 4 tests failed");
    assert_eq!(b.skipped_text.as_deref(), Some(" (1 skipped)"));
    assert_eq!(b.suites.len(), 2);
    assert_eq!(b.suites[0].stats, "4 tests \u{b7} 1.5s");
    assert_eq!(b.suites[1].stats, "0 tests");
    let p = results_block(&parse_junit_xml(PASS).unwrap());
    assert_eq!((p.class.as_str(), p.text.as_str()), ("test-summary-bar test-summary-pass", " All 1 tests passed"));
    assert_eq!(p.skipped_text, None);
    assert_eq!(suite_block(&r.suites[0]).cases.len(), 4);
}

#[test]
fn how_cases_are_shown() {
    let case = |status: TestCaseStatus| TestCase {
        name: "n".to_string(),
        classname: Some("c".to_string()),
        time: Some("2".to_string()),
        status,
    };
    let b = case_block(&case(TestCaseStatus::Passed));
    assert_eq!((b.icon.as_str(), b.class.as_str()), ("\u{2713}", "test-case test-case-passed"));
    assert_eq!((b.class_label.as_deref(), b.time_text.as_deref()), (Some("c \u{203a} "), Some("2s")));
    assert!(!b.has_detail);
    let b = case_block(&case(TestCaseStatus::Error { message: None, body: None }));
    assert_eq!((b.icon.as_str(), b.class.as_str(), b.has_detail), ("\u{2717}", "test-case test-case-failed", true));
    let b = case_block(&case(TestCaseStatus::Failed { message: Some("m".to_string()), body: Some("b".to_string()) }));
    assert_eq!((b.message.as_deref(), b.body.as_deref()), (Some("m"), Some("b")));
    let b = case_block(&case(TestCaseStatus::Skipped { message: None }));
    assert_eq!((b.icon.as_str(), b.class.as_str(), b.has_detail), ("\u{2014}", "test-case test-case-skipped", false));
}

use jobfather::db::archived_job::ArchivedJob;
use jobfather::json::Json;
use jobfather::kubernetes::events::EventInfo;
use jobfather::kubernetes::job::{Job, JobCondition, JobStatus, ObjectMeta, OwnerReference};
use jobfather::kubernetes::job_output::JobOutput;
use jobfather::kubernetes::job_template::{JobTemplate, JobTemplateSpec};
use jobfather::metrics::AcceptanceRun;
use jobfather::snapshot::{compare, DiffLine, FileDiffStatus, Files};
use jobfather::sorted_map::SortedMap;
use jobfather::time::Timestamp;
use jobfather::web::job_detail::{
    accept_link, accept_values, archived_header, archived_output, archived_snapshot_context,
    build_snapshot_file_views, diff_line_style, event_style, format_duration, job_duration_display,
    live_header, live_output, live_snapshot_context, output_link, output_parts, output_sections,
    output_summary, sections_for, snapshot_rows, summary_class, summary_text, SnapshotContext,
};
use jobfather::web::job_template_detail::{
    archived_row, archived_start, combined_table, display_name, format_eastern, fragment_link,
    has_short_sha, job_status, limit_rows, live_row, load_test_results, needs_results,
    ordinal_suffix, page_rows, schedule_badge, short_sha, timeago, FragmentQuery, JobRow, LiveJob,
    SummaryAnswer, TestResultSummary,
};
use jobfather::web::job_templates::{
    archived_status_badge, at_status, latest_completed, list_row, most_recent_status,
    template_cells, template_row,
};
use jobfather::web::junit::parse_junit_xml;
use jobfather::web::run_modal::{
    decide_run, describe_value_from, field_class, parse_form_env, result_style, run_modal,
    run_request, RunDecision, RunJobForm, RunModalData,
};

fn at(secs: i64) -> Timestamp {
    Timestamp::new(secs, 0).unwrap()
}

fn some(s: &str) -> Option<String> {
    Some(s.to_string())
}

fn text(s: &str) -> Json {
    Json::text(s)
}

fn pair(a: &str, b: &str) -> (String, String) {
    (a.to_string(), b.to_string())
}

fn job(name: &str, start: Option<i64>, end: Option<i64>) -> Job {
    Job {
        metadata: ObjectMeta {
            name: some(name),
            generate_name: None,
            namespace: some("ci"),
            uid: some("u"),
            creation_timestamp: Some(at(3)),
            annotations: None,
            owner_references: Some(vec![OwnerReference {
                api_version: String::new(),
                kind: "JobTemplate".to_string(),
                name: "nightly".to_string(),
                uid: "t1".to_string(),
                controller: None,
                block_owner_deletion: None,
            }]),
        },
        spec: None,
        status: Some(JobStatus {
            start_time: start.map(at),
            completion_time: end.map(at),
            conditions: None,
            active: None,
            ready: None,
            succeeded: None,
            failed: None,
        }),
    }
}

fn with_verdict(mut j: Job, kind: &str) -> Job {
    j.status.as_mut().unwrap().conditions = Some(vec![JobCondition {
        type_: kind.to_string(),
        status: "True".to_string(),
        last_transition_time: None,
    }]);
    j
}

fn archived(name: &str, status: &str) -> ArchivedJob {
    ArchivedJob {
        id: 1,
        name: name.to_string(),
        namespace: "ci".to_string(),
        job_template_name: "nightly".to_string(),
        job_template_namespace: "ci".to_string(),
        uid: "u".to_string(),
        status: status.to_string(),
        start_time: some("1970-01-01T00:00:20+00:00"),
        completion_time: None,
        duration_seconds: Some(3725),
        logs: None,
        archived_at: "then".to_string(),
        output_result_json: some("{}"),
        output_report_md: None,
        output_test_results_xml: None,
        output_archive: None,
        output_test_snapshots: None,
        events_json: None,
        snapshot_status: some("matches_baseline"),
        snapshot_diff_json: None,
        artifact_sha: some("0123456789"),
        config_sha: None,
        snapshot_baseline_id: None,
    }
}

fn template(pod: Json, schedule: Option<&str>) -> JobTemplate {
    JobTemplate {
        metadata: ObjectMeta {
            name: some("nightly"),
            generate_name: None,
            namespace: some("ci"),
            uid: some("t1"),
            creation_timestamp: None,
            annotations: None,
            owner_references: None,
        },
        spec: JobTemplateSpec {
            schedule: schedule.map(|s| s.to_string()),
            acceptance_test: None,
            cleanup_after: None,
            spec: pod,
        },
        status: None,
    }
}

#[test]
fn durations_in_words() {
    for (secs, expected) in [(-5, "-5s"), (0, "0s"), (59, "59s"), (60, "1m 0s"), (3599, "59m 59s"), (3600, "1h 0m"), (90061, "25h 1m")] {
        assert_eq!(format_duration(secs), expected);
    }
    assert_eq!(job_duration_display(&job("a", Some(10), Some(80)), &at(999)), "1m 10s");
    assert_eq!(job_duration_display(&job("a", Some(10), None), &at(15)), "5s");
    assert_eq!(job_duration_display(&job("a", None, None), &at(15)), "");
}

#[test]
fn how_long_ago() {
    let ago = |secs: i64| timeago(&at(0), &at(secs));
    assert_eq!(ago(-10), "just now");
    assert_eq!(ago(59), "just now");
    assert_eq!(ago(60), "1 minute ago");
    assert_eq!(ago(120), "2 minutes ago");
    assert_eq!(ago(3600), "1 hour ago");
    assert_eq!(ago(7200), "2 hours ago");
    assert_eq!(ago(86400), "1 day ago");
    assert_eq!(ago(86400 * 40), "40 days ago");
}

#[test]
fn eastern_time() {
    // 2026-03-07 02:02:00 UTC is five hours ahead of Eastern time.
    assert_eq!(format_eastern(&at(1_772_848_920)), "March 6th, 2026 9:02:00 PM Eastern");
    // In summer it is four.
    assert_eq!(format_eastern(&at(1_782_871_445)), "June 30th, 2026 10:04:05 PM Eastern");
}

#[test]
fn ordinals() {
    for (n, expected) in [(1, "st"), (2, "nd"), (3, "rd"), (4, "th"), (11, "th"), (12, "th"), (13, "th"), (21, "st"), (22, "nd"), (23, "rd"), (111, "th")] {
        assert_eq!(ordinal_suffix(n), expected, "{}", n);
    }
}

#[test]
fn states_in_the_table() {
    let mut j = job("a", None, None);
    assert_eq!(job_status(&j), ("muted", "Pending"));
    j.status.as_mut().unwrap().succeeded = Some(1);
    assert_eq!(job_status(&j), ("muted", "Cleaning up"));
    j.status.as_mut().unwrap().active = Some(1);
    assert_eq!(job_status(&j), ("muted", "Cleaning up"));
    j.status.as_mut().unwrap().ready = Some(1);
    assert_eq!(job_status(&j), ("info", "Running"));
    assert_eq!(job_status(&with_verdict(j, "Complete")), ("success", "Succeeded"));
}

#[test]
fn rows_of_the_table() {
    let live = job("nightly-1", Some(30), Some(31));
    assert!(needs_results(&live, true) && !needs_results(&live, false));
    let results = Some(TestResultSummary { all_passed: false, failures: 2 });
    let mut a = live_row(&live, "ci", true, results, &some("differs_from_baseline"), &at(99));
    a.artifact_sha = some("abcdefghij");
    let old = archived("other", "Succeeded");
    let start = archived_start(&old.start_time);
    assert_eq!(start, Some(at(20)));
    assert_eq!(archived_start(&some("1970-01-01")), None);
    let b = archived_row(&old, true, Some(TestResultSummary { all_passed: true, failures: 0 }), start);
    assert_eq!(b.duration_display, "1h 2m");
    let shown = limit_rows(vec![b, a], 100);
    assert!(!shown.has_more && shown.next_limit.is_none());
    let t = combined_table(&shown.rows, true, "nightly");
    assert!(t.has_sha);
    assert_eq!(t.col_count, 8);
    let first = &t.rows[0];
    assert_eq!((first.display_name.as_str(), first.link.as_str()), ("1", "/jobs/ci/nightly-1"));
    assert_eq!(first.sha, Some(pair("sha-badge sha-changed", "abcdefghij")));
    assert_eq!(first.source, pair("badge badge-info", "Live"));
    assert_eq!(first.status, pair("badge badge-muted", "Pending"));
    assert_eq!(first.tests, Some(pair("badge badge-danger", "2 Failing")));
    assert_eq!(first.snapshots, Some(pair("badge badge-danger", "Differs from baseline")));
    let second = &t.rows[1];
    assert_eq!(second.display_name, "other");
    assert_eq!(second.sha, Some(pair("sha-badge", "0123456789")));
    assert_eq!(second.source, pair("badge badge-muted", "Archived"));
    assert_eq!(second.tests, Some(pair("badge badge-success", "Passing")));
    assert_eq!(second.snapshots, Some(pair("badge badge-success", "Matches baseline")));
    let plain = combined_table(&vec![], false, "nightly");
    assert_eq!((plain.has_sha, plain.col_count), (false, 5));
}

#[test]
fn the_latest_rows_are_shown() {
    let row = |n: i64| -> JobRow { live_row(&job("j", Some(n), None), "ci", false, None, &None, &at(99)) };
    let undated = live_row(&job("u", None, None), "ci", false, None, &None, &at(99));
    let shown = limit_rows(vec![row(1), undated, row(3), row(2)], 2);
    let starts: Vec<Option<Timestamp>> = shown.rows.iter().map(|r| r.start_time).collect();
    assert_eq!(starts, vec![Some(at(3)), Some(at(2))]);
    assert!(shown.has_more);
    assert_eq!(shown.next_limit, Some(102));
    assert_eq!(FragmentQuery { limit: None }.limit(), 100);
    assert_eq!(FragmentQuery { limit: Some(7) }.limit(), 7);
    assert_eq!(fragment_link("n", "t", 102), "/job-templates/n/t/fragment?limit=102");
}

#[test]
fn results_in_the_table() {
    assert_eq!(load_test_results(&None), SummaryAnswer::Nothing);
    assert_eq!(load_test_results(&some("<")), SummaryAnswer::Nothing);
    let xml = r#"<testsuite tests="3" failures="1" errors="1"/>"#;
    // A suite without content is not closed, but counts.
    assert_eq!(
        load_test_results(&some(xml)),
        SummaryAnswer::Found(TestResultSummary { all_passed: false, failures: 2 })
    );
    let huge = r#"<testsuite failures="4294967295" errors="1"/>"#;
    assert_eq!(load_test_results(&some(huge)), SummaryAnswer::Uncountable);
}

#[test]
fn hashes_and_names() {
    assert_eq!(short_sha("0123456789"), "01234567");
    assert_eq!(short_sha("012"), "012");
    assert!(has_short_sha("0123456789"));
    assert!(!has_short_sha("0123456\u{e9}"));
    assert_eq!(display_name("nightly-1", "nightly"), "1");
    assert_eq!(display_name("nightly", "nightly"), "nightly");
    assert_eq!(display_name("nightlyx-1", "nightly"), "nightlyx-1");
    assert_eq!(schedule_badge(&template(Json::Null, None)), ("badge badge-muted", "On-demand".to_string()));
    assert_eq!(schedule_badge(&template(Json::Null, Some("daily"))), ("badge badge-info", "daily".to_string()));
}

#[test]
fn last_runs() {
    let done = with_verdict(job("a", Some(30), Some(31)), "Complete");
    let jobs = vec![done, job("b", None, None)];
    let run = most_recent_status("t1", &jobs, &None).unwrap();
    assert_eq!((run.badge_class.as_str(), run.status.as_str()), ("success", "Succeeded"));
    let newer = Some(pair("Failed", "1970-01-01T00:01:00+00:00"));
    let run = most_recent_status("t1", &jobs, &newer).unwrap();
    assert_eq!((run.badge_class.as_str(), run.status.as_str()), ("danger", "Failed"));
    assert!(most_recent_status("t2", &jobs, &None).is_none());
    assert_eq!(archived_status_badge("Succeeded"), ("success", "Succeeded"));
    assert_eq!(archived_status_badge("Running"), ("muted", "Unknown"));
    let c = latest_completed(&jobs, "t1").unwrap();
    assert_eq!((c.name.as_str(), c.status.as_str()), ("a", "Succeeded"));
    assert!(latest_completed(&jobs, "t2").is_none());
}

#[test]
fn acceptance_in_the_list() {
    let run = |status: &str, start: &str| AcceptanceRun {
        status: status.to_string(),
        junit_xml: some("<testsuite></testsuite>"),
        snapshot_status: None,
        start_time: start.to_string(),
    };
    assert_eq!(at_status(&None, &None), None);
    assert_eq!(at_status(&Some(run("Succeeded", "2")), &Some(run("Failed", "1"))), Some(true));
    assert_eq!(at_status(&Some(run("Succeeded", "1")), &Some(run("Failed", "2"))), Some(false));
    assert_eq!(at_status(&Some(run("Succeeded", "1")), &Some(run("Failed", "1"))), Some(true));
}

#[test]
fn cells_of_the_list() {
    let plain = template_row(&template(Json::Null, None), None, Some(false));
    assert_eq!(template_cells(&plain).at_status, None);
    let mut t = template(Json::Null, None);
    t.spec.acceptance_test = Some(true);
    let row = template_row(&t, None, Some(false));
    let cells = template_cells(&row);
    assert_eq!(cells.link, "/job-templates/ci/nightly");
    assert!(!cells.has_schedule);
    assert_eq!(cells.schedule, "On-demand");
    assert_eq!(cells.last_run, None);
    assert_eq!(cells.at_status, Some(pair("badge badge-danger", "Failed")));
}

fn files(entries: &[(&str, &str)]) -> Files {
    let mut m: Files = SortedMap::new();
    for (k, v) in entries {
        m = m.insert(k.to_string(), v.as_bytes().to_vec());
    }
    m
}

fn context(status: Option<&str>, latest: bool) -> SnapshotContext {
    let baseline = files(&[("a.json", "1"), ("b", "1"), ("c", "1")]);
    let current = files(&[("a.json", "2"), ("b", "1"), ("d", "1")]);
    live_snapshot_context(
        &baseline,
        &current,
        status.map(|s| s.to_string()),
        "nightly".to_string(),
        "ci".to_string(),
        Some(4),
        latest,
    )
}

#[test]
fn files_of_snapshots() {
    let baseline = files(&[("a.json", "1"), ("c", "1")]);
    let current = files(&[("a.json", "2"), ("b", "1")]);
    let views = build_snapshot_file_views(&compare(&baseline, &current), &baseline, &current);
    let seen: Vec<(&str, FileDiffStatus, bool)> =
        views.iter().map(|v| (v.path.as_str(), v.status, v.diff_lines.is_some())).collect();
    assert_eq!(
        seen,
        vec![
            ("a.json", FileDiffStatus::Changed, true),
            ("b", FileDiffStatus::Added, false),
            ("c", FileDiffStatus::Removed, false),
        ]
    );
}

#[test]
fn summaries() {
    let suites = parse_junit_xml(r#"<testsuite tests="3" failures="1" skipped="1"></testsuite>"#);
    let s = output_summary(&suites, &Some(context(Some("differs_from_baseline"), true))).unwrap();
    assert_eq!((s.total, s.failed, s.skipped, s.snapshot_files), (7, 4, 1, 4));
    assert!(!s.all_passed && s.can_accept);
    // What was accepted is no failure.
    let s = output_summary(&None, &Some(context(Some("accepted_as_baseline"), true))).unwrap();
    assert_eq!((s.total, s.failed), (4, 0));
    assert!(s.all_passed && !s.can_accept);
    let s = output_summary(&None, &Some(context(None, false))).unwrap();
    assert!(!s.can_accept);
    assert_eq!(summary_class(true), "test-summary-bar test-summary-pass");
    assert_eq!(summary_text(7, 0), " All 7 tests passed");
    assert_eq!(summary_text(7, 4), " 4 of 7 tests failed");
}

#[test]
fn rows_of_snapshots() {
    let rows = snapshot_rows(&context(None, true), "ci", "j");
    assert_eq!(rows.len(), 4);
    assert_eq!((rows[0].icon.as_str(), rows[0].row_class.as_str()), ("\u{2717}", "test-case test-case-failed"));
    assert_eq!(rows[0].status_label, " (changed)");
    assert_eq!(rows[0].baseline_link.as_deref(), Some("/snapshots/baseline/4/a.json"));
    assert_eq!(rows[0].current_link.as_deref(), Some("/jobs/ci/j/snapshots/current/a.json"));
    assert!(rows[0].has_lines);
    assert_eq!((rows[1].icon.as_str(), rows[1].baseline_link.as_deref()), ("\u{2713}", None));
    assert_eq!((rows[2].status_label.as_str(), rows[2].current_link.as_deref()), (" (removed)", None));
    assert_eq!((rows[3].status_label.as_str(), rows[3].baseline_link.as_deref()), (" (added)", None));
    assert_eq!(snapshot_rows(&context(Some("accepted_as_baseline"), true), "ci", "j")[0].icon, "\u{394}");
    assert_eq!(accept_link("ci", "j"), "/api/jobs/ci/j/snapshots/accept");
    assert_eq!(
        accept_values(&context(None, true)),
        "{\"job_template_name\":\"nightly\",\"job_template_namespace\":\"ci\"}"
    );
    assert_eq!(output_link("ci", "j", "archive.tar.gz"), "/jobs/ci/j/output/archive.tar.gz");
    assert_eq!(diff_line_style(&DiffLine::Added(String::new())), ("diff-line diff-added", "+"));
    assert_eq!(diff_line_style(&DiffLine::Removed(String::new())), ("diff-line diff-removed", "-"));
    assert_eq!(diff_line_style(&DiffLine::Context(String::new())), ("diff-line diff-context", " "));
}

#[test]
fn headers() {
    let h = live_header(&with_verdict(job("j", Some(10), Some(15)), "Failed"), "ci", &at(99));
    assert_eq!((h.badge_class.as_str(), h.status.as_str()), ("badge badge-danger", "Failed"));
    assert_eq!((h.source.as_str(), h.duration.as_str()), ("Live", "5s"));
    assert_eq!(h.template_link.as_deref(), Some("/job-templates/ci/nightly"));
    assert_eq!(h.started, "1970-01-01 00:00:10");
    assert_eq!(h.completed.as_deref(), Some("1970-01-01 00:00:15"));
    let h = live_header(&job("j", None, None), "ci", &at(99));
    assert_eq!((h.started.as_str(), h.started_known), ("Not started", false));
    let h = archived_header(&archived("j", "Running"));
    assert_eq!((h.badge_class.as_str(), h.source.as_str(), h.duration.as_str()), ("badge badge-muted", "Archived", "1h 2m"));
    assert_eq!(h.archived_at.as_deref(), Some("then"));
}

#[test]
fn output_on_the_page() {
    let o = archived_output(&archived("j", "Succeeded"));
    assert_eq!(o.result_json.as_deref(), Some("{}"));
    let p = output_parts(&o, false, false);
    assert!(!p.tests && p.other && !p.raw_results);
    let uploaded = || vec![("test-results.xml".to_string(), b"<".to_vec())];
    let o = live_output(&job("j", Some(1), Some(2)), uploaded());
    let p = output_parts(&o, false, false);
    assert!(p.tests && !p.other && p.raw_results);
    // A job that still runs has no output.
    let o = live_output(&job("j", Some(1), None), uploaded());
    assert!(o.test_results_xml.is_none());
    let p = output_parts(&JobOutput::empty(), false, true);
    assert!(p.tests && !p.other && !p.raw_results);
}

#[test]
fn events_on_the_page() {
    let event = |kind: &str| EventInfo {
        type_: kind.to_string(),
        reason: String::new(),
        message: String::new(),
        timestamp: String::new(),
        source: String::new(),
        count: None,
    };
    assert_eq!(event_style(&event("Warning")), ("event-warning", "badge badge-danger"));
    assert_eq!(event_style(&event("Normal")), ("", "badge badge-muted"));
}

fn variable(name: &str, value: &str) -> Json {
    Json::object().set("name", text(name)).set("value", text(value))
}

fn pod() -> Json {
    let from = Json::object().set(
        "secretKeyRef",
        Json::object().set("name", text("s")).set("key", text("k")),
    );
    let container = Json::object()
        .set("image", text("alpine"))
        .set("command", Json::array(vec![text("run me")]))
        .set("args", Json::array(vec![text("--flag"), text("it's"), text("")]))
        .set(
            "env",
            Json::array(vec![
                variable("A", "1"),
                variable("CICD_SHA", "abc"),
                Json::object().set("name", text("S")).set("valueFrom", from),
                Json::object().set("value", text("nameless")),
                Json::object().set("name", text("B")),
            ]),
        );
    Json::object().set("containers", Json::array(vec![container]))
}

#[test]
fn the_dialog_shows_the_template() {
    let d = RunModalData::from_template(&template(pod(), None), "ci", "nightly");
    assert_eq!((d.image.as_str(), d.command_line.as_deref()), ("alpine", Some("'run me'")));
    assert_eq!(shell_words::split(&d.args_line).unwrap(), vec!["--flag", "it's", ""]);
    assert_eq!(d.editable, vec![pair("A", "1"), pair("B", "")]);
    assert_eq!(d.locked, vec![pair("CICD_SHA", "abc")]);
    assert_eq!(d.refs, vec![pair("S", "secret: s/k")]);
    assert_eq!(d.env_count(), 4);
    let m = run_modal(&d);
    assert_eq!((m.editable[1].name_field.as_str(), m.editable[1].value_field.as_str()), ("env_name_1", "env_value_1"));
    assert_eq!(m.locked[0].name_field, "env_name_2");
    assert_eq!(m.next_index, 3);
    assert!(m.has_static);
    assert_eq!(m.count_text, "4 variables from the template");
    assert_eq!(m.post_link, "/job-templates/ci/nightly/run");
    assert_eq!(m.args_class, "args-field");
    let bare = RunModalData::from_template(&template(Json::Null, None), "ci", "nightly");
    assert_eq!((bare.image.as_str(), bare.command_line, bare.args_line.as_str()), ("unknown", None, ""));
}

#[test]
fn where_values_come_from() {
    let of = |key: &str, value: Json| describe_value_from(&Json::object().set(key, value));
    assert_eq!(of("configMapKeyRef", Json::object().set("name", text("c"))), "configmap: c/?");
    assert_eq!(of("fieldRef", Json::object().set("fieldPath", text("spec.x"))), "field: spec.x");
    assert_eq!(of("resourceFieldRef", Json::Null), "resourceField");
    assert_eq!(of("other", Json::Null), "ref");
}

fn form(command: Option<&str>, args: Option<&str>, fields: &[(&str, &str)]) -> RunJobForm {
    let mut extra = SortedMap::new();
    for (k, v) in fields {
        extra = extra.insert(k.to_string(), v.to_string());
    }
    RunJobForm { command: command.map(|s| s.to_string()), args: args.map(|s| s.to_string()), extra }
}

#[test]
fn variables_that_are_sent() {
    let f = form(None, None, &[
        ("env_name_10", "J"),
        ("env_value_10", "10"),
        ("env_name_2", "C"),
        ("env_value_2", "2"),
        ("env_name_3", ""),
        ("env_value_3", "x"),
        ("env_name_x", "X"),
        ("env_name_4", "D"),
    ]);
    assert_eq!(parse_form_env(&f), vec![pair("C", "2"), pair("D", ""), pair("J", "10")]);
}

#[test]
fn an_unedited_form_runs_the_template() {
    let t = template(pod(), None);
    let d = RunModalData::from_template(&t, "ci", "nightly");
    let m = run_modal(&d);
    let mut extra = SortedMap::new();
    for row in m.editable.iter().chain(m.locked.iter()).chain(m.extra.iter()) {
        extra = extra.insert(row.name_field.clone(), row.name.clone());
        extra = extra.insert(row.value_field.clone(), row.value.clone());
    }
    let f = RunJobForm { command: d.command_line.clone(), args: Some(d.args_line.clone()), extra };
    match run_request(&t, "ci", "nightly", &f) {
        RunDecision::Run(over) => {
            assert_eq!(over.command, Some(vec!["run me".to_string()]));
            assert_eq!(over.args, Some(vec!["--flag".to_string(), "it's".to_string(), String::new()]));
            assert_eq!(over.env, Some(vec![pair("A", "1"), pair("B", ""), pair("CICD_SHA", "abc")]));
        }
        RunDecision::ShowAgain(_) => panic!("the form can be run"),
    }
}

#[test]
fn a_form_that_cannot_be_run_is_shown_again() {
    let t = template(pod(), None);
    let f = form(Some("ok"), Some("a 'b"), &[
        ("env_name_0", "A"),
        ("env_value_0", "new"),
        ("env_name_2", "CICD_SHA"),
        ("env_value_2", "forged"),
        ("env_name_3", "MINE"),
        ("env_value_3", "x"),
    ]);
    match run_request(&t, "ci", "nightly", &f) {
        RunDecision::ShowAgain(d) => {
            assert_eq!(d.args_error.as_deref(), Some("Unbalanced quote."));
            assert_eq!(d.command_error, None);
            assert_eq!((d.command_line.as_deref(), d.args_line.as_str()), (Some("ok"), "a 'b"));
            assert_eq!(d.editable, vec![pair("A", "new"), pair("B", "")]);
            assert_eq!(d.locked, vec![pair("CICD_SHA", "abc")]);
            assert_eq!(d.extra, vec![pair("MINE", "x")]);
            assert_eq!(run_modal(&d).args_class, "args-field args-field-error");
            assert_eq!(run_modal(&d).extra[0].name_field, "env_name_3");
        }
        RunDecision::Run(_) => panic!("a quote is not closed"),
    }
}

#[test]
fn what_a_form_asks_for() {
    let data = || RunModalData::from_template(&template(Json::Null, None), "ci", "nightly");
    match decide_run(data(), None, String::new(), vec![], Some(None), Some(vec![])) {
        RunDecision::Run(over) => {
            assert_eq!((over.command, over.args), (None, Some(vec![])));
        }
        RunDecision::ShowAgain(_) => panic!("the form can be run"),
    }
    match decide_run(data(), some("'"), String::new(), vec![], None, Some(vec![])) {
        RunDecision::ShowAgain(d) => {
            assert_eq!(d.command_error.as_deref(), Some("Unbalanced quote."));
            // The template has no command, so that none is shown.
            assert_eq!(d.command_line, None);
        }
        RunDecision::Run(_) => panic!("a quote is not closed"),
    }
    assert_eq!(field_class(true), "args-field args-field-error");
    assert_eq!(result_style(true), ("Job Created", "result-message result-success"));
    assert_eq!(result_style(false), ("Error", "result-message result-error"));
}

#[test]
fn the_page_of_a_template() {
    let passed = r#"<testsuite tests="1"></testsuite>"#;
    let live = |name: &str, start: i64, xml: &str| LiveJob {
        job: job(name, Some(start), Some(start + 1)),
        results_xml: some(xml),
        snapshot_status: some("matches_baseline"),
    };
    let old = vec![archived("old", "Failed")];
    let jobs = vec![live("a", 10, passed), live("b", 30, "<")];
    let page = page_rows(&jobs, "t1", "ci", &old, true, 2, &at(99)).unwrap();
    let names: Vec<&str> = page.rows.iter().map(|r| r.name.as_str()).collect();
    assert_eq!(names, vec!["b", "old"]);
    assert_eq!((page.has_more, page.next_limit), (true, Some(102)));
    assert_eq!(page.rows[0].test_results, None);
    let all = page_rows(&jobs, "t1", "ci", &old, true, 9, &at(99)).unwrap();
    assert_eq!(all.rows[2].test_results, Some(TestResultSummary { all_passed: true, failures: 0 }));
    assert_eq!(page_rows(&jobs, "t2", "ci", &old, true, 9, &at(99)).unwrap().rows.len(), 1);
    let huge = r#"<testsuite failures="4294967295" errors="1"/>"#;
    assert!(page_rows(&vec![live("c", 1, huge)], "t1", "ci", &old, true, 9, &at(99)).is_none());
    // Results count only for acceptance tests.
    assert!(page_rows(&vec![live("c", 1, huge)], "t1", "ci", &old, false, 9, &at(99)).is_some());
}

#[test]
fn the_row_of_a_template() {
    let mut t = template(Json::Null, Some("daily"));
    t.spec.acceptance_test = Some(true);
    let jobs = vec![with_verdict(job("a", Some(30), Some(31)), "Complete")];
    let run = AcceptanceRun {
        status: "Succeeded".to_string(),
        junit_xml: None,
        snapshot_status: None,
        start_time: "1".to_string(),
    };
    let row = list_row(&t, &jobs, &None, &Some(run), &None);
    assert_eq!(row.at_status, Some(false));
    assert_eq!(row.last_run.as_ref().unwrap().status, "Succeeded");
    let cells = template_cells(&row);
    assert!(cells.has_schedule);
    assert_eq!(cells.last_run, Some(pair("badge badge-success", "Succeeded")));
}

#[test]
fn sections_of_the_page() {
    let mut output = JobOutput::empty();
    output.test_results_xml = some(r#"<testsuite tests="2" failures="1"></testsuite>"#);
    let s = output_sections(&output, &Some(context(None, true)), "ci", "j").unwrap();
    assert!(s.parts.tests && !s.parts.raw_results);
    assert_eq!((s.summary.total, s.summary.failed), (6, 4));
    assert_eq!((s.suites.unwrap().suites.len(), s.rows.len()), (1, 4));
    output.test_results_xml = some("<");
    let s = output_sections(&output, &None, "ci", "j").unwrap();
    assert!(s.parts.raw_results && s.suites.is_none() && s.rows.is_empty());
    let huge = parse_junit_xml(r#"<testsuite failures="4294967295" errors="1"/>"#);
    assert!(sections_for(&output, huge, &None, "ci", "j").is_none());
}

#[test]
fn snapshots_of_an_archived_job() {
    let baseline = files(&[("a", "1")]);
    let current = files(&[("a", "2"), ("b", "1")]);
    let diff = compare(&baseline, &current);
    let mut j = archived("j", "Succeeded");
    j.snapshot_baseline_id = Some(6);
    let c = archived_snapshot_context(&j, &diff, &baseline, &Some(current), true);
    assert_eq!(c.file_views.len(), 2);
    assert_eq!((c.baseline_id, c.is_latest_run, c.jt_name.as_str()), (Some(6), true, "nightly"));
    let c = archived_snapshot_context(&j, &diff, &baseline, &None, false);
    assert!(c.file_views.is_empty());
    assert_eq!(c.snapshot_status, some("matches_baseline"));
}

use jobfather::calendar;
use jobfather::db::archived_job::{ArchivedJob, ArchivedJobEgg};
use jobfather::json::Json;
use jobfather::kubernetes::events::{
    collect_events, event_to_info, job_event_selector, join_logs, pod_event_selector, pod_selector,
    ClusterEvent,
};
use jobfather::kubernetes::job::{
    Job, JobCondition, JobStatus, ObjectMeta, OwnerReference, Verdict,
};
use jobfather::kubernetes::job_create::{
    build_job, build_job_with, build_result, is_buildable, is_job_of, pod_spec_for, JobOverrides,
};
use jobfather::kubernetes::job_output::JobOutput;
use jobfather::kubernetes::job_template::{JobTemplate, JobTemplateSpec};
use jobfather::kubernetes::reconciler::{
    archived_egg, baseline_id, checked_parse_duration, inspect, job_status_string, parse_duration,
    record_once, step, Action, Inspection, Outcome, RecordedJobs, SnapshotRecord, State,
};
use jobfather::sorted_map::SortedMap;
use jobfather::time::Timestamp;

fn at(secs: i64) -> Timestamp {
    Timestamp::new(secs, 0).unwrap()
}

fn some(s: &str) -> Option<String> {
    Some(s.to_string())
}

fn meta(name: &str) -> ObjectMeta {
    ObjectMeta {
        name: some(name),
        generate_name: None,
        namespace: some("ci"),
        uid: some("uid-1"),
        creation_timestamp: None,
        annotations: None,
        owner_references: None,
    }
}

fn owner(kind: &str, name: &str, uid: &str) -> OwnerReference {
    OwnerReference {
        api_version: "v1".to_string(),
        kind: kind.to_string(),
        name: name.to_string(),
        uid: uid.to_string(),
        controller: None,
        block_owner_deletion: None,
    }
}

fn condition(kind: &str, status: &str, when: Option<i64>) -> JobCondition {
    JobCondition {
        type_: kind.to_string(),
        status: status.to_string(),
        last_transition_time: when.map(at),
    }
}

fn status(start: Option<i64>, end: Option<i64>, conditions: Vec<JobCondition>) -> JobStatus {
    JobStatus {
        start_time: start.map(at),
        completion_time: end.map(at),
        conditions: Some(conditions),
        active: None,
        ready: None,
        succeeded: None,
        failed: None,
    }
}

fn job(status: Option<JobStatus>) -> Job {
    let mut metadata = meta("nightly-1");
    metadata.owner_references = Some(vec![
        owner("Other", "x", "o"),
        owner("JobTemplate", "nightly", "t1"),
    ]);
    Job { metadata, spec: None, status }
}

#[test]
fn durations() {
    assert_eq!(parse_duration("30m"), 1800);
    assert_eq!(parse_duration("1h30m"), 5400);
    assert_eq!(parse_duration("2d12h"), 216000);
    assert_eq!(parse_duration("7d"), 604800);
    assert_eq!(parse_duration("45s"), 45);
    assert_eq!(parse_duration("1x5m"), 300);
    // What says nothing stands for half an hour.
    assert_eq!(parse_duration(""), 1800);
    assert_eq!(parse_duration("0d"), 1800);
    assert_eq!(parse_duration("90"), 1800);
    assert_eq!(parse_duration("soon"), 1800);
    assert_eq!(parse_duration("99999999999999999999m"), 1800);
}

#[test]
fn durations_that_are_too_long() {
    assert_eq!(checked_parse_duration("1h"), Some(3600));
    assert_eq!(checked_parse_duration("9223372036854775807d"), None);
}

#[test]
fn verdicts() {
    assert_eq!(job(None).verdict(), None);
    let done = job(Some(status(None, None, vec![condition("Complete", "True", None)])));
    assert_eq!(done.verdict(), Some(Verdict::Succeeded));
    assert_eq!(job_status_string(&done), "Succeeded");
    let failed = job(Some(status(
        None,
        None,
        vec![condition("Complete", "False", None), condition("Failed", "True", Some(9))],
    )));
    assert_eq!(failed.verdict(), Some(Verdict::Failed));
    assert_eq!(job_status_string(&failed), "Failed");
    assert_eq!(failed.terminal_time(), Some(at(9)));
    assert!(failed.is_terminal());
    let running = job(Some(status(Some(1), None, vec![])));
    assert_eq!(job_status_string(&running), "Unknown");
    assert!(!running.is_terminal());
}

#[test]
fn the_end_of_a_failed_job_may_be_unknown() {
    let failed = job(Some(status(Some(1), None, vec![condition("Failed", "True", None)])));
    assert!(failed.is_terminal());
    assert_eq!(failed.terminal_time(), None);
    assert!(matches!(inspect(&failed), Inspection::Leave(Action::Requeue { secs: 30, nanos: 0 })));
}

#[test]
fn jobs_without_a_template_are_left_alone() {
    let mut j = job(Some(status(Some(1), Some(5), vec![])));
    j.metadata.owner_references = Some(vec![owner("Other", "x", "o")]);
    assert!(matches!(inspect(&j), Inspection::Leave(Action::AwaitChange)));
}

#[test]
fn ended_jobs_are_inspected() {
    let j = job(Some(status(Some(10), Some(75), vec![condition("Complete", "True", None)])));
    match inspect(&j) {
        Inspection::Ended(e) => {
            assert_eq!((e.namespace.as_str(), e.name.as_str()), ("ci", "nightly-1"));
            assert_eq!((e.uid.as_str(), e.template_name.as_str()), ("uid-1", "nightly"));
            assert_eq!(e.status, "Succeeded");
            assert_eq!(e.duration_seconds, Some(65));
            assert_eq!(e.completion_time, at(75));
        }
        Inspection::Leave(_) => panic!("the job has ended"),
    }
}

#[test]
fn a_job_stays_until_it_is_due() {
    let end = at(1000);
    let found = |now: Timestamp| Outcome::TemplateFound { cleanup_secs: 60, now };
    assert_eq!(
        step(State::AwaitTemplate, found(at(1010)), &end),
        State::Finished(Action::Requeue { secs: 50, nanos: 0 })
    );
    let early = Timestamp::new(1059, 250_000_000).unwrap();
    assert_eq!(
        step(State::AwaitTemplate, found(early), &end),
        State::Finished(Action::Requeue { secs: 0, nanos: 750_000_000 })
    );
    assert_eq!(step(State::AwaitTemplate, found(at(1060)), &end), State::AwaitArchive);
}

#[test]
fn a_job_is_archived_and_then_deleted() {
    let end = at(1000);
    let again = State::Finished(Action::Requeue { secs: 30, nanos: 0 });
    assert_eq!(step(State::AwaitArchive, Outcome::Archived(true), &end), State::AwaitDelete);
    assert_eq!(step(State::AwaitArchive, Outcome::Archived(false), &end), again);
    assert_eq!(
        step(State::AwaitDelete, Outcome::Deleted(true), &end),
        State::Finished(Action::AwaitChange)
    );
    assert_eq!(step(State::AwaitDelete, Outcome::Deleted(false), &end), again);
    // Nothing is deleted that is not archived.
    assert_eq!(step(State::AwaitArchive, Outcome::Deleted(true), &end), State::AwaitArchive);
}

#[test]
fn templates_that_cannot_be_fetched() {
    let end = at(1000);
    assert_eq!(
        step(State::AwaitTemplate, Outcome::TemplateGone, &end),
        State::Finished(Action::Requeue { secs: 60, nanos: 0 })
    );
    assert_eq!(
        step(State::AwaitTemplate, Outcome::TemplateUnavailable, &end),
        State::Finished(Action::Requeue { secs: 30, nanos: 0 })
    );
}

#[test]
fn ends_are_recorded_once() {
    let r = RecordedJobs::new();
    assert_eq!(r.len(), 0);
    let r = r.insert("a".to_string()).insert("b".to_string()).insert("a".to_string());
    assert_eq!(r.len(), 2);
    assert!(r.contains("a"));
    let r = r.remove("a").remove("c");
    assert_eq!(r.len(), 1);
    assert!(!r.contains("a") && r.contains("b"));
    let (r, counted) = record_once(r, "a".to_string());
    assert!(counted && r.len() == 2);
    let (r, counted) = record_once(r, "a".to_string());
    assert!(!counted && r.len() == 2);
}

#[test]
fn recorded_baselines() {
    assert_eq!(baseline_id(&some("17")), Some(17));
    assert_eq!(baseline_id(&some("x")), None);
    assert_eq!(baseline_id(&None), None);
}

fn egg_of(output: JobOutput) -> ArchivedJobEgg {
    let mut j = job(Some(status(Some(10), Some(75), vec![condition("Complete", "True", None)])));
    j.metadata.annotations =
        Some(SortedMap::new().insert("artifactSha".to_string(), "abc".to_string()));
    let ended = match inspect(&j) {
        Inspection::Ended(e) => e,
        Inspection::Leave(_) => panic!("the job has ended"),
    };
    let snapshots = SnapshotRecord {
        status: some("matches_baseline"),
        diff_json: some("{}"),
        baseline_id: some("4"),
    };
    archived_egg(&j, &ended, some("logs"), some("[]"), output, snapshots)
}

#[test]
fn what_is_archived() {
    let output = JobOutput::load(vec![
        ("result.json".to_string(), b"{}".to_vec()),
        ("_snapshot_status".to_string(), b"x".to_vec()),
        ("archive.tar.gz".to_string(), vec![1, 2]),
        ("report.md".to_string(), vec![0xff]),
    ]);
    let egg = egg_of(output);
    assert_eq!(egg.name, "nightly-1");
    assert_eq!(egg.job_template_name, "nightly");
    assert_eq!(egg.job_template_namespace, "ci");
    assert_eq!(egg.start_time, some("1970-01-01T00:00:10+00:00"));
    assert_eq!(egg.completion_time, some("1970-01-01T00:01:15+00:00"));
    assert_eq!(egg.duration_seconds, Some(65));
    assert_eq!(egg.output_result_json, some("{}"));
    assert_eq!(egg.output_report_md, None);
    assert_eq!(egg.output_archive, Some(vec![1, 2]));
    assert_eq!(egg.artifact_sha, some("abc"));
    assert_eq!(egg.config_sha, None);
    assert_eq!(egg.snapshot_baseline_id, Some(4));
}

#[test]
fn an_archived_job_is_written_again() {
    let first = egg_of(JobOutput::empty());
    let row = ArchivedJob::inserted(&first, 7, "now".to_string());
    assert_eq!((row.id, row.archived_at.as_str()), (7, "now"));
    assert_eq!(row.snapshot_status, some("matches_baseline"));

    let row = row.with_snapshot_status("accepted_as_baseline");
    assert_eq!(row.snapshot_status, some("accepted_as_baseline"));

    let mut second = egg_of(JobOutput::empty());
    second.status = "Failed".to_string();
    second.name = "other".to_string();
    second.start_time = None;
    second.snapshot_status = some("differs_from_baseline");
    second.snapshot_diff_json = some("new");
    second.snapshot_baseline_id = Some(9);
    let row = row.updated(&second);
    assert_eq!(row.status, "Failed");
    assert_eq!(row.name, "nightly-1");
    assert_eq!(row.start_time, some("1970-01-01T00:00:10+00:00"));
    // What was accepted stays accepted.
    assert_eq!(row.snapshot_status, some("accepted_as_baseline"));
    assert_eq!(row.snapshot_diff_json, some("{}"));
    assert_eq!(row.snapshot_baseline_id, Some(4));
}

#[test]
fn an_archived_job_that_was_not_accepted_takes_the_new_status() {
    let mut first = egg_of(JobOutput::empty());
    first.snapshot_baseline_id = None;
    let row = ArchivedJob::inserted(&first, 7, "now".to_string());
    let mut second = egg_of(JobOutput::empty());
    second.snapshot_status = some("differs_from_baseline");
    second.snapshot_baseline_id = Some(9);
    let row = row.updated(&second);
    assert_eq!(row.snapshot_status, some("differs_from_baseline"));
    assert_eq!(row.snapshot_baseline_id, Some(9));
}

fn text(s: &str) -> Json {
    Json::text(s)
}

fn container() -> Json {
    Json::object()
        .set("name", text("main"))
        .set("image", text("alpine"))
        .set("args", Json::array(vec![text("-x")]))
        .set(
            "env",
            Json::array(vec![
                Json::object().set("name", text("PLAIN")).set("value", text("1")),
                Json::object().set("name", text("SECRET")).set(
                    "valueFrom",
                    Json::object().set(
                        "secretKeyRef",
                        Json::object().set("name", text("s")).set("key", text("k")),
                    ),
                ),
            ]),
        )
}

fn template(pod: Json) -> JobTemplate {
    let mut metadata = meta("nightly");
    metadata.uid = some("t1");
    metadata.annotations = Some(
        SortedMap::new()
            .insert("artifactSha".to_string(), "abc".to_string())
            .insert("note".to_string(), "n".to_string()),
    );
    JobTemplate {
        metadata,
        spec: JobTemplateSpec {
            schedule: None,
            acceptance_test: Some(true),
            cleanup_after: some("1h"),
            spec: pod,
        },
        status: None,
    }
}

fn pod() -> Json {
    Json::object().set("containers", Json::array(vec![container()]))
}

fn pod_of(job: &Job) -> &Json {
    &job.spec.as_ref().unwrap().pod_spec
}

fn first<'a>(pod: &'a Json, list: &str) -> &'a Json {
    &pod.get_array(list).unwrap()[0]
}

#[test]
fn a_job_is_made_from_a_template() {
    // 2026-03-07 02:02:00 UTC
    let job = build_job(&template(pod()), None, None, "", &at(1_772_848_920)).unwrap();
    assert_eq!(job.metadata.name, some("nightly-20260307-020200"));
    assert_eq!(job.metadata.namespace, some("ci"));
    let annotations = job.metadata.annotations.as_ref().unwrap();
    assert_eq!(annotations.len(), 1);
    assert_eq!(annotations.get("artifactSha"), Some(&"abc".to_string()));
    let owner = &job.metadata.owner_references.as_ref().unwrap()[0];
    assert_eq!(owner.api_version, "jobfather.coolkev.com/v1");
    assert_eq!((owner.kind.as_str(), owner.name.as_str(), owner.uid.as_str()), ("JobTemplate", "nightly", "t1"));
    assert_eq!((owner.controller, owner.block_owner_deletion), (Some(true), Some(true)));
    let spec = job.spec.as_ref().unwrap();
    assert_eq!(spec.backoff_limit, Some(0));
    assert_eq!(spec.pod_spec.get_text("restartPolicy"), Some(&"Never".to_string()));
    assert!(!spec.pod_spec.has("initContainers"));
    assert_eq!(first(&spec.pod_spec, "volumes").get_text("name"), Some(&"job-output".to_string()));
    let c = first(&spec.pod_spec, "containers");
    assert_eq!(first(c, "volumeMounts").get_text("mountPath"), Some(&"/job-output".to_string()));
    assert!(matches!(first(c, "args"), Json::Text(t) if t == "-x"));
    assert_eq!(c.get_array("env").unwrap().len(), 2);
}

#[test]
fn names_sort_by_age() {
    let name = |secs: i64| {
        build_job(&template(pod()), None, None, "", &at(secs)).unwrap().metadata.name.unwrap()
    };
    // Across a second, a minute, an hour, a day, a month, a leap day and a year
    let moments: [i64; 9] = [
        calendar::FIRST_SECOND,
        -1,
        0,
        59,
        60,
        3600,
        951_782_400,
        951_868_800,
        calendar::LAST_SECOND,
    ];
    for pair in moments.windows(2) {
        assert!(name(pair[0]) < name(pair[1]));
    }
    assert_eq!(name(calendar::FIRST_SECOND), "nightly-00000101-000000");
    assert_eq!(name(951_782_400), "nightly-20000229-000000");
    assert_eq!(name(calendar::LAST_SECOND), "nightly-99991231-235959");
    let leap = Timestamp::new(59, 1_000_000_000).unwrap();
    assert_eq!(
        build_job(&template(pod()), None, None, "", &leap).unwrap().metadata.name,
        some("nightly-19700101-000060")
    );
    assert!(moments.iter().all(|t| is_job_of(&name(*t), "nightly")));
    assert!(!is_job_of(&name(calendar::LAST_SECOND + 1), "nightly"));
}

#[test]
fn the_sidecar_comes_with_an_address() {
    let job = build_job(&template(pod()), None, None, "http://jobfather//", &at(0)).unwrap();
    let sidecar = first(pod_of(&job), "initContainers");
    assert_eq!(sidecar.get_text("name"), Some(&"job-output-sidecar".to_string()));
    assert_eq!(sidecar.get_text("restartPolicy"), Some(&"Always".to_string()));
    let env = sidecar.get_array("env").unwrap();
    assert_eq!(env[0].get_text("value"), Some(&"http://jobfather".to_string()));
    assert_eq!(env[1].get_text("value"), Some(&"ci".to_string()));
}

#[test]
fn words_and_variables_are_replaced() {
    let over = JobOverrides {
        command: Some(vec!["run".to_string()]),
        args: Some(vec![]),
        env: Some(vec![("A".to_string(), "2".to_string())]),
    };
    let job = build_job_with(&template(pod()), &over, "", &at(0)).unwrap();
    let c = first(pod_of(&job), "containers");
    assert!(matches!(first(c, "command"), Json::Text(t) if t == "run"));
    // The template has arguments, so that none replace them.
    assert_eq!(c.get_array("args").unwrap().len(), 0);
    // What takes its value from elsewhere is carried over, plain values are replaced.
    let env = c.get_array("env").unwrap();
    assert_eq!(env.len(), 2);
    assert_eq!(env[0].get_text("name"), Some(&"SECRET".to_string()));
    assert_eq!(env[1].get_text("name"), Some(&"A".to_string()));
    assert_eq!(env[1].get_text("value"), Some(&"2".to_string()));
}

#[test]
fn no_arguments_are_set_where_there_are_none() {
    let bare = Json::object().set("name", text("main"));
    let t = template(Json::object().set("containers", Json::array(vec![bare])));
    let job = build_job(&t, Some(vec![]), None, "", &at(0)).unwrap();
    assert!(!first(pod_of(&job), "containers").has("args"));
    let job = build_job(&t, Some(vec!["a".to_string()]), None, "", &at(0)).unwrap();
    assert!(first(pod_of(&job), "containers").has("args"));
}

#[test]
fn pod_specs_are_checked() {
    let t = template(Json::object().set("containers", text("none")));
    assert!(is_buildable(&t));
    let error = build_job(&t, None, None, "", &at(0)).unwrap_err();
    assert!(error.starts_with("Invalid pod spec: "), "{}", error);
    let nameless = Json::object().set("image", Json::Bool(true));
    let t = template(Json::object().set("containers", Json::array(vec![nameless])));
    assert!(build_job(&t, None, None, "", &at(0)).is_err());
    let c = container().set("terminationMessagePath", Json::Null).set("tty", Json::Bool(true));
    let numbered = Json::object()
        .set("containers", Json::array(vec![c]))
        .set("priority", Json::Number("5".to_string()));
    assert!(build_job(&template(numbered), None, None, "", &at(0)).is_ok());
    let wrong = Json::object()
        .set("containers", Json::array(vec![container()]))
        .set("priority", text("5"));
    assert!(build_job(&template(wrong), None, None, "", &at(0)).is_err());
}

#[test]
fn what_is_no_object_cannot_be_built() {
    assert!(!is_buildable(&template(text("pod"))));
    assert!(!is_buildable(&template(Json::object().set("containers", Json::array(vec![text("c")])))));
    assert!(is_buildable(&template(Json::Null)));
    let over = JobOverrides { command: None, args: None, env: None };
    let made = pod_spec_for(&template(Json::Null), &over, "");
    assert!(made.has("volumes") && made.has("restartPolicy"));
}

#[test]
fn a_given_error_is_passed_on() {
    let t = template(pod());
    let r = build_result(&t, pod(), some("missing field"), &at(0));
    assert_eq!(r.unwrap_err(), "Invalid pod spec: missing field");
    assert!(build_result(&t, pod(), None, &at(0)).is_ok());
}

fn cluster_event(last: Option<i64>, event: Option<i64>) -> ClusterEvent {
    ClusterEvent {
        type_: some("Normal"),
        reason: None,
        message: some("m"),
        last_timestamp: last.map(at),
        event_time: event.map(at),
        source: None,
        count: Some(3),
    }
}

#[test]
fn events() {
    let info = event_to_info(&cluster_event(Some(61), Some(0)));
    assert_eq!(info.timestamp, "1970-01-01 00:01:01");
    assert_eq!((info.type_.as_str(), info.reason.as_str(), info.source.as_str()), ("Normal", "", "unknown"));
    assert_eq!(info.count, Some(3));
    assert_eq!(event_to_info(&cluster_event(None, Some(5))).timestamp, "1970-01-01 00:00:05");
    assert_eq!(event_to_info(&cluster_event(None, None)).timestamp, "");
    let sorted = collect_events(&vec![cluster_event(Some(9), None), cluster_event(Some(2), None)]);
    assert_eq!(sorted[0].timestamp, "1970-01-01 00:00:02");
    assert_eq!(sorted[1].timestamp, "1970-01-01 00:00:09");
}

#[test]
fn selectors() {
    assert_eq!(
        job_event_selector("j", "u"),
        "involvedObject.kind=Job,involvedObject.name=j,involvedObject.uid=u"
    );
    assert_eq!(pod_event_selector("p"), "involvedObject.kind=Pod,involvedObject.name=p");
    assert_eq!(pod_selector("j"), "job-name=j");
}

#[test]
fn logs_of_pods() {
    assert_eq!(join_logs(&vec![]), None);
    assert_eq!(join_logs(&vec![("p".to_string(), None)]), None);
    assert_eq!(join_logs(&vec![("p".to_string(), some("a"))]), some("a"));
    assert_eq!(
        join_logs(&vec![("p".to_string(), some("a")), ("q".to_string(), None), ("r".to_string(), some("b"))]),
        some("=== Pod: p ===\na\n=== Pod: r ===\nb")
    );
}

#[test]
fn names_and_owners() {
    let j = job(None);
    assert!(j.metadata.owned_by("t1") && j.metadata.owned_by("o") && !j.metadata.owned_by("x"));
    assert_eq!(j.template_owner().unwrap().name, "nightly");
    let mut m = meta("a");
    assert_eq!(m.name_any(), "a");
    m.name = None;
    assert_eq!(m.name_any(), "");
    m.generate_name = some("g-");
    assert_eq!(m.name_any(), "g-");
}

use jobfather::db::archived_job::ArchivedJob;
use jobfather::json::Json;
use jobfather::kubernetes::job::{Job, JobCondition, JobStatus, ObjectMeta, OwnerReference};
use jobfather::kubernetes::job_template::{JobTemplate, JobTemplateSpec};
use jobfather::snapshot::{compare, Files};
use jobfather::sorted_map::SortedMap;
use jobfather::time::Timestamp;
use jobfather::web::api::{
    answer_for, archived_job_to_api, baseline_source, created_reply, error_reply, get_job,
    get_job_logs, can_read_output, get_job_output, get_test_results, get_test_results_xml, job_status, json_diffs,
    jt_to_api, junit_to_api, list_jobs_for_template, live_job_to_api, output_content_type,
    tail_lines, BaselineSource, TestResultsAnswer,
};
use jobfather::web::job_output_api::{holds_snapshots, refusal, snapshot_records};
use jobfather::web::junit::{parse_junit_xml, TestSuite, TestSuites};
use jobfather::web::mcp::{
    get_ns_name, handle, server_info, tool_call, tool_definitions, tool_reply, McpAction, ToolCall,
};

fn at(secs: i64) -> Timestamp {
    Timestamp::new(secs, 0).unwrap()
}

fn some(s: &str) -> Option<String> {
    Some(s.to_string())
}

fn meta(name: &str) -> ObjectMeta {
    ObjectMeta {
        name: some(name),
        generate_name: None,
        namespace: some("ci"),
        uid: some("u"),
        creation_timestamp: None,
        annotations: Some(SortedMap::new().insert("artifactSha".to_string(), "abc".to_string())),
        owner_references: None,
    }
}

fn job(name: &str, start: Option<i64>, end: Option<i64>) -> Job {
    let mut metadata = meta(name);
    metadata.owner_references = Some(vec![OwnerReference {
        api_version: String::new(),
        kind: "JobTemplate".to_string(),
        name: "nightly".to_string(),
        uid: "t1".to_string(),
        controller: None,
        block_owner_deletion: None,
    }]);
    Job {
        metadata,
        spec: None,
        status: Some(JobStatus {
            start_time: start.map(at),
            completion_time: end.map(at),
            conditions: None,
            active: Some(1),
            ready: Some(1),
            succeeded: None,
            failed: None,
        }),
    }
}

fn archived(name: &str, start: Option<&str>) -> ArchivedJob {
    ArchivedJob {
        id: 1,
        name: name.to_string(),
        namespace: "ci".to_string(),
        job_template_name: "nightly".to_string(),
        job_template_namespace: "ci".to_string(),
        uid: "u".to_string(),
        status: "Succeeded".to_string(),
        start_time: start.map(|s| s.to_string()),
        completion_time: None,
        duration_seconds: Some(5),
        logs: some("1\n2\n3\n"),
        archived_at: "now".to_string(),
        output_result_json: some("{}"),
        output_report_md: None,
        output_test_results_xml: some("<x/>"),
        output_archive: None,
        output_test_snapshots: None,
        events_json: None,
        snapshot_status: some("matches_baseline"),
        snapshot_diff_json: None,
        artifact_sha: None,
        config_sha: None,
        snapshot_baseline_id: None,
    }
}

#[test]
fn templates_in_the_api() {
    let t = JobTemplate {
        metadata: meta("nightly"),
        spec: JobTemplateSpec {
            schedule: some("daily"),
            acceptance_test: Some(true),
            cleanup_after: None,
            spec: Json::Null,
        },
        status: None,
    };
    let a = jt_to_api(&t);
    assert_eq!((a.name.as_str(), a.namespace.as_str(), a.cleanup_after.as_str()), ("nightly", "ci", "30m"));
    assert_eq!((a.schedule, a.acceptance_test), (some("daily"), true));
    assert_eq!((a.artifact_sha, a.config_sha), (some("abc"), None));
}

#[test]
fn live_jobs_in_the_api() {
    let a = live_job_to_api(&job("a", Some(10), None), &at(25));
    assert_eq!((a.source.as_str(), a.status.as_str()), ("live", "Running"));
    assert_eq!(a.duration_seconds, Some(15));
    assert_eq!((a.job_template_name, a.job_template_namespace), (some("nightly"), some("ci")));
    assert_eq!(a.start_time, some("1970-01-01T00:00:10+00:00"));
    assert_eq!(a.completion_time, None);
    let a = live_job_to_api(&job("a", Some(10), Some(12)), &at(25));
    assert_eq!(a.duration_seconds, Some(2));
    assert_eq!(live_job_to_api(&job("a", None, None), &at(25)).duration_seconds, None);
}

#[test]
fn states_of_jobs() {
    let mut j = job("a", None, None);
    assert_eq!(job_status(&j), "Running");
    j.status.as_mut().unwrap().ready = Some(0);
    assert_eq!(job_status(&j), "Pending");
    j.status.as_mut().unwrap().conditions = Some(vec![JobCondition {
        type_: "Failed".to_string(),
        status: "True".to_string(),
        last_transition_time: None,
    }]);
    assert_eq!(job_status(&j), "Failed");
    j.status = None;
    assert_eq!(job_status(&j), "Pending");
}

#[test]
fn jobs_of_a_template_newest_first() {
    let live = vec![
        (job("a", Some(10), Some(12)), some("differs_from_baseline")),
        (job("b", Some(30), None), some("ignored")),
        (job("c", None, None), None),
    ];
    let old = vec![archived("z", Some("1970-01-01T00:00:20+00:00"))];
    let list = list_jobs_for_template(&live, &some("t1"), &old, &at(50));
    let names: Vec<&str> = list.iter().map(|j| j.name.as_str()).collect();
    assert_eq!(names, vec!["b", "z", "a", "c"]);
    // The snapshots of a job count once it has ended.
    assert_eq!(list[0].snapshot_status, None);
    assert_eq!(list[2].snapshot_status, some("differs_from_baseline"));
    assert_eq!(list_jobs_for_template(&live, &None, &old, &at(50)).len(), 1);
    assert_eq!(list_jobs_for_template(&live, &some("t2"), &old, &at(50)).len(), 1);
}

#[test]
fn one_job() {
    let live = Some((job("a", Some(10), Some(12)), some("matches_baseline")));
    let old = Some(archived("a", None));
    assert_eq!(get_job(&live, &old, &at(50)).unwrap().source, "live");
    assert_eq!(get_job(&None, &old, &at(50)).unwrap().source, "archived");
    assert!(get_job(&None, &None, &at(50)).is_none());
    assert_eq!(archived_job_to_api(&archived("z", None)).snapshot_status, some("matches_baseline"));
}

#[test]
fn logs() {
    let found = |live, old, tail| get_job_logs("n", "j", live, old, tail);
    assert_eq!(found(Some(some("live")), Some(some("old")), None), Ok("live".to_string()));
    assert_eq!(found(Some(None), Some(some("old")), None), Ok(String::new()));
    assert_eq!(found(None, Some(some("1\n2\n3\n")), Some(2)), Ok("2\n3".to_string()));
    assert_eq!(found(None, Some(None), Some(2)), Ok(String::new()));
    assert_eq!(found(None, None, None), Err("Job n/j not found".to_string()));
    assert_eq!(tail_lines("1\n2\n3\n", Some(9)), "1\n2\n3");
    assert_eq!(tail_lines("1\n2\n3\n", Some(0)), "1\n2\n3\n");
    assert_eq!(tail_lines("1\n2\n3\n", Some(-1)), "1\n2\n3\n");
    assert_eq!(tail_lines("1\n2\n3\n", None), "1\n2\n3\n");
}

#[test]
fn test_results() {
    let xml = r#"<testsuite name="s" tests="2" failures="1"><testcase name="a"><failure/></testcase></testsuite>"#;
    match get_test_results(Some(xml.as_bytes().to_vec()), None) {
        TestResultsAnswer::Found(r) => {
            assert_eq!((r.total_tests, r.total_failures, r.all_passed), (2, 1, false));
            assert_eq!(r.suites[0].cases[0].status, "failed");
        }
        _ => panic!("there are results"),
    }
    assert!(matches!(get_test_results(None, some("<")), TestResultsAnswer::Nothing));
    // What was uploaded counts, even where it cannot be read.
    assert_eq!(get_test_results_xml(Some(vec![0xff]), some("old")), None);
    assert_eq!(get_test_results_xml(Some(b"new".to_vec()), some("old")), some("new"));
    assert_eq!(get_test_results_xml(None, some("old")), some("old"));
    let suite = || TestSuite { tests: u32::MAX, ..TestSuite::default() };
    let huge = TestSuites { suites: vec![suite(), suite()] };
    assert!(matches!(answer_for(Some(huge)), TestResultsAnswer::Uncountable));
    assert!(matches!(answer_for(None), TestResultsAnswer::Nothing));
    assert!(junit_to_api(&parse_junit_xml("<testsuite/><testsuite></testsuite>").unwrap()).all_passed);
}

#[test]
fn output_of_jobs() {
    assert!(can_read_output("result.json") && can_read_output("report.md"));
    assert!(!can_read_output("archive.tar.gz"));
    assert_eq!(
        get_job_output("archive.tar.gz", None, None),
        Err("Only result.json and report.md are available".to_string())
    );
    assert_eq!(get_job_output("report.md", Some(b"r".to_vec()), None), Ok("r".to_string()));
    let old = || Some(archived("a", None));
    assert_eq!(get_job_output("result.json", Some(vec![0xff]), old()), Ok("{}".to_string()));
    assert_eq!(get_job_output("report.md", None, old()), Err("Output not found".to_string()));
    assert_eq!(output_content_type("result.json"), "application/json");
    assert_eq!(output_content_type("report.md"), "text/plain");
}

#[test]
fn baselines_of_a_diff() {
    assert_eq!(baseline_source(&None, &None), BaselineSource::Nothing);
    assert_eq!(baseline_source(&None, &some("3")), BaselineSource::Recorded(3));
    assert_eq!(baseline_source(&Some(archived("a", None)), &None), BaselineSource::Latest);
    let mut a = archived("a", None);
    a.snapshot_baseline_id = Some(8);
    assert_eq!(baseline_source(&Some(a), &some("3")), BaselineSource::Recorded(8));
}

#[test]
fn diffs_of_json_files() {
    let of = |entries: &[(&str, &str)]| {
        let mut m: Files = SortedMap::new();
        for (k, v) in entries {
            m = m.insert(k.to_string(), v.as_bytes().to_vec());
        }
        m
    };
    let baseline = of(&[("a.json", "1"), ("b.txt", "1"), ("c.json", "{")]);
    let current = of(&[("a.json", "2"), ("b.txt", "2"), ("c.json", "}"), ("d.json", "1")]);
    let diffs = json_diffs(&compare(&baseline, &current), &baseline, &current);
    assert_eq!(diffs.len(), 1);
    assert_eq!(diffs.get("a.json").unwrap().len(), 2);
}

#[test]
fn replies() {
    let r = created_reply("j", "n");
    assert_eq!((r.get_text("name"), r.get_text("namespace"), r.get_text("status")), (Some(&"j".to_string()), Some(&"n".to_string()), Some(&"created".to_string())));
    assert_eq!(error_reply("e").get_text("error"), Some(&"e".to_string()));
}

#[test]
fn uploads() {
    assert_eq!(refusal("result.json"), None);
    assert_eq!(refusal("_snapshot_status"), some("Invalid output file: _snapshot_status"));
    assert!(holds_snapshots("test-snapshots.tar.gz"));
    assert!(!holds_snapshots("archive.tar.gz"));
    assert_eq!(
        snapshot_records("matches_baseline", some("{}"), Some(5)),
        vec![
            ("_snapshot_status".to_string(), "matches_baseline".to_string()),
            ("_snapshot_diff_json".to_string(), "{}".to_string()),
            ("_snapshot_baseline_id".to_string(), "5".to_string()),
        ]
    );
    assert_eq!(snapshot_records("s", None, None).len(), 1);
}

fn args() -> Json {
    Json::object().set("namespace", Json::text("n")).set("name", Json::text("j"))
}

#[test]
fn tools() {
    let defs = tool_definitions();
    assert_eq!(defs.len(), 10);
    assert_eq!(defs[0].get_text("name"), Some(&"list_job_templates".to_string()));
    assert_eq!(defs[9].get_text("name"), Some(&"run_job".to_string()));
    // Every tool that is offered is known.
    for d in &defs {
        let full = args().set("filename", Json::text("report.md"));
        assert!(tool_call(d.get_text("name").unwrap(), &full).is_ok());
    }
    assert!(matches!(tool_call("get_job", &args()), Ok(ToolCall::GetJob { namespace, name }) if namespace == "n" && name == "j"));
    assert_eq!(tool_call("nothing", &args()).unwrap_err(), "Unknown tool: nothing");
    assert_eq!(tool_call("get_job_output", &args()).unwrap_err(), "Missing 'filename' parameter");
    let tailed = args().set("tail_lines", Json::Number("7".to_string()));
    assert!(matches!(tool_call("get_job_logs", &tailed), Ok(ToolCall::GetJobLogs { tail_lines: Some(7), .. })));
}

#[test]
fn arguments_of_tools() {
    assert_eq!(get_ns_name(&args()), Ok(("n".to_string(), "j".to_string())));
    assert_eq!(get_ns_name(&Json::object()), Err("Missing 'namespace' parameter".to_string()));
    let half = Json::object().set("namespace", Json::text("n"));
    assert_eq!(get_ns_name(&half), Err("Missing 'name' parameter".to_string()));
    let run = args()
        .set("args", Json::array(vec![Json::text("a"), Json::text("b")]))
        .set("env", Json::object().set("K", Json::text("v")));
    match tool_call("run_job", &run) {
        Ok(ToolCall::RunJob { args, env, .. }) => {
            assert_eq!(args, Some(vec!["a".to_string(), "b".to_string()]));
            assert_eq!(env.unwrap().get("K"), Some(&"v".to_string()));
        }
        _ => panic!("the call is complete"),
    }
    // What is not of the right shape is passed over.
    let run = args().set("args", Json::array(vec![Json::Null])).set("env", Json::Null);
    assert!(matches!(tool_call("run_job", &run), Ok(ToolCall::RunJob { args: None, env: None, .. })));
}

fn request(method: &str) -> Json {
    Json::object().set("id", Json::Number("4".to_string())).set("method", Json::text(method))
}

fn reply(action: McpAction) -> Json {
    match action {
        McpAction::Reply(j) => j,
        _ => panic!("the request is answered at once"),
    }
}

#[test]
fn requests() {
    let r = reply(handle(&request("initialize")));
    assert_eq!(r.get("id").unwrap().as_i64(), Some(4));
    assert_eq!(r.get("result").unwrap().get_text("protocolVersion"), Some(&"2024-11-05".to_string()));
    assert_eq!(server_info().get("serverInfo").unwrap().get_text("name"), Some(&"jobfather".to_string()));
    let r = reply(handle(&request("tools/list")));
    assert_eq!(r.get("result").unwrap().get_array("tools").unwrap().len(), 10);
    assert!(matches!(handle(&request("notifications/initialized")), McpAction::NoContent));
    let r = reply(handle(&request("x")));
    let error = r.get("error").unwrap();
    assert_eq!(error.get("code").unwrap().as_i64(), Some(-32601));
    assert_eq!(error.get_text("message"), Some(&"Method not found: x".to_string()));
    let r = reply(handle(&Json::Null));
    assert!(matches!(r.get("id"), Some(Json::Null)));
}

#[test]
fn calls() {
    let call = request("tools/call")
        .set("params", Json::object().set("name", Json::text("list_jobs")).set("arguments", args()));
    match handle(&call) {
        McpAction::Call { id, call: ToolCall::ListJobs { namespace, name } } => {
            assert_eq!(id.as_i64(), Some(4));
            assert_eq!((namespace.as_str(), name.as_str()), ("n", "j"));
        }
        _ => panic!("a tool is called"),
    }
    let r = reply(handle(&request("tools/call")));
    let result = r.get("result").unwrap();
    assert!(matches!(result.get("isError"), Some(Json::Bool(true))));
    assert_eq!(result.get_array("content").unwrap()[0].get_text("text"), Some(&"Unknown tool: ".to_string()));
    let r = tool_reply(Json::Null, &Ok("done".to_string()));
    let result = r.get("result").unwrap();
    assert!(!result.has("isError"));
    assert_eq!(result.get_array("content").unwrap()[0].get_text("text"), Some(&"done".to_string()));
}

//! The tools that are offered over the Model Context Protocol, and the JSON-RPC
//! requests by which they are called.

use vstd::prelude::*;

use crate::dup::Dup;
use crate::json::{Json, JsonView};
use crate::kubernetes::job_create::{empty_object, texts, texts_spec};
use crate::sorted_map::SortedMap;
use crate::text;

verus! {

/// The schema of a value of the given type.
pub open spec fn type_spec(kind: Seq<char>) -> JsonView {
    empty_object().set("type"@, JsonView::Text(kind))
}

/// The schema of a parameter.
pub open spec fn property_spec(kind: Seq<char>, description: Seq<char>) -> JsonView {
    type_spec(kind).set("description"@, JsonView::Text(description))
}

/// The description of a tool: its name, what it does, its parameters, and which
/// of them it cannot do without.
pub open spec fn tool_spec(
    name: Seq<char>,
    description: Seq<char>,
    properties: JsonView,
    required: Seq<Seq<char>>,
) -> JsonView {
    empty_object().set("name"@, JsonView::Text(name)).set(
        "description"@,
        JsonView::Text(description),
    ).set(
        "inputSchema"@,
        type_spec("object"@).set("properties"@, properties).set("required"@, texts_spec(required)),
    )
}

/// The tool `list_job_templates`.
pub open spec fn list_job_templates_tool_spec() -> JsonView {
    tool_spec(
        "list_job_templates"@,
        "List all JobTemplates across all namespaces"@,
        empty_object(),
        Seq::empty(),
    )
}

/// The tool `get_job_template`.
pub open spec fn get_job_template_tool_spec() -> JsonView {
    tool_spec(
        "get_job_template"@,
        "Get details of a specific JobTemplate"@,
        empty_object().set("namespace"@, property_spec("string"@, "Kubernetes namespace"@)).set("name"@, property_spec("string"@, "JobTemplate name"@)),
        seq!["namespace"@, "name"@],
    )
}

/// The tool `list_jobs`.
pub open spec fn list_jobs_tool_spec() -> JsonView {
    tool_spec(
        "list_jobs"@,
        "List jobs for a JobTemplate (newest first, includes both live and archived)"@,
        empty_object().set("namespace"@, property_spec("string"@, "Kubernetes namespace"@)).set("name"@, property_spec("string"@, "JobTemplate name"@)),
        seq!["namespace"@, "name"@],
    )
}

/// The tool `get_job`.
pub open spec fn get_job_tool_spec() -> JsonView {
    tool_spec(
        "get_job"@,
        "Get details of a specific job"@,
        empty_object().set("namespace"@, property_spec("string"@, "Kubernetes namespace"@)).set("name"@, property_spec("string"@, "Job name"@)),
        seq!["namespace"@, "name"@],
    )
}

/// The tool `get_job_logs`.
pub open spec fn get_job_logs_tool_spec() -> JsonView {
    tool_spec(
        "get_job_logs"@,
        "Get container logs for a job"@,
        empty_object().set("namespace"@, property_spec("string"@, "Kubernetes namespace"@)).set("name"@, property_spec("string"@, "Job name"@)).set("tail_lines"@, property_spec("integer"@, "Number of lines from the end to return (optional)"@)),
        seq!["namespace"@, "name"@],
    )
}

/// The tool `get_job_events`.
pub open spec fn get_job_events_tool_spec() -> JsonView {
    tool_spec(
        "get_job_events"@,
        "Get Kubernetes events for a job"@,
        empty_object().set("namespace"@, property_spec("string"@, "Kubernetes namespace"@)).set("name"@, property_spec("string"@, "Job name"@)),
        seq!["namespace"@, "name"@],
    )
}

/// The tool `get_job_test_results`.
pub open spec fn get_job_test_results_tool_spec() -> JsonView {
    tool_spec(
        "get_job_test_results"@,
        "Get parsed JUnit test results for a job"@,
        empty_object().set("namespace"@, property_spec("string"@, "Kubernetes namespace"@)).set("name"@, property_spec("string"@, "Job name"@)),
        seq!["namespace"@, "name"@],
    )
}

/// The tool `get_job_output`.
pub open spec fn get_job_output_tool_spec() -> JsonView {
    tool_spec(
        "get_job_output"@,
        "Get job output file content (result.json or report.md)"@,
        empty_object().set("namespace"@, property_spec("string"@, "Kubernetes namespace"@)).set("name"@, property_spec("string"@, "Job name"@)).set("filename"@, property_spec("string"@, "Output filename: 'result.json' or 'report.md'"@).set(
                "enum"@,
                texts_spec(seq!["result.json"@, "report.md"@]),
            )),
        seq!["namespace"@, "name"@, "filename"@],
    )
}

/// The tool `get_snapshot_diff`.
pub open spec fn get_snapshot_diff_tool_spec() -> JsonView {
    tool_spec(
        "get_snapshot_diff"@,
        "Get snapshot comparison diff for a job"@,
        empty_object().set("namespace"@, property_spec("string"@, "Kubernetes namespace"@)).set("name"@, property_spec("string"@, "Job name"@)),
        seq!["namespace"@, "name"@],
    )
}

/// The tool `run_job`.
pub open spec fn run_job_tool_spec() -> JsonView {
    tool_spec(
        "run_job"@,
        "Trigger a new job from a JobTemplate"@,
        empty_object().set("namespace"@, property_spec("string"@, "Kubernetes namespace"@)).set("name"@, property_spec("string"@, "JobTemplate name"@)).set("args"@, property_spec("array"@, "Command arguments (optional)"@).set(
                "items"@,
                type_spec("string"@),
            )).set("env"@, property_spec("object"@, "Environment variables (optional)"@).set(
                "additionalProperties"@,
                type_spec("string"@),
            )),
        seq!["namespace"@, "name"@],
    )
}

/// The tools that are offered.
pub open spec fn tool_definitions_spec() -> Seq<JsonView> {
    seq![
        list_job_templates_tool_spec(),
        get_job_template_tool_spec(),
        list_jobs_tool_spec(),
        get_job_tool_spec(),
        get_job_logs_tool_spec(),
        get_job_events_tool_spec(),
        get_job_test_results_tool_spec(),
        get_job_output_tool_spec(),
        get_snapshot_diff_tool_spec(),
        run_job_tool_spec(),
    ]
}

fn type_of(kind: &str) -> (r: Json)
    ensures
        r.deep_view() == type_spec(kind@),
{
    Json::object().set("type", Json::text(kind))
}

fn property(kind: &str, description: &str) -> (r: Json)
    ensures
        r.deep_view() == property_spec(kind@, description@),
{
    type_of(kind).set("description", Json::text(description))
}

fn words0() -> (r: Vec<String>)
    ensures
        r.deep_view() == Seq::<Seq<char>>::empty(),
{
    let r: Vec<String> = Vec::new();
    assert(r.deep_view() =~= Seq::<Seq<char>>::empty());
    r
}

fn words2(a: &str, b: &str) -> (r: Vec<String>)
    ensures
        r.deep_view() == seq![a@, b@],
{
    let mut r: Vec<String> = Vec::new();
    r.push(a.to_owned());
    r.push(b.to_owned());
    assert(r.deep_view() =~= seq![a@, b@]);
    r
}

fn words3(a: &str, b: &str, c: &str) -> (r: Vec<String>)
    ensures
        r.deep_view() == seq![a@, b@, c@],
{
    let mut r = words2(a, b);
    let ghost before = r.deep_view();
    r.push(c.to_owned());
    assert(r.deep_view() =~= before.push(c@));
    assert(r.deep_view() =~= seq![a@, b@, c@]);
    r
}

fn tool(name: &str, description: &str, properties: Json, required: &Vec<String>) -> (r: Json)
    ensures
        r.deep_view() == tool_spec(
            name@,
            description@,
            properties.deep_view(),
            required.deep_view(),
        ),
{
    Json::object().set("name", Json::text(name)).set("description", Json::text(description)).set(
        "inputSchema",
        type_of("object").set("properties", properties).set("required", texts(required)),
    )
}

fn list_job_templates_tool() -> (r: Json)
    ensures
        r.deep_view() == list_job_templates_tool_spec(),
{
    tool(
        "list_job_templates",
        "List all JobTemplates across all namespaces",
        Json::object(),
        &words0(),
    )
}

fn get_job_template_tool() -> (r: Json)
    ensures
        r.deep_view() == get_job_template_tool_spec(),
{
    tool(
        "get_job_template",
        "Get details of a specific JobTemplate",
        Json::object().set("namespace", property("string", "Kubernetes namespace")).set("name", property("string", "JobTemplate name")),
        &words2("namespace", "name"),
    )
}

fn list_jobs_tool() -> (r: Json)
    ensures
        r.deep_view() == list_jobs_tool_spec(),
{
    tool(
        "list_jobs",
        "List jobs for a JobTemplate (newest first, includes both live and archived)",
        Json::object().set("namespace", property("string", "Kubernetes namespace")).set("name", property("string", "JobTemplate name")),
        &words2("namespace", "name"),
    )
}

fn get_job_tool() -> (r: Json)
    ensures
        r.deep_view() == get_job_tool_spec(),
{
    tool(
        "get_job",
        "Get details of a specific job",
        Json::object().set("namespace", property("string", "Kubernetes namespace")).set("name", property("string", "Job name")),
        &words2("namespace", "name"),
    )
}

fn get_job_logs_tool() -> (r: Json)
    ensures
        r.deep_view() == get_job_logs_tool_spec(),
{
    tool(
        "get_job_logs",
        "Get container logs for a job",
        Json::object().set("namespace", property("string", "Kubernetes namespace")).set("name", property("string", "Job name")).set("tail_lines", property("integer", "Number of lines from the end to return (optional)")),
        &words2("namespace", "name"),
    )
}

fn get_job_events_tool() -> (r: Json)
    ensures
        r.deep_view() == get_job_events_tool_spec(),
{
    tool(
        "get_job_events",
        "Get Kubernetes events for a job",
        Json::object().set("namespace", property("string", "Kubernetes namespace")).set("name", property("string", "Job name")),
        &words2("namespace", "name"),
    )
}

fn get_job_test_results_tool() -> (r: Json)
    ensures
        r.deep_view() == get_job_test_results_tool_spec(),
{
    tool(
        "get_job_test_results",
        "Get parsed JUnit test results for a job",
        Json::object().set("namespace", property("string", "Kubernetes namespace")).set("name", property("string", "Job name")),
        &words2("namespace", "name"),
    )
}

fn get_job_output_tool() -> (r: Json)
    ensures
        r.deep_view() == get_job_output_tool_spec(),
{
    tool(
        "get_job_output",
        "Get job output file content (result.json or report.md)",
        Json::object().set("namespace", property("string", "Kubernetes namespace")).set("name", property("string", "Job name")).set("filename", property("string", "Output filename: 'result.json' or 'report.md'").set(
                "enum",
                texts(&words2("result.json", "report.md")),
            )),
        &words3("namespace", "name", "filename"),
    )
}

fn get_snapshot_diff_tool() -> (r: Json)
    ensures
        r.deep_view() == get_snapshot_diff_tool_spec(),
{
    tool(
        "get_snapshot_diff",
        "Get snapshot comparison diff for a job",
        Json::object().set("namespace", property("string", "Kubernetes namespace")).set("name", property("string", "Job name")),
        &words2("namespace", "name"),
    )
}

fn run_job_tool() -> (r: Json)
    ensures
        r.deep_view() == run_job_tool_spec(),
{
    tool(
        "run_job",
        "Trigger a new job from a JobTemplate",
        Json::object().set("namespace", property("string", "Kubernetes namespace")).set("name", property("string", "JobTemplate name")).set("args", property("array", "Command arguments (optional)").set("items", type_of("string"))).set("env", property("object", "Environment variables (optional)").set(
                "additionalProperties",
                type_of("string"),
            )),
        &words2("namespace", "name"),
    )
}

/// The tools that are offered, each with its name, what it does and its parameters.
pub fn tool_definitions() -> (r: Vec<Json>)
    ensures
        r.deep_view() == tool_definitions_spec(),
{
    let mut tools: Vec<Json> = Vec::new();
    tools.push(list_job_templates_tool());
    tools.push(get_job_template_tool());
    tools.push(list_jobs_tool());
    tools.push(get_job_tool());
    tools.push(get_job_logs_tool());
    tools.push(get_job_events_tool());
    tools.push(get_job_test_results_tool());
    tools.push(get_job_output_tool());
    tools.push(get_snapshot_diff_tool());
    tools.push(run_job_tool());
    assert(tools.deep_view() =~= tool_definitions_spec());
    tools
}

/// A call of a tool, with its arguments.
#[derive(Debug)]
pub enum ToolCall {
    ListJobTemplates,
    GetJobTemplate { namespace: String, name: String },
    ListJobs { namespace: String, name: String },
    GetJob { namespace: String, name: String },
    GetJobLogs { namespace: String, name: String, tail_lines: Option<i64> },
    GetJobEvents { namespace: String, name: String },
    GetJobTestResults { namespace: String, name: String },
    GetJobOutput { namespace: String, name: String, filename: String },
    GetSnapshotDiff { namespace: String, name: String },
    RunJob {
        namespace: String,
        name: String,
        args: Option<Vec<String>>,
        env: Option<SortedMap<String>>,
    },
}

/// What a [`ToolCall`] holds.
#[verifier::ext_equal]
pub enum ToolCallView {
    ListJobTemplates,
    GetJobTemplate { namespace: Seq<char>, name: Seq<char> },
    ListJobs { namespace: Seq<char>, name: Seq<char> },
    GetJob { namespace: Seq<char>, name: Seq<char> },
    GetJobLogs { namespace: Seq<char>, name: Seq<char>, tail_lines: Option<int> },
    GetJobEvents { namespace: Seq<char>, name: Seq<char> },
    GetJobTestResults { namespace: Seq<char>, name: Seq<char> },
    GetJobOutput { namespace: Seq<char>, name: Seq<char>, filename: Seq<char> },
    GetSnapshotDiff { namespace: Seq<char>, name: Seq<char> },
    RunJob {
        namespace: Seq<char>,
        name: Seq<char>,
        args: Option<Seq<Seq<char>>>,
        env: Option<Map<Seq<char>, Seq<char>>>,
    },
}

impl DeepView for ToolCall {
    type V = ToolCallView;

    open spec fn deep_view(&self) -> ToolCallView {
        match self {
            ToolCall::ListJobTemplates => ToolCallView::ListJobTemplates,
            ToolCall::GetJobTemplate { namespace, name } => ToolCallView::GetJobTemplate {
                namespace: namespace@,
                name: name@,
            },
            ToolCall::ListJobs { namespace, name } => ToolCallView::ListJobs {
                namespace: namespace@,
                name: name@,
            },
            ToolCall::GetJob { namespace, name } => ToolCallView::GetJob {
                namespace: namespace@,
                name: name@,
            },
            ToolCall::GetJobLogs { namespace, name, tail_lines } => ToolCallView::GetJobLogs {
                namespace: namespace@,
                name: name@,
                tail_lines: match tail_lines {
                    Some(n) => Some(*n as int),
                    None => None,
                },
            },
            ToolCall::GetJobEvents { namespace, name } => ToolCallView::GetJobEvents {
                namespace: namespace@,
                name: name@,
            },
            ToolCall::GetJobTestResults { namespace, name } => ToolCallView::GetJobTestResults {
                namespace: namespace@,
                name: name@,
            },
            ToolCall::GetJobOutput { namespace, name, filename } => ToolCallView::GetJobOutput {
                namespace: namespace@,
                name: name@,
                filename: filename@,
            },
            ToolCall::GetSnapshotDiff { namespace, name } => ToolCallView::GetSnapshotDiff {
                namespace: namespace@,
                name: name@,
            },
            ToolCall::RunJob { namespace, name, args, env } => ToolCallView::RunJob {
                namespace: namespace@,
                name: name@,
                args: args.deep_view(),
                env: env.deep_view(),
            },
        }
    }
}

/// The texts of an array, where it holds texts only.
pub open spec fn text_array_spec(value: JsonView) -> Option<Seq<Seq<char>>> {
    match value {
        JsonView::Array(items) => if forall|i: int| 0 <= i < items.len() ==> (#[trigger] items[i]) is Text {
            Some(items.map_values(|v: JsonView| v->Text_0))
        } else {
            None
        },
        _ => None,
    }
}

/// The texts of an object, by key, where it holds texts only.
pub open spec fn text_object_spec(value: JsonView) -> Option<Map<Seq<char>, Seq<char>>> {
    match value {
        JsonView::Object(members) => if forall|k: Seq<char>|
            #[trigger] members.dom().contains(k) ==> members[k] is Text {
            Some(members.map_values(|v: JsonView| v->Text_0))
        } else {
            None
        },
        _ => None,
    }
}

fn text_array(value: &Json) -> (r: Option<Vec<String>>)
    ensures
        r.deep_view() == text_array_spec(value.deep_view()),
{
    match value {
        Json::Array(items) => {
            let ghost all = value.deep_view()->Array_0;
            proof {
                crate::json::lemma_array_view(items@);
            }
            let mut list: Vec<String> = Vec::new();
            for i in 0..items.len()
                invariant
                    all == crate::json::array_view(items@),
                    all.len() == items@.len(),
                    forall|j: int|
                        0 <= j < items@.len() ==> (#[trigger] all[j]) == items@[j].deep_view(),
                    list@.len() == i,
                    forall|j: int| 0 <= j < i ==> (#[trigger] all[j]) == JsonView::Text(list@[j]@),
                    value.deep_view() == JsonView::Array(all),
            {
                match &items[i] {
                    Json::Text(t) => {
                        assert(all[i as int] == items@[i as int].deep_view());
                        list.push(t.clone());
                    },
                    _ => {
                        assert(!(all[i as int] is Text));
                        return None;
                    },
                }
            }
            assert(list.deep_view() =~= all.map_values(|v: JsonView| v->Text_0));
            Some(list)
        },
        _ => None,
    }
}

proof fn lemma_entry_key(entries: Seq<(String, Json)>, i: int)
    requires
        0 <= i < entries.len(),
    ensures
        crate::json::object_view(entries).dom().contains(entries[i].0@),
    decreases entries.len(),
{
    if i < entries.len() - 1 {
        lemma_entry_key(entries.drop_last(), i);
    }
}

proof fn lemma_key_entry(entries: Seq<(String, Json)>, key: Seq<char>)
    requires
        crate::json::object_view(entries).dom().contains(key),
    ensures
        exists|i: int| 0 <= i < entries.len() && (#[trigger] entries[i]).0@ == key,
    decreases entries.len(),
{
    if entries.len() > 0 {
        if entries.last().0@ == key {
            assert(entries[entries.len() - 1].0@ == key);
        } else {
            let front = entries.drop_last();
            lemma_key_entry(front, key);
            let i = choose|i: int| 0 <= i < front.len() && (#[trigger] front[i]).0@ == key;
            assert(entries[i].0@ == key);
        }
    }
}

fn text_object(value: &Json) -> (r: Option<SortedMap<String>>)
    ensures
        r.deep_view() == text_object_spec(value.deep_view()),
{
    match value {
        Json::Object(entries) => {
            let ghost members = value.deep_view()->Object_0;
            let mut found: SortedMap<String> = SortedMap::new();
            for i in 0..entries.len()
                invariant
                    value == Json::Object(*entries),
                    members == crate::json::object_view(entries@),
                    value.deep_view() == JsonView::Object(members),
                    forall|k: Seq<char>| #[trigger]
                        found@.dom().contains(k) ==> members.dom().contains(k) && members[k]
                            == JsonView::Text(found@[k]),
                    forall|j: int|
                        0 <= j < i ==> found@.dom().contains((#[trigger] entries@[j]).0@),
            {
                let key = &entries[i].0;
                proof {
                    lemma_entry_key(entries@, i as int);
                }
                match value.get(key.as_str()) {
                    Some(Json::Text(t)) => {
                        found = found.insert(key.clone(), t.clone());
                    },
                    _ => {
                        assert(members.dom().contains(key@) && !(members[key@] is Text));
                        return None;
                    },
                }
            }
            assert forall|k: Seq<char>| #[trigger] members.dom().contains(k) implies members[k]
                == JsonView::Text(found@[k]) && found@.dom().contains(k) by {
                lemma_key_entry(entries@, k);
                let j = choose|j: int| 0 <= j < entries@.len() && (#[trigger] entries@[j]).0@ == k;
                assert(found@.dom().contains(entries@[j].0@));
            }
            assert(found@ =~= members.map_values(|v: JsonView| v->Text_0));
            Some(found)
        },
        _ => None,
    }
}

/// The namespace and the name among the arguments of a call, or which is missing.
pub open spec fn ns_name_spec(args: JsonView) -> Result<(Seq<char>, Seq<char>), Seq<char>> {
    match args.get_text("namespace"@) {
        None => Err("Missing 'namespace' parameter"@),
        Some(namespace) => match args.get_text("name"@) {
            None => Err("Missing 'name' parameter"@),
            Some(name) => Ok((namespace, name)),
        },
    }
}

/// The namespace and the name among the arguments of a call.
pub fn get_ns_name(args: &Json) -> (r: Result<(String, String), String>)
    ensures
        ns_name_spec(args.deep_view()) == (match r {
            Ok((namespace, name)) => Ok((namespace@, name@)),
            Err(e) => Err(e@),
        }),
{
    match args.get_text("namespace") {
        None => Err("Missing 'namespace' parameter".to_owned()),
        Some(namespace) => match args.get_text("name") {
            None => Err("Missing 'name' parameter".to_owned()),
            Some(name) => Ok((namespace.clone(), name.clone())),
        },
    }
}

/// The call of a tool that takes a namespace and a name, besides what `args` holds.
pub open spec fn named_call_spec(
    tool: Seq<char>,
    namespace: Seq<char>,
    name: Seq<char>,
    args: JsonView,
) -> Result<ToolCallView, Seq<char>> {
    if tool == "get_job_template"@ {
        Ok(ToolCallView::GetJobTemplate { namespace, name })
    } else if tool == "list_jobs"@ {
        Ok(ToolCallView::ListJobs { namespace, name })
    } else if tool == "get_job"@ {
        Ok(ToolCallView::GetJob { namespace, name })
    } else if tool == "get_job_logs"@ {
        Ok(
            ToolCallView::GetJobLogs {
                namespace,
                name,
                tail_lines: match args.get("tail_lines"@) {
                    Some(n) => n.as_i64(),
                    None => None,
                },
            },
        )
    } else if tool == "get_job_events"@ {
        Ok(ToolCallView::GetJobEvents { namespace, name })
    } else if tool == "get_job_test_results"@ {
        Ok(ToolCallView::GetJobTestResults { namespace, name })
    } else if tool == "get_job_output"@ {
        match args.get_text("filename"@) {
            None => Err("Missing 'filename' parameter"@),
            Some(filename) => Ok(ToolCallView::GetJobOutput { namespace, name, filename }),
        }
    } else if tool == "get_snapshot_diff"@ {
        Ok(ToolCallView::GetSnapshotDiff { namespace, name })
    } else {
        Ok(
            ToolCallView::RunJob {
                namespace,
                name,
                args: match args.get("args"@) {
                    Some(a) => text_array_spec(a),
                    None => None,
                },
                env: match args.get("env"@) {
                    Some(e) => text_object_spec(e),
                    None => None,
                },
            },
        )
    }
}

/// The tools that take a namespace and a name.
pub open spec fn takes_name(tool: Seq<char>) -> bool {
    ||| tool == "get_job_template"@
    ||| tool == "list_jobs"@
    ||| tool == "get_job"@
    ||| tool == "get_job_logs"@
    ||| tool == "get_job_events"@
    ||| tool == "get_job_test_results"@
    ||| tool == "get_job_output"@
    ||| tool == "get_snapshot_diff"@
    ||| tool == "run_job"@
}

/// The call of a tool with its arguments, or what is wrong with it.
pub open spec fn tool_call_spec(tool: Seq<char>, args: JsonView) -> Result<ToolCallView, Seq<char>> {
    if tool == "list_job_templates"@ {
        Ok(ToolCallView::ListJobTemplates)
    } else if takes_name(tool) {
        match ns_name_spec(args) {
            Ok((namespace, name)) => named_call_spec(tool, namespace, name, args),
            Err(e) => Err(e),
        }
    } else {
        Err("Unknown tool: "@ + tool)
    }
}

pub open spec fn call_result(r: Result<ToolCall, String>) -> Result<ToolCallView, Seq<char>> {
    match r {
        Ok(call) => Ok(call.deep_view()),
        Err(e) => Err(e@),
    }
}

fn named_call(tool: &str, namespace: String, name: String, args: &Json) -> (r: Result<
    ToolCall,
    String,
>)
    ensures
        call_result(r) == named_call_spec(tool@, namespace@, name@, args.deep_view()),
{
    if text::eq(tool, "get_job_template") {
        Ok(ToolCall::GetJobTemplate { namespace, name })
    } else if text::eq(tool, "list_jobs") {
        Ok(ToolCall::ListJobs { namespace, name })
    } else if text::eq(tool, "get_job") {
        Ok(ToolCall::GetJob { namespace, name })
    } else if text::eq(tool, "get_job_logs") {
        let tail_lines: Option<i64> = match args.get("tail_lines") {
            Some(n) => n.as_i64(),
            None => None,
        };
        Ok(ToolCall::GetJobLogs { namespace, name, tail_lines })
    } else if text::eq(tool, "get_job_events") {
        Ok(ToolCall::GetJobEvents { namespace, name })
    } else if text::eq(tool, "get_job_test_results") {
        Ok(ToolCall::GetJobTestResults { namespace, name })
    } else if text::eq(tool, "get_job_output") {
        match args.get_text("filename") {
            None => Err("Missing 'filename' parameter".to_owned()),
            Some(filename) => Ok(
                ToolCall::GetJobOutput { namespace, name, filename: filename.clone() },
            ),
        }
    } else if text::eq(tool, "get_snapshot_diff") {
        Ok(ToolCall::GetSnapshotDiff { namespace, name })
    } else {
        let run_args = match args.get("args") {
            Some(a) => text_array(a),
            None => None,
        };
        let env = match args.get("env") {
            Some(e) => text_object(e),
            None => None,
        };
        Ok(ToolCall::RunJob { namespace, name, args: run_args, env })
    }
}

/// Reads the call of a tool, or says what is wrong with it.
pub fn tool_call(tool: &str, args: &Json) -> (r: Result<ToolCall, String>)
    ensures
        call_result(r) == tool_call_spec(tool@, args.deep_view()),
{
    if text::eq(tool, "list_job_templates") {
        return Ok(ToolCall::ListJobTemplates);
    }
    let known: bool = text::eq(tool, "get_job_template") || text::eq(tool, "list_jobs")
        || text::eq(tool, "get_job") || text::eq(tool, "get_job_logs") || text::eq(
        tool,
        "get_job_events",
    ) || text::eq(tool, "get_job_test_results") || text::eq(tool, "get_job_output") || text::eq(
        tool,
        "get_snapshot_diff",
    ) || text::eq(tool, "run_job");
    if !known {
        return Err(text::concat("Unknown tool: ", tool));
    }
    match get_ns_name(args) {
        Ok((namespace, name)) => named_call(tool, namespace, name, args),
        Err(e) => Err(e),
    }
}

/// What a server says of itself.
pub open spec fn server_info_spec() -> JsonView {
    empty_object().set("protocolVersion"@, JsonView::Text("2024-11-05"@)).set(
        "capabilities"@,
        empty_object().set("tools"@, empty_object()),
    ).set(
        "serverInfo"@,
        empty_object().set("name"@, JsonView::Text("jobfather"@)).set(
            "version"@,
            JsonView::Text("0.1.0"@),
        ),
    )
}

/// What the server says of itself.
pub fn server_info() -> (r: Json)
    ensures
        r.deep_view() == server_info_spec(),
{
    Json::object().set("protocolVersion", Json::text("2024-11-05")).set(
        "capabilities",
        Json::object().set("tools", Json::object()),
    ).set(
        "serverInfo",
        Json::object().set("name", Json::text("jobfather")).set("version", Json::text("0.1.0")),
    )
}

/// An answer with a result.
pub open spec fn result_reply_spec(id: JsonView, result: JsonView) -> JsonView {
    empty_object().set("jsonrpc"@, JsonView::Text("2.0"@)).set("id"@, id).set("result"@, result)
}

fn result_reply(id: Json, result: Json) -> (r: Json)
    ensures
        r.deep_view() == result_reply_spec(id.deep_view(), result.deep_view()),
{
    Json::object().set("jsonrpc", Json::text("2.0")).set("id", id).set("result", result)
}

/// The answer to a request for a method that there is not.
pub open spec fn unknown_method_spec(id: JsonView, method: Seq<char>) -> JsonView {
    empty_object().set("jsonrpc"@, JsonView::Text("2.0"@)).set("id"@, id).set(
        "error"@,
        empty_object().set("code"@, JsonView::Number("-32601"@)).set(
            "message"@,
            JsonView::Text("Method not found: "@ + method),
        ),
    )
}

/// The content of an answer that is a text.
pub open spec fn text_content_spec(t: Seq<char>) -> JsonView {
    JsonView::Array(
        seq![
            empty_object().set("type"@, JsonView::Text("text"@)).set("text"@, JsonView::Text(t)),
        ],
    )
}

fn text_content(t: &str) -> (r: Json)
    ensures
        r.deep_view() == text_content_spec(t@),
{
    let item = Json::object().set("type", Json::text("text")).set("text", Json::text(t));
    let mut items: Vec<Json> = Vec::new();
    items.push(item);
    assert(items.deep_view() =~= seq![item.deep_view()]);
    Json::array(items)
}

/// The answer to a call of a tool: its text, marked where it reports an error.
pub open spec fn tool_reply_spec(id: JsonView, outcome: Result<Seq<char>, Seq<char>>) -> JsonView {
    match outcome {
        Ok(t) => result_reply_spec(id, empty_object().set("content"@, text_content_spec(t))),
        Err(e) => result_reply_spec(
            id,
            empty_object().set("content"@, text_content_spec(e)).set(
                "isError"@,
                JsonView::Bool(true),
            ),
        ),
    }
}

/// The answer to a call of a tool, given what came of it.
pub fn tool_reply(id: Json, outcome: &Result<String, String>) -> (r: Json)
    ensures
        r.deep_view() == tool_reply_spec(
            id.deep_view(),
            match outcome {
                Ok(t) => Ok(t@),
                Err(e) => Err(e@),
            },
        ),
{
    match outcome {
        Ok(t) => result_reply(id, Json::object().set("content", text_content(t.as_str()))),
        Err(e) => result_reply(
            id,
            Json::object().set("content", text_content(e.as_str())).set(
                "isError",
                Json::Bool(true),
            ),
        ),
    }
}

/// What is to be done with a request.
#[derive(Debug)]
pub enum McpAction {
    /// It is answered at once.
    Reply(Json),
    /// It is a notice that asks for no answer.
    NoContent,
    /// A tool is called; what comes of it is the answer.
    Call { id: Json, call: ToolCall },
}

/// What an [`McpAction`] holds.
#[verifier::ext_equal]
pub enum McpActionView {
    Reply(JsonView),
    NoContent,
    Call { id: JsonView, call: ToolCallView },
}

impl DeepView for McpAction {
    type V = McpActionView;

    open spec fn deep_view(&self) -> McpActionView {
        match self {
            McpAction::Reply(j) => McpActionView::Reply(j.deep_view()),
            McpAction::NoContent => McpActionView::NoContent,
            McpAction::Call { id, call } => McpActionView::Call {
                id: id.deep_view(),
                call: call.deep_view(),
            },
        }
    }
}

/// The identifier of a request: null where it has none.
pub open spec fn request_id(request: JsonView) -> JsonView {
    match request.get("id"@) {
        Some(id) => id,
        None => JsonView::Null,
    }
}

/// The method of a request: empty where it names none.
pub open spec fn request_method(request: JsonView) -> Seq<char> {
    match request.get_text("method"@) {
        Some(m) => m,
        None => Seq::empty(),
    }
}

pub open spec fn or_empty_object(value: Option<JsonView>) -> JsonView {
    match value {
        Some(v) => v,
        None => empty_object(),
    }
}

/// What is to be done with a request.
pub open spec fn handle_spec(request: JsonView) -> McpActionView {
    let id = request_id(request);
    let method = request_method(request);
    if method == "initialize"@ {
        McpActionView::Reply(result_reply_spec(id, server_info_spec()))
    } else if method == "notifications/initialized"@ {
        McpActionView::NoContent
    } else if method == "tools/list"@ {
        McpActionView::Reply(
            result_reply_spec(
                id,
                empty_object().set("tools"@, JsonView::Array(tool_definitions_spec())),
            ),
        )
    } else if method == "tools/call"@ {
        let params = or_empty_object(request.get("params"@));
        let tool = match params.get_text("name"@) {
            Some(n) => n,
            None => Seq::empty(),
        };
        match tool_call_spec(tool, or_empty_object(params.get("arguments"@))) {
            Ok(call) => McpActionView::Call { id, call },
            Err(e) => McpActionView::Reply(tool_reply_spec(id, Err(e))),
        }
    } else {
        McpActionView::Reply(unknown_method_spec(id, method))
    }
}

fn member_or_empty(value: &Json, key: &str) -> (r: Json)
    ensures
        r.deep_view() == or_empty_object(value.deep_view().get(key@)),
{
    match value.get(key) {
        Some(v) => v.dup(),
        None => Json::object(),
    }
}

fn text_or_nothing(value: &Json, key: &str) -> (r: String)
    ensures
        r@ == (match value.deep_view().get_text(key@) {
            Some(t) => t,
            None => Seq::empty(),
        }),
{
    match value.get_text(key) {
        Some(t) => t.clone(),
        None => String::new(),
    }
}

/// Decides what is to be done with a JSON-RPC request.
pub fn handle(request: &Json) -> (r: McpAction)
    ensures
        r.deep_view() == handle_spec(request.deep_view()),
{
    let id = match request.get("id") {
        Some(id) => id.dup(),
        None => Json::Null,
    };
    let method = text_or_nothing(request, "method");
    if text::eq(method.as_str(), "initialize") {
        McpAction::Reply(result_reply(id, server_info()))
    } else if text::eq(method.as_str(), "notifications/initialized") {
        McpAction::NoContent
    } else if text::eq(method.as_str(), "tools/list") {
        let tools = Json::object().set("tools", Json::array(tool_definitions()));
        McpAction::Reply(result_reply(id, tools))
    } else if text::eq(method.as_str(), "tools/call") {
        let params = member_or_empty(request, "params");
        let tool = text_or_nothing(&params, "name");
        let arguments = member_or_empty(&params, "arguments");
        match tool_call(tool.as_str(), &arguments) {
            Ok(call) => McpAction::Call { id, call },
            Err(e) => McpAction::Reply(tool_reply(id, &Err(e))),
        }
    } else {
        let message = text::concat("Method not found: ", method.as_str());
        let error = Json::object().set("code", Json::Number("-32601".to_owned())).set(
            "message",
            Json::text(message.as_str()),
        );
        McpAction::Reply(
            Json::object().set("jsonrpc", Json::text("2.0")).set("id", id).set("error", error),
        )
    }
}

/// Every answer carries the identifier of its request.
pub proof fn law_reply_carries_id(request: JsonView)
    ensures
        handle_spec(request) matches McpActionView::Reply(reply) ==> reply.get("id"@) == Some(
            request_id(request),
        ),
        handle_spec(request) matches McpActionView::Call { id, .. } ==> id == request_id(request),
{
    reveal_strlit("id");
    reveal_strlit("jsonrpc");
    reveal_strlit("result");
    reveal_strlit("error");
    assert("id"@.len() == 2 && "jsonrpc"@.len() == 7 && "result"@.len() == 6 && "error"@.len() == 5);
}

/// Whether a tool of that name is offered.
pub open spec fn is_offered(name: Seq<char>) -> bool {
    exists|i: int|
        0 <= i < tool_definitions_spec().len() && (
        #[trigger] tool_definitions_spec()[i]).get_text("name"@) == Some(name)
}

proof fn lemma_tool_name(
    name: Seq<char>,
    description: Seq<char>,
    properties: JsonView,
    required: Seq<Seq<char>>,
)
    ensures
        tool_spec(name, description, properties, required).get_text("name"@) == Some(name),
{
    reveal_strlit("name");
    reveal_strlit("description");
    reveal_strlit("inputSchema");
    assert("name"@.len() == 4 && "description"@.len() == 11 && "inputSchema"@.len() == 11);
}

proof fn lemma_tool_names()
    ensures
        tool_definitions_spec().len() == 10,
        tool_definitions_spec()[0].get_text("name"@) == Some("list_job_templates"@),
        tool_definitions_spec()[1].get_text("name"@) == Some("get_job_template"@),
        tool_definitions_spec()[2].get_text("name"@) == Some("list_jobs"@),
        tool_definitions_spec()[3].get_text("name"@) == Some("get_job"@),
        tool_definitions_spec()[4].get_text("name"@) == Some("get_job_logs"@),
        tool_definitions_spec()[5].get_text("name"@) == Some("get_job_events"@),
        tool_definitions_spec()[6].get_text("name"@) == Some("get_job_test_results"@),
        tool_definitions_spec()[7].get_text("name"@) == Some("get_job_output"@),
        tool_definitions_spec()[8].get_text("name"@) == Some("get_snapshot_diff"@),
        tool_definitions_spec()[9].get_text("name"@) == Some("run_job"@),
{
    assert(list_job_templates_tool_spec().get_text("name"@) == Some("list_job_templates"@)) by {
        lemma_tool_name(
            "list_job_templates"@,
            "List all JobTemplates across all namespaces"@,
            empty_object(),
            Seq::empty(),
        );
    }
    assert(get_job_template_tool_spec().get_text("name"@) == Some("get_job_template"@)) by {
        lemma_tool_name(
            "get_job_template"@,
            "Get details of a specific JobTemplate"@,
            empty_object().set("namespace"@, property_spec("string"@, "Kubernetes namespace"@)).set("name"@, property_spec("string"@, "JobTemplate name"@)),
            seq!["namespace"@, "name"@],
        );
    }
    assert(list_jobs_tool_spec().get_text("name"@) == Some("list_jobs"@)) by {
        lemma_tool_name(
            "list_jobs"@,
            "List jobs for a JobTemplate (newest first, includes both live and archived)"@,
            empty_object().set("namespace"@, property_spec("string"@, "Kubernetes namespace"@)).set("name"@, property_spec("string"@, "JobTemplate name"@)),
            seq!["namespace"@, "name"@],
        );
    }
    assert(get_job_tool_spec().get_text("name"@) == Some("get_job"@)) by {
        lemma_tool_name(
            "get_job"@,
            "Get details of a specific job"@,
            empty_object().set("namespace"@, property_spec("string"@, "Kubernetes namespace"@)).set("name"@, property_spec("string"@, "Job name"@)),
            seq!["namespace"@, "name"@],
        );
    }
    assert(get_job_logs_tool_spec().get_text("name"@) == Some("get_job_logs"@)) by {
        lemma_tool_name(
            "get_job_logs"@,
            "Get container logs for a job"@,
            empty_object().set("namespace"@, property_spec("string"@, "Kubernetes namespace"@)).set("name"@, property_spec("string"@, "Job name"@)).set("tail_lines"@, property_spec("integer"@, "Number of lines from the end to return (optional)"@)),
            seq!["namespace"@, "name"@],
        );
    }
    assert(get_job_events_tool_spec().get_text("name"@) == Some("get_job_events"@)) by {
        lemma_tool_name(
            "get_job_events"@,
            "Get Kubernetes events for a job"@,
            empty_object().set("namespace"@, property_spec("string"@, "Kubernetes namespace"@)).set("name"@, property_spec("string"@, "Job name"@)),
            seq!["namespace"@, "name"@],
        );
    }
    assert(get_job_test_results_tool_spec().get_text("name"@) == Some("get_job_test_results"@)) by {
        lemma_tool_name(
            "get_job_test_results"@,
            "Get parsed JUnit test results for a job"@,
            empty_object().set("namespace"@, property_spec("string"@, "Kubernetes namespace"@)).set("name"@, property_spec("string"@, "Job name"@)),
            seq!["namespace"@, "name"@],
        );
    }
    assert(get_job_output_tool_spec().get_text("name"@) == Some("get_job_output"@)) by {
        lemma_tool_name(
            "get_job_output"@,
            "Get job output file content (result.json or report.md)"@,
            empty_object().set("namespace"@, property_spec("string"@, "Kubernetes namespace"@)).set("name"@, property_spec("string"@, "Job name"@)).set("filename"@, property_spec("string"@, "Output filename: 'result.json' or 'report.md'"@).set(
                "enum"@,
                texts_spec(seq!["result.json"@, "report.md"@]),
            )),
            seq!["namespace"@, "name"@, "filename"@],
        );
    }
    assert(get_snapshot_diff_tool_spec().get_text("name"@) == Some("get_snapshot_diff"@)) by {
        lemma_tool_name(
            "get_snapshot_diff"@,
            "Get snapshot comparison diff for a job"@,
            empty_object().set("namespace"@, property_spec("string"@, "Kubernetes namespace"@)).set("name"@, property_spec("string"@, "Job name"@)),
            seq!["namespace"@, "name"@],
        );
    }
    assert(run_job_tool_spec().get_text("name"@) == Some("run_job"@)) by {
        lemma_tool_name(
            "run_job"@,
            "Trigger a new job from a JobTemplate"@,
            empty_object().set("namespace"@, property_spec("string"@, "Kubernetes namespace"@)).set("name"@, property_spec("string"@, "JobTemplate name"@)).set("args"@, property_spec("array"@, "Command arguments (optional)"@).set(
                "items"@,
                type_spec("string"@),
            )).set("env"@, property_spec("object"@, "Environment variables (optional)"@).set(
                "additionalProperties"@,
                type_spec("string"@),
            )),
            seq!["namespace"@, "name"@],
        );
    }
}

/// A tool can be called exactly where it is offered: a call of any other is
/// answered that it is unknown.
pub proof fn law_offered_tools_are_known(name: Seq<char>, args: JsonView)
    ensures
        is_offered(name) <==> (name == "list_job_templates"@ || takes_name(name)),
        !is_offered(name) ==> tool_call_spec(name, args) == Err::<ToolCallView, Seq<char>>(
            "Unknown tool: "@ + name,
        ),
{
    lemma_tool_names();
    let tools = tool_definitions_spec();
    if name == "list_job_templates"@ {
        assert(tools[0].get_text("name"@) == Some(name));
    }
    if name == "get_job_template"@ {
        assert(tools[1].get_text("name"@) == Some(name));
    }
    if name == "list_jobs"@ {
        assert(tools[2].get_text("name"@) == Some(name));
    }
    if name == "get_job"@ {
        assert(tools[3].get_text("name"@) == Some(name));
    }
    if name == "get_job_logs"@ {
        assert(tools[4].get_text("name"@) == Some(name));
    }
    if name == "get_job_events"@ {
        assert(tools[5].get_text("name"@) == Some(name));
    }
    if name == "get_job_test_results"@ {
        assert(tools[6].get_text("name"@) == Some(name));
    }
    if name == "get_job_output"@ {
        assert(tools[7].get_text("name"@) == Some(name));
    }
    if name == "get_snapshot_diff"@ {
        assert(tools[8].get_text("name"@) == Some(name));
    }
    if name == "run_job"@ {
        assert(tools[9].get_text("name"@) == Some(name));
    }
    if is_offered(name) {
        let i = choose|i: int|
            0 <= i < tools.len() && (#[trigger] tools[i]).get_text("name"@) == Some(name);
        assert(0 <= i < 10);
    }
}

/// A call of an offered tool with a namespace, a name and, where the tool reads a
/// file, a file name is understood.
pub proof fn law_complete_calls_are_understood(name: Seq<char>, args: JsonView)
    requires
        is_offered(name),
        args.get_text("namespace"@) is Some,
        args.get_text("name"@) is Some,
        name == "get_job_output"@ ==> args.get_text("filename"@) is Some,
    ensures
        tool_call_spec(name, args) is Ok,
{
    law_offered_tools_are_known(name, args);
}

/// A tool is called with the namespace and the name that were sent, each tool under its own
/// name. Logs are asked for with the number of lines, where one was sent, an output file under
/// the name that was sent, and a run with the words and variables that were sent.
pub proof fn law_tool_calls(
    tool: Seq<char>,
    args: JsonView,
    namespace: Seq<char>,
    name: Seq<char>,
)
    requires
        args.get("namespace"@) == Some(JsonView::Text(namespace)),
        args.get("name"@) == Some(JsonView::Text(name)),
    ensures
        ({
            &&& tool == "get_job_template"@ ==> tool_call_spec(tool, args) == Ok::<ToolCallView, Seq<char>>(
                ToolCallView::GetJobTemplate { namespace, name },
            )
            &&& tool == "list_jobs"@ ==> tool_call_spec(tool, args) == Ok::<ToolCallView, Seq<char>>(
                ToolCallView::ListJobs { namespace, name },
            )
            &&& tool == "get_job"@ ==> tool_call_spec(tool, args) == Ok::<ToolCallView, Seq<char>>(
                ToolCallView::GetJob { namespace, name },
            )
            &&& tool == "get_job_events"@ ==> tool_call_spec(tool, args) == Ok::<ToolCallView, Seq<char>>(
                ToolCallView::GetJobEvents { namespace, name },
            )
            &&& tool == "get_job_test_results"@ ==> tool_call_spec(tool, args) == Ok::<ToolCallView, Seq<char>>(
                ToolCallView::GetJobTestResults { namespace, name },
            )
            &&& tool == "get_snapshot_diff"@ ==> tool_call_spec(tool, args) == Ok::<ToolCallView, Seq<char>>(
                ToolCallView::GetSnapshotDiff { namespace, name },
            )
            &&& tool == "get_job_logs"@ ==> tool_call_spec(tool, args) == Ok::<
                ToolCallView,
                Seq<char>,
            >(
                ToolCallView::GetJobLogs {
                    namespace,
                    name,
                    tail_lines: match args.get("tail_lines"@) {
                        Some(n) => n.as_i64(),
                        None => None,
                    },
                },
            )
            &&& tool == "get_job_output"@ ==> (args.get("filename"@) matches Some(
                JsonView::Text(filename),
            ) ==> tool_call_spec(tool, args) == Ok::<ToolCallView, Seq<char>>(
                ToolCallView::GetJobOutput { namespace, name, filename },
            ))
            &&& tool == "get_job_output"@ && !(args.get("filename"@) matches Some(JsonView::Text(_)))
                ==> tool_call_spec(tool, args) == Err::<ToolCallView, Seq<char>>(
                "Missing 'filename' parameter"@,
            )
            &&& tool == "run_job"@ ==> tool_call_spec(tool, args) == Ok::<ToolCallView, Seq<char>>(
                ToolCallView::RunJob {
                    namespace,
                    name,
                    args: match args.get("args"@) {
                        Some(a) => text_array_spec(a),
                        None => None,
                    },
                    env: match args.get("env"@) {
                        Some(e) => text_object_spec(e),
                        None => None,
                    },
                },
            )
        }),
{
    reveal_strlit("list_job_templates");
    reveal_strlit("get_job_template");
    reveal_strlit("list_jobs");
    reveal_strlit("get_job");
    reveal_strlit("get_job_logs");
    reveal_strlit("get_job_events");
    reveal_strlit("get_job_test_results");
    reveal_strlit("get_job_output");
    reveal_strlit("get_snapshot_diff");
    reveal_strlit("run_job");
    assert("list_job_templates"@.len() == 18);
    assert("get_job_template"@.len() == 16);
    assert("list_jobs"@.len() == 9);
    assert("get_job"@.len() == 7);
    assert("get_job_logs"@.len() == 12);
    assert("get_job_events"@.len() == 14);
    assert("get_job_test_results"@.len() == 20);
    assert("get_job_output"@.len() == 14);
    assert("get_snapshot_diff"@.len() == 17);
    assert("run_job"@.len() == 7);
    assert("get_job_template"@[8] == 't' && "get_job"@[0] == 'g' && "list_jobs"@[0] == 'l'
        && "run_job"@[0] == 'r' && "get_job_events"@[8] == 'e' && "get_job_output"@[8] == 'o');
}

/// The list of templates needs no arguments; of every other tool the namespace is missed first,
/// and then the name, wherever they are no texts.
pub proof fn law_missing_arguments(tool: Seq<char>, args: JsonView)
    ensures
        tool_call_spec("list_job_templates"@, args) == Ok::<ToolCallView, Seq<char>>(
            ToolCallView::ListJobTemplates,
        ),
        is_offered(tool) && tool != "list_job_templates"@ && !(args.get("namespace"@) matches Some(
            JsonView::Text(_),
        )) ==> tool_call_spec(tool, args) == Err::<ToolCallView, Seq<char>>(
            "Missing 'namespace' parameter"@,
        ),
        is_offered(tool) && tool != "list_job_templates"@ && (args.get("namespace"@) matches Some(
            JsonView::Text(_),
        )) && !(args.get("name"@) matches Some(JsonView::Text(_))) ==> tool_call_spec(tool, args)
            == Err::<ToolCallView, Seq<char>>("Missing 'name' parameter"@),
{
    law_offered_tools_are_known(tool, args);
}

/// The words of a run are those of a list of texts, all of them and in order, and its variables
/// the members of an object of texts; anything else is passed over.
pub proof fn law_texts_taken(words: Seq<Seq<char>>, value: JsonView, i: int)
    ensures
        text_array_spec(texts_spec(words)) == Some(words),
        !(value is Array) ==> text_array_spec(value) is None,
        value matches JsonView::Array(items) ==> (0 <= i < items.len() && !(items[i] is Text)
            ==> text_array_spec(value) is None),
        !(value is Object) ==> text_object_spec(value) is None,
        value matches JsonView::Object(members) ==> {
            &&& text_object_spec(value) is Some <==> forall|k: Seq<char>| #[trigger]
                members.dom().contains(k) ==> members[k] is Text
            &&& text_object_spec(value) matches Some(texts) ==> texts.dom() == members.dom()
                && forall|k: Seq<char>| #[trigger]
                members.dom().contains(k) ==> members[k] == JsonView::Text(texts[k])
        },
{
    let made = texts_spec(words);
    let items = made->Array_0;
    assert forall|j: int| 0 <= j < items.len() implies (#[trigger] items[j]) is Text by {}
    assert(items.map_values(|v: JsonView| v->Text_0) =~= words);
    if let JsonView::Object(members) = value {
        if let Some(found) = text_object_spec(value) {
            assert(found.dom() =~= members.dom());
        }
    }
}

/// A request is answered by its method: a greeting with what the server is, a list of the tools,
/// a call of the tool that is named with the arguments that came with it, and nothing at all for
/// the notice that the greeting is done. Any other method is not found.
pub proof fn law_methods(
    id: JsonView,
    method: Seq<char>,
    request: JsonView,
    tool: Seq<char>,
    args: JsonView,
    params: JsonView,
)
    requires
        request.get("id"@) == Some(id),
        request.get("method"@) == Some(JsonView::Text(method)),
        request.get("params"@) == Some(params),
        params.get("name"@) == Some(JsonView::Text(tool)),
        params.get("arguments"@) == Some(args),
    ensures
        method == "initialize"@ ==> handle_spec(request) == McpActionView::Reply(
            result_reply_spec(id, server_info_spec()),
        ),
        method == "notifications/initialized"@ ==> handle_spec(request) == McpActionView::NoContent,
        method == "tools/list"@ ==> handle_spec(request) == McpActionView::Reply(
            result_reply_spec(
                id,
                empty_object().set("tools"@, JsonView::Array(tool_definitions_spec())),
            ),
        ),
        method == "tools/call"@ ==> (tool_call_spec(tool, args) matches Ok(call) ==> handle_spec(
            request,
        ) == McpActionView::Call { id, call }),
        method == "tools/call"@ ==> (tool_call_spec(tool, args) matches Err(e) ==> handle_spec(
            request,
        ) == McpActionView::Reply(tool_reply_spec(id, Err(e)))),
        method != "initialize"@ && method != "notifications/initialized"@ && method != "tools/list"@
            && method != "tools/call"@ ==> handle_spec(request) == McpActionView::Reply(
            unknown_method_spec(id, method),
        ),
{
    reveal_strlit("initialize");
    reveal_strlit("notifications/initialized");
    reveal_strlit("tools/list");
    reveal_strlit("tools/call");
    assert("initialize"@.len() == 10 && "notifications/initialized"@.len() == 25
        && "tools/list"@.len() == 10 && "tools/call"@.len() == 10);
    assert("initialize"@[0] == 'i' && "tools/list"@[0] == 't' && "tools/call"@[6] == 'c'
        && "tools/list"@[6] == 'l');
}

/// A request without an identifier is answered with none, and one without a method is not found.
/// A call without a tool, or without arguments, is one of no tool or with no arguments.
pub proof fn law_incomplete_requests(request: JsonView)
    ensures
        request.get("id"@) is None ==> request_id(request) == JsonView::Null,
        !(request.get("method"@) matches Some(JsonView::Text(_))) ==> handle_spec(request)
            == McpActionView::Reply(unknown_method_spec(request_id(request), Seq::empty())),
        request.get("method"@) == Some(JsonView::Text("tools/call"@)) && request.get(
            "params"@,
        ) is None ==> handle_spec(request) == McpActionView::Reply(
            tool_reply_spec(request_id(request), Err("Unknown tool: "@)),
        ),
        request.get("method"@) == Some(JsonView::Text("tools/call"@)) ==> (request.get(
            "params"@,
        ) matches Some(params) ==> (params.get("arguments"@) is None ==> (params.get(
            "name"@,
        ) matches Some(JsonView::Text(tool)) ==> (is_offered(tool) && tool
            != "list_job_templates"@ ==> handle_spec(request) == McpActionView::Reply(
            tool_reply_spec(request_id(request), Err("Missing 'namespace' parameter"@)),
        ))))),
{
    reveal_strlit("initialize");
    reveal_strlit("notifications/initialized");
    reveal_strlit("tools/list");
    reveal_strlit("tools/call");
    assert("initialize"@.len() == 10 && "notifications/initialized"@.len() == 25
        && "tools/list"@.len() == 10 && "tools/call"@.len() == 10);
    assert("initialize"@[0] == 'i' && "tools/list"@[0] == 't' && "tools/call"@[6] == 'c'
        && "tools/list"@[6] == 'l' && "tools/call"@[0] == 't');
    let none = Seq::<char>::empty();
    reveal_strlit("list_job_templates");
    reveal_strlit("get_job_template");
    reveal_strlit("list_jobs");
    reveal_strlit("get_job");
    reveal_strlit("get_job_logs");
    reveal_strlit("get_job_events");
    reveal_strlit("get_job_test_results");
    reveal_strlit("get_job_output");
    reveal_strlit("get_snapshot_diff");
    reveal_strlit("run_job");
    assert("list_job_templates"@.len() == 18);
    assert("get_job_template"@.len() == 16);
    assert("list_jobs"@.len() == 9);
    assert("get_job"@.len() == 7);
    assert("get_job_logs"@.len() == 12);
    assert("get_job_events"@.len() == 14);
    assert("get_job_test_results"@.len() == 20);
    assert("get_job_output"@.len() == 14);
    assert("get_snapshot_diff"@.len() == 17);
    assert("run_job"@.len() == 7);
    assert("Unknown tool: "@ + none =~= "Unknown tool: "@);
    if let Some(params) = request.get("params"@) {
        if let Some(JsonView::Text(tool)) = params.get("name"@) {
            law_missing_arguments(tool, empty_object());
        }
    }
}

/// Every answer is of the version 2.0 and has the identifier of the request. The outcome of a
/// tool is the one text in its content, and only an error is marked as one. A method that is not
/// found is an error with its code and the name of the method.
pub proof fn law_replies(id: JsonView, result: JsonView, text: Seq<char>, method: Seq<char>)
    ensures
        result_reply_spec(id, result).get("jsonrpc"@) == Some(JsonView::Text("2.0"@)),
        result_reply_spec(id, result).get("id"@) == Some(id),
        result_reply_spec(id, result).get("result"@) == Some(result),
        result_reply_spec(id, result).get("error"@) is None,
        unknown_method_spec(id, method).get("jsonrpc"@) == Some(JsonView::Text("2.0"@)),
        unknown_method_spec(id, method).get("id"@) == Some(id),
        unknown_method_spec(id, method).get("result"@) is None,
        unknown_method_spec(id, method).get("error"@) matches Some(error) && error.get("code"@)
            == Some(JsonView::Number("-32601"@)) && error.get("message"@) == Some(
            JsonView::Text("Method not found: "@ + method),
        ),
        tool_reply_spec(id, Ok(text)).get("id"@) == Some(id),
        tool_reply_spec(id, Err(text)).get("id"@) == Some(id),
        tool_reply_spec(id, Ok(text)).get("result"@) matches Some(done) && done.get("isError"@) is None
            && is_text_content(done.get("content"@), text),
        tool_reply_spec(id, Err(text)).get("result"@) matches Some(done) && done.get("isError"@)
            == Some(JsonView::Bool(true)) && is_text_content(done.get("content"@), text),
{
    reveal_strlit("jsonrpc");
    reveal_strlit("id");
    reveal_strlit("result");
    reveal_strlit("error");
    reveal_strlit("code");
    reveal_strlit("message");
    reveal_strlit("content");
    reveal_strlit("isError");
    reveal_strlit("type");
    reveal_strlit("text");
    assert("jsonrpc"@.len() == 7);
    assert("id"@.len() == 2);
    assert("result"@.len() == 6);
    assert("error"@.len() == 5);
    assert("code"@.len() == 4);
    assert("message"@.len() == 7);
    assert("content"@.len() == 7);
    assert("isError"@.len() == 7);
    assert("type"@.len() == 4);
    assert("text"@.len() == 4);
    assert("jsonrpc"@[0] == 'j' && "message"@[0] == 'm' && "content"@[0] == 'c' && "isError"@[0]
        == 'i' && "type"@[1] == 'y' && "text"@[1] == 'e' && "code"@[0] == 'c');
}

/// Whether a content is one text, marked as such.
pub open spec fn is_text_content(content: Option<JsonView>, text: Seq<char>) -> bool {
    &&& content matches Some(JsonView::Array(items))
    &&& items.len() == 1
    &&& items[0].get("type"@) == Some(JsonView::Text("text"@))
    &&& items[0].get("text"@) == Some(JsonView::Text(text))
}

/// The server says which version of the protocol it speaks, what it is called, and that it has
/// tools.
pub proof fn law_greeting()
    ensures
        server_info_spec().get("protocolVersion"@) == Some(JsonView::Text("2024-11-05"@)),
        server_info_spec().get("capabilities"@) matches Some(c) && c.get("tools"@) == Some(
            empty_object(),
        ),
        server_info_spec().get("serverInfo"@) matches Some(s) && s.get("name"@) == Some(
            JsonView::Text("jobfather"@),
        ) && s.get("version"@) == Some(JsonView::Text("0.1.0"@)),
{
    reveal_strlit("protocolVersion");
    reveal_strlit("capabilities");
    reveal_strlit("serverInfo");
    reveal_strlit("name");
    reveal_strlit("version");
    assert("protocolVersion"@.len() == 15);
    assert("capabilities"@.len() == 12);
    assert("serverInfo"@.len() == 10);
    assert("name"@.len() == 4);
    assert("version"@.len() == 7);
}

/// Every tool that is offered says that it cannot do without the arguments without which its
/// call is refused: the namespace and the name, besides the file name of an output file, and
/// none for the list of templates.
pub proof fn law_tools_say_what_they_need(i: int)
    requires
        0 <= i < tool_definitions_spec().len(),
    ensures
        ({
            let tool = tool_definitions_spec()[i];
            let name = tool.get_text("name"@)->0;
            &&& tool.get("inputSchema"@) matches Some(schema)
            &&& schema.get("type"@) == Some(JsonView::Text("object"@))
            &&& schema.get("required"@) matches Some(required)
            &&& tool.get_text("name"@) is Some
            &&& name == "list_job_templates"@ ==> required == texts_spec(Seq::empty())
            &&& name == "get_job_output"@ ==> required == texts_spec(
                seq!["namespace"@, "name"@, "filename"@],
            )
            &&& name != "list_job_templates"@ && name != "get_job_output"@ ==> required
                == texts_spec(seq!["namespace"@, "name"@])
        }),
{
    reveal_strlit("name");
    reveal_strlit("description");
    reveal_strlit("inputSchema");
    reveal_strlit("type");
    reveal_strlit("properties");
    reveal_strlit("required");
    reveal_strlit("list_job_templates");
    reveal_strlit("get_job_template");
    reveal_strlit("list_jobs");
    reveal_strlit("get_job");
    reveal_strlit("get_job_logs");
    reveal_strlit("get_job_events");
    reveal_strlit("get_job_test_results");
    reveal_strlit("get_job_output");
    reveal_strlit("get_snapshot_diff");
    reveal_strlit("run_job");
    assert("name"@.len() == 4);
    assert("description"@.len() == 11);
    assert("inputSchema"@.len() == 11);
    assert("type"@.len() == 4);
    assert("properties"@.len() == 10);
    assert("required"@.len() == 8);
    assert("list_job_templates"@.len() == 18);
    assert("get_job_template"@.len() == 16);
    assert("list_jobs"@.len() == 9);
    assert("get_job"@.len() == 7);
    assert("get_job_logs"@.len() == 12);
    assert("get_job_events"@.len() == 14);
    assert("get_job_test_results"@.len() == 20);
    assert("get_job_output"@.len() == 14);
    assert("get_snapshot_diff"@.len() == 17);
    assert("run_job"@.len() == 7);
    assert("name"@[0] == 'n' && "type"@[0] == 't' && "inputSchema"@[0] == 'i' && "description"@[0]
        == 'd');
    assert("get_job_template"@[8] == 't' && "get_job_events"@[8] == 'e' && "get_job_output"@[8]
        == 'o');
}

/// The schema of a parameter of a tool.
pub open spec fn parameter_of(tool: JsonView, key: Seq<char>) -> Option<JsonView> {
    match tool.get("inputSchema"@) {
        Some(schema) => match schema.get("properties"@) {
            Some(properties) => properties.get(key),
            None => None,
        },
        None => None,
    }
}

/// Whether a parameter is of that type and is described.
pub open spec fn is_parameter(parameter: Option<JsonView>, kind: Seq<char>) -> bool {
    &&& parameter matches Some(p)
    &&& p.get("type"@) == Some(JsonView::Text(kind))
    &&& p.get("description"@) matches Some(JsonView::Text(_))
}

/// Every tool is described, and every parameter that a tool reads is offered with its type: the
/// namespace and the name as texts, the number of lines as an integer, the file name as one of
/// the two that can be read, and the words and variables of a run as a list and an object of
/// texts.
pub proof fn law_tools_describe_their_parameters(i: int)
    requires
        0 <= i < tool_definitions_spec().len(),
    ensures
        ({
            let tool = tool_definitions_spec()[i];
            let name = tool.get_text("name"@)->0;
            let string = empty_object().set("type"@, JsonView::Text("string"@));
            &&& tool.get("description"@) matches Some(JsonView::Text(_))
            &&& name != "list_job_templates"@ ==> is_parameter(
                parameter_of(tool, "namespace"@),
                "string"@,
            ) && is_parameter(parameter_of(tool, "name"@), "string"@)
            &&& name == "get_job_logs"@ ==> is_parameter(
                parameter_of(tool, "tail_lines"@),
                "integer"@,
            )
            &&& name == "get_job_output"@ ==> is_parameter(
                parameter_of(tool, "filename"@),
                "string"@,
            ) && parameter_of(tool, "filename"@)->0.get("enum"@) == Some(
                texts_spec(seq!["result.json"@, "report.md"@]),
            )
            &&& name == "run_job"@ ==> is_parameter(parameter_of(tool, "args"@), "array"@)
                && parameter_of(tool, "args"@)->0.get("items"@) == Some(string) && is_parameter(
                parameter_of(tool, "env"@),
                "object"@,
            ) && parameter_of(tool, "env"@)->0.get("additionalProperties"@) == Some(string)
        }),
{
    reveal_strlit("name");
    reveal_strlit("description");
    reveal_strlit("inputSchema");
    reveal_strlit("type");
    reveal_strlit("properties");
    reveal_strlit("required");
    reveal_strlit("namespace");
    reveal_strlit("filename");
    reveal_strlit("tail_lines");
    reveal_strlit("args");
    reveal_strlit("env");
    reveal_strlit("items");
    reveal_strlit("additionalProperties");
    reveal_strlit("enum");
    assert("name"@.len() == 4);
    assert("description"@.len() == 11);
    assert("inputSchema"@.len() == 11);
    assert("type"@.len() == 4);
    assert("properties"@.len() == 10);
    assert("required"@.len() == 8);
    assert("namespace"@.len() == 9);
    assert("filename"@.len() == 8);
    assert("tail_lines"@.len() == 10);
    assert("args"@.len() == 4);
    assert("env"@.len() == 3);
    assert("items"@.len() == 5);
    assert("additionalProperties"@.len() == 20);
    assert("enum"@.len() == 4);
    reveal_strlit("list_job_templates");
    reveal_strlit("get_job_template");
    reveal_strlit("list_jobs");
    reveal_strlit("get_job");
    reveal_strlit("get_job_logs");
    reveal_strlit("get_job_events");
    reveal_strlit("get_job_test_results");
    reveal_strlit("get_job_output");
    reveal_strlit("get_snapshot_diff");
    reveal_strlit("run_job");
    assert("list_job_templates"@.len() == 18);
    assert("get_job_template"@.len() == 16);
    assert("list_jobs"@.len() == 9);
    assert("get_job"@.len() == 7);
    assert("get_job_logs"@.len() == 12);
    assert("get_job_events"@.len() == 14);
    assert("get_job_test_results"@.len() == 20);
    assert("get_job_output"@.len() == 14);
    assert("get_snapshot_diff"@.len() == 17);
    assert("run_job"@.len() == 7);
    assert("name"@[0] == 'n' && "type"@[0] == 't' && "args"@[0] == 'a' && "enum"@[0] == 'e');
    assert("properties"@[0] == 'p' && "tail_lines"@[0] == 't');
    assert("inputSchema"@[0] == 'i' && "description"@[0] == 'd');
    assert("get_job_template"@[8] == 't' && "get_job_events"@[8] == 'e' && "get_job_output"@[8]
        == 'o' && "get_job"@[0] == 'g' && "run_job"@[0] == 'r');
}

} // verus!

//! Taking in the output files that jobs upload.

use vstd::prelude::*;

use crate::db::job_output::{is_valid_file, is_valid_file_spec};
use crate::decimal;
use crate::kubernetes::reconciler;
use crate::text;

verus! {

/// Why an upload is refused, where it is: only certain files are taken.
pub fn refusal(filename: &str) -> (r: Option<String>)
    ensures
        r.deep_view() == (if is_valid_file_spec(filename@) {
            None
        } else {
            Some("Invalid output file: "@ + filename@)
        }),
{
    if is_valid_file(filename) {
        None
    } else {
        Some(text::concat("Invalid output file: ", filename))
    }
}

/// Whether an uploaded file holds snapshots, which are compared with the baseline.
pub fn holds_snapshots(filename: &str) -> (r: bool)
    ensures
        r == (filename@ == "test-snapshots.tar.gz"@),
{
    text::eq(filename, "test-snapshots.tar.gz")
}

/// What is recorded of uploaded snapshots, each under its name: their status,
/// their differences, and the baseline set that they were compared with.
pub open spec fn snapshot_records_spec(
    status: Seq<char>,
    diff_json: Option<Seq<char>>,
    baseline_id: Option<i64>,
) -> Seq<(Seq<char>, Seq<char>)> {
    let first = seq![("_snapshot_status"@, status)];
    let second = match diff_json {
        Some(json) => seq![("_snapshot_diff_json"@, json)],
        None => Seq::empty(),
    };
    let third = match baseline_id {
        Some(id) => seq![("_snapshot_baseline_id"@, decimal::decimal_spec(id as int))],
        None => Seq::empty(),
    };
    first + second + third
}

/// What is recorded of uploaded snapshots, each under its name.
pub fn snapshot_records(status: &str, diff_json: Option<String>, baseline_id: Option<i64>) -> (r: Vec<
    (String, String),
>)
    ensures
        r.deep_view() == snapshot_records_spec(status@, diff_json.deep_view(), baseline_id),
{
    let mut records: Vec<(String, String)> = Vec::new();
    records.push(("_snapshot_status".to_owned(), status.to_owned()));
    assert(records.deep_view() =~= seq![("_snapshot_status"@, status@)]);
    if let Some(json) = diff_json {
        let ghost before = records.deep_view();
        records.push(("_snapshot_diff_json".to_owned(), json));
        assert(records.deep_view() =~= before.push(("_snapshot_diff_json"@, json@)));
    }
    if let Some(id) = baseline_id {
        let ghost before = records.deep_view();
        let number = decimal::of_i64(id);
        records.push(("_snapshot_baseline_id".to_owned(), number));
        assert(records.deep_view() =~= before.push(("_snapshot_baseline_id"@, number@)));
    }
    assert(records.deep_view() =~= snapshot_records_spec(
        status@,
        diff_json.deep_view(),
        baseline_id,
    ));
    records
}

/// The baseline set that is recorded at upload is the one that is read back when
/// the job is archived.
pub proof fn law_recorded_baseline(status: Seq<char>, diff_json: Option<Seq<char>>, id: i64)
    ensures
        ({
            let records = snapshot_records_spec(status, diff_json, Some(id));
            records.last().0 == "_snapshot_baseline_id"@ && reconciler::baseline_id_spec(
                Some(records.last().1),
            ) == Some(id)
        }),
{
    reconciler::law_baseline_id_kept(id);
}

/// A file that a job can upload never takes the place of what is recorded of its
/// snapshots.
pub proof fn law_uploads_leave_records(filename: Seq<char>)
    requires
        is_valid_file_spec(filename),
    ensures
        filename != "_snapshot_status"@,
        filename != "_snapshot_diff_json"@,
        filename != "_snapshot_baseline_id"@,
{
    reveal_strlit("_snapshot_status");
    reveal_strlit("_snapshot_diff_json");
    reveal_strlit("_snapshot_baseline_id");
    reveal_strlit("result.json");
    reveal_strlit("report.md");
    reveal_strlit("test-results.xml");
    reveal_strlit("archive.tar.gz");
    reveal_strlit("test-snapshots.tar.gz");
    assert("_snapshot_status"@[0] == '_' && "_snapshot_diff_json"@[0] == '_'
        && "_snapshot_baseline_id"@[0] == '_');
    assert("result.json"@[0] == 'r' && "report.md"@[0] == 'r' && "test-results.xml"@[0] == 't'
        && "archive.tar.gz"@[0] == 'a' && "test-snapshots.tar.gz"@[0] == 't');
}

/// What is recorded of uploaded snapshots: first their status, always; then their differences
/// and the baseline that they were compared with, each where there is one and under its name.
pub proof fn law_what_is_recorded(
    status: Seq<char>,
    diff_json: Option<Seq<char>>,
    baseline_id: Option<i64>,
)
    ensures
        ({
            let records = snapshot_records_spec(status, diff_json, baseline_id);
            &&& records.len() == 1 + (if diff_json is Some {
                1int
            } else {
                0
            }) + (if baseline_id is Some {
                1int
            } else {
                0
            })
            &&& records[0] == ("_snapshot_status"@, status)
            &&& diff_json matches Some(json) ==> records[1] == ("_snapshot_diff_json"@, json)
            &&& baseline_id matches Some(id) ==> records.last().0 == "_snapshot_baseline_id"@
                && decimal::parse_i64_spec(records.last().1) == Some(id as int)
        }),
{
    if let Some(id) = baseline_id {
        decimal::law_decimal_round_trip(id);
    }
}

} // verus!

//! Jobs that have left the cluster, as the database keeps them.

use vstd::prelude::*;

use crate::dup::Dup;
use crate::text;

verus! {

/// A job that has left the cluster.
#[derive(Clone, Debug)]
pub struct ArchivedJob {
    pub id: i64,
    pub name: String,
    pub namespace: String,
    pub job_template_name: String,
    pub job_template_namespace: String,
    pub uid: String,
    pub status: String,
    pub start_time: Option<String>,
    pub completion_time: Option<String>,
    pub duration_seconds: Option<i64>,
    pub logs: Option<String>,
    pub archived_at: String,
    pub output_result_json: Option<String>,
    pub output_report_md: Option<String>,
    pub output_test_results_xml: Option<String>,
    pub output_archive: Option<Vec<u8>>,
    pub output_test_snapshots: Option<Vec<u8>>,
    pub events_json: Option<String>,
    pub snapshot_status: Option<String>,
    pub snapshot_diff_json: Option<String>,
    pub artifact_sha: Option<String>,
    pub config_sha: Option<String>,
    pub snapshot_baseline_id: Option<i64>,
}

/// What a [`ArchivedJob`] holds.
#[verifier::ext_equal]
pub struct ArchivedJobView {
    pub id: i64,
    pub name: Seq<char>,
    pub namespace: Seq<char>,
    pub job_template_name: Seq<char>,
    pub job_template_namespace: Seq<char>,
    pub uid: Seq<char>,
    pub status: Seq<char>,
    pub start_time: Option<Seq<char>>,
    pub completion_time: Option<Seq<char>>,
    pub duration_seconds: Option<i64>,
    pub logs: Option<Seq<char>>,
    pub archived_at: Seq<char>,
    pub output_result_json: Option<Seq<char>>,
    pub output_report_md: Option<Seq<char>>,
    pub output_test_results_xml: Option<Seq<char>>,
    pub output_archive: Option<Seq<u8>>,
    pub output_test_snapshots: Option<Seq<u8>>,
    pub events_json: Option<Seq<char>>,
    pub snapshot_status: Option<Seq<char>>,
    pub snapshot_diff_json: Option<Seq<char>>,
    pub artifact_sha: Option<Seq<char>>,
    pub config_sha: Option<Seq<char>>,
    pub snapshot_baseline_id: Option<i64>,
}

impl DeepView for ArchivedJob {
    type V = ArchivedJobView;

    open spec fn deep_view(&self) -> ArchivedJobView {
        ArchivedJobView {
            id: self.id.deep_view(),
            name: self.name.deep_view(),
            namespace: self.namespace.deep_view(),
            job_template_name: self.job_template_name.deep_view(),
            job_template_namespace: self.job_template_namespace.deep_view(),
            uid: self.uid.deep_view(),
            status: self.status.deep_view(),
            start_time: self.start_time.deep_view(),
            completion_time: self.completion_time.deep_view(),
            duration_seconds: self.duration_seconds.deep_view(),
            logs: self.logs.deep_view(),
            archived_at: self.archived_at.deep_view(),
            output_result_json: self.output_result_json.deep_view(),
            output_report_md: self.output_report_md.deep_view(),
            output_test_results_xml: self.output_test_results_xml.deep_view(),
            output_archive: self.output_archive.deep_view(),
            output_test_snapshots: self.output_test_snapshots.deep_view(),
            events_json: self.events_json.deep_view(),
            snapshot_status: self.snapshot_status.deep_view(),
            snapshot_diff_json: self.snapshot_diff_json.deep_view(),
            artifact_sha: self.artifact_sha.deep_view(),
            config_sha: self.config_sha.deep_view(),
            snapshot_baseline_id: self.snapshot_baseline_id.deep_view(),
        }
    }
}

/// What is to be kept of a job that is about to leave the cluster.
pub struct ArchivedJobEgg {
    pub name: String,
    pub namespace: String,
    pub job_template_name: String,
    pub job_template_namespace: String,
    pub uid: String,
    pub status: String,
    pub start_time: Option<String>,
    pub completion_time: Option<String>,
    pub duration_seconds: Option<i64>,
    pub logs: Option<String>,
    pub output_result_json: Option<String>,
    pub output_report_md: Option<String>,
    pub output_test_results_xml: Option<String>,
    pub output_archive: Option<Vec<u8>>,
    pub output_test_snapshots: Option<Vec<u8>>,
    pub events_json: Option<String>,
    pub snapshot_status: Option<String>,
    pub snapshot_diff_json: Option<String>,
    pub artifact_sha: Option<String>,
    pub config_sha: Option<String>,
    pub snapshot_baseline_id: Option<i64>,
}

/// What a [`ArchivedJobEgg`] holds.
#[verifier::ext_equal]
pub struct ArchivedJobEggView {
    pub name: Seq<char>,
    pub namespace: Seq<char>,
    pub job_template_name: Seq<char>,
    pub job_template_namespace: Seq<char>,
    pub uid: Seq<char>,
    pub status: Seq<char>,
    pub start_time: Option<Seq<char>>,
    pub completion_time: Option<Seq<char>>,
    pub duration_seconds: Option<i64>,
    pub logs: Option<Seq<char>>,
    pub output_result_json: Option<Seq<char>>,
    pub output_report_md: Option<Seq<char>>,
    pub output_test_results_xml: Option<Seq<char>>,
    pub output_archive: Option<Seq<u8>>,
    pub output_test_snapshots: Option<Seq<u8>>,
    pub events_json: Option<Seq<char>>,
    pub snapshot_status: Option<Seq<char>>,
    pub snapshot_diff_json: Option<Seq<char>>,
    pub artifact_sha: Option<Seq<char>>,
    pub config_sha: Option<Seq<char>>,
    pub snapshot_baseline_id: Option<i64>,
}

impl DeepView for ArchivedJobEgg {
    type V = ArchivedJobEggView;

    open spec fn deep_view(&self) -> ArchivedJobEggView {
        ArchivedJobEggView {
            name: self.name.deep_view(),
            namespace: self.namespace.deep_view(),
            job_template_name: self.job_template_name.deep_view(),
            job_template_namespace: self.job_template_namespace.deep_view(),
            uid: self.uid.deep_view(),
            status: self.status.deep_view(),
            start_time: self.start_time.deep_view(),
            completion_time: self.completion_time.deep_view(),
            duration_seconds: self.duration_seconds.deep_view(),
            logs: self.logs.deep_view(),
            output_result_json: self.output_result_json.deep_view(),
            output_report_md: self.output_report_md.deep_view(),
            output_test_results_xml: self.output_test_results_xml.deep_view(),
            output_archive: self.output_archive.deep_view(),
            output_test_snapshots: self.output_test_snapshots.deep_view(),
            events_json: self.events_json.deep_view(),
            snapshot_status: self.snapshot_status.deep_view(),
            snapshot_diff_json: self.snapshot_diff_json.deep_view(),
            artifact_sha: self.artifact_sha.deep_view(),
            config_sha: self.config_sha.deep_view(),
            snapshot_baseline_id: self.snapshot_baseline_id.deep_view(),
        }
    }
}

/// The status of snapshots that were made the baseline.
pub open spec fn accepted_status() -> Seq<char> {
    "accepted_as_baseline"@
}

/// The row of a job that the database did not have.
pub open spec fn inserted_spec(egg: ArchivedJobEggView, id: i64, archived_at: Seq<char>) -> ArchivedJobView {
    ArchivedJobView {
        id,
        archived_at,
        name: egg.name,
        namespace: egg.namespace,
        job_template_name: egg.job_template_name,
        job_template_namespace: egg.job_template_namespace,
        uid: egg.uid,
        status: egg.status,
        start_time: egg.start_time,
        completion_time: egg.completion_time,
        duration_seconds: egg.duration_seconds,
        logs: egg.logs,
        output_result_json: egg.output_result_json,
        output_report_md: egg.output_report_md,
        output_test_results_xml: egg.output_test_results_xml,
        output_archive: egg.output_archive,
        output_test_snapshots: egg.output_test_snapshots,
        events_json: egg.events_json,
        snapshot_status: egg.snapshot_status,
        snapshot_diff_json: egg.snapshot_diff_json,
        artifact_sha: egg.artifact_sha,
        config_sha: egg.config_sha,
        snapshot_baseline_id: egg.snapshot_baseline_id,
    }
}

/// The row of a job that the database already had. What the job is keeps its
/// value; what became of it is replaced. Snapshots that were accepted stay
/// accepted, and a baseline that was recorded stays recorded.
pub open spec fn updated_spec(row: ArchivedJobView, egg: ArchivedJobEggView) -> ArchivedJobView {
    let accepted = row.snapshot_status == Some(accepted_status());
    ArchivedJobView {
        status: egg.status,
        completion_time: egg.completion_time,
        duration_seconds: egg.duration_seconds,
        logs: egg.logs,
        output_result_json: egg.output_result_json,
        output_report_md: egg.output_report_md,
        output_test_results_xml: egg.output_test_results_xml,
        output_archive: egg.output_archive,
        output_test_snapshots: egg.output_test_snapshots,
        events_json: egg.events_json,
        snapshot_status: if accepted {
            row.snapshot_status
        } else {
            egg.snapshot_status
        },
        snapshot_diff_json: if accepted {
            row.snapshot_diff_json
        } else {
            egg.snapshot_diff_json
        },
        artifact_sha: egg.artifact_sha,
        config_sha: egg.config_sha,
        snapshot_baseline_id: if row.snapshot_baseline_id is Some {
            row.snapshot_baseline_id
        } else {
            egg.snapshot_baseline_id
        },
        ..row
    }
}

impl ArchivedJob {
    /// The row to insert for a job that the database does not have.
    pub fn inserted(egg: &ArchivedJobEgg, id: i64, archived_at: String) -> (r: ArchivedJob)
        ensures
            r.deep_view() == inserted_spec(egg.deep_view(), id, archived_at@),
    {
        ArchivedJob {
            id,
            archived_at,
            name: egg.name.dup(),
            namespace: egg.namespace.dup(),
            job_template_name: egg.job_template_name.dup(),
            job_template_namespace: egg.job_template_namespace.dup(),
            uid: egg.uid.dup(),
            status: egg.status.dup(),
            start_time: egg.start_time.dup(),
            completion_time: egg.completion_time.dup(),
            duration_seconds: egg.duration_seconds.dup(),
            logs: egg.logs.dup(),
            output_result_json: egg.output_result_json.dup(),
            output_report_md: egg.output_report_md.dup(),
            output_test_results_xml: egg.output_test_results_xml.dup(),
            output_archive: egg.output_archive.dup(),
            output_test_snapshots: egg.output_test_snapshots.dup(),
            events_json: egg.events_json.dup(),
            snapshot_status: egg.snapshot_status.dup(),
            snapshot_diff_json: egg.snapshot_diff_json.dup(),
            artifact_sha: egg.artifact_sha.dup(),
            config_sha: egg.config_sha.dup(),
            snapshot_baseline_id: egg.snapshot_baseline_id.dup(),
        }
    }

    /// The row that takes the place of `self` when its job is archived again.
    pub fn updated(self, egg: &ArchivedJobEgg) -> (r: ArchivedJob)
        ensures
            r.deep_view() == updated_spec(self.deep_view(), egg.deep_view()),
    {
        let accepted: bool = match &self.snapshot_status {
            Some(status) => text::eq(status.as_str(), "accepted_as_baseline"),
            None => false,
        };
        let snapshot_baseline_id: Option<i64> = match self.snapshot_baseline_id {
            Some(id) => Some(id),
            None => egg.snapshot_baseline_id,
        };
        ArchivedJob {
            id: self.id,
            name: self.name,
            namespace: self.namespace,
            job_template_name: self.job_template_name,
            job_template_namespace: self.job_template_namespace,
            uid: self.uid,
            status: egg.status.dup(),
            start_time: self.start_time,
            completion_time: egg.completion_time.dup(),
            duration_seconds: egg.duration_seconds,
            logs: egg.logs.dup(),
            archived_at: self.archived_at,
            output_result_json: egg.output_result_json.dup(),
            output_report_md: egg.output_report_md.dup(),
            output_test_results_xml: egg.output_test_results_xml.dup(),
            output_archive: egg.output_archive.dup(),
            output_test_snapshots: egg.output_test_snapshots.dup(),
            events_json: egg.events_json.dup(),
            snapshot_status: if accepted {
                self.snapshot_status
            } else {
                egg.snapshot_status.dup()
            },
            snapshot_diff_json: if accepted {
                self.snapshot_diff_json
            } else {
                egg.snapshot_diff_json.dup()
            },
            artifact_sha: egg.artifact_sha.dup(),
            config_sha: egg.config_sha.dup(),
            snapshot_baseline_id,
        }
    }

    /// The row with another status of its snapshots.
    pub fn with_snapshot_status(self, status: &str) -> (r: ArchivedJob)
        ensures
            r.deep_view() == (ArchivedJobView {
                snapshot_status: Some(status@),
                ..self.deep_view()
            }),
    {
        ArchivedJob { snapshot_status: Some(status.to_owned()), ..self }
    }
}

/// Once the snapshots of a job have been accepted as baseline, archiving the
/// job again leaves their status and their recorded differences as they are.
pub proof fn law_acceptance_survives(row: ArchivedJobView, egg: ArchivedJobEggView)
    requires
        row.snapshot_status == Some(accepted_status()),
    ensures
        updated_spec(row, egg).snapshot_status == Some(accepted_status()),
        updated_spec(row, egg).snapshot_diff_json == row.snapshot_diff_json,
{
}

/// Archiving a job again changes neither which job the row is of, nor a
/// baseline that was recorded for it.
pub proof fn law_identity_survives(row: ArchivedJobView, egg: ArchivedJobEggView)
    ensures
        ({
            let after = updated_spec(row, egg);
            &&& after.id == row.id
            &&& after.name == row.name
            &&& after.namespace == row.namespace
            &&& after.job_template_name == row.job_template_name
            &&& after.job_template_namespace == row.job_template_namespace
            &&& after.uid == row.uid
            &&& after.start_time == row.start_time
            &&& after.archived_at == row.archived_at
            &&& row.snapshot_baseline_id is Some ==> after.snapshot_baseline_id
                == row.snapshot_baseline_id
        }),
{
}

/// Archiving a job twice with the same facts is the same as archiving it once.
pub proof fn law_update_idempotent(row: ArchivedJobView, egg: ArchivedJobEggView)
    ensures
        updated_spec(updated_spec(row, egg), egg) == updated_spec(row, egg),
{
}

/// Archiving a job again brings in what has become of it since: its status, its end, its logs,
/// its events and its output, and what was built. What its snapshots came to is brought in
/// unless they were accepted, and the baseline only where none was recorded.
pub proof fn law_update_brings_news(row: ArchivedJobView, egg: ArchivedJobEggView)
    ensures
        ({
            let after = updated_spec(row, egg);
            &&& after.status == egg.status
            &&& after.completion_time == egg.completion_time
            &&& after.duration_seconds == egg.duration_seconds
            &&& after.logs == egg.logs
            &&& after.events_json == egg.events_json
            &&& after.output_result_json == egg.output_result_json
            &&& after.output_report_md == egg.output_report_md
            &&& after.output_test_results_xml == egg.output_test_results_xml
            &&& after.output_archive == egg.output_archive
            &&& after.output_test_snapshots == egg.output_test_snapshots
            &&& after.artifact_sha == egg.artifact_sha
            &&& after.config_sha == egg.config_sha
            &&& row.snapshot_status != Some("accepted_as_baseline"@) ==> after.snapshot_status
                == egg.snapshot_status && after.snapshot_diff_json == egg.snapshot_diff_json
            &&& row.snapshot_status == Some("accepted_as_baseline"@) ==> after.snapshot_status
                == row.snapshot_status && after.snapshot_diff_json == row.snapshot_diff_json
            &&& row.snapshot_baseline_id is None ==> after.snapshot_baseline_id
                == egg.snapshot_baseline_id
        }),
{
}

/// A job that is archived for the first time and then again with the same facts is archived as
/// it was.
pub proof fn law_insert_then_update(egg: ArchivedJobEggView, id: i64, archived_at: Seq<char>)
    ensures
        updated_spec(inserted_spec(egg, id, archived_at), egg) == inserted_spec(
            egg,
            id,
            archived_at,
        ),
{
}

} // verus!

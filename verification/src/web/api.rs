//! What the programming interface answers.

use vstd::prelude::*;

use crate::db::archived_job::{ArchivedJob, ArchivedJobView};
use crate::db::job_output::{from_utf8, utf8_spec};
use crate::dup::{text_or_empty, Dup};
use crate::json::{Json, JsonView};
use crate::kubernetes::job::{Job, JobView, Verdict};
use crate::kubernetes::job_create::empty_object;
use crate::kubernetes::job_template::{JobTemplate, JobTemplateView};
use crate::kubernetes::reconciler;
use crate::order::{self, text_le, Ordered};
use crate::snapshot::{
    diff_lines_spec, hunks_spec, json_diff, pretty_json_spec, DiffLine, DiffLineView, FileDiffStatus,
    FileDiffView, Files, SnapshotDiff,
};
use crate::sorted_map::SortedMap;
use crate::text;
use crate::time::{self, Timestamp};
use crate::metrics::suites_of_xml;
use crate::web::junit::{
    parse_junit_xml, TestCase, TestCaseStatus, TestCaseStatusView, TestCaseView, TestSuite, TestSuiteView, TestSuites,
    TestSuitesView,
};

verus! {

/// A template, as it is answered.
#[derive(Debug)]
pub struct ApiJobTemplate {
    pub name: String,
    pub namespace: String,
    pub schedule: Option<String>,
    pub cleanup_after: String,
    pub acceptance_test: bool,
    pub artifact_sha: Option<String>,
    pub config_sha: Option<String>,
}

/// What a [`ApiJobTemplate`] holds.
#[verifier::ext_equal]
pub struct ApiJobTemplateView {
    pub name: Seq<char>,
    pub namespace: Seq<char>,
    pub schedule: Option<Seq<char>>,
    pub cleanup_after: Seq<char>,
    pub acceptance_test: bool,
    pub artifact_sha: Option<Seq<char>>,
    pub config_sha: Option<Seq<char>>,
}

impl DeepView for ApiJobTemplate {
    type V = ApiJobTemplateView;

    open spec fn deep_view(&self) -> ApiJobTemplateView {
        ApiJobTemplateView {
            name: self.name.deep_view(),
            namespace: self.namespace.deep_view(),
            schedule: self.schedule.deep_view(),
            cleanup_after: self.cleanup_after.deep_view(),
            acceptance_test: self.acceptance_test.deep_view(),
            artifact_sha: self.artifact_sha.deep_view(),
            config_sha: self.config_sha.deep_view(),
        }
    }
}

/// A job, as it is answered.
#[derive(Debug)]
pub struct ApiJob {
    pub name: String,
    pub namespace: String,
    pub source: String,
    pub status: String,
    pub start_time: Option<String>,
    pub completion_time: Option<String>,
    pub duration_seconds: Option<i64>,
    pub job_template_name: Option<String>,
    pub job_template_namespace: Option<String>,
    pub snapshot_status: Option<String>,
    pub artifact_sha: Option<String>,
}

/// What a [`ApiJob`] holds.
#[verifier::ext_equal]
pub struct ApiJobView {
    pub name: Seq<char>,
    pub namespace: Seq<char>,
    pub source: Seq<char>,
    pub status: Seq<char>,
    pub start_time: Option<Seq<char>>,
    pub completion_time: Option<Seq<char>>,
    pub duration_seconds: Option<i64>,
    pub job_template_name: Option<Seq<char>>,
    pub job_template_namespace: Option<Seq<char>>,
    pub snapshot_status: Option<Seq<char>>,
    pub artifact_sha: Option<Seq<char>>,
}

impl DeepView for ApiJob {
    type V = ApiJobView;

    open spec fn deep_view(&self) -> ApiJobView {
        ApiJobView {
            name: self.name.deep_view(),
            namespace: self.namespace.deep_view(),
            source: self.source.deep_view(),
            status: self.status.deep_view(),
            start_time: self.start_time.deep_view(),
            completion_time: self.completion_time.deep_view(),
            duration_seconds: self.duration_seconds.deep_view(),
            job_template_name: self.job_template_name.deep_view(),
            job_template_namespace: self.job_template_namespace.deep_view(),
            snapshot_status: self.snapshot_status.deep_view(),
            artifact_sha: self.artifact_sha.deep_view(),
        }
    }
}

/// Test results, as they are answered.
#[derive(Debug)]
pub struct ApiTestSuites {
    pub total_tests: u32,
    pub total_failures: u32,
    pub total_errors: u32,
    pub total_skipped: u32,
    pub all_passed: bool,
    pub suites: Vec<ApiTestSuite>,
}

/// What a [`ApiTestSuites`] holds.
#[verifier::ext_equal]
pub struct ApiTestSuitesView {
    pub total_tests: u32,
    pub total_failures: u32,
    pub total_errors: u32,
    pub total_skipped: u32,
    pub all_passed: bool,
    pub suites: Seq<ApiTestSuiteView>,
}

impl DeepView for ApiTestSuites {
    type V = ApiTestSuitesView;

    open spec fn deep_view(&self) -> ApiTestSuitesView {
        ApiTestSuitesView {
            total_tests: self.total_tests.deep_view(),
            total_failures: self.total_failures.deep_view(),
            total_errors: self.total_errors.deep_view(),
            total_skipped: self.total_skipped.deep_view(),
            all_passed: self.all_passed.deep_view(),
            suites: self.suites.deep_view(),
        }
    }
}

/// A test suite, as it is answered.
#[derive(Debug)]
pub struct ApiTestSuite {
    pub name: String,
    pub tests: u32,
    pub failures: u32,
    pub errors: u32,
    pub skipped: u32,
    pub time: Option<String>,
    pub cases: Vec<ApiTestCase>,
}

/// What a [`ApiTestSuite`] holds.
#[verifier::ext_equal]
pub struct ApiTestSuiteView {
    pub name: Seq<char>,
    pub tests: u32,
    pub failures: u32,
    pub errors: u32,
    pub skipped: u32,
    pub time: Option<Seq<char>>,
    pub cases: Seq<ApiTestCaseView>,
}

impl DeepView for ApiTestSuite {
    type V = ApiTestSuiteView;

    open spec fn deep_view(&self) -> ApiTestSuiteView {
        ApiTestSuiteView {
            name: self.name.deep_view(),
            tests: self.tests.deep_view(),
            failures: self.failures.deep_view(),
            errors: self.errors.deep_view(),
            skipped: self.skipped.deep_view(),
            time: self.time.deep_view(),
            cases: self.cases.deep_view(),
        }
    }
}

/// A test case, as it is answered.
#[derive(Debug)]
pub struct ApiTestCase {
    pub name: String,
    pub classname: Option<String>,
    pub time: Option<String>,
    pub status: String,
    pub message: Option<String>,
    pub body: Option<String>,
}

/// What a [`ApiTestCase`] holds.
#[verifier::ext_equal]
pub struct ApiTestCaseView {
    pub name: Seq<char>,
    pub classname: Option<Seq<char>>,
    pub time: Option<Seq<char>>,
    pub status: Seq<char>,
    pub message: Option<Seq<char>>,
    pub body: Option<Seq<char>>,
}

impl DeepView for ApiTestCase {
    type V = ApiTestCaseView;

    open spec fn deep_view(&self) -> ApiTestCaseView {
        ApiTestCaseView {
            name: self.name.deep_view(),
            classname: self.classname.deep_view(),
            time: self.time.deep_view(),
            status: self.status.deep_view(),
            message: self.message.deep_view(),
            body: self.body.deep_view(),
        }
    }
}

/// A template, as it is answered.
pub open spec fn jt_to_api_spec(jt: JobTemplateView) -> ApiJobTemplateView {
    ApiJobTemplateView {
        name: jt.metadata.name_any(),
        namespace: jt.metadata.namespace_or_empty(),
        schedule: jt.spec.schedule,
        cleanup_after: jt.cleanup_after(),
        acceptance_test: jt.is_acceptance_test(),
        artifact_sha: jt.metadata.annotation("artifactSha"@),
        config_sha: jt.metadata.annotation("configSha"@),
    }
}

/// A template, as it is answered.
pub fn jt_to_api(jt: &JobTemplate) -> (r: ApiJobTemplate)
    ensures
        r.deep_view() == jt_to_api_spec(jt.deep_view()),
{
    let acceptance_test: bool = jt.is_acceptance_test();
    ApiJobTemplate {
        name: jt.metadata.name_any(),
        namespace: text_or_empty(&jt.metadata.namespace),
        schedule: jt.spec.schedule.dup(),
        cleanup_after: jt.cleanup_after().to_owned(),
        acceptance_test,
        artifact_sha: jt.metadata.annotation("artifactSha"),
        config_sha: jt.metadata.annotation("configSha"),
    }
}

/// The status of a live job: how it ended, or else whether a pod of it runs.
pub open spec fn job_status_spec(job: JobView) -> Seq<char> {
    match job.verdict() {
        Some(Verdict::Succeeded) => "Succeeded"@,
        Some(Verdict::Failed) => "Failed"@,
        None => if job.status matches Some(status) && status.some_active() && status.some_ready() {
            "Running"@
        } else {
            "Pending"@
        },
    }
}

/// The status of a live job.
pub fn job_status(job: &Job) -> (r: &'static str)
    ensures
        r@ == job_status_spec(job.deep_view()),
{
    match job.verdict() {
        Some(Verdict::Succeeded) => "Succeeded",
        Some(Verdict::Failed) => "Failed",
        None => match &job.status {
            Some(status) => if status.some_active() && status.some_ready() {
                "Running"
            } else {
                "Pending"
            },
            None => "Pending",
        },
    }
}

pub open spec fn moment_text_spec(t: Option<Timestamp>) -> Option<Seq<char>> {
    match t {
        Some(m) => Some(time::rfc3339_spec(m.secs(), m.nanos())),
        None => None,
    }
}

fn moment_text(t: &Option<Timestamp>) -> (r: Option<String>)
    ensures
        r.deep_view() == moment_text_spec(*t),
{
    match t {
        Some(m) => Some(time::to_rfc3339(m)),
        None => None,
    }
}

impl JobView {
    /// The moment at which the job completed.
    pub open spec fn completion_time(self) -> Option<Timestamp> {
        match self.status {
            Some(status) => status.completion_time,
            None => None,
        }
    }

    /// For how long the job ran, or has been running by now.
    pub open spec fn running_secs(self, now: Timestamp) -> Option<i64> {
        reconciler::duration_between(
            self.start_time(),
            match self.completion_time() {
                Some(end) => end,
                None => now,
            },
        )
    }
}

/// For how long a job ran, or has been running by now, in whole seconds; nothing
/// where it has not begun.
pub fn running_secs(job: &Job, now: &Timestamp) -> (r: Option<i64>)
    ensures
        r == job.deep_view().running_secs(*now),
{
    match &job.status {
        Some(status) => match &status.start_time {
            Some(start) => {
                let end: Timestamp = match &status.completion_time {
                    Some(t) => *t,
                    None => *now,
                };
                Some(end.seconds_since(start))
            },
            None => None,
        },
        None => None,
    }
}

/// A live job, as it is answered.
pub open spec fn live_job_spec(job: JobView, now: Timestamp) -> ApiJobView {
    ApiJobView {
        name: job.metadata.name_any(),
        namespace: job.metadata.namespace_or_empty(),
        source: "live"@,
        status: job_status_spec(job),
        start_time: moment_text_spec(job.start_time()),
        completion_time: moment_text_spec(job.completion_time()),
        duration_seconds: job.running_secs(now),
        job_template_name: match job.template_owner() {
            Some(owner) => Some(owner.name),
            None => None,
        },
        job_template_namespace: Some(job.metadata.namespace_or_empty()),
        snapshot_status: None,
        artifact_sha: job.metadata.annotation("artifactSha"@),
    }
}

/// A live job, as it is answered.
pub fn live_job_to_api(job: &Job, now: &Timestamp) -> (r: ApiJob)
    ensures
        r.deep_view() == live_job_spec(job.deep_view(), *now),
{
    let completion: Option<Timestamp> = match &job.status {
        Some(status) => status.completion_time,
        None => None,
    };
    let duration_seconds: Option<i64> = running_secs(job, now);
    ApiJob {
        name: job.metadata.name_any(),
        namespace: text_or_empty(&job.metadata.namespace),
        source: "live".to_owned(),
        status: job_status(job).to_owned(),
        start_time: moment_text(&job.start_time()),
        completion_time: moment_text(&completion),
        duration_seconds,
        job_template_name: match job.template_owner() {
            Some(owner) => Some(owner.name.clone()),
            None => None,
        },
        job_template_namespace: Some(text_or_empty(&job.metadata.namespace)),
        snapshot_status: None,
        artifact_sha: job.metadata.annotation("artifactSha"),
    }
}

/// An archived job, as it is answered.
pub open spec fn archived_job_spec(job: ArchivedJobView) -> ApiJobView {
    ApiJobView {
        name: job.name,
        namespace: job.namespace,
        source: "archived"@,
        status: job.status,
        start_time: job.start_time,
        completion_time: job.completion_time,
        duration_seconds: job.duration_seconds,
        job_template_name: Some(job.job_template_name),
        job_template_namespace: Some(job.job_template_namespace),
        snapshot_status: job.snapshot_status,
        artifact_sha: job.artifact_sha,
    }
}

/// An archived job, as it is answered.
pub fn archived_job_to_api(job: &ArchivedJob) -> (r: ApiJob)
    ensures
        r.deep_view() == archived_job_spec(job.deep_view()),
{
    ApiJob {
        name: job.name.clone(),
        namespace: job.namespace.clone(),
        source: "archived".to_owned(),
        status: job.status.clone(),
        start_time: job.start_time.dup(),
        completion_time: job.completion_time.dup(),
        duration_seconds: job.duration_seconds,
        job_template_name: Some(job.job_template_name.clone()),
        job_template_namespace: Some(job.job_template_namespace.clone()),
        snapshot_status: job.snapshot_status.dup(),
        artifact_sha: job.artifact_sha.dup(),
    }
}

/// A live job with the status that was recorded of its snapshots, which counts
/// only once the job has ended.
pub open spec fn live_job_with_snapshots_spec(
    job: JobView,
    snapshot_status: Option<Seq<char>>,
    now: Timestamp,
) -> ApiJobView {
    if job.is_terminal() {
        ApiJobView { snapshot_status, ..live_job_spec(job, now) }
    } else {
        live_job_spec(job, now)
    }
}

/// A live job with the status that was recorded of its snapshots.
pub fn live_job_with_snapshots(job: &Job, snapshot_status: &Option<String>, now: &Timestamp) -> (r:
    ApiJob)
    ensures
        r.deep_view() == live_job_with_snapshots_spec(
            job.deep_view(),
            snapshot_status.deep_view(),
            *now,
        ),
{
    let mut api = live_job_to_api(job, now);
    if job.is_terminal() {
        api.snapshot_status = snapshot_status.dup();
    }
    api
}

/// The order of texts of which either may be missing: a missing one comes first.
pub open spec fn option_text_le(a: Option<Seq<char>>, b: Option<Seq<char>>) -> bool {
    match (a, b) {
        (None, _) => true,
        (Some(_), None) => false,
        (Some(x), Some(y)) => text_le(x, y),
    }
}

/// Jobs are ordered by their start times, the latest first, and those without one last.
impl Ordered for ApiJob {
    open spec fn before(a: ApiJobView, b: ApiJobView) -> bool {
        option_text_le(b.start_time, a.start_time)
    }

    proof fn lemma_total(a: ApiJobView, b: ApiJobView) {
        if let (Some(x), Some(y)) = (a.start_time, b.start_time) {
            order::lemma_text_total(x, y);
        }
    }

    proof fn lemma_transitive(a: ApiJobView, b: ApiJobView, c: ApiJobView) {
        if let (Some(x), Some(y), Some(z)) = (a.start_time, b.start_time, c.start_time) {
            order::lemma_text_transitive(z, y, x);
        }
    }

    fn is_before(&self, other: &ApiJob) -> (r: bool) {
        match (&other.start_time, &self.start_time) {
            (None, _) => true,
            (Some(_), None) => false,
            (Some(x), Some(y)) => order::le(x.as_str(), y.as_str()),
        }
    }
}

/// The live jobs of a template, as they are answered. Each comes with the status
/// that was recorded of its snapshots.
pub open spec fn live_jobs_spec(
    jobs: Seq<(JobView, Option<Seq<char>>)>,
    uid: Seq<char>,
    now: Timestamp,
) -> Seq<ApiJobView>
    decreases jobs.len(),
{
    if jobs.len() == 0 {
        Seq::empty()
    } else {
        let front = live_jobs_spec(jobs.drop_last(), uid, now);
        let (job, snapshot_status) = jobs.last();
        if job.metadata.owned_by(uid) {
            front.push(live_job_with_snapshots_spec(job, snapshot_status, now))
        } else {
            front
        }
    }
}

/// The jobs of a template, the latest first: its live jobs, where the template is
/// known, and its archived ones.
pub open spec fn template_jobs_spec(
    jobs: Seq<(JobView, Option<Seq<char>>)>,
    uid: Option<Seq<char>>,
    archived: Seq<ArchivedJobView>,
    now: Timestamp,
) -> Seq<ApiJobView> {
    let live = match uid {
        Some(u) => live_jobs_spec(jobs, u, now),
        None => Seq::empty(),
    };
    order::sorted_spec::<ApiJob>(
        live + archived.map_values(|j: ArchivedJobView| archived_job_spec(j)),
    )
}

/// The jobs of a template, the latest first. `jobs` are the live jobs of the
/// namespace, each with the status that was recorded of its snapshots; `uid` is
/// the identifier of the template, where it is known.
pub fn list_jobs_for_template(
    jobs: &Vec<(Job, Option<String>)>,
    uid: &Option<String>,
    archived: &Vec<ArchivedJob>,
    now: &Timestamp,
) -> (r: Vec<ApiJob>)
    ensures
        r.deep_view() == template_jobs_spec(
            jobs.deep_view(),
            uid.deep_view(),
            archived.deep_view(),
            *now,
        ),
{
    let ghost all = jobs.deep_view();
    let ghost live = match uid.deep_view() {
        Some(u) => live_jobs_spec(all, u, *now),
        None => Seq::empty(),
    };
    let mut list: Vec<ApiJob> = Vec::new();
    assert(list.deep_view() =~= Seq::empty());
    if let Some(u) = uid {
        for i in 0..jobs.len()
            invariant
                all == jobs.deep_view(),
                list.deep_view() == live_jobs_spec(all.take(i as int), u@, *now),
        {
            let ghost before = list.deep_view();
            assert(all.take(i + 1).drop_last() =~= all.take(i as int));
            assert(all.take(i + 1).last() == jobs@[i as int].deep_view());
            if jobs[i].0.metadata.owned_by(u.as_str()) {
                let job = live_job_with_snapshots(&jobs[i].0, &jobs[i].1, now);
                list.push(job);
                assert(list.deep_view() =~= before.push(job.deep_view()));
            }
        }
        assert(all.take(all.len() as int) =~= all);
    }
    assert(list.deep_view() == live);
    let ghost f = |j: ArchivedJobView| archived_job_spec(j);
    let ghost rows = archived.deep_view();
    for i in 0..archived.len()
        invariant
            rows == archived.deep_view(),
            f == (|j: ArchivedJobView| archived_job_spec(j)),
            list.deep_view() == live + rows.take(i as int).map_values(f),
    {
        let ghost before = list.deep_view();
        let job = archived_job_to_api(&archived[i]);
        list.push(job);
        assert(list.deep_view() =~= before.push(job.deep_view()));
        assert(rows[i as int] == archived@[i as int].deep_view());
        assert(rows.take(i + 1).map_values(f) =~= rows.take(i as int).map_values(f).push(
            job.deep_view(),
        ));
        assert(list.deep_view() =~= live + rows.take(i + 1).map_values(f));
    }
    assert(rows.take(rows.len() as int) =~= rows);
    order::sort(list)
}

/// The jobs of a template are listed with the latest first, and every live job of it and
/// every archived one is listed, each once.
pub proof fn law_jobs_newest_first(
    jobs: Seq<(JobView, Option<Seq<char>>)>,
    uid: Seq<char>,
    archived: Seq<ArchivedJobView>,
    now: Timestamp,
)
    ensures
        ({
            let list = template_jobs_spec(jobs, Some(uid), archived, now);
            &&& forall|i: int, j: int|
                0 <= i < j < list.len() ==> option_text_le(
                    (#[trigger] list[j]).start_time,
                    (#[trigger] list[i]).start_time,
                )
            &&& list.to_multiset() == (live_jobs_spec(jobs, uid, now) + archived.map_values(
                |j: ArchivedJobView| archived_job_spec(j),
            )).to_multiset()
        }),
{
    let all = live_jobs_spec(jobs, uid, now) + archived.map_values(
        |j: ArchivedJobView| archived_job_spec(j),
    );
    order::law_sorted_in_order::<ApiJob>(all);
    order::law_sorted_same_values::<ApiJob>(all);
    let list = template_jobs_spec(jobs, Some(uid), archived, now);
    assert forall|i: int, j: int| 0 <= i < j < list.len() implies option_text_le(
        (#[trigger] list[j]).start_time,
        (#[trigger] list[i]).start_time,
    ) by {
        assert(ApiJob::before(list[i], list[j]));
    }
}

/// The answer for a single job: the live one, or else the archived one.
pub open spec fn get_job_spec(
    live: Option<(JobView, Option<Seq<char>>)>,
    archived: Option<ArchivedJobView>,
    now: Timestamp,
) -> Option<ApiJobView> {
    match live {
        Some((job, snapshot_status)) => Some(
            live_job_with_snapshots_spec(job, snapshot_status, now),
        ),
        None => match archived {
            Some(row) => Some(archived_job_spec(row)),
            None => None,
        },
    }
}

/// The answer for a single job. `live` is the job of the cluster with the status
/// that was recorded of its snapshots, `archived` the one of the archive.
pub fn get_job(
    live: &Option<(Job, Option<String>)>,
    archived: &Option<ArchivedJob>,
    now: &Timestamp,
) -> (r: Option<ApiJob>)
    ensures
        r.deep_view() == get_job_spec(live.deep_view(), archived.deep_view(), *now),
{
    match live {
        Some(found) => Some(live_job_with_snapshots(&found.0, &found.1, now)),
        None => match archived {
            Some(row) => Some(archived_job_to_api(row)),
            None => None,
        },
    }
}

/// The last lines of a text, where a number of lines is asked for; else the text.
pub open spec fn tail_spec(text: Seq<char>, tail: Option<i64>) -> Seq<char> {
    match tail {
        Some(n) => if n > 0 {
            let lines = text::lines_spec(text);
            let from = if lines.len() > n {
                lines.len() - n
            } else {
                0
            };
            text::join_spec(lines.skip(from), "\n"@)
        } else {
            text
        },
        None => text,
    }
}

/// The last lines of the logs of an archived job.
pub fn tail_lines(logs: &str, tail: Option<i64>) -> (r: String)
    ensures
        r@ == tail_spec(logs@, tail),
{
    match tail {
        Some(n) => {
            if n > 0 {
                let lines = text::lines(logs);
                let len: usize = lines.len();
                let from: usize = if (len as u128) > (n as u128) {
                    len - n as usize
                } else {
                    0
                };
                let ghost all = lines.deep_view();
                let mut kept: Vec<String> = Vec::new();
                assert(kept.deep_view() =~= all.subrange(from as int, from as int));
                for i in from..len
                    invariant
                        from <= len,
                        len == lines@.len(),
                        all == lines.deep_view(),
                        kept.deep_view() == all.subrange(from as int, i as int),
                {
                    let ghost before = kept.deep_view();
                    kept.push(lines[i].clone());
                    assert(kept.deep_view() =~= before.push(lines@[i as int]@));
                    assert(all[i as int] == lines@[i as int]@);
                    assert(all.subrange(from as int, i + 1) =~= all.subrange(
                        from as int,
                        i as int,
                    ).push(all[i as int]));
                }
                assert(all.subrange(from as int, len as int) =~= all.skip(from as int));
                text::join(&kept, "\n")
            } else {
                logs.to_owned()
            }
        },
        None => logs.to_owned(),
    }
}

/// The logs of a job: those of the cluster where the job is live, else the last
/// lines of the archived ones; an error where there is no such job.
pub open spec fn job_logs_answer_spec(
    namespace: Seq<char>,
    name: Seq<char>,
    live: Option<Option<Seq<char>>>,
    archived: Option<Option<Seq<char>>>,
    tail: Option<i64>,
) -> Result<Seq<char>, Seq<char>> {
    match live {
        Some(logs) => Ok(
            match logs {
                Some(t) => t,
                None => Seq::empty(),
            },
        ),
        None => match archived {
            Some(logs) => Ok(
                tail_spec(
                    match logs {
                        Some(t) => t,
                        None => Seq::empty(),
                    },
                    tail,
                ),
            ),
            None => Err("Job "@ + namespace + "/"@ + name + " not found"@),
        },
    }
}

pub open spec fn text_result(r: Result<String, String>) -> Result<Seq<char>, Seq<char>> {
    match r {
        Ok(t) => Ok(t@),
        Err(e) => Err(e@),
    }
}

/// The message for a job that there is not.
pub fn job_not_found(namespace: &str, name: &str) -> (r: String)
    ensures
        r@ == "Job "@ + namespace@ + "/"@ + name@ + " not found"@,
{
    let mut r = "Job ".to_owned();
    r.append(namespace);
    r.append("/");
    r.append(name);
    r.append(" not found");
    r
}

/// The logs of a job. `live` are those of the cluster where the job is live,
/// `archived` those of the archive where it is there.
pub fn get_job_logs(
    namespace: &str,
    name: &str,
    live: Option<Option<String>>,
    archived: Option<Option<String>>,
    tail: Option<i64>,
) -> (r: Result<String, String>)
    ensures
        text_result(r) == job_logs_answer_spec(
            namespace@,
            name@,
            live.deep_view(),
            archived.deep_view(),
            tail,
        ),
{
    match live {
        Some(logs) => Ok(text_or_empty(&logs)),
        None => match archived {
            Some(logs) => {
                let text = text_or_empty(&logs);
                Ok(tail_lines(text.as_str(), tail))
            },
            None => Err(job_not_found(namespace, name)),
        },
    }
}

/// A test case, as it is answered.
pub open spec fn case_to_api_spec(tc: TestCaseView) -> ApiTestCaseView {
    let (status, message, body) = match tc.status {
        TestCaseStatusView::Passed => ("passed"@, None, None),
        TestCaseStatusView::Failed { message, body } => ("failed"@, message, body),
        TestCaseStatusView::Error { message, body } => ("error"@, message, body),
        TestCaseStatusView::Skipped { message } => ("skipped"@, message, None),
    };
    ApiTestCaseView { name: tc.name, classname: tc.classname, time: tc.time, status, message, body }
}

/// A test case, as it is answered.
pub fn case_to_api(tc: &TestCase) -> (r: ApiTestCase)
    ensures
        r.deep_view() == case_to_api_spec(tc.deep_view()),
{
    let (status, message, body): (&str, Option<String>, Option<String>) = match &tc.status {
        TestCaseStatus::Passed => ("passed", None, None),
        TestCaseStatus::Failed { message, body } => ("failed", message.dup(), body.dup()),
        TestCaseStatus::Error { message, body } => ("error", message.dup(), body.dup()),
        TestCaseStatus::Skipped { message } => ("skipped", message.dup(), None),
    };
    ApiTestCase {
        name: tc.name.clone(),
        classname: tc.classname.dup(),
        time: tc.time.dup(),
        status: status.to_owned(),
        message,
        body,
    }
}

/// A test suite, as it is answered.
pub open spec fn suite_to_api_spec(suite: TestSuiteView) -> ApiTestSuiteView {
    ApiTestSuiteView {
        name: suite.name,
        tests: suite.tests,
        failures: suite.failures,
        errors: suite.errors,
        skipped: suite.skipped,
        time: suite.time,
        cases: suite.cases.map_values(|tc: TestCaseView| case_to_api_spec(tc)),
    }
}

/// A test suite, as it is answered.
pub fn suite_to_api(suite: &TestSuite) -> (r: ApiTestSuite)
    ensures
        r.deep_view() == suite_to_api_spec(suite.deep_view()),
{
    let ghost f = |tc: TestCaseView| case_to_api_spec(tc);
    let ghost all = suite.cases.deep_view();
    let mut cases: Vec<ApiTestCase> = Vec::new();
    for i in 0..suite.cases.len()
        invariant
            all == suite.cases.deep_view(),
            f == (|tc: TestCaseView| case_to_api_spec(tc)),
            cases.deep_view() == all.take(i as int).map_values(f),
    {
        let ghost before = cases.deep_view();
        let case = case_to_api(&suite.cases[i]);
        cases.push(case);
        assert(cases.deep_view() =~= before.push(case.deep_view()));
        assert(all[i as int] == suite.cases@[i as int].deep_view());
        assert(all.take(i + 1).map_values(f) =~= all.take(i as int).map_values(f).push(
            case.deep_view(),
        ));
    }
    assert(all.take(all.len() as int) =~= all);
    ApiTestSuite {
        name: suite.name.clone(),
        tests: suite.tests,
        failures: suite.failures,
        errors: suite.errors,
        skipped: suite.skipped,
        time: suite.time.dup(),
        cases,
    }
}

/// Test results, as they are answered.
pub open spec fn junit_to_api_spec(suites: TestSuitesView) -> ApiTestSuitesView {
    ApiTestSuitesView {
        total_tests: suites.total_tests() as u32,
        total_failures: suites.total_failures() as u32,
        total_errors: suites.total_errors() as u32,
        total_skipped: suites.total_skipped() as u32,
        all_passed: suites.all_passed(),
        suites: suites.suites.map_values(|s: TestSuiteView| suite_to_api_spec(s)),
    }
}

/// Test results, as they are answered.
pub fn junit_to_api(suites: &TestSuites) -> (r: ApiTestSuites)
    requires
        suites.deep_view().totals_fit(),
    ensures
        r.deep_view() == junit_to_api_spec(suites.deep_view()),
{
    let ghost f = |s: TestSuiteView| suite_to_api_spec(s);
    let ghost all = suites.suites.deep_view();
    let mut list: Vec<ApiTestSuite> = Vec::new();
    for i in 0..suites.suites.len()
        invariant
            all == suites.suites.deep_view(),
            f == (|s: TestSuiteView| suite_to_api_spec(s)),
            list.deep_view() == all.take(i as int).map_values(f),
    {
        let ghost before = list.deep_view();
        let suite = suite_to_api(&suites.suites[i]);
        list.push(suite);
        assert(list.deep_view() =~= before.push(suite.deep_view()));
        assert(all[i as int] == suites.suites@[i as int].deep_view());
        assert(all.take(i + 1).map_values(f) =~= all.take(i as int).map_values(f).push(
            suite.deep_view(),
        ));
    }
    assert(all.take(all.len() as int) =~= all);
    let total_tests: u32 = suites.total_tests();
    let total_failures: u32 = suites.total_failures();
    let total_errors: u32 = suites.total_errors();
    let total_skipped: u32 = suites.total_skipped();
    let all_passed: bool = suites.all_passed();
    ApiTestSuites {
        total_tests,
        total_failures,
        total_errors,
        total_skipped,
        all_passed,
        suites: list,
    }
}

/// The test results of a job: those that it uploaded, where their bytes are a
/// text; where it uploaded none, those of the archive.
pub open spec fn test_results_xml_spec(uploaded: Option<Seq<u8>>, archived: Option<Seq<char>>) -> Option<
    Seq<char>,
> {
    match uploaded {
        Some(bytes) => utf8_spec(bytes),
        None => archived,
    }
}

/// The test results of a job.
pub fn get_test_results_xml(uploaded: Option<Vec<u8>>, archived: Option<String>) -> (r: Option<
    String,
>)
    ensures
        r.deep_view() == test_results_xml_spec(
            match uploaded {
                Some(bytes) => Some(bytes@),
                None => None,
            },
            archived.deep_view(),
        ),
{
    match uploaded {
        Some(bytes) => from_utf8(bytes),
        None => archived,
    }
}

/// The answer to a request for test results.
#[derive(Debug)]
pub enum TestResultsAnswer {
    Found(ApiTestSuites),
    /// There are none, or they cannot be read.
    Nothing,
    /// A total does not fit 32 bits.
    Uncountable,
}

/// The answer to a request for test results, given the suites that were read.
pub open spec fn is_answer_for(answer: TestResultsAnswer, suites: Option<TestSuitesView>) -> bool {
    match suites {
        Some(found) => if found.totals_fit() {
            answer matches TestResultsAnswer::Found(r) && r.deep_view() == junit_to_api_spec(found)
        } else {
            answer is Uncountable
        },
        None => answer is Nothing,
    }
}

/// The answer to a request for test results, given the suites that were read.
pub fn answer_for(suites: Option<TestSuites>) -> (r: TestResultsAnswer)
    ensures
        is_answer_for(r, suites.deep_view()),
{
    match suites {
        Some(found) => if found.totals_fit() {
            TestResultsAnswer::Found(junit_to_api(&found))
        } else {
            TestResultsAnswer::Uncountable
        },
        None => TestResultsAnswer::Nothing,
    }
}

/// The test results of a job, from what it uploaded or else from the archive.
pub fn get_test_results(uploaded: Option<Vec<u8>>, archived: Option<String>) -> (r:
    TestResultsAnswer)
    ensures
        is_answer_for(
            r,
            suites_of_xml(
                test_results_xml_spec(
                    match uploaded {
                        Some(bytes) => Some(bytes@),
                        None => None,
                    },
                    archived.deep_view(),
                ),
            ),
        ),
{
    match get_test_results_xml(uploaded, archived) {
        Some(xml) => answer_for(parse_junit_xml(xml.as_str())),
        None => TestResultsAnswer::Nothing,
    }
}

/// Whether an output file can be read through the interface.
pub open spec fn is_readable_output(filename: Seq<char>) -> bool {
    filename == "result.json"@ || filename == "report.md"@
}

/// Whether an output file of that name can be read.
pub fn can_read_output(filename: &str) -> (r: bool)
    ensures
        r == is_readable_output(filename@),
{
    text::eq(filename, "result.json") || text::eq(filename, "report.md")
}

/// The content of an output file: what the job uploaded, where that is a text,
/// or else what is archived; an error for other files, and where there is nothing.
pub open spec fn job_output_spec(
    filename: Seq<char>,
    uploaded: Option<Seq<u8>>,
    archived: Option<ArchivedJobView>,
) -> Result<Seq<char>, Seq<char>> {
    if !is_readable_output(filename) {
        Err("Only result.json and report.md are available"@)
    } else {
        let fresh = match uploaded {
            Some(bytes) => utf8_spec(bytes),
            None => None,
        };
        let kept = match archived {
            Some(row) => if filename == "result.json"@ {
                row.output_result_json
            } else {
                row.output_report_md
            },
            None => None,
        };
        match fresh {
            Some(t) => Ok(t),
            None => match kept {
                Some(t) => Ok(t),
                None => Err("Output not found"@),
            },
        }
    }
}

/// The content of an output file.
pub fn get_job_output(filename: &str, uploaded: Option<Vec<u8>>, archived: Option<ArchivedJob>) -> (r:
    Result<String, String>)
    ensures
        text_result(r) == job_output_spec(
            filename@,
            match uploaded {
                Some(bytes) => Some(bytes@),
                None => None,
            },
            archived.deep_view(),
        ),
{
    let is_result: bool = text::eq(filename, "result.json");
    if !can_read_output(filename) {
        return Err("Only result.json and report.md are available".to_owned());
    }
    if let Some(bytes) = uploaded {
        if let Some(t) = from_utf8(bytes) {
            return Ok(t);
        }
    }
    if let Some(row) = archived {
        let kept = if is_result {
            row.output_result_json
        } else {
            row.output_report_md
        };
        if let Some(t) = kept {
            return Ok(t);
        }
    }
    Err("Output not found".to_owned())
}

/// Only the two files that can be read are ever answered.
pub proof fn law_only_readable_output(
    filename: Seq<char>,
    uploaded: Option<Seq<u8>>,
    archived: Option<ArchivedJobView>,
)
    requires
        job_output_spec(filename, uploaded, archived) is Ok,
    ensures
        is_readable_output(filename),
{
}

/// The content type under which an output file is answered.
pub fn output_content_type(filename: &str) -> (r: &'static str)
    ensures
        r@ == (if filename@ == "result.json"@ {
            "application/json"@
        } else {
            "text/plain"@
        }),
{
    if text::eq(filename, "result.json") {
        "application/json"
    } else {
        "text/plain"
    }
}

/// Where the baseline that a job is compared with comes from.
#[derive(Clone, Copy, Debug, PartialEq, Eq, Structural)]
pub enum BaselineSource {
    /// The set that was recorded for the job.
    Recorded(i64),
    /// The latest set of its template.
    Latest,
    /// There is none.
    Nothing,
}

/// Where the baseline of a job comes from: the set that the archive records, or
/// else the one that was recorded at upload, or else the latest of its template,
/// which only an archived job is known to have.
pub open spec fn baseline_source_spec(
    archived: Option<ArchivedJobView>,
    recorded: Option<Seq<char>>,
) -> BaselineSource {
    match archived {
        Some(row) => match row.snapshot_baseline_id {
            Some(id) => BaselineSource::Recorded(id),
            None => match reconciler::baseline_id_spec(recorded) {
                Some(id) => BaselineSource::Recorded(id),
                None => BaselineSource::Latest,
            },
        },
        None => match reconciler::baseline_id_spec(recorded) {
            Some(id) => BaselineSource::Recorded(id),
            None => BaselineSource::Nothing,
        },
    }
}

/// Where the baseline that a job is compared with comes from.
pub fn baseline_source(archived: &Option<ArchivedJob>, recorded: &Option<String>) -> (r:
    BaselineSource)
    ensures
        r == baseline_source_spec(archived.deep_view(), recorded.deep_view()),
{
    let at_upload: Option<i64> = reconciler::baseline_id(recorded);
    match archived {
        Some(row) => match row.snapshot_baseline_id {
            Some(id) => BaselineSource::Recorded(id),
            None => match at_upload {
                Some(id) => BaselineSource::Recorded(id),
                None => BaselineSource::Latest,
            },
        },
        None => match at_upload {
            Some(id) => BaselineSource::Recorded(id),
            None => BaselineSource::Nothing,
        },
    }
}

/// The line-by-line difference of a file: of a JSON file that changed and is
/// there on both sides, where both sides are JSON.
pub open spec fn json_diff_of(
    file: FileDiffView,
    baseline: Map<Seq<char>, Seq<u8>>,
    current: Map<Seq<char>, Seq<u8>>,
) -> Option<Seq<DiffLineView>> {
    if ".json"@.is_suffix_of(file.path) && file.status == FileDiffStatus::Changed
        && baseline.dom().contains(file.path) && current.dom().contains(file.path) {
        match (pretty_json_spec(baseline[file.path]), pretty_json_spec(current[file.path])) {
            (Some(a), Some(b)) => Some(diff_lines_spec(hunks_spec(a, b, 3))),
            _ => None,
        }
    } else {
        None
    }
}

/// The line-by-line differences of the files, by path.
pub open spec fn json_diffs_spec(
    files: Seq<FileDiffView>,
    baseline: Map<Seq<char>, Seq<u8>>,
    current: Map<Seq<char>, Seq<u8>>,
) -> Map<Seq<char>, Seq<DiffLineView>>
    decreases files.len(),
{
    if files.len() == 0 {
        Map::empty()
    } else {
        let before = json_diffs_spec(files.drop_last(), baseline, current);
        match json_diff_of(files.last(), baseline, current) {
            Some(lines) => before.insert(files.last().path, lines),
            None => before,
        }
    }
}

/// The line-by-line differences of those files that have them.
pub fn json_diffs(diff: &SnapshotDiff, baseline: &Files, current: &Files) -> (r: SortedMap<
    Vec<DiffLine>,
>)
    ensures
        r@ == json_diffs_spec(diff.deep_view().files, baseline@, current@),
{
    let ghost all = diff.files.deep_view();
    let mut found: SortedMap<Vec<DiffLine>> = SortedMap::new();
    for i in 0..diff.files.len()
        invariant
            all == diff.files.deep_view(),
            found@ == json_diffs_spec(all.take(i as int), baseline@, current@),
    {
        assert(all.take(i + 1).drop_last() =~= all.take(i as int));
        assert(all.take(i + 1).last() == diff.files@[i as int].deep_view());
        let file = &diff.files[i];
        if text::ends_with(file.path.as_str(), ".json") && file.status == FileDiffStatus::Changed {
            if let Some(before) = baseline.get(file.path.as_str()) {
                if let Some(after) = current.get(file.path.as_str()) {
                    assert(before.deep_view() =~= before@);
                    assert(after.deep_view() =~= after@);
                    if let Some(lines) = json_diff(before.as_slice(), after.as_slice()) {
                        found = found.insert(file.path.clone(), lines);
                    }
                }
            }
        }
    }
    assert(all.take(all.len() as int) =~= all);
    found
}

/// The answer to a request that made a job.
pub open spec fn created_reply_spec(name: Seq<char>, namespace: Seq<char>) -> JsonView {
    empty_object().set("name"@, JsonView::Text(name)).set(
        "namespace"@,
        JsonView::Text(namespace),
    ).set("status"@, JsonView::Text("created"@))
}

/// The answer to a request that made a job.
pub fn created_reply(name: &str, namespace: &str) -> (r: Json)
    ensures
        r.deep_view() == created_reply_spec(name@, namespace@),
{
    Json::object().set("name", Json::text(name)).set("namespace", Json::text(namespace)).set(
        "status",
        Json::text("created"),
    )
}

/// The answer that reports an error.
pub fn error_reply(message: &str) -> (r: Json)
    ensures
        r.deep_view() == empty_object().set("error"@, JsonView::Text(message@)),
{
    Json::object().set("error", Json::text(message))
}

/// A template is answered with what it says of itself: its name and namespace, its schedule,
/// how long its jobs stay, whether it is an acceptance test, and what its annotations say was
/// built.
pub proof fn law_template_answered(jt: JobTemplateView)
    ensures
        ({
            let answer = jt_to_api_spec(jt);
            &&& jt.metadata.name matches Some(n) ==> answer.name == n
            &&& jt.metadata.namespace matches Some(n) ==> answer.namespace == n
            &&& jt.metadata.namespace is None ==> answer.namespace.len() == 0
            &&& answer.schedule == jt.spec.schedule
            &&& jt.spec.cleanup_after matches Some(c) ==> answer.cleanup_after == c
            &&& jt.spec.cleanup_after is None ==> answer.cleanup_after == "30m"@
            &&& answer.acceptance_test <==> jt.spec.acceptance_test == Some(true)
            &&& jt.metadata.annotations matches Some(m) ==> {
                &&& answer.artifact_sha is Some <==> m.dom().contains("artifactSha"@)
                &&& answer.artifact_sha matches Some(v) ==> v == m["artifactSha"@]
                &&& answer.config_sha is Some <==> m.dom().contains("configSha"@)
                &&& answer.config_sha matches Some(v) ==> v == m["configSha"@]
            }
            &&& jt.metadata.annotations is None ==> answer.artifact_sha is None
                && answer.config_sha is None
        }),
{
}

/// A live job is running exactly where its conditions do not say how it ended and it has active
/// and ready pods; without either it is pending, and otherwise it stands as its conditions say.
pub proof fn law_live_status(job: JobView)
    ensures
        ({
            let status = job_status_spec(job);
            let active = job.status matches Some(s) && (s.active matches Some(n) && n > 0);
            let ready = job.status matches Some(s) && (s.ready matches Some(n) && n > 0);
            &&& (status == "Succeeded"@) == (job.verdict() == Some(Verdict::Succeeded))
            &&& (status == "Failed"@) == (job.verdict() == Some(Verdict::Failed))
            &&& (status == "Running"@) == (job.verdict() is None && active && ready)
            &&& (status == "Pending"@) == (job.verdict() is None && !(active && ready))
        }),
{
    reveal_strlit("Succeeded");
    reveal_strlit("Failed");
    reveal_strlit("Running");
    reveal_strlit("Pending");
    assert("Succeeded"@.len() == 9 && "Failed"@.len() == 6 && "Running"@.len() == 7
        && "Pending"@.len() == 7);
    assert("Running"@[0] == 'R' && "Pending"@[0] == 'P');
}

/// A live job is answered with its own name, namespace and moments, and with the seconds from
/// its start to its completion, or until now where it has not completed. What became of its
/// snapshots is answered only once it has ended.
pub proof fn law_live_job_answered(
    job: JobView,
    snapshot_status: Option<Seq<char>>,
    now: Timestamp,
)
    ensures
        ({
            let answer = live_job_with_snapshots_spec(job, snapshot_status, now);
            &&& answer.source == "live"@
            &&& job.metadata.name matches Some(n) ==> answer.name == n
            &&& job.metadata.namespace matches Some(n) ==> answer.namespace == n
                && answer.job_template_namespace == Some(n)
            &&& answer.status == job_status_spec(job)
            &&& job.status matches Some(s) ==> {
                &&& answer.start_time is Some <==> s.start_time is Some
                &&& s.start_time matches Some(t) ==> answer.start_time == Some(
                    time::rfc3339_spec(t.secs(), t.nanos()),
                )
                &&& answer.completion_time is Some <==> s.completion_time is Some
                &&& s.completion_time matches Some(t) ==> answer.completion_time == Some(
                    time::rfc3339_spec(t.secs(), t.nanos()),
                )
                &&& s.start_time matches Some(start) ==> answer.duration_seconds == Some(
                    (match s.completion_time {
                        Some(end) => end.seconds_since_spec(start),
                        None => now.seconds_since_spec(start),
                    }) as i64,
                )
                &&& s.start_time is None ==> answer.duration_seconds is None
            }
            &&& job.status is None ==> answer.start_time is None && answer.completion_time is None
                && answer.duration_seconds is None
            &&& answer.job_template_name == (match job.template_owner() {
                Some(owner) => Some(owner.name),
                None => None,
            })
            &&& job.is_terminal() ==> answer.snapshot_status == snapshot_status
            &&& !job.is_terminal() ==> answer.snapshot_status is None
            &&& job.metadata.annotations matches Some(m) ==> (answer.artifact_sha is Some
                <==> m.dom().contains("artifactSha"@)) && (answer.artifact_sha matches Some(v) ==> v
                == m["artifactSha"@])
        }),
{
}

/// An archived job is answered with what its row holds.
pub proof fn law_archived_job_answered(row: ArchivedJobView)
    ensures
        ({
            let answer = archived_job_spec(row);
            &&& answer.source == "archived"@
            &&& answer.name == row.name
            &&& answer.namespace == row.namespace
            &&& answer.status == row.status
            &&& answer.start_time == row.start_time
            &&& answer.completion_time == row.completion_time
            &&& answer.duration_seconds == row.duration_seconds
            &&& answer.job_template_name == Some(row.job_template_name)
            &&& answer.job_template_namespace == Some(row.job_template_namespace)
            &&& answer.snapshot_status == row.snapshot_status
            &&& answer.artifact_sha == row.artifact_sha
        }),
{
}

/// The live jobs of a template are those that it owns, each once and in order; one that another
/// owns is left out. A template that is not known has only archived jobs.
pub proof fn law_live_jobs(
    jobs: Seq<(JobView, Option<Seq<char>>)>,
    job: JobView,
    snapshot_status: Option<Seq<char>>,
    uid: Seq<char>,
    archived: Seq<ArchivedJobView>,
    now: Timestamp,
)
    ensures
        ({
            let owned = job.metadata.owner_references matches Some(refs) && exists|i: int|
                0 <= i < refs.len() && (#[trigger] refs[i]).uid == uid;
            let before = live_jobs_spec(jobs, uid, now);
            let after = live_jobs_spec(jobs.push((job, snapshot_status)), uid, now);
            &&& live_jobs_spec(Seq::empty(), uid, now).len() == 0
            &&& owned ==> after == before.push(
                live_job_with_snapshots_spec(job, snapshot_status, now),
            )
            &&& !owned ==> after == before
        }),
        template_jobs_spec(jobs, Some(uid), archived, now).len() == live_jobs_spec(
            jobs,
            uid,
            now,
        ).len() + archived.len(),
        template_jobs_spec(jobs, None, archived, now).to_multiset() == archived.map_values(
            |j: ArchivedJobView| archived_job_spec(j),
        ).to_multiset(),
{
    assert(jobs.push((job, snapshot_status)).drop_last() =~= jobs);
    let old = archived.map_values(|j: ArchivedJobView| archived_job_spec(j));
    assert(Seq::<ApiJobView>::empty() + old =~= old);
    order::law_sorted_same_values::<ApiJob>(old);
    order::law_sorted_same_values::<ApiJob>(live_jobs_spec(jobs, uid, now) + old);
}

/// A text that is missing comes before every other; two that are there are in the order of
/// texts.
pub proof fn law_missing_comes_first(a: Seq<char>, b: Seq<char>)
    ensures
        option_text_le(None, None),
        option_text_le(None, Some(a)),
        !option_text_le(Some(a), None),
        option_text_le(Some(a), Some(b)) == text_le(a, b),
{
}

/// A live job counts before an archived one; there is no answer only where there is neither.
pub proof fn law_single_job(
    live: Option<(JobView, Option<Seq<char>>)>,
    archived: Option<ArchivedJobView>,
    now: Timestamp,
)
    ensures
        get_job_spec(live, archived, now) is None <==> live is None && archived is None,
        live matches Some((job, status)) ==> get_job_spec(live, archived, now) == Some(
            live_job_with_snapshots_spec(job, status, now),
        ),
        live is None ==> (archived matches Some(row) ==> get_job_spec(live, archived, now) == Some(
            archived_job_spec(row),
        )),
{
}

/// A positive number of lines asks for that many lines from the end, or for all where there are
/// no more; without one the whole text is meant.
pub proof fn law_tail(log: Seq<char>, n: i64, front: Seq<Seq<char>>, end: Seq<Seq<char>>)
    ensures
        tail_spec(log, None) == log,
        n <= 0 ==> tail_spec(log, Some(n)) == log,
        n > 0 && text::lines_spec(log).len() <= n ==> tail_spec(log, Some(n)) == text::join_spec(
            text::lines_spec(log),
            "\n"@,
        ),
        n > 0 && text::lines_spec(log) == front + end && end.len() == n ==> tail_spec(log, Some(n))
            == text::join_spec(end, "\n"@),
{
    let lines = text::lines_spec(log);
    assert(lines.skip(0) =~= lines);
    if n > 0 && lines == front + end && end.len() == n {
        assert(lines.skip(front.len() as int) =~= end);
    }
}

/// The logs of a live job are those of the cluster, as they are; where it is not live, the last
/// lines of what the archive holds; and an error only where there is no such job.
pub proof fn law_logs_answered(
    namespace: Seq<char>,
    name: Seq<char>,
    live: Option<Option<Seq<char>>>,
    archived: Option<Option<Seq<char>>>,
    tail: Option<i64>,
)
    ensures
        ({
            let answer = job_logs_answer_spec(namespace, name, live, archived, tail);
            &&& answer is Err <==> live is None && archived is None
            &&& live matches Some(Some(logs)) ==> answer == Ok::<Seq<char>, Seq<char>>(logs)
            &&& live matches Some(None) ==> (answer matches Ok(logs) && logs.len() == 0)
            &&& live is None ==> (archived matches Some(Some(logs)) ==> answer == Ok::<
                Seq<char>,
                Seq<char>,
            >(tail_spec(logs, tail)))
            &&& answer matches Err(e) ==> e == "Job "@ + namespace + "/"@ + name + " not found"@
        }),
{
}

/// A test case is answered with its own name, class and time, with a word for how it went, with
/// the message of a case that did not pass, and with the body of one that failed or was in
/// error.
pub proof fn law_case_answered(tc: TestCaseView)
    ensures
        ({
            let answer = case_to_api_spec(tc);
            &&& answer.name == tc.name
            &&& answer.classname == tc.classname
            &&& answer.time == tc.time
            &&& tc.status is Passed ==> answer.status == "passed"@ && answer.message is None
                && answer.body is None
            &&& tc.status matches TestCaseStatusView::Failed { message, body } ==> answer.status
                == "failed"@ && answer.message == message && answer.body == body
            &&& tc.status matches TestCaseStatusView::Error { message, body } ==> answer.status
                == "error"@ && answer.message == message && answer.body == body
            &&& tc.status matches TestCaseStatusView::Skipped { message } ==> answer.status
                == "skipped"@ && answer.message == message && answer.body is None
        }),
{
}

/// Results are answered suite by suite and case by case, nothing left out and in order, each
/// suite with its own counts, and with the sums of those counts.
pub proof fn law_results_answered(suites: TestSuitesView, i: int, j: int)
    requires
        suites.totals_fit(),
    ensures
        ({
            let answer = junit_to_api_spec(suites);
            &&& answer.total_tests == suites.total_tests()
            &&& answer.total_failures == suites.total_failures()
            &&& answer.total_errors == suites.total_errors()
            &&& answer.total_skipped == suites.total_skipped()
            &&& answer.all_passed <==> answer.total_failures == 0 && answer.total_errors == 0
            &&& answer.suites.len() == suites.suites.len()
            &&& 0 <= i < suites.suites.len() ==> {
                let suite = suites.suites[i];
                &&& answer.suites[i].name == suite.name
                &&& answer.suites[i].tests == suite.tests
                &&& answer.suites[i].failures == suite.failures
                &&& answer.suites[i].errors == suite.errors
                &&& answer.suites[i].skipped == suite.skipped
                &&& answer.suites[i].time == suite.time
                &&& answer.suites[i].cases.len() == suite.cases.len()
                &&& 0 <= j < suite.cases.len() ==> answer.suites[i].cases[j] == case_to_api_spec(
                    suite.cases[j],
                )
            }
        }),
{
}

/// What a job uploaded counts before what is archived of it, even where its bytes are no text.
pub proof fn law_uploaded_results_count_first(
    uploaded: Option<Seq<u8>>,
    archived: Option<Seq<char>>,
)
    ensures
        uploaded is None ==> test_results_xml_spec(uploaded, archived) == archived,
        uploaded matches Some(bytes) ==> (test_results_xml_spec(uploaded, archived) is Some
            <==> vstd::utf8::valid_utf8(bytes)),
        uploaded matches Some(bytes) ==> (vstd::utf8::valid_utf8(bytes) ==> test_results_xml_spec(
            uploaded,
            archived,
        ) == Some(vstd::utf8::decode_utf8(bytes))),
{
}

/// The result and the report of a job can be read, and nothing else: first what the job
/// uploaded, where that is a text, and else what is archived of that very file.
pub proof fn law_output_answered(
    filename: Seq<char>,
    uploaded: Option<Seq<u8>>,
    archived: Option<ArchivedJobView>,
)
    ensures
        ({
            let answer = job_output_spec(filename, uploaded, archived);
            let is_result = filename == "result.json"@;
            let is_report = filename == "report.md"@;
            let fresh = uploaded matches Some(bytes) && vstd::utf8::valid_utf8(bytes);
            &&& !is_result && !is_report ==> answer == Err::<Seq<char>, Seq<char>>(
                "Only result.json and report.md are available"@,
            )
            &&& (is_result || is_report) && fresh ==> answer == Ok::<Seq<char>, Seq<char>>(
                vstd::utf8::decode_utf8(uploaded->0),
            )
            &&& !fresh && is_result ==> (archived matches Some(row) ==> (
            row.output_result_json matches Some(t) ==> answer == Ok::<Seq<char>, Seq<char>>(t)))
            &&& !fresh && is_report ==> (archived matches Some(row) ==> (
            row.output_report_md matches Some(t) ==> answer == Ok::<Seq<char>, Seq<char>>(t)))
            &&& !fresh && is_result && (archived matches Some(row) ==> row.output_result_json is None)
                ==> answer == Err::<Seq<char>, Seq<char>>("Output not found"@)
            &&& !fresh && is_report && (archived matches Some(row) ==> row.output_report_md is None)
                ==> answer == Err::<Seq<char>, Seq<char>>("Output not found"@)
        }),
{
    reveal_strlit("result.json");
    reveal_strlit("report.md");
    assert("result.json"@.len() == 11 && "report.md"@.len() == 9);
}

/// A job is compared with the baseline that its row records, or else with the one that was
/// recorded when it uploaded its snapshots. Where neither is known, an archived job is compared
/// with the latest baseline, and another with none.
pub proof fn law_baseline_source(
    archived: Option<ArchivedJobView>,
    recorded: Option<Seq<char>>,
    n: i64,
)
    ensures
        archived matches Some(row) ==> (row.snapshot_baseline_id matches Some(id)
            ==> baseline_source_spec(archived, recorded) == BaselineSource::Recorded(id)),
        (archived matches Some(row) ==> row.snapshot_baseline_id is None) && recorded == Some(
            crate::decimal::decimal_spec(n as int),
        ) ==> baseline_source_spec(archived, recorded) == BaselineSource::Recorded(n),
        recorded is None && archived is None ==> baseline_source_spec(archived, recorded)
            == BaselineSource::Nothing,
        recorded is None ==> (archived matches Some(row) ==> (row.snapshot_baseline_id is None
            ==> baseline_source_spec(archived, recorded) == BaselineSource::Latest)),
{
    reconciler::law_baseline_id_kept(n);
}

/// The lines that differ are shown of a file exactly where its path ends in `.json`, it has
/// changed, both sides have it, and both are JSON; three unchanged lines stand around each
/// change.
pub proof fn law_lines_shown(
    path: Seq<char>,
    status: FileDiffStatus,
    baseline: Map<Seq<char>, Seq<u8>>,
    current: Map<Seq<char>, Seq<u8>>,
)
    ensures
        ({
            let lines = json_diff_of(FileDiffView { path, status }, baseline, current);
            let n = path.len() as int;
            let named = n >= 5 && path[n - 5] == '.' && path[n - 4] == 'j' && path[n - 3] == 's'
                && path[n - 2] == 'o' && path[n - 1] == 'n';
            &&& lines is Some <==> named && status == FileDiffStatus::Changed
                && baseline.dom().contains(path) && current.dom().contains(path)
                && pretty_json_spec(baseline[path]) is Some && pretty_json_spec(
                current[path],
            ) is Some
            &&& lines matches Some(shown) ==> shown == diff_lines_spec(
                hunks_spec(
                    pretty_json_spec(baseline[path])->0,
                    pretty_json_spec(current[path])->0,
                    3,
                ),
            )
        }),
{
    reveal_strlit(".json");
    let n = path.len() as int;
    if n >= 5 {
        let end = path.subrange(n - 5, n);
        assert(end[0] == path[n - 5] && end[1] == path[n - 4] && end[2] == path[n - 3] && end[3]
            == path[n - 2] && end[4] == path[n - 1]);
        if path[n - 5] == '.' && path[n - 4] == 'j' && path[n - 3] == 's' && path[n - 2] == 'o'
            && path[n - 1] == 'n' {
            assert(end =~= ".json"@);
        }
    }
}

/// Every file of which the lines that differ can be shown is among them under its path, and no
/// other.
pub proof fn law_all_lines_shown(
    files: Seq<FileDiffView>,
    file: FileDiffView,
    baseline: Map<Seq<char>, Seq<u8>>,
    current: Map<Seq<char>, Seq<u8>>,
)
    ensures
        json_diffs_spec(Seq::empty(), baseline, current) == Map::<
            Seq<char>,
            Seq<DiffLineView>,
        >::empty(),
        json_diffs_spec(files.push(file), baseline, current) == (match json_diff_of(
            file,
            baseline,
            current,
        ) {
            Some(lines) => json_diffs_spec(files, baseline, current).insert(file.path, lines),
            None => json_diffs_spec(files, baseline, current),
        }),
{
    assert(files.push(file).drop_last() =~= files);
}

/// The answer to a request that made a job names the job and its namespace, and says that it was
/// created.
pub proof fn law_created_reply(name: Seq<char>, namespace: Seq<char>)
    ensures
        created_reply_spec(name, namespace).get("name"@) == Some(JsonView::Text(name)),
        created_reply_spec(name, namespace).get("namespace"@) == Some(JsonView::Text(namespace)),
        created_reply_spec(name, namespace).get("status"@) == Some(JsonView::Text("created"@)),
{
    reveal_strlit("name");
    reveal_strlit("namespace");
    reveal_strlit("status");
    assert("name"@.len() == 4 && "namespace"@.len() == 9 && "status"@.len() == 6);
    let a = empty_object().set("name"@, JsonView::Text(name));
    let b = a.set("namespace"@, JsonView::Text(namespace));
    crate::json::law_members(empty_object(), "name"@, JsonView::Text(name), "name"@);
    crate::json::law_members(a, "namespace"@, JsonView::Text(namespace), "name"@);
    crate::json::law_members(b, "status"@, JsonView::Text("created"@), "name"@);
    crate::json::law_members(b, "status"@, JsonView::Text("created"@), "namespace"@);
}

/// Results are answered exactly where they can be read and their totals can be counted.
pub proof fn law_results_answer(answer: TestResultsAnswer, suites: Option<TestSuitesView>)
    requires
        is_answer_for(answer, suites),
    ensures
        answer is Nothing <==> suites is None,
        answer is Found <==> (suites matches Some(s) && s.total_tests() <= u32::MAX
            && s.total_failures() <= u32::MAX && s.total_errors() <= u32::MAX && s.total_skipped()
            <= u32::MAX),
        answer matches TestResultsAnswer::Found(r) ==> r.deep_view() == junit_to_api_spec(suites->0),
{
}

} // verus!

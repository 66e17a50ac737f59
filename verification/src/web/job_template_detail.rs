//! The page of a template, with its jobs.

use vstd::prelude::*;

use crate::db::archived_job::{ArchivedJob, ArchivedJobView};
use crate::decimal;
use crate::dup::Dup;
use crate::kubernetes::job::{Job, JobView, Verdict};
use crate::kubernetes::job_template::{JobTemplate, JobTemplateView};
use crate::order::{self, Ordered};
use crate::text;
use crate::time::{self, Timestamp};
use crate::web::job_detail::{
    format_duration, format_duration_spec, job_duration_display, job_duration_display_spec,
};
use crate::web::junit::{parse_junit_xml, TestSuites, TestSuitesView};

verus! {

/// How many jobs the page shows at first, and how many more at a time.
pub const DEFAULT_JOB_LIMIT: usize = 100;

/// What is asked of the list of jobs.
#[derive(Debug)]
pub struct FragmentQuery {
    pub limit: Option<usize>,
}

impl FragmentQuery {
    /// How many jobs are to be shown.
    pub fn limit(&self) -> (r: usize)
        ensures
            r == (match self.limit {
                Some(n) => n,
                None => DEFAULT_JOB_LIMIT,
            }),
    {
        match self.limit {
            Some(n) => n,
            None => DEFAULT_JOB_LIMIT,
        }
    }
}

/// Whether the tests of a job passed, and how many did not.
#[derive(Clone, Copy, Debug, PartialEq, Eq, Structural)]
pub struct TestResultSummary {
    pub all_passed: bool,
    pub failures: u32,
}

impl DeepView for TestResultSummary {
    type V = TestResultSummary;

    open spec fn deep_view(&self) -> TestResultSummary {
        *self
    }
}

impl Dup for TestResultSummary {
    fn dup(&self) -> (r: TestResultSummary) {
        *self
    }
}

/// What test results come to.
#[derive(Clone, Copy, Debug, PartialEq, Eq, Structural)]
pub enum SummaryAnswer {
    Found(TestResultSummary),
    /// There are none, or they cannot be read.
    Nothing,
    /// A count does not fit 32 bits.
    Uncountable,
}

/// What test results come to: whether all tests passed, and how many failed or
/// could not be run.
pub open spec fn summary_answer_spec(suites: Option<TestSuitesView>) -> SummaryAnswer {
    match suites {
        Some(s) => if s.total_failures() + s.total_errors() <= u32::MAX {
            SummaryAnswer::Found(
                TestResultSummary {
                    all_passed: s.all_passed(),
                    failures: (s.total_failures() + s.total_errors()) as u32,
                },
            )
        } else {
            SummaryAnswer::Uncountable
        },
        None => SummaryAnswer::Nothing,
    }
}

/// What test results come to.
pub fn summarize(suites: &Option<TestSuites>) -> (r: SummaryAnswer)
    ensures
        r == summary_answer_spec(suites.deep_view()),
{
    match suites {
        Some(s) => match (s.checked_total_failures(), s.checked_total_errors()) {
            (Some(failures), Some(errors)) => match failures.checked_add(errors) {
                Some(n) => {
                    let all_passed: bool = s.all_passed();
                    SummaryAnswer::Found(TestResultSummary { all_passed, failures: n })
                },
                None => SummaryAnswer::Uncountable,
            },
            _ => SummaryAnswer::Uncountable,
        },
        None => SummaryAnswer::Nothing,
    }
}

/// What the test results of a job come to, from their XML where there is some.
pub fn load_test_results(xml: &Option<String>) -> (r: SummaryAnswer)
    ensures
        r == summary_answer_spec(crate::metrics::suites_of_xml(xml.deep_view())),
{
    let suites = match xml {
        Some(x) => parse_junit_xml(x.as_str()),
        None => None,
    };
    summarize(&suites)
}

/// A job in the table of the page, live or archived.
#[derive(Debug)]
pub struct JobRow {
    pub name: String,
    pub namespace: String,
    pub is_live: bool,
    pub status: String,
    pub status_badge_class: String,
    pub start_time: Option<Timestamp>,
    pub duration_display: String,
    pub test_results: Option<TestResultSummary>,
    pub snapshot_status: Option<String>,
    pub artifact_sha: Option<String>,
}

/// What a [`JobRow`] holds.
#[verifier::ext_equal]
pub struct JobRowView {
    pub name: Seq<char>,
    pub namespace: Seq<char>,
    pub is_live: bool,
    pub status: Seq<char>,
    pub status_badge_class: Seq<char>,
    pub start_time: Option<Timestamp>,
    pub duration_display: Seq<char>,
    pub test_results: Option<TestResultSummary>,
    pub snapshot_status: Option<Seq<char>>,
    pub artifact_sha: Option<Seq<char>>,
}

impl DeepView for JobRow {
    type V = JobRowView;

    open spec fn deep_view(&self) -> JobRowView {
        JobRowView {
            name: self.name.deep_view(),
            namespace: self.namespace.deep_view(),
            is_live: self.is_live.deep_view(),
            status: self.status.deep_view(),
            status_badge_class: self.status_badge_class.deep_view(),
            start_time: self.start_time.deep_view(),
            duration_display: self.duration_display.deep_view(),
            test_results: self.test_results.deep_view(),
            snapshot_status: self.snapshot_status.deep_view(),
            artifact_sha: self.artifact_sha.deep_view(),
        }
    }
}

impl Dup for JobRow {
    fn dup(&self) -> (r: JobRow) {
        JobRow {
            name: self.name.dup(),
            namespace: self.namespace.dup(),
            is_live: self.is_live.dup(),
            status: self.status.dup(),
            status_badge_class: self.status_badge_class.dup(),
            start_time: self.start_time.dup(),
            duration_display: self.duration_display.dup(),
            test_results: self.test_results.dup(),
            snapshot_status: self.snapshot_status.dup(),
            artifact_sha: self.artifact_sha.dup(),
        }
    }
}

/// The badge and the status of a live job in the table. A job whose pods have
/// ended, but which has no verdict yet, is being cleaned up.
pub open spec fn job_status_spec(job: JobView) -> (Seq<char>, Seq<char>) {
    match job.verdict() {
        Some(Verdict::Succeeded) => ("success"@, "Succeeded"@),
        Some(Verdict::Failed) => ("danger"@, "Failed"@),
        None => match job.status {
            Some(status) => if status.some_active() && status.some_ready() {
                ("info"@, "Running"@)
            } else if status.some_ended() {
                ("muted"@, "Cleaning up"@)
            } else {
                ("muted"@, "Pending"@)
            },
            None => ("muted"@, "Pending"@),
        },
    }
}

/// The badge and the status of a live job in the table.
pub fn job_status(job: &Job) -> (r: (&'static str, &'static str))
    ensures
        (r.0@, r.1@) == job_status_spec(job.deep_view()),
{
    match job.verdict() {
        Some(Verdict::Succeeded) => ("success", "Succeeded"),
        Some(Verdict::Failed) => ("danger", "Failed"),
        None => match &job.status {
            Some(status) => if status.some_active() && status.some_ready() {
                ("info", "Running")
            } else if status.some_ended() {
                ("muted", "Cleaning up")
            } else {
                ("muted", "Pending")
            },
            None => ("muted", "Pending"),
        },
    }
}

/// The row of a live job. Test results and snapshots are shown of acceptance tests
/// that have ended.
pub open spec fn live_row_spec(
    job: JobView,
    namespace: Seq<char>,
    is_acceptance_test: bool,
    test_results: Option<TestResultSummary>,
    snapshot_status: Option<Seq<char>>,
    now: Timestamp,
) -> JobRowView {
    let shown = is_acceptance_test && job.is_terminal();
    JobRowView {
        name: job.metadata.name_any(),
        namespace,
        is_live: true,
        status: job_status_spec(job).1,
        status_badge_class: job_status_spec(job).0,
        start_time: job.start_time(),
        duration_display: job_duration_display_spec(job, now),
        test_results: if shown {
            test_results
        } else {
            None
        },
        snapshot_status: if shown {
            snapshot_status
        } else {
            None
        },
        artifact_sha: job.metadata.annotation("artifactSha"@),
    }
}

/// Whether the test results and snapshots of a live job are shown, and so needed.
pub fn needs_results(job: &Job, is_acceptance_test: bool) -> (r: bool)
    ensures
        r == (is_acceptance_test && job.deep_view().is_terminal()),
{
    is_acceptance_test && job.is_terminal()
}

/// The row of a live job.
pub fn live_row(
    job: &Job,
    namespace: &str,
    is_acceptance_test: bool,
    test_results: Option<TestResultSummary>,
    snapshot_status: &Option<String>,
    now: &Timestamp,
) -> (r: JobRow)
    ensures
        r.deep_view() == live_row_spec(
            job.deep_view(),
            namespace@,
            is_acceptance_test,
            test_results,
            snapshot_status.deep_view(),
            *now,
        ),
{
    let shown: bool = needs_results(job, is_acceptance_test);
    let (badge, status) = job_status(job);
    let start_time: Option<Timestamp> = job.start_time();
    JobRow {
        name: job.metadata.name_any(),
        namespace: namespace.to_owned(),
        is_live: true,
        status: status.to_owned(),
        status_badge_class: badge.to_owned(),
        start_time,
        duration_display: job_duration_display(job, now),
        test_results: if shown {
            test_results
        } else {
            None
        },
        snapshot_status: if shown {
            snapshot_status.dup()
        } else {
            None
        },
        artifact_sha: job.metadata.annotation("artifactSha"),
    }
}

/// The seconds and nanoseconds of the moment that
/// `chrono::DateTime::parse_from_rfc3339` reads from a text, where it can.
pub uninterp spec fn parsed_rfc3339_spec(s: Seq<char>) -> Option<(int, int)>;

/// `chrono::DateTime::parse_from_rfc3339`, whose result depends on the text alone.
#[verifier::external_body]
fn chrono_parse_rfc3339(s: &str) -> (r: Option<(i64, u32)>)
    ensures
        parsed_rfc3339_spec(s@) == (match r {
            Some((secs, nanos)) => Some((secs as int, nanos as int)),
            None => None,
        }),
{
    chrono::DateTime::parse_from_rfc3339(s).ok().map(
        |d| (d.timestamp(), d.timestamp_subsec_nanos()),
    )
}

/// The start time of an archived job, where it can be read.
pub open spec fn archived_start_spec(start_time: Option<Seq<char>>) -> Option<Timestamp> {
    match start_time {
        Some(s) => time::moment_spec(parsed_rfc3339_spec(s)),
        None => None,
    }
}

/// The start time of an archived job.
pub fn archived_start(start_time: &Option<String>) -> (r: Option<Timestamp>)
    ensures
        r == archived_start_spec(start_time.deep_view()),
{
    match start_time {
        Some(s) => {
            let parts = chrono_parse_rfc3339(s.as_str());
            proof {
                time::lemma_moment(parsed_rfc3339_spec(s@));
            }
            time::of_parts(parts)
        },
        None => None,
    }
}

/// The badge of an archived job in the table.
pub open spec fn archived_badge_spec(status: Seq<char>) -> Seq<char> {
    if status == "Succeeded"@ {
        "success"@
    } else if status == "Failed"@ {
        "danger"@
    } else if status == "Running"@ {
        "info"@
    } else {
        "muted"@
    }
}

/// The row of an archived job, given its start time. Test results and snapshots are
/// shown of acceptance tests.
pub open spec fn archived_row_spec(
    job: ArchivedJobView,
    is_acceptance_test: bool,
    test_results: Option<TestResultSummary>,
    start_time: Option<Timestamp>,
) -> JobRowView {
    JobRowView {
        name: job.name,
        namespace: job.namespace,
        is_live: false,
        status: job.status,
        status_badge_class: archived_badge_spec(job.status),
        start_time,
        duration_display: match job.duration_seconds {
            Some(secs) => format_duration_spec(secs as int),
            None => Seq::empty(),
        },
        test_results: if is_acceptance_test {
            test_results
        } else {
            None
        },
        snapshot_status: if is_acceptance_test {
            job.snapshot_status
        } else {
            None
        },
        artifact_sha: job.artifact_sha,
    }
}

/// The row of an archived job.
pub fn archived_row(
    job: &ArchivedJob,
    is_acceptance_test: bool,
    test_results: Option<TestResultSummary>,
    start_time: Option<Timestamp>,
) -> (r: JobRow)
    ensures
        r.deep_view() == archived_row_spec(
            job.deep_view(),
            is_acceptance_test,
            test_results,
            start_time,
        ),
{
    let badge = if text::eq(job.status.as_str(), "Succeeded") {
        "success"
    } else if text::eq(job.status.as_str(), "Failed") {
        "danger"
    } else if text::eq(job.status.as_str(), "Running") {
        "info"
    } else {
        "muted"
    };
    JobRow {
        name: job.name.clone(),
        namespace: job.namespace.clone(),
        is_live: false,
        status: job.status.clone(),
        status_badge_class: badge.to_owned(),
        start_time,
        duration_display: match job.duration_seconds {
            Some(secs) => format_duration(secs),
            None => String::new(),
        },
        test_results: if is_acceptance_test {
            test_results
        } else {
            None
        },
        snapshot_status: if is_acceptance_test {
            job.snapshot_status.dup()
        } else {
            None
        },
        artifact_sha: job.artifact_sha.dup(),
    }
}

/// The order of moments of which either may be missing: a missing one comes first.
pub open spec fn option_moment_le(a: Option<Timestamp>, b: Option<Timestamp>) -> bool {
    match (a, b) {
        (None, _) => true,
        (Some(_), None) => false,
        (Some(x), Some(y)) => x.rank() <= y.rank(),
    }
}

/// Rows are ordered by their start times, the latest first, and those without one last.
impl Ordered for JobRow {
    open spec fn before(a: JobRowView, b: JobRowView) -> bool {
        option_moment_le(b.start_time, a.start_time)
    }

    proof fn lemma_total(a: JobRowView, b: JobRowView) {
    }

    proof fn lemma_transitive(a: JobRowView, b: JobRowView, c: JobRowView) {
    }

    fn is_before(&self, other: &JobRow) -> (r: bool) {
        match (&other.start_time, &self.start_time) {
            (None, _) => true,
            (Some(_), None) => false,
            (Some(x), Some(y)) => x.le(y),
        }
    }
}

/// The rows that the page shows.
#[derive(Debug)]
pub struct JobRows {
    pub rows: Vec<JobRow>,
    /// Whether there are more than are shown.
    pub has_more: bool,
    /// How many are shown when more are asked for.
    pub next_limit: Option<usize>,
}

/// The rows that the page shows of all rows: the latest, up to the limit.
pub open spec fn shown_rows(rows: Seq<JobRowView>, limit: nat) -> Seq<JobRowView> {
    let sorted = order::sorted_spec::<JobRow>(rows);
    if sorted.len() > limit {
        sorted.take(limit as int)
    } else {
        sorted
    }
}

/// Puts the rows in order, the latest first, and keeps as many as are to be shown.
pub fn limit_rows(rows: Vec<JobRow>, limit: usize) -> (r: JobRows)
    ensures
        r.rows.deep_view() == shown_rows(rows.deep_view(), limit as nat),
        r.has_more == (rows@.len() > limit),
        r.next_limit == (if rows@.len() > limit && limit + DEFAULT_JOB_LIMIT <= usize::MAX {
            Some((limit + DEFAULT_JOB_LIMIT) as usize)
        } else {
            None
        }),
{
    let ghost all = rows.deep_view();
    proof {
        order::law_sorted_same_values::<JobRow>(all);
    }
    let mut sorted = order::sort(rows);
    assert(sorted.deep_view().len() == sorted@.len());
    assert(all.len() == rows@.len());
    let has_more: bool = sorted.len() > limit;
    let next_limit: Option<usize> = if has_more {
        limit.checked_add(DEFAULT_JOB_LIMIT)
    } else {
        None
    };
    if has_more {
        let ghost before = sorted.deep_view();
        sorted.truncate(limit);
        assert(sorted.deep_view() =~= before.take(limit as int));
    }
    JobRows { rows: sorted, has_more, next_limit }
}

/// No row that is left out began later than one that is shown.
pub proof fn law_latest_rows_are_shown(rows: Seq<JobRowView>, limit: nat, i: int, j: int)
    requires
        0 <= i < shown_rows(rows, limit).len(),
        shown_rows(rows, limit).len() <= j < rows.len(),
    ensures
        option_moment_le(
            order::sorted_spec::<JobRow>(rows)[j].start_time,
            shown_rows(rows, limit)[i].start_time,
        ),
{
    order::law_sorted_in_order::<JobRow>(rows);
    order::law_sorted_same_values::<JobRow>(rows);
    let sorted = order::sorted_spec::<JobRow>(rows);
    assert(JobRow::before(sorted[i], sorted[j]));
}

/// A live job, with what is known of its results.
#[derive(Debug)]
pub struct LiveJob {
    pub job: Job,
    /// The test results that it uploaded.
    pub results_xml: Option<String>,
    /// The status that was recorded of its snapshots.
    pub snapshot_status: Option<String>,
}

/// What a [`LiveJob`] holds.
#[verifier::ext_equal]
pub struct LiveJobView {
    pub job: JobView,
    pub results_xml: Option<Seq<char>>,
    pub snapshot_status: Option<Seq<char>>,
}

impl DeepView for LiveJob {
    type V = LiveJobView;

    open spec fn deep_view(&self) -> LiveJobView {
        LiveJobView {
            job: self.job.deep_view(),
            results_xml: self.results_xml.deep_view(),
            snapshot_status: self.snapshot_status.deep_view(),
        }
    }
}

/// What the summary of test results shows, where they can be counted.
pub open spec fn found_results(answer: SummaryAnswer) -> Option<TestResultSummary> {
    match answer {
        SummaryAnswer::Found(summary) => Some(summary),
        _ => None,
    }
}

/// What the test results of a live job come to: they count once it has ended.
pub open spec fn live_answer(live: LiveJobView, is_acceptance_test: bool) -> SummaryAnswer {
    if is_acceptance_test && live.job.is_terminal() {
        summary_answer_spec(crate::metrics::suites_of_xml(live.results_xml))
    } else {
        SummaryAnswer::Nothing
    }
}

/// What the test results of an archived job come to.
pub open spec fn archived_answer(job: ArchivedJobView, is_acceptance_test: bool) -> SummaryAnswer {
    if is_acceptance_test {
        summary_answer_spec(crate::metrics::suites_of_xml(job.output_test_results_xml))
    } else {
        SummaryAnswer::Nothing
    }
}

/// The rows of the live jobs of a template, in the order in which they are listed.
pub open spec fn live_rows_spec(
    jobs: Seq<LiveJobView>,
    uid: Seq<char>,
    namespace: Seq<char>,
    is_acceptance_test: bool,
    now: Timestamp,
) -> Seq<JobRowView>
    decreases jobs.len(),
{
    if jobs.len() == 0 {
        Seq::empty()
    } else {
        let front = live_rows_spec(jobs.drop_last(), uid, namespace, is_acceptance_test, now);
        let live = jobs.last();
        if live.job.metadata.owned_by(uid) {
            front.push(
                live_row_spec(
                    live.job,
                    namespace,
                    is_acceptance_test,
                    found_results(live_answer(live, is_acceptance_test)),
                    live.snapshot_status,
                    now,
                ),
            )
        } else {
            front
        }
    }
}

/// The row of an archived job.
pub open spec fn archived_page_row(job: ArchivedJobView, is_acceptance_test: bool) -> JobRowView {
    archived_row_spec(
        job,
        is_acceptance_test,
        found_results(archived_answer(job, is_acceptance_test)),
        archived_start_spec(job.start_time),
    )
}

/// All rows of the page of a template: its live jobs, and then its archived ones.
pub open spec fn page_rows_spec(
    jobs: Seq<LiveJobView>,
    uid: Seq<char>,
    namespace: Seq<char>,
    archived: Seq<ArchivedJobView>,
    is_acceptance_test: bool,
    now: Timestamp,
) -> Seq<JobRowView> {
    live_rows_spec(jobs, uid, namespace, is_acceptance_test, now) + archived.map_values(
        |j: ArchivedJobView| archived_page_row(j, is_acceptance_test),
    )
}

/// Whether the failures of every job that is shown can be counted.
pub open spec fn rows_countable(
    jobs: Seq<LiveJobView>,
    uid: Seq<char>,
    archived: Seq<ArchivedJobView>,
    is_acceptance_test: bool,
) -> bool {
    &&& forall|i: int|
        0 <= i < jobs.len() && (#[trigger] jobs[i]).job.metadata.owned_by(uid) ==> live_answer(
            jobs[i],
            is_acceptance_test,
        ) != SummaryAnswer::Uncountable
    &&& forall|i: int|
        0 <= i < archived.len() ==> archived_answer(#[trigger] archived[i], is_acceptance_test)
            != SummaryAnswer::Uncountable
}

fn live_results(live: &LiveJob, is_acceptance_test: bool) -> (r: SummaryAnswer)
    ensures
        r == live_answer(live.deep_view(), is_acceptance_test),
{
    if needs_results(&live.job, is_acceptance_test) {
        load_test_results(&live.results_xml)
    } else {
        SummaryAnswer::Nothing
    }
}

fn archived_results(job: &ArchivedJob, is_acceptance_test: bool) -> (r: SummaryAnswer)
    ensures
        r == archived_answer(job.deep_view(), is_acceptance_test),
{
    if is_acceptance_test {
        load_test_results(&job.output_test_results_xml)
    } else {
        SummaryAnswer::Nothing
    }
}

fn found(answer: SummaryAnswer) -> (r: Option<TestResultSummary>)
    ensures
        r == found_results(answer),
{
    match answer {
        SummaryAnswer::Found(summary) => Some(summary),
        _ => None,
    }
}

/// The rows of the page of a template, the latest first, up to a limit; nothing where the
/// failures of a job cannot be counted in 32 bits. `jobs` are the live jobs of the
/// namespace, `uid` is the identifier of the template.
pub fn page_rows(
    jobs: &Vec<LiveJob>,
    uid: &str,
    namespace: &str,
    archived: &Vec<ArchivedJob>,
    is_acceptance_test: bool,
    limit: usize,
    now: &Timestamp,
) -> (r: Option<JobRows>)
    ensures
        r is Some <==> rows_countable(
            jobs.deep_view(),
            uid@,
            archived.deep_view(),
            is_acceptance_test,
        ),
        r matches Some(shown) ==> ({
            let rows = page_rows_spec(
                jobs.deep_view(),
                uid@,
                namespace@,
                archived.deep_view(),
                is_acceptance_test,
                *now,
            );
            &&& shown.rows.deep_view() == shown_rows(rows, limit as nat)
            &&& shown.has_more == (rows.len() > limit)
            &&& shown.next_limit == (if rows.len() > limit && limit + DEFAULT_JOB_LIMIT
                <= usize::MAX {
                Some((limit + DEFAULT_JOB_LIMIT) as usize)
            } else {
                None
            })
        }),
{
    let ghost all = jobs.deep_view();
    let ghost old_jobs = archived.deep_view();
    let mut rows: Vec<JobRow> = Vec::new();
    assert(rows.deep_view() =~= Seq::empty());
    for i in 0..jobs.len()
        invariant
            all == jobs.deep_view(),
            old_jobs == archived.deep_view(),
            rows.deep_view() == live_rows_spec(
                all.take(i as int),
                uid@,
                namespace@,
                is_acceptance_test,
                *now,
            ),
            forall|k: int|
                0 <= k < i && (#[trigger] all[k]).job.metadata.owned_by(uid@) ==> live_answer(
                    all[k],
                    is_acceptance_test,
                ) != SummaryAnswer::Uncountable,
    {
        let live = &jobs[i];
        let ghost before = rows.deep_view();
        assert(all.take(i + 1).drop_last() =~= all.take(i as int));
        assert(all.take(i + 1).last() == live.deep_view());
        assert(all[i as int] == live.deep_view());
        if live.job.metadata.owned_by(uid) {
            let answer = live_results(live, is_acceptance_test);
            if let SummaryAnswer::Uncountable = answer {
                return None;
            }
            let row = live_row(
                &live.job,
                namespace,
                is_acceptance_test,
                found(answer),
                &live.snapshot_status,
                now,
            );
            rows.push(row);
            assert(rows.deep_view() =~= before.push(row.deep_view()));
        }
    }
    assert(all.take(all.len() as int) =~= all);
    let ghost first = rows.deep_view();
    let ghost f = |j: ArchivedJobView| archived_page_row(j, is_acceptance_test);
    assert(first =~= first + old_jobs.take(0).map_values(f));
    for i in 0..archived.len()
        invariant
            old_jobs == archived.deep_view(),
            f == (|j: ArchivedJobView| archived_page_row(j, is_acceptance_test)),
            rows.deep_view() == first + old_jobs.take(i as int).map_values(f),
            forall|k: int|
                0 <= k < i ==> archived_answer(#[trigger] old_jobs[k], is_acceptance_test)
                    != SummaryAnswer::Uncountable,
    {
        let ghost before = rows.deep_view();
        let job = &archived[i];
        assert(old_jobs[i as int] == job.deep_view());
        let answer = archived_results(job, is_acceptance_test);
        if let SummaryAnswer::Uncountable = answer {
            return None;
        }
        let row = archived_row(
            job,
            is_acceptance_test,
            found(answer),
            archived_start(&job.start_time),
        );
        rows.push(row);
        assert(rows.deep_view() =~= before.push(row.deep_view()));
        assert(old_jobs.take(i + 1).map_values(f) =~= old_jobs.take(i as int).map_values(f).push(
            row.deep_view(),
        ));
        assert(rows.deep_view() =~= first + old_jobs.take(i + 1).map_values(f));
    }
    assert(old_jobs.take(old_jobs.len() as int) =~= old_jobs);
    assert(rows.deep_view().len() == rows@.len());
    Some(limit_rows(rows, limit))
}

/// The address of the list of jobs of a template, up to a limit.
pub fn fragment_link(namespace: &str, name: &str, limit: usize) -> (r: String)
    ensures
        r@ == "/job-templates/"@ + namespace@ + "/"@ + name@ + "/fragment?limit="@
            + decimal::digits_spec(limit as nat),
{
    let mut r = "/job-templates/".to_owned();
    r.append(namespace);
    r.append("/");
    r.append(name);
    r.append("/fragment?limit=");
    r.append(decimal::of_u64(limit as u64).as_str());
    r
}

/// The class and the text of the badge that shows the schedule of a template.
pub open spec fn schedule_badge_spec(jt: JobTemplateView) -> (Seq<char>, Seq<char>) {
    match jt.spec.schedule {
        Some(schedule) => ("badge badge-info"@, schedule),
        None => ("badge badge-muted"@, "On-demand"@),
    }
}

/// The class and the text of the badge that shows the schedule of a template.
pub fn schedule_badge(jt: &JobTemplate) -> (r: (&'static str, String))
    ensures
        (r.0@, r.1@) == schedule_badge_spec(jt.deep_view()),
{
    match &jt.spec.schedule {
        Some(schedule) => ("badge badge-info", schedule.clone()),
        None => ("badge badge-muted", "On-demand".to_owned()),
    }
}

/// Where the short form of a hash ends: after eight bytes, or at its end.
pub open spec fn short_end(sha: Seq<char>) -> int {
    let len = vstd::utf8::encode_utf8(sha).len() as int;
    if len < 8 {
        len
    } else {
        8
    }
}

/// Whether a hash has a short form: no character of it lies across the eighth byte.
pub open spec fn has_short(sha: Seq<char>) -> bool {
    vstd::utf8::is_char_boundary(vstd::utf8::encode_utf8(sha), short_end(sha))
}

fn short_len(sha: &str) -> (r: usize)
    ensures
        r == short_end(sha@),
{
    let bytes = sha.as_bytes();
    let len: usize = bytes.len();
    if len < 8 {
        len
    } else {
        8
    }
}

/// Whether a hash has a short form.
pub fn has_short_sha(sha: &str) -> (r: bool)
    ensures
        r == has_short(sha@),
{
    sha.is_char_boundary(short_len(sha))
}

/// The short form of a hash: its first eight bytes.
pub fn short_sha(sha: &str) -> (r: &str)
    requires
        has_short(sha@),
    ensures
        vstd::utf8::encode_utf8(r@) == vstd::utf8::encode_utf8(sha@).take(short_end(sha@)),
{
    let end: usize = short_len(sha);
    let (head, _) = sha.split_at(end);
    assert(vstd::utf8::encode_utf8(head@) =~= vstd::utf8::encode_utf8(sha@).take(end as int));
    head
}

/// The name of a job as the table shows it: without the name of its template and
/// the dash that follows it.
pub open spec fn display_name_spec(name: Seq<char>, template: Seq<char>) -> Seq<char> {
    if template.is_prefix_of(name) && "-"@.is_prefix_of(name.skip(template.len() as int)) {
        name.skip(template.len() as int).skip("-"@.len() as int)
    } else {
        name
    }
}

/// The name of a job as the table shows it.
pub fn display_name(name: &str, template: &str) -> (r: String)
    ensures
        r@ == display_name_spec(name@, template@),
{
    if text::starts_with(name, template) {
        let rest = text::without_prefix(name, template);
        if text::starts_with(rest.as_str(), "-") {
            return text::without_prefix(rest.as_str(), "-");
        }
    }
    name.to_owned()
}

/// Whether the hash of a row differs from that of the row after it, which began
/// before it; not where either is missing.
pub open spec fn sha_changed_spec(rows: Seq<JobRowView>, i: int) -> bool {
    &&& 0 <= i < rows.len() - 1
    &&& rows[i].artifact_sha is Some
    &&& rows[i + 1].artifact_sha is Some
    &&& rows[i].artifact_sha != rows[i + 1].artifact_sha
}

/// The class and the text of the badge of a snapshot status.
pub open spec fn snapshot_badge_spec(status: Seq<char>) -> (Seq<char>, Seq<char>) {
    if status == "matches_baseline"@ {
        ("badge badge-success"@, "Matches baseline"@)
    } else if status == "accepted_as_baseline"@ {
        ("badge badge-info"@, "Accepted as new baseline"@)
    } else if status == "differs_from_baseline"@ {
        ("badge badge-danger"@, "Differs from baseline"@)
    } else {
        ("badge badge-muted"@, status)
    }
}

/// The class and the text of the badge of test results.
pub open spec fn tests_badge_spec(results: TestResultSummary) -> (Seq<char>, Seq<char>) {
    if results.all_passed {
        ("badge badge-success"@, "Passing"@)
    } else {
        ("badge badge-danger"@, decimal::digits_spec(results.failures as nat) + " Failing"@)
    }
}

fn snapshot_badge(status: &str) -> (r: (String, String))
    ensures
        r.deep_view() == snapshot_badge_spec(status@),
{
    if text::eq(status, "matches_baseline") {
        ("badge badge-success".to_owned(), "Matches baseline".to_owned())
    } else if text::eq(status, "accepted_as_baseline") {
        ("badge badge-info".to_owned(), "Accepted as new baseline".to_owned())
    } else if text::eq(status, "differs_from_baseline") {
        ("badge badge-danger".to_owned(), "Differs from baseline".to_owned())
    } else {
        ("badge badge-muted".to_owned(), status.to_owned())
    }
}

fn tests_badge(results: &TestResultSummary) -> (r: (String, String))
    ensures
        r.deep_view() == tests_badge_spec(*results),
{
    if results.all_passed {
        ("badge badge-success".to_owned(), "Passing".to_owned())
    } else {
        let mut label = decimal::of_u64(results.failures as u64);
        label.append(" Failing");
        ("badge badge-danger".to_owned(), label)
    }
}

/// The cells of a row of the table; a badge is a class and a text.
#[derive(Debug)]
pub struct TableRow {
    pub display_name: String,
    pub link: String,
    /// The hash of the artifact with the class of its badge.
    pub sha: Option<(String, String)>,
    pub source: (String, String),
    pub status: (String, String),
    pub tests: Option<(String, String)>,
    pub snapshots: Option<(String, String)>,
    pub start_time: Option<Timestamp>,
    pub duration: String,
}

/// What a [`TableRow`] holds.
#[verifier::ext_equal]
pub struct TableRowView {
    pub display_name: Seq<char>,
    pub link: Seq<char>,
    pub sha: Option<(Seq<char>, Seq<char>)>,
    pub source: (Seq<char>, Seq<char>),
    pub status: (Seq<char>, Seq<char>),
    pub tests: Option<(Seq<char>, Seq<char>)>,
    pub snapshots: Option<(Seq<char>, Seq<char>)>,
    pub start_time: Option<Timestamp>,
    pub duration: Seq<char>,
}

impl DeepView for TableRow {
    type V = TableRowView;

    open spec fn deep_view(&self) -> TableRowView {
        TableRowView {
            display_name: self.display_name.deep_view(),
            link: self.link.deep_view(),
            sha: self.sha.deep_view(),
            source: self.source.deep_view(),
            status: self.status.deep_view(),
            tests: self.tests.deep_view(),
            snapshots: self.snapshots.deep_view(),
            start_time: self.start_time.deep_view(),
            duration: self.duration.deep_view(),
        }
    }
}

/// The table of jobs.
#[derive(Debug)]
pub struct CombinedTable {
    /// Whether there is a column for hashes.
    pub has_sha: bool,
    /// The columns of the table on a wide screen.
    pub col_count: usize,
    pub rows: Vec<TableRow>,
}

/// What a [`CombinedTable`] holds.
#[verifier::ext_equal]
pub struct CombinedTableView {
    pub has_sha: bool,
    pub col_count: usize,
    pub rows: Seq<TableRowView>,
}

impl DeepView for CombinedTable {
    type V = CombinedTableView;

    open spec fn deep_view(&self) -> CombinedTableView {
        CombinedTableView {
            has_sha: self.has_sha.deep_view(),
            col_count: self.col_count.deep_view(),
            rows: self.rows.deep_view(),
        }
    }
}

/// The cells of the row at position `i`.
pub open spec fn table_row_spec(
    rows: Seq<JobRowView>,
    i: int,
    is_acceptance_test: bool,
    template: Seq<char>,
) -> TableRowView {
    let row = rows[i];
    TableRowView {
        display_name: display_name_spec(row.name, template),
        link: "/jobs/"@ + row.namespace + "/"@ + row.name,
        sha: match row.artifact_sha {
            Some(sha) => Some(
                (
                    if sha_changed_spec(rows, i) {
                        "sha-badge sha-changed"@
                    } else {
                        "sha-badge"@
                    },
                    sha,
                ),
            ),
            None => None,
        },
        source: if row.is_live {
            ("badge badge-info"@, "Live"@)
        } else {
            ("badge badge-muted"@, "Archived"@)
        },
        status: ("badge badge-"@ + row.status_badge_class, row.status),
        tests: match row.test_results {
            Some(results) => if is_acceptance_test {
                Some(tests_badge_spec(results))
            } else {
                None
            },
            None => None,
        },
        snapshots: match row.snapshot_status {
            Some(status) => if is_acceptance_test {
                Some(snapshot_badge_spec(status))
            } else {
                None
            },
            None => None,
        },
        start_time: row.start_time,
        duration: row.duration_display,
    }
}

/// Whether one of the rows has a hash.
pub open spec fn has_any_sha(rows: Seq<JobRowView>) -> bool {
    exists|i: int| 0 <= i < rows.len() && (#[trigger] rows[i]).artifact_sha is Some
}

/// The table of jobs.
pub open spec fn combined_table_spec(
    rows: Seq<JobRowView>,
    is_acceptance_test: bool,
    template: Seq<char>,
) -> CombinedTableView {
    CombinedTableView {
        has_sha: has_any_sha(rows),
        col_count: (5 + (if is_acceptance_test {
            2int
        } else {
            0
        }) + (if has_any_sha(rows) {
            1int
        } else {
            0
        })) as usize,
        rows: Seq::new(
            rows.len(),
            |i: int| table_row_spec(rows, i, is_acceptance_test, template),
        ),
    }
}

fn sha_changed(rows: &Vec<JobRow>, i: usize) -> (r: bool)
    requires
        i < rows@.len(),
    ensures
        r == sha_changed_spec(rows.deep_view(), i as int),
{
    assert(rows.deep_view()[i as int] == rows@[i as int].deep_view());
    if i < rows.len() - 1 {
        assert(rows.deep_view()[i + 1] == rows@[i + 1].deep_view());
        match (&rows[i].artifact_sha, &rows[i + 1].artifact_sha) {
            (Some(a), Some(b)) => !text::eq(a.as_str(), b.as_str()),
            _ => false,
        }
    } else {
        false
    }
}

fn table_row(rows: &Vec<JobRow>, i: usize, is_acceptance_test: bool, template: &str) -> (r: TableRow)
    requires
        i < rows@.len(),
    ensures
        r.deep_view() == table_row_spec(
            rows.deep_view(),
            i as int,
            is_acceptance_test,
            template@,
        ),
{
    let row = &rows[i];
    assert(rows.deep_view()[i as int] == rows@[i as int].deep_view());
    let mut link = "/jobs/".to_owned();
    link.append(row.namespace.as_str());
    link.append("/");
    link.append(row.name.as_str());
    let sha = match &row.artifact_sha {
        Some(sha) => {
            let class = if sha_changed(rows, i) {
                "sha-badge sha-changed"
            } else {
                "sha-badge"
            };
            Some((class.to_owned(), sha.clone()))
        },
        None => None,
    };
    let source = if row.is_live {
        ("badge badge-info".to_owned(), "Live".to_owned())
    } else {
        ("badge badge-muted".to_owned(), "Archived".to_owned())
    };
    let tests = match &row.test_results {
        Some(results) => if is_acceptance_test {
            Some(tests_badge(results))
        } else {
            None
        },
        None => None,
    };
    let snapshots = match &row.snapshot_status {
        Some(status) => if is_acceptance_test {
            Some(snapshot_badge(status.as_str()))
        } else {
            None
        },
        None => None,
    };
    let start_time: Option<Timestamp> = row.start_time;
    TableRow {
        display_name: display_name(row.name.as_str(), template),
        link,
        sha,
        source,
        status: (
            text::concat("badge badge-", row.status_badge_class.as_str()),
            row.status.clone(),
        ),
        tests,
        snapshots,
        start_time,
        duration: row.duration_display.clone(),
    }
}

/// The table of jobs of a template.
pub fn combined_table(rows: &Vec<JobRow>, is_acceptance_test: bool, template: &str) -> (r:
    CombinedTable)
    ensures
        r.deep_view() == combined_table_spec(rows.deep_view(), is_acceptance_test, template@),
{
    let ghost all = rows.deep_view();
    let mut has_sha: bool = false;
    let mut list: Vec<TableRow> = Vec::new();
    for i in 0..rows.len()
        invariant
            all == rows.deep_view(),
            has_sha == exists|j: int| 0 <= j < i && (#[trigger] all[j]).artifact_sha is Some,
            list@.len() == i,
            forall|j: int|
                0 <= j < i ==> (#[trigger] list.deep_view()[j]) == table_row_spec(
                    all,
                    j,
                    is_acceptance_test,
                    template@,
                ),
    {
        assert(all[i as int] == rows@[i as int].deep_view());
        let ghost before = list.deep_view();
        let row = table_row(rows, i, is_acceptance_test, template);
        list.push(row);
        assert(list.deep_view() =~= before.push(row.deep_view()));
        has_sha = has_sha || rows[i].artifact_sha.is_some();
    }
    assert(has_sha == has_any_sha(all));
    let mut col_count: usize = 5;
    if is_acceptance_test {
        col_count = col_count + 2;
    }
    if has_sha {
        col_count = col_count + 1;
    }
    let r = CombinedTable { has_sha, col_count, rows: list };
    assert(r.rows.deep_view() =~= combined_table_spec(all, is_acceptance_test, template@).rows);
    r
}

/// How long ago a moment was, in words.
pub open spec fn timeago_spec(secs: int) -> Seq<char> {
    let mins = secs / 60;
    let hours = secs / 3600;
    let days = secs / 86400;
    if secs < 60 {
        "just now"@
    } else if mins == 1 {
        "1 minute ago"@
    } else if mins < 60 {
        decimal::decimal_spec(mins) + " minutes ago"@
    } else if hours == 1 {
        "1 hour ago"@
    } else if hours < 24 {
        decimal::decimal_spec(hours) + " hours ago"@
    } else if days == 1 {
        "1 day ago"@
    } else {
        decimal::decimal_spec(days) + " days ago"@
    }
}

/// How long before `now` a moment was, in words.
pub fn timeago(dt: &Timestamp, now: &Timestamp) -> (r: String)
    ensures
        r@ == timeago_spec(now.seconds_since_spec(*dt)),
{
    let secs: i64 = now.seconds_since(dt);
    if secs < 60 {
        return "just now".to_owned();
    }
    let mins: i64 = secs / 60;
    if mins == 1 {
        return "1 minute ago".to_owned();
    }
    if mins < 60 {
        return text::concat(decimal::of_i64(mins).as_str(), " minutes ago");
    }
    let hours: i64 = mins / 60;
    if hours == 1 {
        return "1 hour ago".to_owned();
    }
    if hours < 24 {
        return text::concat(decimal::of_i64(hours).as_str(), " hours ago");
    }
    let days: i64 = hours / 24;
    if days == 1 {
        return "1 day ago".to_owned();
    }
    text::concat(decimal::of_i64(days).as_str(), " days ago")
}

/// The ending of an ordinal number.
pub open spec fn ordinal_suffix_spec(n: nat) -> Seq<char> {
    if n % 100 == 11 || n % 100 == 12 || n % 100 == 13 {
        "th"@
    } else if n % 10 == 1 {
        "st"@
    } else if n % 10 == 2 {
        "nd"@
    } else if n % 10 == 3 {
        "rd"@
    } else {
        "th"@
    }
}

/// The ending of an ordinal number.
pub fn ordinal_suffix(n: u32) -> (r: &'static str)
    ensures
        r@ == ordinal_suffix_spec(n as nat),
{
    match (n % 10, n % 100) {
        (1, 11) => "th",
        (2, 12) => "th",
        (3, 13) => "th",
        (1, _) => "st",
        (2, _) => "nd",
        (3, _) => "rd",
        _ => "th",
    }
}

/// The text that `chrono` gives for a moment in a format, in the time zone
/// US/Eastern of `chrono_tz`.
pub uninterp spec fn eastern_spec(secs: int, nanos: int, format: Seq<char>) -> Seq<char>;

/// The formats in which parts of a date are taken.
pub open spec fn is_part_format(format: Seq<char>) -> bool {
    format == "%B"@ || format == "%-d"@ || format == "%-I:%M:%S %p"@ || format == "%Y"@
}

/// `chrono::DateTime::with_timezone` with `chrono_tz::US::Eastern`, and `format`
/// with one of the formats in use: the text depends on the moment and the format
/// alone.
#[verifier::external_body]
fn eastern_part(secs: i64, nanos: u32, format: &str) -> (r: String)
    requires
        time::valid_parts(secs as int, nanos as int),
        is_part_format(format@),
    ensures
        r@ == eastern_spec(secs as int, nanos as int, format@),
{
    chrono::DateTime::from_timestamp(secs, nanos).map(
        |d| d.with_timezone(&chrono_tz::US::Eastern).format(format).to_string(),
    ).unwrap_or_default()
}

/// A date in words, made of its parts.
pub open spec fn eastern_text_spec(
    month: Seq<char>,
    day: Seq<char>,
    year: Seq<char>,
    rest: Seq<char>,
) -> Seq<char> {
    let n = match decimal::parse_unsigned_spec(day, u32::MAX as nat) {
        Some(k) => k,
        None => 1,
    };
    month + " "@ + decimal::digits_spec(n) + ordinal_suffix_spec(n) + ", "@ + year + " "@ + rest
        + " Eastern"@
}

/// A date in words, such as `March 6th, 2026 9:02:00 PM Eastern`, made of its parts.
pub fn eastern_text(month: &str, day: &str, year: &str, rest: &str) -> (r: String)
    ensures
        r@ == eastern_text_spec(month@, day@, year@, rest@),
{
    let n: u32 = match decimal::parse_u32(day) {
        Some(k) => k,
        None => 1,
    };
    let mut r = month.to_owned();
    r.append(" ");
    r.append(decimal::of_u64(n as u64).as_str());
    r.append(ordinal_suffix(n));
    r.append(", ");
    r.append(year);
    r.append(" ");
    r.append(rest);
    r.append(" Eastern");
    r
}

/// A moment as a date in words, in Eastern time.
pub fn format_eastern(dt: &Timestamp) -> (r: String)
    ensures
        r@ == eastern_text_spec(
            eastern_spec(dt.secs(), dt.nanos(), "%B"@),
            eastern_spec(dt.secs(), dt.nanos(), "%-d"@),
            eastern_spec(dt.secs(), dt.nanos(), "%Y"@),
            eastern_spec(dt.secs(), dt.nanos(), "%-I:%M:%S %p"@),
        ),
{
    let secs: i64 = dt.seconds();
    let nanos: u32 = dt.subsec_nanos();
    let month = eastern_part(secs, nanos, "%B");
    let day = eastern_part(secs, nanos, "%-d");
    let rest = eastern_part(secs, nanos, "%-I:%M:%S %p");
    let year = eastern_part(secs, nanos, "%Y");
    eastern_text(month.as_str(), day.as_str(), year.as_str(), rest.as_str())
}

/// The summary of results says that all passed exactly where no test failed or was in error, and
/// counts both together; skipped tests do not matter. Results that cannot be read have none.
pub proof fn law_results_summary(suites: TestSuitesView)
    ensures
        summary_answer_spec(None) == SummaryAnswer::Nothing,
        ({
            let bad = suites.total_failures() + suites.total_errors();
            &&& bad > u32::MAX ==> summary_answer_spec(Some(suites)) == SummaryAnswer::Uncountable
            &&& bad <= u32::MAX ==> (summary_answer_spec(Some(suites)) matches SummaryAnswer::Found(
                summary,
            ) && summary.failures == bad && (summary.all_passed <==> bad == 0))
        }),
{
}

/// A live job in the table stands as its conditions say. Until they do, it is running exactly
/// where it has active and ready pods, is being cleaned up where pods of it have ended, and is
/// pending otherwise.
pub proof fn law_table_status(job: JobView)
    ensures
        ({
            let active = job.status matches Some(s) && (s.active matches Some(n) && n > 0);
            let ready = job.status matches Some(s) && (s.ready matches Some(n) && n > 0);
            let ended = job.status matches Some(s) && ((s.succeeded matches Some(n) && n > 0) || (
            s.failed matches Some(n) && n > 0));
            let open = job.verdict() is None;
            &&& job.verdict() == Some(Verdict::Succeeded) ==> job_status_spec(job) == (
                "success"@,
                "Succeeded"@,
            )
            &&& job.verdict() == Some(Verdict::Failed) ==> job_status_spec(job) == (
                "danger"@,
                "Failed"@,
            )
            &&& open && active && ready ==> job_status_spec(job) == ("info"@, "Running"@)
            &&& open && !(active && ready) && ended ==> job_status_spec(job) == (
                "muted"@,
                "Cleaning up"@,
            )
            &&& open && !(active && ready) && !ended ==> job_status_spec(job) == (
                "muted"@,
                "Pending"@,
            )
        }),
{
}

/// The row of a live job tells what is known of it. Results and snapshots are told of only where
/// it is an acceptance test that has ended.
pub proof fn law_live_row(
    job: JobView,
    namespace: Seq<char>,
    is_acceptance_test: bool,
    test_results: Option<TestResultSummary>,
    snapshot_status: Option<Seq<char>>,
    now: Timestamp,
)
    ensures
        ({
            let row = live_row_spec(
                job,
                namespace,
                is_acceptance_test,
                test_results,
                snapshot_status,
                now,
            );
            &&& job.metadata.name matches Some(n) ==> row.name == n
            &&& row.namespace == namespace
            &&& row.is_live
            &&& (row.status_badge_class, row.status) == job_status_spec(job)
            &&& row.start_time == job.start_time()
            &&& row.duration_display == job_duration_display_spec(job, now)
            &&& is_acceptance_test && job.is_terminal() ==> row.test_results == test_results
                && row.snapshot_status == snapshot_status
            &&& !is_acceptance_test || !job.is_terminal() ==> row.test_results is None
                && row.snapshot_status is None
            &&& job.metadata.annotations matches Some(m) ==> (row.artifact_sha is Some
                <==> m.dom().contains("artifactSha"@)) && (row.artifact_sha matches Some(v) ==> v
                == m["artifactSha"@])
            &&& job.metadata.annotations is None ==> row.artifact_sha is None
        }),
{
}

/// The row of an archived job tells what its row in the archive holds. Results and snapshots are
/// told of only where it is an acceptance test.
pub proof fn law_archived_row(
    job: ArchivedJobView,
    is_acceptance_test: bool,
    test_results: Option<TestResultSummary>,
    start_time: Option<Timestamp>,
)
    ensures
        ({
            let row = archived_row_spec(job, is_acceptance_test, test_results, start_time);
            &&& row.name == job.name
            &&& row.namespace == job.namespace
            &&& !row.is_live
            &&& row.status == job.status
            &&& job.status == "Succeeded"@ ==> row.status_badge_class == "success"@
            &&& job.status == "Failed"@ ==> row.status_badge_class == "danger"@
            &&& job.status == "Running"@ ==> row.status_badge_class == "info"@
            &&& job.status != "Succeeded"@ && job.status != "Failed"@ && job.status != "Running"@
                ==> row.status_badge_class == "muted"@
            &&& row.start_time == start_time
            &&& job.duration_seconds matches Some(n) ==> row.duration_display
                == format_duration_spec(n as int)
            &&& job.duration_seconds is None ==> row.duration_display.len() == 0
            &&& is_acceptance_test ==> row.test_results == test_results && row.snapshot_status
                == job.snapshot_status
            &&& !is_acceptance_test ==> row.test_results is None && row.snapshot_status is None
            &&& row.artifact_sha == job.artifact_sha
        }),
{
    reveal_strlit("Succeeded");
    reveal_strlit("Failed");
    reveal_strlit("Running");
    assert("Succeeded"@.len() == 9 && "Failed"@.len() == 6 && "Running"@.len() == 7);
}

/// The page lists the live jobs that the template owns, each once and in order, and then every
/// archived one.
pub proof fn law_page_rows(
    jobs: Seq<LiveJobView>,
    live: LiveJobView,
    uid: Seq<char>,
    namespace: Seq<char>,
    archived: Seq<ArchivedJobView>,
    is_acceptance_test: bool,
    now: Timestamp,
    i: int,
)
    ensures
        ({
            let owned = live.job.metadata.owner_references matches Some(refs) && exists|i: int|
                0 <= i < refs.len() && (#[trigger] refs[i]).uid == uid;
            let before = live_rows_spec(jobs, uid, namespace, is_acceptance_test, now);
            let after = live_rows_spec(jobs.push(live), uid, namespace, is_acceptance_test, now);
            let all = page_rows_spec(jobs, uid, namespace, archived, is_acceptance_test, now);
            let results = match summary_answer_spec(
                crate::metrics::suites_of_xml(live.results_xml),
            ) {
                SummaryAnswer::Found(summary) => Some(summary),
                _ => None,
            };
            &&& live_rows_spec(Seq::empty(), uid, namespace, is_acceptance_test, now).len() == 0
            &&& owned ==> after == before.push(
                live_row_spec(
                    live.job,
                    namespace,
                    is_acceptance_test,
                    results,
                    live.snapshot_status,
                    now,
                ),
            )
            &&& !owned ==> after == before
            &&& all.len() == before.len() + archived.len()
            &&& 0 <= i < before.len() ==> all[i] == before[i]
            &&& before.len() <= i < all.len() ==> {
                let job = archived[i - before.len()];
                all[i] == archived_row_spec(
                    job,
                    is_acceptance_test,
                    match summary_answer_spec(
                        crate::metrics::suites_of_xml(job.output_test_results_xml),
                    ) {
                        SummaryAnswer::Found(summary) => Some(summary),
                        _ => None,
                    },
                    archived_start_spec(job.start_time),
                )
            }
        }),
{
    assert(jobs.push(live).drop_last() =~= jobs);
}

/// A moment that is missing comes before every other; two that are there are in the order of
/// time.
pub proof fn law_missing_moment_comes_first(a: Timestamp, b: Timestamp)
    requires
        time::valid_parts(a.secs(), a.nanos()),
        time::valid_parts(b.secs(), b.nanos()),
    ensures
        option_moment_le(None, None),
        option_moment_le(None, Some(a)),
        !option_moment_le(Some(a), None),
        a.secs() < b.secs() ==> option_moment_le(Some(a), Some(b)) && !option_moment_le(
            Some(b),
            Some(a),
        ),
        a.secs() == b.secs() ==> (option_moment_le(Some(a), Some(b)) <==> a.nanos() <= b.nanos()),
{
    time::law_rank_orders(a, b);
    time::law_rank_orders(b, a);
}

/// The page shows the newest rows first, as many as the limit allows, and none that is not
/// there; where there are no more than that, it shows them all.
pub proof fn law_rows_up_to_the_limit(rows: Seq<JobRowView>, limit: nat, i: int, j: int)
    ensures
        shown_rows(rows, limit).len() == (if rows.len() <= limit {
            rows.len()
        } else {
            limit
        }),
        rows.len() <= limit ==> shown_rows(rows, limit).to_multiset() == rows.to_multiset(),
        0 <= i < j < shown_rows(rows, limit).len() ==> option_moment_le(
            shown_rows(rows, limit)[j].start_time,
            shown_rows(rows, limit)[i].start_time,
        ),
        0 <= i < shown_rows(rows, limit).len() ==> rows.contains(shown_rows(rows, limit)[i]),
        DEFAULT_JOB_LIMIT == 100,
{
    broadcast use vstd::seq_lib::group_to_multiset_ensures;

    order::law_sorted_in_order::<JobRow>(rows);
    order::law_sorted_same_values::<JobRow>(rows);
    let sorted = order::sorted_spec::<JobRow>(rows);
    if 0 <= i < j < shown_rows(rows, limit).len() {
        assert(JobRow::before(sorted[i], sorted[j]));
    }
    if 0 <= i < shown_rows(rows, limit).len() {
        assert(sorted.contains(sorted[i]));
        assert(sorted.to_multiset().count(sorted[i]) > 0);
        assert(rows.to_multiset().count(sorted[i]) > 0);
    }
}

/// A template with a schedule shows it; one without is run on demand.
pub proof fn law_schedule_badge(jt: JobTemplateView)
    ensures
        jt.spec.schedule matches Some(s) ==> schedule_badge_spec(jt) == ("badge badge-info"@, s),
        jt.spec.schedule is None ==> schedule_badge_spec(jt) == (
            "badge badge-muted"@,
            "On-demand"@,
        ),
{
}

/// The name of a job stands without that of its template and the dash behind it; every other
/// name stands as it is.
pub proof fn law_display_name(template: Seq<char>, rest: Seq<char>, name: Seq<char>)
    ensures
        display_name_spec(template + seq!['-'] + rest, template) == rest,
        (forall|t: Seq<char>| name != #[trigger] (template + seq!['-'] + t)) ==> display_name_spec(
            name,
            template,
        ) == name,
{
    reveal_strlit("-");
    assert("-"@ =~= seq!['-']);
    let full = template + seq!['-'] + rest;
    assert(template.is_prefix_of(full)) by {
        assert(full.subrange(0, template.len() as int) =~= template);
    }
    let tail = full.skip(template.len() as int);
    assert(tail =~= seq!['-'] + rest);
    assert("-"@.is_prefix_of(tail)) by {
        assert(tail.subrange(0, 1) =~= "-"@);
    }
    assert(tail.skip(1) =~= rest);
    if template.is_prefix_of(name) && "-"@.is_prefix_of(name.skip(template.len() as int)) {
        let n = template.len() as int;
        assert(name.subrange(0, n) =~= template);
        let after = name.skip(n);
        assert(after.subrange(0, 1) =~= seq!['-']);
        assert(after.subrange(0, 1)[0] == after[0]);
        assert(name[n] == '-');
        assert forall|i: int| 0 <= i < n implies name[i] == #[trigger] template[i] by {
            assert(name.subrange(0, n)[i] == name[i]);
        }
        assert(name =~= template + seq!['-'] + name.skip(n + 1));
    }
}

/// The hash of a row is marked as changed exactly where the next older row has another one; not
/// where either has none, nor in the last row.
pub proof fn law_changed_hash(rows: Seq<JobRowView>, i: int)
    requires
        0 <= i < rows.len(),
    ensures
        i == rows.len() - 1 ==> !sha_changed_spec(rows, i),
        i < rows.len() - 1 ==> (sha_changed_spec(rows, i) <==> (rows[i].artifact_sha matches Some(a)
            && (rows[i + 1].artifact_sha matches Some(b) && a != b))),
{
}

/// The badge of snapshots tells whether they match, differ or were accepted; any other status is
/// shown as it is. The badge of results tells how many tests did not pass.
pub proof fn law_badges(status: Seq<char>, results: TestResultSummary)
    ensures
        snapshot_badge_spec("matches_baseline"@) == ("badge badge-success"@, "Matches baseline"@),
        snapshot_badge_spec("accepted_as_baseline"@) == (
            "badge badge-info"@,
            "Accepted as new baseline"@,
        ),
        snapshot_badge_spec("differs_from_baseline"@) == (
            "badge badge-danger"@,
            "Differs from baseline"@,
        ),
        status != "matches_baseline"@ && status != "accepted_as_baseline"@ && status
            != "differs_from_baseline"@ ==> snapshot_badge_spec(status) == (
            "badge badge-muted"@,
            status,
        ),
        results.all_passed ==> tests_badge_spec(results) == ("badge badge-success"@, "Passing"@),
        !results.all_passed ==> tests_badge_spec(results) == (
            "badge badge-danger"@,
            decimal::digits_spec(results.failures as nat) + " Failing"@,
        ),
{
    reveal_strlit("matches_baseline");
    reveal_strlit("accepted_as_baseline");
    reveal_strlit("differs_from_baseline");
    assert("matches_baseline"@.len() == 16 && "accepted_as_baseline"@.len() == 20
        && "differs_from_baseline"@.len() == 21);
}

/// The table has one line for each row, in their order, with what the row tells. Results and
/// snapshots have columns only for acceptance tests, and hashes one only where some row has one.
pub proof fn law_table(
    rows: Seq<JobRowView>,
    is_acceptance_test: bool,
    template: Seq<char>,
    i: int,
)
    requires
        0 <= i < rows.len(),
    ensures
        ({
            let table = combined_table_spec(rows, is_acceptance_test, template);
            let line = table.rows[i];
            let row = rows[i];
            &&& table.rows.len() == rows.len()
            &&& table.has_sha <==> exists|j: int|
                0 <= j < rows.len() && (#[trigger] rows[j]).artifact_sha is Some
            &&& !is_acceptance_test && !table.has_sha ==> table.col_count == 5
            &&& !is_acceptance_test && table.has_sha ==> table.col_count == 6
            &&& is_acceptance_test && !table.has_sha ==> table.col_count == 7
            &&& is_acceptance_test && table.has_sha ==> table.col_count == 8
            &&& line.display_name == display_name_spec(row.name, template)
            &&& line.link == "/jobs/"@ + row.namespace + "/"@ + row.name
            &&& row.artifact_sha is None ==> line.sha is None
            &&& row.artifact_sha matches Some(sha) ==> {
                &&& sha_changed_spec(rows, i) ==> line.sha == Some(("sha-badge sha-changed"@, sha))
                &&& !sha_changed_spec(rows, i) ==> line.sha == Some(("sha-badge"@, sha))
            }
            &&& row.is_live ==> line.source == ("badge badge-info"@, "Live"@)
            &&& !row.is_live ==> line.source == ("badge badge-muted"@, "Archived"@)
            &&& line.status == ("badge badge-"@ + row.status_badge_class, row.status)
            &&& !is_acceptance_test ==> line.tests is None && line.snapshots is None
            &&& is_acceptance_test ==> {
                &&& row.test_results is None ==> line.tests is None
                &&& row.test_results matches Some(r) ==> line.tests == Some(tests_badge_spec(r))
                &&& row.snapshot_status is None ==> line.snapshots is None
                &&& row.snapshot_status matches Some(s) ==> line.snapshots == Some(
                    snapshot_badge_spec(s),
                )
            }
            &&& line.start_time == row.start_time
            &&& line.duration == row.duration_display
        }),
{
}

/// How long ago a moment was is told in whole minutes below an hour, in whole hours below a day,
/// and in whole days from then on; what is less than a minute ago is just now.
pub proof fn law_time_ago(n: int, rest: int)
    ensures
        rest < 60 ==> timeago_spec(rest) == "just now"@,
        0 <= rest < 60 ==> timeago_spec(60 + rest) == "1 minute ago"@,
        2 <= n < 60 && 0 <= rest < 60 ==> timeago_spec(n * 60 + rest) == decimal::decimal_spec(n)
            + " minutes ago"@,
        0 <= rest < 3600 ==> timeago_spec(3600 + rest) == "1 hour ago"@,
        2 <= n < 24 && 0 <= rest < 3600 ==> timeago_spec(n * 3600 + rest) == decimal::decimal_spec(n)
            + " hours ago"@,
        0 <= rest < 86400 ==> timeago_spec(86400 + rest) == "1 day ago"@,
        2 <= n && 0 <= rest < 86400 ==> timeago_spec(n * 86400 + rest) == decimal::decimal_spec(n)
            + " days ago"@,
{
}

/// An ordinal ends by its last digit: `st` behind one, `nd` behind two, `rd` behind three and
/// `th` behind every other; `th` also behind all that end in the tens from eleven to nineteen.
pub proof fn law_ordinal(hundreds: nat, tens: nat, ones: nat)
    requires
        tens < 10,
        ones < 10,
    ensures
        ({
            let suffix = ordinal_suffix_spec((100 * hundreds + 10 * tens + ones) as nat);
            &&& tens == 1 ==> suffix == "th"@
            &&& tens != 1 && ones == 1 ==> suffix == "st"@
            &&& tens != 1 && ones == 2 ==> suffix == "nd"@
            &&& tens != 1 && ones == 3 ==> suffix == "rd"@
            &&& ones == 0 || ones > 3 ==> suffix == "th"@
        }),
{
    let n = 100 * hundreds + 10 * tens + ones;
    assert(n % 10 == ones && n % 100 == 10 * tens + ones);
}

/// A date in words tells the month, the day as an ordinal, the year and the time, in this order.
pub proof fn law_date_in_words(
    month: Seq<char>,
    n: nat,
    year: Seq<char>,
    rest: Seq<char>,
)
    requires
        n <= u32::MAX,
    ensures
        eastern_text_spec(month, decimal::digits_spec(n), year, rest) == month + " "@
            + decimal::digits_spec(n) + ordinal_suffix_spec(n) + ", "@ + year + " "@ + rest
            + " Eastern"@,
{
    decimal::law_unsigned_round_trip(n, u32::MAX as nat);
}

/// The page can be shown wherever the failures of every acceptance test on it can be counted;
/// of other templates nothing is counted.
pub proof fn law_page_can_be_shown(
    jobs: Seq<LiveJobView>,
    uid: Seq<char>,
    archived: Seq<ArchivedJobView>,
    is_acceptance_test: bool,
)
    ensures
        !is_acceptance_test ==> rows_countable(jobs, uid, archived, is_acceptance_test),
        is_acceptance_test ==> (rows_countable(jobs, uid, archived, is_acceptance_test) <==> (forall|
            i: int,
        |
            0 <= i < jobs.len() && (#[trigger] jobs[i]).job.metadata.owned_by(uid)
                && jobs[i].job.is_terminal() ==> countable(jobs[i].results_xml)) && (forall|i: int|
            0 <= i < archived.len() ==> countable(
                (#[trigger] archived[i]).output_test_results_xml,
            ))),
{
    if is_acceptance_test {
        if rows_countable(jobs, uid, archived, true) {
            assert forall|i: int|
                0 <= i < jobs.len() && (#[trigger] jobs[i]).job.metadata.owned_by(uid)
                    && jobs[i].job.is_terminal() implies countable(jobs[i].results_xml) by {
                assert(live_answer(jobs[i], true) != SummaryAnswer::Uncountable);
            }
            assert forall|i: int| 0 <= i < archived.len() implies countable(
                (#[trigger] archived[i]).output_test_results_xml,
            ) by {
                assert(archived_answer(archived[i], true) != SummaryAnswer::Uncountable);
            }
        }
    }
}

/// Whether results are missing, or their failures and errors can be counted together.
pub open spec fn countable(xml: Option<Seq<char>>) -> bool {
    crate::metrics::suites_of_xml(xml) matches Some(s) ==> s.total_failures() + s.total_errors()
        <= u32::MAX
}

/// A hash of plain characters has a short form: its first eight characters, or all of it where
/// it has no more.
pub proof fn law_short_hash(sha: Seq<char>)
    requires
        vstd::utf8::is_ascii_chars(sha),
    ensures
        has_short(sha),
        sha.len() >= 8 ==> short_end(sha) == 8,
        sha.len() < 8 ==> short_end(sha) == sha.len(),
{
    let bytes = vstd::utf8::encode_utf8(sha);
    vstd::utf8::is_ascii_chars_encode_utf8(sha);
    vstd::utf8::encode_utf8_valid_utf8(sha);
    vstd::utf8::is_char_boundary_start_end_of_seq(bytes);
    if sha.len() > 8 {
        vstd::utf8::is_char_boundary_iff_not_is_continuation_byte(bytes, 8);
        assert(sha[8] as u8 == bytes[8]);
    }
}

} // verus!

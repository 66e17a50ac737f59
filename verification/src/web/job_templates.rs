//! The page that lists all templates.

use vstd::prelude::*;

use crate::dup::{text_or, text_or_empty, Dup};
use crate::kubernetes::job::{Job, JobView, Verdict};
use crate::kubernetes::job_template::{JobTemplate, JobTemplateView};
use crate::metrics::{is_acceptance_failure, AcceptanceRun, AcceptanceRunView};
use crate::order::{self, text_le, text_lt};
use crate::text;
use crate::time;
use crate::web::api::moment_text_spec;
use crate::web::job_detail::{job_status, job_status_spec, template_link, template_link_spec};

verus! {

/// How the latest job of a template stands.
#[derive(Debug)]
pub struct LastRun {
    pub badge_class: String,
    pub status: String,
}

/// What a [`LastRun`] holds.
#[verifier::ext_equal]
pub struct LastRunView {
    pub badge_class: Seq<char>,
    pub status: Seq<char>,
}

impl DeepView for LastRun {
    type V = LastRunView;

    open spec fn deep_view(&self) -> LastRunView {
        LastRunView {
            badge_class: self.badge_class.deep_view(),
            status: self.status.deep_view(),
        }
    }
}

impl Dup for LastRun {
    fn dup(&self) -> (r: LastRun) {
        LastRun {
            badge_class: self.badge_class.dup(),
            status: self.status.dup(),
        }
    }
}

/// The row of a template.
#[derive(Debug)]
pub struct TemplateRow {
    pub name: String,
    pub namespace: String,
    pub schedule: Option<String>,
    pub last_run: Option<LastRun>,
    /// Whether the latest completed run of an acceptance test passed.
    pub at_status: Option<bool>,
}

/// What a [`TemplateRow`] holds.
#[verifier::ext_equal]
pub struct TemplateRowView {
    pub name: Seq<char>,
    pub namespace: Seq<char>,
    pub schedule: Option<Seq<char>>,
    pub last_run: Option<LastRunView>,
    pub at_status: Option<bool>,
}

impl DeepView for TemplateRow {
    type V = TemplateRowView;

    open spec fn deep_view(&self) -> TemplateRowView {
        TemplateRowView {
            name: self.name.deep_view(),
            namespace: self.namespace.deep_view(),
            schedule: self.schedule.deep_view(),
            last_run: self.last_run.deep_view(),
            at_status: self.at_status.deep_view(),
        }
    }
}

/// A live job of a template that has come to an end.
#[derive(Debug)]
pub struct CompletedJob {
    pub name: String,
    pub namespace: String,
    pub status: String,
    pub start_time: String,
}

/// What a [`CompletedJob`] holds.
#[verifier::ext_equal]
pub struct CompletedJobView {
    pub name: Seq<char>,
    pub namespace: Seq<char>,
    pub status: Seq<char>,
    pub start_time: Seq<char>,
}

impl DeepView for CompletedJob {
    type V = CompletedJobView;

    open spec fn deep_view(&self) -> CompletedJobView {
        CompletedJobView {
            name: self.name.deep_view(),
            namespace: self.namespace.deep_view(),
            status: self.status.deep_view(),
            start_time: self.start_time.deep_view(),
        }
    }
}

/// How an archived job stands.
pub open spec fn archived_status_badge_spec(status: Seq<char>) -> (Seq<char>, Seq<char>) {
    if status == "Succeeded"@ {
        ("success"@, "Succeeded"@)
    } else if status == "Failed"@ {
        ("danger"@, "Failed"@)
    } else {
        ("muted"@, "Unknown"@)
    }
}

/// The badge and the status of an archived job.
pub fn archived_status_badge(status: &str) -> (r: (&'static str, &'static str))
    ensures
        (r.0@, r.1@) == archived_status_badge_spec(status@),
{
    if text::eq(status, "Succeeded") {
        ("success", "Succeeded")
    } else if text::eq(status, "Failed") {
        ("danger", "Failed")
    } else {
        ("muted", "Unknown")
    }
}

/// The text by which live jobs are ordered: when the job began, or else when it
/// was made, or else nothing.
pub open spec fn live_start_spec(job: JobView) -> Seq<char> {
    match moment_text_spec(job.start_time()) {
        Some(t) => t,
        None => match moment_text_spec(job.metadata.creation_timestamp) {
            Some(t) => t,
            None => Seq::empty(),
        },
    }
}

/// The live job of a template that began last; of several, the one listed first.
pub open spec fn latest_live_spec(jobs: Seq<JobView>, uid: Seq<char>) -> Option<JobView>
    decreases jobs.len(),
{
    if jobs.len() == 0 {
        None
    } else {
        let best = latest_live_spec(jobs.drop_last(), uid);
        let job = jobs.last();
        if job.metadata.owned_by(uid) && (best matches Some(b) ==> text_lt(
            live_start_spec(b),
            live_start_spec(job),
        )) {
            Some(job)
        } else {
            best
        }
    }
}

/// How the latest job of a template stands, live or archived: of two that began
/// at the same time, the live one counts.
pub open spec fn most_recent_status_spec(
    jobs: Seq<JobView>,
    uid: Seq<char>,
    archived: Option<(Seq<char>, Seq<char>)>,
) -> Option<(Seq<char>, Seq<char>)> {
    match (latest_live_spec(jobs, uid), archived) {
        (Some(job), Some((status, start))) => if text_le(start, live_start_spec(job)) {
            Some(job_status_spec(job))
        } else {
            Some(archived_status_badge_spec(status))
        },
        (Some(job), None) => Some(job_status_spec(job)),
        (None, Some((status, _))) => Some(archived_status_badge_spec(status)),
        (None, None) => None,
    }
}

fn live_start(job: &Job) -> (r: String)
    ensures
        r@ == live_start_spec(job.deep_view()),
{
    match job.start_time() {
        Some(t) => time::to_rfc3339(&t),
        None => match &job.metadata.creation_timestamp {
            Some(t) => time::to_rfc3339(t),
            None => String::new(),
        },
    }
}

fn latest_live(jobs: &Vec<Job>, uid: &str) -> (r: Option<usize>)
    ensures
        match r {
            Some(i) => i < jobs@.len() && latest_live_spec(jobs.deep_view(), uid@) == Some(
                jobs@[i as int].deep_view(),
            ),
            None => latest_live_spec(jobs.deep_view(), uid@) is None,
        },
{
    let ghost all = jobs.deep_view();
    let mut best: Option<usize> = None;
    for i in 0..jobs.len()
        invariant
            all == jobs.deep_view(),
            match best {
                Some(k) => k < i && latest_live_spec(all.take(i as int), uid@) == Some(
                    jobs@[k as int].deep_view(),
                ),
                None => latest_live_spec(all.take(i as int), uid@) is None,
            },
    {
        assert(all.take(i + 1).drop_last() =~= all.take(i as int));
        assert(all.take(i + 1).last() == jobs@[i as int].deep_view());
        if jobs[i].metadata.owned_by(uid) {
            let newer: bool = match best {
                Some(k) => {
                    let known = live_start(&jobs[k]);
                    let this = live_start(&jobs[i]);
                    !order::le(this.as_str(), known.as_str())
                },
                None => true,
            };
            if newer {
                best = Some(i);
            }
        }
    }
    assert(all.take(all.len() as int) =~= all);
    best
}

/// How the latest job of a template stands. `jobs` are the live jobs, `archived`
/// the status and the start time of the latest archived one.
pub fn most_recent_status(uid: &str, jobs: &Vec<Job>, archived: &Option<(String, String)>) -> (r:
    Option<LastRun>)
    ensures
        r.deep_view() == (match most_recent_status_spec(
            jobs.deep_view(),
            uid@,
            archived.deep_view(),
        ) {
            Some((badge_class, status)) => Some(LastRunView { badge_class, status }),
            None => None,
        }),
{
    let found: (&str, &str) = match latest_live(jobs, uid) {
        Some(i) => match archived {
            Some(row) => {
                let start = live_start(&jobs[i]);
                if order::le(row.1.as_str(), start.as_str()) {
                    job_status(&jobs[i])
                } else {
                    archived_status_badge(row.0.as_str())
                }
            },
            None => job_status(&jobs[i]),
        },
        None => match archived {
            Some(row) => archived_status_badge(row.0.as_str()),
            None => {
                return None;
            },
        },
    };
    Some(LastRun { badge_class: found.0.to_owned(), status: found.1.to_owned() })
}

/// The start time by which completed jobs are ordered.
pub open spec fn completed_start_spec(job: JobView) -> Seq<char> {
    match moment_text_spec(job.start_time()) {
        Some(t) => t,
        None => Seq::empty(),
    }
}

/// The live job of a template that has a verdict and began last; of several, the
/// one listed first.
pub open spec fn latest_completed_spec(jobs: Seq<JobView>, uid: Seq<char>) -> Option<JobView>
    decreases jobs.len(),
{
    if jobs.len() == 0 {
        None
    } else {
        let best = latest_completed_spec(jobs.drop_last(), uid);
        let job = jobs.last();
        if job.metadata.owned_by(uid) && job.verdict() is Some && (best matches Some(b) ==> text_lt(
            completed_start_spec(b),
            completed_start_spec(job),
        )) {
            Some(job)
        } else {
            best
        }
    }
}

/// A completed job with its status.
pub open spec fn completed_job_spec(job: JobView) -> CompletedJobView {
    CompletedJobView {
        name: match job.metadata.name {
            Some(n) => n,
            None => Seq::empty(),
        },
        namespace: match job.metadata.namespace {
            Some(n) => n,
            None => "default"@,
        },
        status: match job.verdict() {
            Some(Verdict::Succeeded) => "Succeeded"@,
            _ => "Failed"@,
        },
        start_time: completed_start_spec(job),
    }
}

fn completed_start(job: &Job) -> (r: String)
    ensures
        r@ == completed_start_spec(job.deep_view()),
{
    match job.start_time() {
        Some(t) => time::to_rfc3339(&t),
        None => String::new(),
    }
}

/// The live job of a template that has come to an end and began last.
pub fn latest_completed(jobs: &Vec<Job>, uid: &str) -> (r: Option<CompletedJob>)
    ensures
        r.deep_view() == (match latest_completed_spec(jobs.deep_view(), uid@) {
            Some(job) => Some(completed_job_spec(job)),
            None => None,
        }),
{
    let ghost all = jobs.deep_view();
    let mut best: Option<usize> = None;
    for i in 0..jobs.len()
        invariant
            all == jobs.deep_view(),
            match best {
                Some(k) => k < i && latest_completed_spec(all.take(i as int), uid@) == Some(
                    jobs@[k as int].deep_view(),
                ),
                None => latest_completed_spec(all.take(i as int), uid@) is None,
            },
    {
        assert(all.take(i + 1).drop_last() =~= all.take(i as int));
        assert(all.take(i + 1).last() == jobs@[i as int].deep_view());
        if jobs[i].metadata.owned_by(uid) && jobs[i].verdict().is_some() {
            let newer: bool = match best {
                Some(k) => {
                    let known = completed_start(&jobs[k]);
                    let this = completed_start(&jobs[i]);
                    !order::le(this.as_str(), known.as_str())
                },
                None => true,
            };
            if newer {
                best = Some(i);
            }
        }
    }
    assert(all.take(all.len() as int) =~= all);
    match best {
        Some(k) => {
            let job = &jobs[k];
            let status = match job.verdict() {
                Some(Verdict::Succeeded) => "Succeeded",
                _ => "Failed",
            };
            Some(
                CompletedJob {
                    name: text_or_empty(&job.metadata.name),
                    namespace: text_or(&job.metadata.namespace, "default"),
                    status: status.to_owned(),
                    start_time: completed_start(job),
                },
            )
        },
        None => None,
    }
}

/// The run by which an acceptance test is judged: the later of the latest live and
/// the latest archived one; of two that began at the same time, the live one.
pub open spec fn judged_run_spec(
    live: Option<AcceptanceRunView>,
    archived: Option<AcceptanceRunView>,
) -> Option<AcceptanceRunView> {
    match (live, archived) {
        (Some(a), Some(b)) => if text_le(b.start_time, a.start_time) {
            live
        } else {
            archived
        },
        (Some(_), None) => live,
        (None, _) => archived,
    }
}

/// Whether an acceptance test passed when it last ran to its end; nothing where it
/// never did.
pub fn at_status(live: &Option<AcceptanceRun>, archived: &Option<AcceptanceRun>) -> (r: Option<bool>)
    ensures
        r == (match judged_run_spec(live.deep_view(), archived.deep_view()) {
            Some(run) => Some(!run.failed()),
            None => None,
        }),
{
    let run: &AcceptanceRun = match live {
        Some(a) => match archived {
            Some(b) => if order::le(b.start_time.as_str(), a.start_time.as_str()) {
                a
            } else {
                b
            },
            None => a,
        },
        None => match archived {
            Some(b) => b,
            None => {
                return None;
            },
        },
    };
    let xml: Option<&str> = match &run.junit_xml {
        Some(x) => Some(x.as_str()),
        None => None,
    };
    let snapshots: Option<&str> = match &run.snapshot_status {
        Some(s) => Some(s.as_str()),
        None => None,
    };
    Some(!is_acceptance_failure(run.status.as_str(), xml, snapshots))
}

/// The row of a template, given how its latest job stands and, where it is an
/// acceptance test, whether that passed.
pub open spec fn template_row_spec(
    jt: JobTemplateView,
    last_run: Option<LastRunView>,
    at_status: Option<bool>,
) -> TemplateRowView {
    TemplateRowView {
        name: jt.metadata.name_any(),
        namespace: jt.metadata.namespace_or_empty(),
        schedule: jt.spec.schedule,
        last_run,
        at_status: if jt.is_acceptance_test() {
            at_status
        } else {
            None
        },
    }
}

/// The row of a template.
pub fn template_row(jt: &JobTemplate, last_run: Option<LastRun>, at_status: Option<bool>) -> (r:
    TemplateRow)
    ensures
        r.deep_view() == template_row_spec(jt.deep_view(), last_run.deep_view(), at_status),
{
    let shown: Option<bool> = if jt.is_acceptance_test() {
        at_status
    } else {
        None
    };
    TemplateRow {
        name: jt.metadata.name_any(),
        namespace: text_or_empty(&jt.metadata.namespace),
        schedule: jt.spec.schedule.dup(),
        last_run,
        at_status: shown,
    }
}

/// The row of a template in the list, from its live jobs, the status and start of its
/// latest archived job, and the latest live and archived runs that came to their end.
pub fn list_row(
    jt: &JobTemplate,
    jobs: &Vec<Job>,
    archived: &Option<(String, String)>,
    live_run: &Option<AcceptanceRun>,
    archived_run: &Option<AcceptanceRun>,
) -> (r: TemplateRow)
    ensures
        r.deep_view() == template_row_spec(
            jt.deep_view(),
            match most_recent_status_spec(
                jobs.deep_view(),
                jt.deep_view().metadata.uid_or_empty(),
                archived.deep_view(),
            ) {
                Some((badge_class, status)) => Some(LastRunView { badge_class, status }),
                None => None,
            },
            match judged_run_spec(live_run.deep_view(), archived_run.deep_view()) {
                Some(run) => Some(!run.failed()),
                None => None,
            },
        ),
{
    let uid = text_or_empty(&jt.metadata.uid);
    let last_run = most_recent_status(uid.as_str(), jobs, archived);
    template_row(jt, last_run, at_status(live_run, archived_run))
}

/// What the cells of the row of a template show.
#[derive(Debug)]
pub struct TemplateCells {
    pub link: String,
    /// The schedule, or that there is none.
    pub schedule: String,
    pub has_schedule: bool,
    /// The class and the text of the badge of the latest job, where there is one.
    pub last_run: Option<(String, String)>,
    /// The class and the text of the badge of an acceptance test that was judged.
    pub at_status: Option<(String, String)>,
}

/// What a [`TemplateCells`] holds.
#[verifier::ext_equal]
pub struct TemplateCellsView {
    pub link: Seq<char>,
    pub schedule: Seq<char>,
    pub has_schedule: bool,
    pub last_run: Option<(Seq<char>, Seq<char>)>,
    pub at_status: Option<(Seq<char>, Seq<char>)>,
}

impl DeepView for TemplateCells {
    type V = TemplateCellsView;

    open spec fn deep_view(&self) -> TemplateCellsView {
        TemplateCellsView {
            link: self.link.deep_view(),
            schedule: self.schedule.deep_view(),
            has_schedule: self.has_schedule.deep_view(),
            last_run: self.last_run.deep_view(),
            at_status: self.at_status.deep_view(),
        }
    }
}

/// What the cells of the row of a template show.
pub open spec fn template_cells_spec(row: TemplateRowView) -> TemplateCellsView {
    TemplateCellsView {
        link: template_link_spec(row.namespace, row.name),
        schedule: match row.schedule {
            Some(s) => s,
            None => "On-demand"@,
        },
        has_schedule: row.schedule is Some,
        last_run: match row.last_run {
            Some(run) => Some(("badge badge-"@ + run.badge_class, run.status)),
            None => None,
        },
        at_status: match row.at_status {
            Some(true) => Some(("badge badge-success"@, "Passed"@)),
            Some(false) => Some(("badge badge-danger"@, "Failed"@)),
            None => None,
        },
    }
}

/// What the cells of the row of a template show.
pub fn template_cells(row: &TemplateRow) -> (r: TemplateCells)
    ensures
        r.deep_view() == template_cells_spec(row.deep_view()),
{
    let has_schedule: bool = row.schedule.is_some();
    TemplateCells {
        link: template_link(row.namespace.as_str(), row.name.as_str()),
        schedule: text_or(&row.schedule, "On-demand"),
        has_schedule,
        last_run: match &row.last_run {
            Some(run) => Some(
                (text::concat("badge badge-", run.badge_class.as_str()), run.status.clone()),
            ),
            None => None,
        },
        at_status: match row.at_status {
            Some(true) => Some(("badge badge-success".to_owned(), "Passed".to_owned())),
            Some(false) => Some(("badge badge-danger".to_owned(), "Failed".to_owned())),
            None => None,
        },
    }
}

/// An archived job has the badge of the status that its row holds, which is that of a live job
/// with the same outcome.
pub proof fn law_archived_badge(status: Seq<char>, job: JobView)
    ensures
        archived_status_badge_spec("Succeeded"@) == ("success"@, "Succeeded"@),
        archived_status_badge_spec("Failed"@) == ("danger"@, "Failed"@),
        status != "Succeeded"@ && status != "Failed"@ ==> archived_status_badge_spec(status) == (
            "muted"@,
            "Unknown"@,
        ),
        job.verdict() == Some(Verdict::Succeeded) ==> job_status_spec(job)
            == archived_status_badge_spec("Succeeded"@),
        job.verdict() == Some(Verdict::Failed) ==> job_status_spec(job)
            == archived_status_badge_spec("Failed"@),
{
    reveal_strlit("Succeeded");
    reveal_strlit("Failed");
    assert("Succeeded"@.len() == 9 && "Failed"@.len() == 6);
}

/// Jobs are placed by the moment at which they began, or else by that at which they were made;
/// completed ones by the moment at which they began alone.
pub proof fn law_start_of_a_job(job: JobView)
    ensures
        job.start_time() matches Some(t) ==> live_start_spec(job) == time::rfc3339_spec(
            t.secs(),
            t.nanos(),
        ) && completed_start_spec(job) == live_start_spec(job),
        job.start_time() is None ==> (job.metadata.creation_timestamp matches Some(t)
            ==> live_start_spec(job) == time::rfc3339_spec(t.secs(), t.nanos())),
        job.start_time() is None && job.metadata.creation_timestamp is None ==> live_start_spec(
            job,
        ).len() == 0,
        job.start_time() is None ==> completed_start_spec(job).len() == 0,
{
}

/// The latest live job of a template is one that it owns, and none that it owns began later; of
/// several that began together the first in the list counts. There is none only where it owns
/// no job.
pub proof fn law_latest_live(jobs: Seq<JobView>, uid: Seq<char>)
    ensures
        match latest_live_spec(jobs, uid) {
            Some(job) => exists|i: int|
                0 <= i < jobs.len() && #[trigger] jobs[i] == job && job.metadata.owned_by(uid)
                    && (forall|j: int|
                    0 <= j < jobs.len() && (#[trigger] jobs[j]).metadata.owned_by(uid) ==> text_le(
                        live_start_spec(jobs[j]),
                        live_start_spec(job),
                    )) && forall|j: int|
                    0 <= j < i && (#[trigger] jobs[j]).metadata.owned_by(uid) ==> text_lt(
                        live_start_spec(jobs[j]),
                        live_start_spec(job),
                    ),
            None => forall|j: int|
                0 <= j < jobs.len() ==> !(#[trigger] jobs[j]).metadata.owned_by(uid),
        },
    decreases jobs.len(),
{
    if jobs.len() > 0 {
        let front = jobs.drop_last();
        law_latest_live(front, uid);
        let n = jobs.len() - 1;
        let last = jobs.last();
        assert(jobs[n] == last);
        assert forall|j: int| 0 <= j < n implies #[trigger] front[j] == jobs[j] by {}
        let best = latest_live_spec(front, uid);
        if latest_live_spec(jobs, uid) == Some(last) && last.metadata.owned_by(uid) && (
        best matches Some(b) ==> text_lt(live_start_spec(b), live_start_spec(last))) {
            assert forall|j: int|
                0 <= j < n && (#[trigger] jobs[j]).metadata.owned_by(uid) implies text_lt(
                live_start_spec(jobs[j]),
                live_start_spec(last),
            ) by {
                assert(front[j] == jobs[j]);
                let b = best->0;
                if text_le(live_start_spec(last), live_start_spec(jobs[j])) {
                    order::lemma_text_transitive(
                        live_start_spec(last),
                        live_start_spec(jobs[j]),
                        live_start_spec(b),
                    );
                }
            }
            assert forall|j: int|
                0 <= j < jobs.len() && (#[trigger] jobs[j]).metadata.owned_by(uid) implies text_le(
                live_start_spec(jobs[j]),
                live_start_spec(last),
            ) by {
                order::lemma_text_total(live_start_spec(jobs[j]), live_start_spec(last));
            }
        } else {
            match best {
                Some(b) => {
                    let i = choose|i: int|
                        0 <= i < front.len() && #[trigger] front[i] == b && b.metadata.owned_by(uid)
                            && (forall|j: int|
                            0 <= j < front.len() && (#[trigger] front[j]).metadata.owned_by(uid)
                                ==> text_le(live_start_spec(front[j]), live_start_spec(b)))
                            && forall|j: int|
                            0 <= j < i && (#[trigger] front[j]).metadata.owned_by(uid) ==> text_lt(
                                live_start_spec(front[j]),
                                live_start_spec(b),
                            );
                    assert(jobs[i] == front[i]);
                    assert forall|j: int|
                        0 <= j < jobs.len() && (#[trigger] jobs[j]).metadata.owned_by(
                            uid,
                        ) implies text_le(live_start_spec(jobs[j]), live_start_spec(b)) by {
                        if j < n {
                            assert(front[j] == jobs[j]);
                        }
                    }
                    assert forall|j: int|
                        0 <= j < i && (#[trigger] jobs[j]).metadata.owned_by(uid) implies text_lt(
                        live_start_spec(jobs[j]),
                        live_start_spec(b),
                    ) by {
                        assert(front[j] == jobs[j]);
                    }
                },
                None => {
                    assert forall|j: int| 0 <= j < jobs.len() implies !(
                    #[trigger] jobs[j]).metadata.owned_by(uid) by {
                        if j < n {
                            assert(front[j] == jobs[j]);
                        }
                    }
                },
            }
        }
    }
}

/// The latest completed job of a template is one that it owns and whose conditions say how it
/// ended, and no other such job began later; of several that began together the first in the
/// list counts. There is none only where it owns no such job.
pub proof fn law_latest_completed(jobs: Seq<JobView>, uid: Seq<char>)
    ensures
        match latest_completed_spec(jobs, uid) {
            Some(job) => exists|i: int|
                0 <= i < jobs.len() && #[trigger] jobs[i] == job && is_completed_of(job, uid) && (
                forall|j: int|
                    0 <= j < jobs.len() && is_completed_of(#[trigger] jobs[j], uid) ==> text_le(
                        completed_start_spec(jobs[j]),
                        completed_start_spec(job),
                    )) && forall|j: int|
                    0 <= j < i && is_completed_of(#[trigger] jobs[j], uid) ==> text_lt(
                        completed_start_spec(jobs[j]),
                        completed_start_spec(job),
                    ),
            None => forall|j: int|
                0 <= j < jobs.len() ==> !is_completed_of(#[trigger] jobs[j], uid),
        },
    decreases jobs.len(),
{
    if jobs.len() > 0 {
        let front = jobs.drop_last();
        law_latest_completed(front, uid);
        let n = jobs.len() - 1;
        let last = jobs.last();
        assert(jobs[n] == last);
        assert forall|j: int| 0 <= j < n implies #[trigger] front[j] == jobs[j] by {}
        let best = latest_completed_spec(front, uid);
        if is_completed_of(last, uid) && (best matches Some(b) ==> text_lt(
            completed_start_spec(b),
            completed_start_spec(last),
        )) {
            assert forall|j: int|
                0 <= j < n && is_completed_of(#[trigger] jobs[j], uid) implies text_lt(
                completed_start_spec(jobs[j]),
                completed_start_spec(last),
            ) by {
                assert(front[j] == jobs[j]);
                let b = best->0;
                if text_le(completed_start_spec(last), completed_start_spec(jobs[j])) {
                    order::lemma_text_transitive(
                        completed_start_spec(last),
                        completed_start_spec(jobs[j]),
                        completed_start_spec(b),
                    );
                }
            }
            assert forall|j: int|
                0 <= j < jobs.len() && is_completed_of(#[trigger] jobs[j], uid) implies text_le(
                completed_start_spec(jobs[j]),
                completed_start_spec(last),
            ) by {
                order::lemma_text_total(completed_start_spec(jobs[j]), completed_start_spec(last));
            }
        } else {
            match best {
                Some(b) => {
                    let i = choose|i: int|
                        0 <= i < front.len() && #[trigger] front[i] == b && is_completed_of(b, uid)
                            && (forall|j: int|
                            0 <= j < front.len() && is_completed_of(#[trigger] front[j], uid)
                                ==> text_le(
                                completed_start_spec(front[j]),
                                completed_start_spec(b),
                            )) && forall|j: int|
                            0 <= j < i && is_completed_of(#[trigger] front[j], uid) ==> text_lt(
                                completed_start_spec(front[j]),
                                completed_start_spec(b),
                            );
                    assert(jobs[i] == front[i]);
                    assert forall|j: int|
                        0 <= j < jobs.len() && is_completed_of(
                            #[trigger] jobs[j],
                            uid,
                        ) implies text_le(
                        completed_start_spec(jobs[j]),
                        completed_start_spec(b),
                    ) by {
                        if j < n {
                            assert(front[j] == jobs[j]);
                        }
                    }
                    assert forall|j: int|
                        0 <= j < i && is_completed_of(#[trigger] jobs[j], uid) implies text_lt(
                        completed_start_spec(jobs[j]),
                        completed_start_spec(b),
                    ) by {
                        assert(front[j] == jobs[j]);
                    }
                },
                None => {
                    assert forall|j: int| 0 <= j < jobs.len() implies !is_completed_of(
                        #[trigger] jobs[j],
                        uid,
                    ) by {
                        if j < n {
                            assert(front[j] == jobs[j]);
                        }
                    }
                },
            }
        }
    }
}

/// Whether a job is owned under that identifier, and its conditions say how it ended.
pub open spec fn is_completed_of(job: JobView, uid: Seq<char>) -> bool {
    job.metadata.owned_by(uid) && job.verdict() is Some
}

/// A completed job is known by its own name and namespace, succeeded or failed as its conditions
/// say, and began when it began.
pub proof fn law_completed_job(job: JobView)
    requires
        job.verdict() is Some,
    ensures
        ({
            let done = completed_job_spec(job);
            &&& job.metadata.name matches Some(n) ==> done.name == n
            &&& job.metadata.namespace matches Some(n) ==> done.namespace == n
            &&& job.metadata.namespace is None ==> done.namespace == "default"@
            &&& (done.status == "Succeeded"@) == (job.verdict() == Some(Verdict::Succeeded))
            &&& (done.status == "Failed"@) == (job.verdict() == Some(Verdict::Failed))
            &&& done.start_time == completed_start_spec(job)
        }),
{
    reveal_strlit("Succeeded");
    reveal_strlit("Failed");
    assert("Succeeded"@.len() == 9 && "Failed"@.len() == 6);
}

/// The latest job of a template is its live one or its archived one, whichever began later, and
/// the live one where they began together; it stands as that job stands.
pub proof fn law_most_recent_status(
    jobs: Seq<JobView>,
    uid: Seq<char>,
    status: Seq<char>,
    start: Seq<char>,
)
    ensures
        ({
            let both = most_recent_status_spec(jobs, uid, Some((status, start)));
            let alone = most_recent_status_spec(jobs, uid, None);
            &&& latest_live_spec(jobs, uid) is None ==> alone is None && both == Some(
                archived_status_badge_spec(status),
            )
            &&& latest_live_spec(jobs, uid) matches Some(job) ==> {
                &&& alone == Some(job_status_spec(job))
                &&& text_lt(live_start_spec(job), start) ==> both == Some(
                    archived_status_badge_spec(status),
                )
                &&& text_lt(start, live_start_spec(job)) ==> both == Some(job_status_spec(job))
                &&& start == live_start_spec(job) ==> both == Some(job_status_spec(job))
            }
        }),
{
    if let Some(job) = latest_live_spec(jobs, uid) {
        order::lemma_text_total(start, live_start_spec(job));
    }
}

/// An acceptance test is judged by the later of its live and its archived run, by the live one
/// where they began together, and by the only one where there is one.
pub proof fn law_judged_run(live: AcceptanceRunView, archived: AcceptanceRunView)
    ensures
        judged_run_spec(None, None) is None,
        judged_run_spec(Some(live), None) == Some(live),
        judged_run_spec(None, Some(archived)) == Some(archived),
        text_lt(live.start_time, archived.start_time) ==> judged_run_spec(Some(live), Some(archived))
            == Some(archived),
        text_lt(archived.start_time, live.start_time) ==> judged_run_spec(Some(live), Some(archived))
            == Some(live),
        archived.start_time == live.start_time ==> judged_run_spec(Some(live), Some(archived))
            == Some(live),
{
    order::lemma_text_total(archived.start_time, live.start_time);
}

/// The row of a template shows its name, its namespace and its schedule, how its latest job
/// stands, and whether it passed only where it is an acceptance test.
pub proof fn law_template_row(
    jt: JobTemplateView,
    last_run: Option<LastRunView>,
    at_status: Option<bool>,
)
    ensures
        ({
            let row = template_row_spec(jt, last_run, at_status);
            let cells = template_cells_spec(row);
            &&& jt.metadata.name matches Some(n) ==> row.name == n
            &&& jt.metadata.namespace matches Some(n) ==> row.namespace == n
            &&& row.schedule == jt.spec.schedule
            &&& row.last_run == last_run
            &&& jt.spec.acceptance_test == Some(true) ==> row.at_status == at_status
            &&& jt.spec.acceptance_test != Some(true) ==> row.at_status is None
            &&& cells.link == "/job-templates/"@ + row.namespace + "/"@ + row.name
            &&& cells.has_schedule <==> jt.spec.schedule is Some
            &&& jt.spec.schedule matches Some(s) ==> cells.schedule == s
            &&& jt.spec.schedule is None ==> cells.schedule == "On-demand"@
            &&& last_run is None ==> cells.last_run is None
            &&& last_run matches Some(run) ==> cells.last_run == Some(
                ("badge badge-"@ + run.badge_class, run.status),
            )
            &&& row.at_status is None ==> cells.at_status is None
            &&& row.at_status == Some(true) ==> cells.at_status == Some(
                ("badge badge-success"@, "Passed"@),
            )
            &&& row.at_status == Some(false) ==> cells.at_status == Some(
                ("badge badge-danger"@, "Failed"@),
            )
        }),
{
}

} // verus!

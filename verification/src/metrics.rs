//! What the metrics say of jobs: how long they run, when they last came to an
//! end, and how often acceptance tests have failed in a row.

use vstd::prelude::*;

use crate::dup::{text_or, text_or_empty};
use crate::kubernetes::job::{Job, JobStatus, JobView};
use crate::kubernetes::job_template::{JobTemplate, JobTemplateView};
use crate::kubernetes::reconciler;
use crate::order::{self, text_le, text_lt, Ordered};
use crate::sorted_map::SortedMap;
use crate::text;
use crate::time::{self, Timestamp};
use crate::web::junit::{self, TestSuites, TestSuitesView};

verus! {

/// A run of an acceptance test that has come to an end.
#[derive(Debug)]
pub struct AcceptanceRun {
    pub status: String,
    pub junit_xml: Option<String>,
    pub snapshot_status: Option<String>,
    pub start_time: String,
}

/// What a [`AcceptanceRun`] holds.
#[verifier::ext_equal]
pub struct AcceptanceRunView {
    pub status: Seq<char>,
    pub junit_xml: Option<Seq<char>>,
    pub snapshot_status: Option<Seq<char>>,
    pub start_time: Seq<char>,
}

impl DeepView for AcceptanceRun {
    type V = AcceptanceRunView;

    open spec fn deep_view(&self) -> AcceptanceRunView {
        AcceptanceRunView {
            status: self.status.deep_view(),
            junit_xml: self.junit_xml.deep_view(),
            snapshot_status: self.snapshot_status.deep_view(),
            start_time: self.start_time.deep_view(),
        }
    }
}

/// A completed job that is still in the cluster.
#[derive(Debug)]
pub struct LiveRun {
    pub name: String,
    pub namespace: String,
    pub status: String,
    /// The start time, where there is one.
    pub start_time: Option<String>,
    /// The start time, or else the completion time.
    pub sort_time: String,
}

/// What a [`LiveRun`] holds.
#[verifier::ext_equal]
pub struct LiveRunView {
    pub name: Seq<char>,
    pub namespace: Seq<char>,
    pub status: Seq<char>,
    pub start_time: Option<Seq<char>>,
    pub sort_time: Seq<char>,
}

impl DeepView for LiveRun {
    type V = LiveRunView;

    open spec fn deep_view(&self) -> LiveRunView {
        LiveRunView {
            name: self.name.deep_view(),
            namespace: self.namespace.deep_view(),
            status: self.status.deep_view(),
            start_time: self.start_time.deep_view(),
            sort_time: self.sort_time.deep_view(),
        }
    }
}

/// Whether a run counts as a failure, given the suites that it reported: it did
/// not succeed, reported no results that can be read, had a test that did not
/// pass, or made snapshots that differ from the baseline.
pub open spec fn failed_spec(
    status: Seq<char>,
    suites: Option<TestSuitesView>,
    snapshot_status: Option<Seq<char>>,
) -> bool {
    ||| status != "Succeeded"@
    ||| suites is None
    ||| !suites->0.all_passed()
    ||| snapshot_status == Some("differs_from_baseline"@)
}

/// The suites in the results of a run, where it has results that can be read.
pub open spec fn suites_of_xml(xml: Option<Seq<char>>) -> Option<TestSuitesView> {
    match xml {
        Some(x) => junit::suites_of_events_spec(junit::xml_events_spec(x)),
        None => None,
    }
}

/// Whether a run counts as a failure, given the suites that it reported.
pub fn is_failure(status: &str, suites: &Option<TestSuites>, snapshot_status: Option<&str>) -> (r:
    bool)
    ensures
        r == failed_spec(
            status@,
            suites.deep_view(),
            match snapshot_status {
                Some(s) => Some(s@),
                None => None,
            },
        ),
{
    if !text::eq(status, "Succeeded") {
        return true;
    }
    match suites {
        Some(found) => {
            if !found.all_passed() {
                return true;
            }
        },
        None => {
            return true;
        },
    }
    match snapshot_status {
        Some(s) => text::eq(s, "differs_from_baseline"),
        None => false,
    }
}

/// Whether a run of an acceptance test counts as a failure.
pub fn is_acceptance_failure(
    status: &str,
    junit_xml: Option<&str>,
    snapshot_status: Option<&str>,
) -> (r: bool)
    ensures
        r == failed_spec(
            status@,
            suites_of_xml(
                match junit_xml {
                    Some(x) => Some(x@),
                    None => None,
                },
            ),
            match snapshot_status {
                Some(s) => Some(s@),
                None => None,
            },
        ),
{
    let suites = match junit_xml {
        Some(xml) => junit::parse_junit_xml(xml),
        None => None,
    };
    is_failure(status, &suites, snapshot_status)
}

impl AcceptanceRunView {
    pub open spec fn failed(self) -> bool {
        failed_spec(self.status, suites_of_xml(self.junit_xml), self.snapshot_status)
    }
}

impl AcceptanceRun {
    fn failed(&self) -> (r: bool)
        ensures
            r == self.deep_view().failed(),
    {
        let xml: Option<&str> = match &self.junit_xml {
            Some(x) => Some(x.as_str()),
            None => None,
        };
        let snapshots: Option<&str> = match &self.snapshot_status {
            Some(s) => Some(s.as_str()),
            None => None,
        };
        is_acceptance_failure(self.status.as_str(), xml, snapshots)
    }
}

/// Runs are ordered by their start times, the latest first.
impl Ordered for AcceptanceRun {
    open spec fn before(a: AcceptanceRunView, b: AcceptanceRunView) -> bool {
        text_le(b.start_time, a.start_time)
    }

    proof fn lemma_total(a: AcceptanceRunView, b: AcceptanceRunView) {
        order::lemma_text_total(a.start_time, b.start_time);
    }

    proof fn lemma_transitive(a: AcceptanceRunView, b: AcceptanceRunView, c: AcceptanceRunView) {
        order::lemma_text_transitive(c.start_time, b.start_time, a.start_time);
    }

    fn is_before(&self, other: &AcceptanceRun) -> (r: bool) {
        order::le(other.start_time.as_str(), self.start_time.as_str())
    }
}

/// How many runs fail before the first that does not.
pub open spec fn leading_failures(runs: Seq<AcceptanceRunView>) -> nat
    decreases runs.len(),
{
    if runs.len() == 0 || !runs[0].failed() {
        0
    } else {
        1 + leading_failures(runs.drop_first())
    }
}

/// How many of the latest runs failed in a row.
pub fn count_consecutive_failures(runs: Vec<AcceptanceRun>) -> (r: u64)
    ensures
        r == leading_failures(order::sorted_spec::<AcceptanceRun>(runs.deep_view())),
{
    let sorted = order::sort(runs);
    let ghost all = sorted.deep_view();
    let mut count: u64 = 0;
    let mut i: usize = 0;
    let n: usize = sorted.len();
    assert(all.skip(0) =~= all);
    while i < n
        invariant
            n == sorted@.len(),
            i <= n,
            all == sorted.deep_view(),
            all == order::sorted_spec::<AcceptanceRun>(runs.deep_view()),
            count == i,
            leading_failures(all) == count + leading_failures(all.skip(i as int)),
        decreases n - i,
    {
        assert(all.skip(i as int)[0] == sorted@[i as int].deep_view());
        assert(all.skip(i as int).drop_first() =~= all.skip(i + 1));
        if !sorted[i].failed() {
            return count;
        }
        count = count + 1;
        i = i + 1;
    }
    count
}

/// No failure is counted where the latest run did not fail or there is none;
/// all runs are counted where all failed; and there are never more failures in
/// a row than runs.
pub proof fn law_consecutive_failures(runs: Seq<AcceptanceRunView>)
    ensures
        leading_failures(runs) <= runs.len(),
        leading_failures(runs) == 0 <==> (runs.len() == 0 || !runs[0].failed()),
        leading_failures(runs) == runs.len() <==> forall|i: int|
            0 <= i < runs.len() ==> (#[trigger] runs[i]).failed(),
    decreases runs.len(),
{
    if runs.len() > 0 {
        let rest = runs.drop_first();
        law_consecutive_failures(rest);
        if leading_failures(runs) == runs.len() {
            assert forall|i: int| 0 <= i < runs.len() implies (#[trigger] runs[i]).failed() by {
                if i > 0 {
                    assert(rest[i - 1].failed());
                }
            }
        }
        if forall|i: int| 0 <= i < runs.len() ==> (#[trigger] runs[i]).failed() {
            assert(runs[0].failed());
            assert forall|i: int| 0 <= i < rest.len() implies (#[trigger] rest[i]).failed() by {
                assert(runs[i + 1].failed());
            }
        }
    }
}

/// A run whose results cannot be read, or are missing, is a failure.
pub proof fn law_unreadable_results_fail(status: Seq<char>, snapshot_status: Option<Seq<char>>)
    ensures
        failed_spec(status, None, snapshot_status),
{
}

/// A run passes only where it succeeded, all its tests passed, and its snapshots
/// do not differ from the baseline.
pub proof fn law_pass(
    status: Seq<char>,
    suites: Option<TestSuitesView>,
    snapshot_status: Option<Seq<char>>,
)
    requires
        !failed_spec(status, suites, snapshot_status),
    ensures
        status == "Succeeded"@,
        suites is Some,
        suites->0.total_failures() == 0,
        suites->0.total_errors() == 0,
        snapshot_status != Some("differs_from_baseline"@),
{
}

/// The moment at which a job ended, whether it completed or failed; or at which it
/// completed, where `completed` is set.
pub open spec fn end_spec(job: JobView, completed: bool) -> Option<Timestamp> {
    if completed {
        match job.status {
            Some(status) => status.completion_time,
            None => None,
        }
    } else {
        job.terminal_time()
    }
}

fn end_of(job: &Job, completed: bool) -> (r: Option<Timestamp>)
    ensures
        r == end_spec(job.deep_view(), completed),
{
    if completed {
        match &job.status {
            Some(status) => status.completion_time,
            None => None,
        }
    } else {
        job.terminal_time()
    }
}

/// Whether a job is an ended one of the template with identifier `uid`; or a completed one,
/// where `completed` is set.
pub open spec fn is_ended_of(job: JobView, uid: Seq<char>, completed: bool) -> bool {
    &&& job.template_owner() matches Some(owner) && owner.uid == uid
    &&& end_spec(job, completed) is Some
}

pub open spec fn moment_text(t: Option<Timestamp>) -> Option<Seq<char>> {
    match t {
        Some(m) => Some(time::rfc3339_spec(m.secs(), m.nanos())),
        None => None,
    }
}

/// An ended job as a run.
pub open spec fn live_run_spec(job: JobView) -> LiveRunView {
    LiveRunView {
        name: match job.metadata.name {
            Some(n) => n,
            None => Seq::empty(),
        },
        namespace: match job.metadata.namespace {
            Some(n) => n,
            None => "default"@,
        },
        status: reconciler::status_string_spec(job.verdict()),
        start_time: moment_text(job.start_time()),
        sort_time: match moment_text(job.start_time()) {
            Some(t) => t,
            None => match moment_text(job.terminal_time()) {
                Some(t) => t,
                None => Seq::empty(),
            },
        },
    }
}

/// The ended jobs of a template, as runs; or the completed ones, where `completed` is set.
pub open spec fn live_runs_spec(jobs: Seq<JobView>, uid: Seq<char>, completed: bool) -> Seq<
    LiveRunView,
>
    decreases jobs.len(),
{
    if jobs.len() == 0 {
        Seq::empty()
    } else {
        let front = live_runs_spec(jobs.drop_last(), uid, completed);
        if is_ended_of(jobs.last(), uid, completed) {
            front.push(live_run_spec(jobs.last()))
        } else {
            front
        }
    }
}

fn live_run(job: &Job, uid: &str, completed: bool) -> (r: Option<LiveRun>)
    ensures
        r.deep_view() == (if is_ended_of(job.deep_view(), uid@, completed) {
            Some(live_run_spec(job.deep_view()))
        } else {
            None
        }),
{
    match job.template_owner() {
        Some(owner) => if !text::eq(owner.uid.as_str(), uid) {
            return None;
        },
        None => {
            return None;
        },
    }
    match end_of(job, completed) {
        Some(end) => {
            assert(job.deep_view().terminal_time() == Some(end));
            let start_time = match job.start_time() {
                Some(t) => Some(time::to_rfc3339(&t)),
                None => None,
            };
            let sort_time = match &start_time {
                Some(t) => t.clone(),
                None => time::to_rfc3339(&end),
            };
            Some(
                LiveRun {
                    name: text_or_empty(&job.metadata.name),
                    namespace: text_or(&job.metadata.namespace, "default"),
                    status: reconciler::job_status_string(job),
                    start_time,
                    sort_time,
                },
            )
        },
        None => None,
    }
}

/// The ended jobs of the template with identifier `uid` that are still in the cluster, in
/// the order in which the cluster lists them; only the completed ones, where `completed` is
/// set.
pub fn live_runs(jobs: &Vec<Job>, uid: &str, completed: bool) -> (r: Vec<LiveRun>)
    ensures
        r.deep_view() == live_runs_spec(jobs.deep_view(), uid@, completed),
{
    let ghost all = jobs.deep_view();
    let mut runs: Vec<LiveRun> = Vec::new();
    assert(runs.deep_view() =~= Seq::empty());
    for i in 0..jobs.len()
        invariant
            all == jobs.deep_view(),
            runs.deep_view() == live_runs_spec(all.take(i as int), uid@, completed),
    {
        let ghost before = runs.deep_view();
        assert(all.take(i + 1).drop_last() =~= all.take(i as int));
        assert(all.take(i + 1).last() == jobs@[i as int].deep_view());
        if let Some(run) = live_run(&jobs[i], uid, completed) {
            runs.push(run);
            assert(runs.deep_view() =~= before.push(run.deep_view()));
        }
    }
    assert(all.take(all.len() as int) =~= all);
    runs
}

/// An ended job with its results, as a run to be counted.
pub fn acceptance_run(
    run: &LiveRun,
    junit_xml: Option<String>,
    snapshot_status: Option<String>,
) -> (r: AcceptanceRun)
    ensures
        r.deep_view() == (AcceptanceRunView {
            status: run.deep_view().status,
            junit_xml: junit_xml.deep_view(),
            snapshot_status: snapshot_status.deep_view(),
            start_time: run.deep_view().sort_time,
        }),
{
    AcceptanceRun {
        status: run.status.clone(),
        junit_xml,
        snapshot_status,
        start_time: run.sort_time.clone(),
    }
}

/// Results with the time at which their run began.
pub open spec fn newer_results(
    best: Option<(Seq<char>, Seq<char>)>,
    xml: Seq<char>,
    start: Option<Seq<char>>,
) -> Option<(Seq<char>, Seq<char>)> {
    match start {
        Some(s) => match best {
            Some((_, t)) => if text_lt(t, s) {
                Some((xml, s))
            } else {
                best
            },
            None => Some((xml, s)),
        },
        None => best,
    }
}

/// The results of the run that began last, with the time at which it began:
/// those of the archive, unless a live job began later.
pub open spec fn newest_results_spec(
    archived: Option<(Seq<char>, Seq<char>)>,
    live: Seq<(Option<Seq<char>>, Seq<char>)>,
) -> Option<(Seq<char>, Seq<char>)>
    decreases live.len(),
{
    if live.len() == 0 {
        archived
    } else {
        newer_results(
            newest_results_spec(archived, live.drop_last()),
            live.last().1,
            live.last().0,
        )
    }
}

/// The results of the run that began last. `archived` is the latest result of the
/// archive with its start time, `live` those of live jobs, each with its start
/// time where it has one.
pub fn newest_results(
    archived: Option<(String, String)>,
    live: &Vec<(Option<String>, String)>,
) -> (r: Option<(String, String)>)
    ensures
        r.deep_view() == newest_results_spec(archived.deep_view(), live.deep_view()),
{
    let ghost first = archived.deep_view();
    let ghost all = live.deep_view();
    let mut best = archived;
    for i in 0..live.len()
        invariant
            all == live.deep_view(),
            best.deep_view() == newest_results_spec(first, all.take(i as int)),
    {
        assert(all.take(i + 1).drop_last() =~= all.take(i as int));
        assert(all.take(i + 1).last() == live@[i as int].deep_view());
        if let Some(start) = &live[i].0 {
            let is_newer = match &best {
                Some(b) => !order::le(start.as_str(), b.1.as_str()),
                None => true,
            };
            if is_newer {
                best = Some((live[i].1.clone(), start.clone()));
            }
        }
    }
    assert(all.take(all.len() as int) =~= all);
    best
}

/// No live run with a start time began later than the run whose results count.
pub proof fn law_newest_results(
    archived: Option<(Seq<char>, Seq<char>)>,
    live: Seq<(Option<Seq<char>>, Seq<char>)>,
    i: int,
)
    requires
        0 <= i < live.len(),
        live[i].0 is Some,
    ensures
        newest_results_spec(archived, live) matches Some((_, start)) && text_le(
            live[i].0->0,
            start,
        ),
    decreases live.len(),
{
    let last = live.len() - 1;
    let before = newest_results_spec(archived, live.drop_last());
    if i < last {
        law_newest_results(archived, live.drop_last(), i);
        if let Some(s) = live.last().0 {
            if let Some((_, t)) = before {
                order::lemma_text_total(t, s);
                if text_lt(t, s) {
                    order::lemma_text_transitive(live[i].0->0, t, s);
                }
            }
        }
    } else {
        let s = live[i].0->0;
        order::lemma_text_total(s, s);
        if let Some((_, t)) = before {
            order::lemma_text_total(t, s);
        }
    }
}

/// A test case that was timed: its suite, its name and its time.
pub open spec fn timed_in_suite(
    suite: Seq<char>,
    cases: Seq<junit::TestCaseView>,
) -> Seq<(Seq<char>, Seq<char>, Seq<char>)>
    decreases cases.len(),
{
    if cases.len() == 0 {
        Seq::empty()
    } else {
        let front = timed_in_suite(suite, cases.drop_last());
        match cases.last().time {
            Some(t) => front.push((suite, cases.last().name, t)),
            None => front,
        }
    }
}

/// The test cases that were timed, suite by suite.
pub open spec fn timed_cases_spec(suites: Seq<junit::TestSuiteView>) -> Seq<
    (Seq<char>, Seq<char>, Seq<char>),
>
    decreases suites.len(),
{
    if suites.len() == 0 {
        Seq::empty()
    } else {
        timed_cases_spec(suites.drop_last()) + timed_in_suite(
            suites.last().name,
            suites.last().cases,
        )
    }
}

/// The test cases that were timed, each with its suite, its name and its time.
pub fn timed_cases(suites: &TestSuites) -> (r: Vec<(String, String, String)>)
    ensures
        r.deep_view() == timed_cases_spec(suites.deep_view().suites),
{
    let ghost all = suites.suites.deep_view();
    let mut r: Vec<(String, String, String)> = Vec::new();
    assert(r.deep_view() =~= Seq::empty());
    for i in 0..suites.suites.len()
        invariant
            all == suites.suites.deep_view(),
            r.deep_view() == timed_cases_spec(all.take(i as int)),
    {
        let suite = &suites.suites[i];
        let ghost start = r.deep_view();
        let ghost cases = suite.cases.deep_view();
        assert(all.take(i + 1).drop_last() =~= all.take(i as int));
        assert(all.take(i + 1).last() == suites.suites@[i as int].deep_view());
        assert(start + timed_in_suite(suite.name@, cases.take(0)) =~= start);
        for j in 0..suite.cases.len()
            invariant
                cases == suite.cases.deep_view(),
                r.deep_view() == start + timed_in_suite(suite.name@, cases.take(j as int)),
        {
            let ghost before = r.deep_view();
            assert(cases.take(j + 1).drop_last() =~= cases.take(j as int));
            assert(cases.take(j + 1).last() == suite.cases@[j as int].deep_view());
            if let Some(t) = &suite.cases[j].time {
                let item = (suite.name.clone(), suite.cases[j].name.clone(), t.clone());
                r.push(item);
                assert(r.deep_view() =~= before.push(item.deep_view()));
            }
            assert(r.deep_view() =~= start + timed_in_suite(suite.name@, cases.take(j + 1)));
        }
        assert(cases.take(cases.len() as int) =~= cases);
    }
    assert(all.take(all.len() as int) =~= all);
    r
}

/// The name of the template with an identifier: of two with the same one, the
/// later counts.
pub open spec fn template_name_spec(templates: Seq<JobTemplateView>, uid: Seq<char>) -> Option<
    Seq<char>,
>
    decreases templates.len(),
{
    if templates.len() == 0 {
        None
    } else if templates.last().metadata.uid == Some(uid) {
        Some(templates.last().name())
    } else {
        template_name_spec(templates.drop_last(), uid)
    }
}

fn template_name(templates: &Vec<JobTemplate>, uid: &str) -> (r: Option<String>)
    ensures
        r.deep_view() == template_name_spec(templates.deep_view(), uid@),
{
    let ghost all = templates.deep_view();
    let mut k: usize = templates.len();
    assert(all.take(all.len() as int) =~= all);
    while k > 0
        invariant
            k <= templates@.len(),
            all == templates.deep_view(),
            template_name_spec(all, uid@) == template_name_spec(all.take(k as int), uid@),
        decreases k,
    {
        assert(all.take(k as int).last() == templates@[k - 1].deep_view());
        assert(all.take(k as int).drop_last() =~= all.take(k - 1));
        k = k - 1;
        if let Some(u) = &templates[k].metadata.uid {
            if text::eq(u.as_str(), uid) {
                return Some(text_or(&templates[k].metadata.name, "unknown"));
            }
        }
    }
    None
}

/// The template under which a job counts as running, and for how long it has run:
/// it has not ended, has begun, and belongs to one of the templates.
pub open spec fn running_spec(
    job: JobView,
    templates: Seq<JobTemplateView>,
    now: Timestamp,
) -> Option<(Seq<char>, int)> {
    if job.is_terminal() {
        None
    } else {
        match (job.template_owner(), job.start_time()) {
            (Some(owner), Some(start)) => match template_name_spec(templates, owner.uid) {
                Some(name) => Some((name, now.seconds_since_spec(start))),
                None => None,
            },
            _ => None,
        }
    }
}

/// The seconds under a name, zero where there are none.
pub open spec fn secs_under(m: Map<Seq<char>, i64>, name: Seq<char>) -> int {
    if m.dom().contains(name) {
        m[name] as int
    } else {
        0
    }
}

/// How long the longest running job of each template has run.
pub open spec fn longest_running_spec(
    jobs: Seq<JobView>,
    templates: Seq<JobTemplateView>,
    now: Timestamp,
) -> Map<Seq<char>, i64>
    decreases jobs.len(),
{
    if jobs.len() == 0 {
        Map::empty()
    } else {
        let before = longest_running_spec(jobs.drop_last(), templates, now);
        match running_spec(jobs.last(), templates, now) {
            Some((name, secs)) => before.insert(
                name,
                (if secs > secs_under(before, name) {
                    secs
                } else {
                    secs_under(before, name)
                }) as i64,
            ),
            None => before,
        }
    }
}

/// How long the longest running job of each template has run, in whole seconds,
/// for the templates that have one; never less than zero.
pub fn longest_running(jobs: &Vec<Job>, templates: &Vec<JobTemplate>, now: &Timestamp) -> (r:
    SortedMap<i64>)
    ensures
        r@ == longest_running_spec(jobs.deep_view(), templates.deep_view(), *now),
{
    let ghost all = jobs.deep_view();
    let ghost known = templates.deep_view();
    let mut longest: SortedMap<i64> = SortedMap::new();
    for i in 0..jobs.len()
        invariant
            all == jobs.deep_view(),
            known == templates.deep_view(),
            longest@ == longest_running_spec(all.take(i as int), known, *now),
    {
        assert(all.take(i + 1).drop_last() =~= all.take(i as int));
        assert(all.take(i + 1).last() == jobs@[i as int].deep_view());
        let job = &jobs[i];
        if !job.is_terminal() {
            if let Some(owner) = job.template_owner() {
                if let Some(start) = job.start_time() {
                    if let Some(name) = template_name(templates, owner.uid.as_str()) {
                        let secs: i64 = now.seconds_since(&start);
                        let so_far: i64 = match longest.get(name.as_str()) {
                            Some(n) => *n,
                            None => 0,
                        };
                        let most: i64 = if secs > so_far {
                            secs
                        } else {
                            so_far
                        };
                        longest = longest.insert(name, most);
                    }
                }
            }
        }
    }
    assert(all.take(all.len() as int) =~= all);
    longest
}

/// The longest running time of a template is at least that of each of its
/// running jobs, and at least zero.
pub proof fn law_longest_running(
    jobs: Seq<JobView>,
    templates: Seq<JobTemplateView>,
    now: Timestamp,
    i: int,
)
    requires
        time::valid_parts(now.secs(), now.nanos()),
        forall|j: int|
            0 <= j < jobs.len() && (#[trigger] jobs[j]).start_time() is Some ==> time::valid_parts(
                jobs[j].start_time()->0.secs(),
                jobs[j].start_time()->0.nanos(),
            ),
        0 <= i < jobs.len(),
        running_spec(jobs[i], templates, now) is Some,
    ensures
        ({
            let (name, secs) = running_spec(jobs[i], templates, now)->0;
            let longest = longest_running_spec(jobs, templates, now);
            longest.dom().contains(name) && longest[name] >= secs && longest[name] >= 0
        }),
    decreases jobs.len(),
{
    lemma_longest_not_negative(jobs, templates, now);
    let front = jobs.drop_last();
    assert forall|j: int| 0 <= j < front.len() && (#[trigger] front[j]).start_time() is Some implies
        time::valid_parts(
        front[j].start_time()->0.secs(),
        front[j].start_time()->0.nanos(),
    ) by {
        assert(front[j] == jobs[j]);
    }
    lemma_longest_not_negative(front, templates, now);
    if i < jobs.len() - 1 {
        law_longest_running(front, templates, now, i);
    }
    assert(jobs[jobs.len() - 1] == jobs.last());
}

proof fn lemma_longest_not_negative(
    jobs: Seq<JobView>,
    templates: Seq<JobTemplateView>,
    now: Timestamp,
)
    requires
        time::valid_parts(now.secs(), now.nanos()),
        forall|j: int|
            0 <= j < jobs.len() && (#[trigger] jobs[j]).start_time() is Some ==> time::valid_parts(
                jobs[j].start_time()->0.secs(),
                jobs[j].start_time()->0.nanos(),
            ),
    ensures
        forall|name: Seq<char>| #[trigger]
            longest_running_spec(jobs, templates, now).dom().contains(name)
                ==> longest_running_spec(jobs, templates, now)[name] >= 0,
    decreases jobs.len(),
{
    if jobs.len() > 0 {
        let front = jobs.drop_last();
        assert forall|j: int|
            0 <= j < front.len() && (#[trigger] front[j]).start_time() is Some implies
            time::valid_parts(
            front[j].start_time()->0.secs(),
            front[j].start_time()->0.nanos(),
        ) by {
            assert(front[j] == jobs[j]);
        }
        lemma_longest_not_negative(front, templates, now);
        assert(jobs[jobs.len() - 1] == jobs.last());
        if jobs.last().start_time() is Some {
            time::lemma_seconds_between(now, jobs.last().start_time()->0);
        }
        let before = longest_running_spec(front, templates, now);
        let after = longest_running_spec(jobs, templates, now);
        assert forall|name: Seq<char>| #[trigger] after.dom().contains(name) implies after[name]
            >= 0 by {
            if before.dom().contains(name) {
                assert(before[name] >= 0);
            }
        }
    }
}

/// The namespaces in which templates live.
pub open spec fn is_namespace_of(templates: Seq<JobTemplateView>, namespace: Seq<char>) -> bool {
    exists|i: int|
        0 <= i < templates.len() && (#[trigger] templates[i]).metadata.namespace == Some(namespace)
}

/// The namespaces in which templates live, each once and in order.
pub fn namespaces_of(templates: &Vec<JobTemplate>) -> (r: SortedMap<bool>)
    ensures
        forall|ns: Seq<char>| #[trigger]
            r@.dom().contains(ns) <==> is_namespace_of(templates.deep_view(), ns),
{
    let ghost all = templates.deep_view();
    let mut found: SortedMap<bool> = SortedMap::new();
    for i in 0..templates.len()
        invariant
            all == templates.deep_view(),
            forall|ns: Seq<char>| #[trigger]
                found@.dom().contains(ns) <==> is_namespace_of(all.take(i as int), ns),
    {
        let ghost before = found@;
        assert(all[i as int] == templates@[i as int].deep_view());
        if let Some(ns) = &templates[i].metadata.namespace {
            found = found.insert(ns.clone(), true);
        }
        assert forall|ns: Seq<char>| #[trigger]
            found@.dom().contains(ns) <==> is_namespace_of(all.take(i + 1), ns) by {
            let a = all.take(i as int);
            let b = all.take(i + 1);
            if is_namespace_of(a, ns) {
                let k = choose|k: int|
                    0 <= k < a.len() && (#[trigger] a[k]).metadata.namespace == Some(ns);
                assert(b[k].metadata.namespace == Some(ns));
            }
            if is_namespace_of(b, ns) {
                let k = choose|k: int|
                    0 <= k < b.len() && (#[trigger] b[k]).metadata.namespace == Some(ns);
                if k < i {
                    assert(a[k].metadata.namespace == Some(ns));
                }
            }
            assert(b[i as int] == all[i as int]);
            assert(before.dom().contains(ns) <==> is_namespace_of(a, ns));
        }
    }
    assert(all.take(all.len() as int) =~= all);
    found
}

/// The times at which something last happened to the jobs of templates, each
/// template given by its name and its namespace.
pub struct LastTimes {
    entries: Vec<(String, String, Timestamp)>,
}

/// The entries of a list as a map; where a template comes twice, the later entry counts.
pub open spec fn times_map(entries: Seq<(Seq<char>, Seq<char>, Timestamp)>) -> Map<
    (Seq<char>, Seq<char>),
    Timestamp,
>
    decreases entries.len(),
{
    if entries.len() == 0 {
        Map::empty()
    } else {
        times_map(entries.drop_last()).insert(
            (entries.last().0, entries.last().1),
            entries.last().2,
        )
    }
}

proof fn lemma_times_absent(
    entries: Seq<(Seq<char>, Seq<char>, Timestamp)>,
    key: (Seq<char>, Seq<char>),
)
    requires
        forall|i: int|
            0 <= i < entries.len() ==> ((#[trigger] entries[i]).0, entries[i].1) != key,
    ensures
        !times_map(entries).dom().contains(key),
    decreases entries.len(),
{
    if entries.len() > 0 {
        lemma_times_absent(entries.drop_last(), key);
        assert((entries[entries.len() - 1].0, entries[entries.len() - 1].1) != key);
    }
}

proof fn lemma_times_replace(
    entries: Seq<(Seq<char>, Seq<char>, Timestamp)>,
    k: int,
    t: Timestamp,
)
    requires
        0 <= k < entries.len(),
        forall|i: int|
            k < i < entries.len() ==> ((#[trigger] entries[i]).0, entries[i].1) != (
                entries[k].0,
                entries[k].1,
            ),
    ensures
        times_map(entries).dom().contains((entries[k].0, entries[k].1)),
        times_map(entries)[(entries[k].0, entries[k].1)] == entries[k].2,
        times_map(entries.update(k, (entries[k].0, entries[k].1, t))) == times_map(entries).insert(
            (entries[k].0, entries[k].1),
            t,
        ),
    decreases entries.len(),
{
    let key = (entries[k].0, entries[k].1);
    let after = entries.update(k, (entries[k].0, entries[k].1, t));
    if k == entries.len() - 1 {
        assert(after.drop_last() =~= entries.drop_last());
        assert(times_map(after) =~= times_map(entries).insert(key, t));
    } else {
        lemma_times_replace(entries.drop_last(), k, t);
        assert(after.drop_last() =~= entries.drop_last().update(
            k,
            (entries[k].0, entries[k].1, t),
        ));
        assert((entries[entries.len() - 1].0, entries[entries.len() - 1].1) != key);
        assert(times_map(after) =~= times_map(entries).insert(key, t));
    }
}

impl View for LastTimes {
    type V = Map<(Seq<char>, Seq<char>), Timestamp>;

    closed spec fn view(&self) -> Map<(Seq<char>, Seq<char>), Timestamp> {
        times_map(self.entries.deep_view())
    }
}

/// The templates of the entries of a list, in their order.
pub open spec fn keys_of(entries: Seq<(Seq<char>, Seq<char>, Timestamp)>) -> Seq<
    (Seq<char>, Seq<char>),
> {
    Seq::new(entries.len(), |i: int| (entries[i].0, entries[i].1))
}

proof fn lemma_keys_are_dom(entries: Seq<(Seq<char>, Seq<char>, Timestamp)>)
    ensures
        keys_of(entries).to_set() == times_map(entries).dom(),
    decreases entries.len(),
{
    let keys = keys_of(entries);
    if entries.len() > 0 {
        let before = keys_of(entries.drop_last());
        lemma_keys_are_dom(entries.drop_last());
        assert(keys.drop_last() =~= before);
        assert forall|key: (Seq<char>, Seq<char>)| #[trigger]
            keys.contains(key) <==> before.contains(key) || key == keys.last() by {
            if keys.contains(key) && key != keys.last() {
                let i = keys.index_of(key);
                assert(before[i] == key);
            }
            if before.contains(key) {
                let i = before.index_of(key);
                assert(keys[i] == key);
            }
        }
        assert forall|key: (Seq<char>, Seq<char>)| #[trigger]
            keys.to_set().contains(key) <==> times_map(entries).dom().contains(key) by {
            assert(before.to_set().contains(key) <==> before.contains(key));
        }
    }
    assert(keys.to_set() =~= times_map(entries).dom());
}

impl LastTimes {
    #[verifier::type_invariant]
    spec fn inv(self) -> bool {
        keys_of(self.entries.deep_view()).no_duplicates()
    }

    /// The templates that have a time, in the order in which they came.
    pub closed spec fn keys(self) -> Seq<(Seq<char>, Seq<char>)> {
        keys_of(self.entries.deep_view())
    }

    /// No times.
    pub fn new() -> (r: LastTimes)
        ensures
            r@ == Map::<(Seq<char>, Seq<char>), Timestamp>::empty(),
            r.keys() == Seq::<(Seq<char>, Seq<char>)>::empty(),
    {
        let r = LastTimes { entries: Vec::new() };
        assert(r.entries.deep_view() =~= Seq::empty());
        r
    }

    fn position(&self, template: &str, namespace: &str) -> (r: Option<usize>)
        ensures
            match r {
                Some(k) => k < self.entries@.len() && (
                    self.entries.deep_view()[k as int].0,
                    self.entries.deep_view()[k as int].1,
                ) == (template@, namespace@) && forall|i: int|
                    k < i < self.entries@.len() ==> (
                        (#[trigger] self.entries.deep_view()[i]).0,
                        self.entries.deep_view()[i].1,
                    ) != (template@, namespace@),
                None => forall|i: int|
                    0 <= i < self.entries@.len() ==> (
                        (#[trigger] self.entries.deep_view()[i]).0,
                        self.entries.deep_view()[i].1,
                    ) != (template@, namespace@),
            },
    {
        let ghost all = self.entries.deep_view();
        let mut k: usize = self.entries.len();
        while k > 0
            invariant
                k <= self.entries@.len(),
                all == self.entries.deep_view(),
                forall|i: int|
                    k <= i < self.entries@.len() ==> ((#[trigger] all[i]).0, all[i].1) != (
                        template@,
                        namespace@,
                    ),
            decreases k,
        {
            k = k - 1;
            assert(all[k as int] == self.entries@[k as int].deep_view());
            if text::eq(self.entries[k].0.as_str(), template) && text::eq(
                self.entries[k].1.as_str(),
                namespace,
            ) {
                return Some(k);
            }
        }
        None
    }

    /// The time of a template.
    pub fn get(&self, template: &str, namespace: &str) -> (r: Option<Timestamp>)
        ensures
            r == (if self@.dom().contains((template@, namespace@)) {
                Some(self@[(template@, namespace@)])
            } else {
                None
            }),
    {
        match self.position(template, namespace) {
            Some(k) => {
                proof {
                    lemma_times_replace(
                        self.entries.deep_view(),
                        k as int,
                        self.entries@[k as int].2,
                    );
                    assert(self.entries.deep_view()[k as int].2 == self.entries@[k as int].2);
                }
                Some(self.entries[k].2)
            },
            None => {
                proof {
                    lemma_times_absent(self.entries.deep_view(), (template@, namespace@));
                }
                None
            },
        }
    }

    /// Sets the time of a template.
    pub fn insert(self, template: String, namespace: String, t: Timestamp) -> (r: LastTimes)
        ensures
            r@ == self@.insert((template@, namespace@), t),
            r.keys() == (if self@.dom().contains((template@, namespace@)) {
                self.keys()
            } else {
                self.keys().push((template@, namespace@))
            }),
    {
        proof {
            use_type_invariant(&self);
        }
        let ghost before = self.entries.deep_view();
        match self.position(template.as_str(), namespace.as_str()) {
            Some(k) => {
                proof {
                    lemma_times_replace(before, k as int, t);
                }
                let mut entries = self.entries;
                entries.set(k, (template, namespace, t));
                assert(entries.deep_view() =~= before.update(
                    k as int,
                    (template@, namespace@, t),
                ));
                assert(keys_of(entries.deep_view()) =~= keys_of(before));
                LastTimes { entries }
            },
            None => {
                proof {
                    lemma_times_absent(before, (template@, namespace@));
                }
                let mut entries = self.entries;
                entries.push((template, namespace, t));
                assert(entries.deep_view() =~= before.push((template@, namespace@, t)));
                assert(entries.deep_view().drop_last() =~= before);
                assert(keys_of(entries.deep_view()) =~= keys_of(before).push(
                    (template@, namespace@),
                ));
                LastTimes { entries }
            },
        }
    }

    /// How many templates have a time.
    pub fn len(&self) -> (r: usize)
        ensures
            r == self.keys().len(),
            self.keys().no_duplicates(),
            self.keys().to_set() == self@.dom(),
    {
        proof {
            use_type_invariant(&*self);
            lemma_keys_are_dom(self.entries.deep_view());
        }
        self.entries.len()
    }

    /// The name and the namespace of one of the templates that have a time.
    pub fn key(&self, i: usize) -> (r: (&String, &String))
        requires
            i < self.keys().len(),
        ensures
            (r.0@, r.1@) == self.keys()[i as int],
            self@.dom().contains((r.0@, r.1@)),
    {
        proof {
            let all = self.entries.deep_view();
            lemma_keys_are_dom(all);
            assert(all[i as int] == self.entries@[i as int].deep_view());
            assert(keys_of(all).to_set().contains(keys_of(all)[i as int]));
        }
        (&self.entries[i].0, &self.entries[i].1)
    }
}

/// The times with one more, of which the later counts.
pub open spec fn with_later(
    times: Map<(Seq<char>, Seq<char>), Timestamp>,
    key: (Seq<char>, Seq<char>),
    t: Timestamp,
) -> Map<(Seq<char>, Seq<char>), Timestamp> {
    if times.dom().contains(key) && t.rank() <= times[key].rank() {
        times
    } else {
        times.insert(key, t)
    }
}

/// The times that the archive holds for templates: those of its rows, each a
/// template, a namespace and a text, whose text can be read.
pub open spec fn archived_times_spec(
    rows: Seq<(Seq<char>, Seq<char>, Option<Seq<char>>)>,
) -> Map<(Seq<char>, Seq<char>), Timestamp>
    decreases rows.len(),
{
    if rows.len() == 0 {
        Map::empty()
    } else {
        let before = archived_times_spec(rows.drop_last());
        match rows.last().2 {
            Some(s) => match time::moment_spec(time::parsed_utc_spec(s)) {
                Some(t) => before.insert((rows.last().0, rows.last().1), t),
                None => before,
            },
            None => before,
        }
    }
}

/// The times that the archive holds for templates.
pub fn archived_times(rows: &Vec<(String, String, Option<String>)>) -> (r: LastTimes)
    ensures
        r@ == archived_times_spec(rows.deep_view()),
{
    let ghost all = rows.deep_view();
    let mut times = LastTimes::new();
    for i in 0..rows.len()
        invariant
            all == rows.deep_view(),
            times@ == archived_times_spec(all.take(i as int)),
    {
        assert(all.take(i + 1).drop_last() =~= all.take(i as int));
        assert(all.take(i + 1).last() == rows@[i as int].deep_view());
        if let Some(s) = &rows[i].2 {
            if let Some(t) = time::parse_utc(s.as_str()) {
                times = times.insert(rows[i].0.clone(), rows[i].1.clone(), t);
            }
        }
    }
    assert(all.take(all.len() as int) =~= all);
    times
}

/// The template of a job with its namespace, and the moment at which it ended, completed or
/// failed; or the one at which it completed, where only those that `succeeded` are asked for.
pub open spec fn completion_spec(job: JobView, succeeded: bool) -> Option<
    ((Seq<char>, Seq<char>), Timestamp),
> {
    match job.template_owner() {
        Some(owner) => match end_spec(job, succeeded) {
            Some(t) => if !succeeded || has_succeeded(job) {
                Some(
                    (
                        (
                            owner.name,
                            match job.metadata.namespace {
                                Some(n) => n,
                                None => "default"@,
                            },
                        ),
                        t,
                    ),
                )
            } else {
                None
            },
            None => None,
        },
        None => None,
    }
}

/// Whether one of the conditions of a job says that it is complete.
pub open spec fn has_succeeded(job: JobView) -> bool {
    job.status matches Some(status) && exists|i: int|
        0 <= i < status.conditions_or_none().len() && (
        #[trigger] status.conditions_or_none()[i]).holds("Complete"@)
}

/// The times of the archive with those of live jobs; of each template the latest
/// counts. Only jobs that succeeded count where `succeeded` is set.
pub open spec fn last_times_spec(
    archived: Map<(Seq<char>, Seq<char>), Timestamp>,
    jobs: Seq<JobView>,
    succeeded: bool,
) -> Map<(Seq<char>, Seq<char>), Timestamp>
    decreases jobs.len(),
{
    if jobs.len() == 0 {
        archived
    } else {
        let before = last_times_spec(archived, jobs.drop_last(), succeeded);
        match completion_spec(jobs.last(), succeeded) {
            Some((key, t)) => with_later(before, key, t),
            None => before,
        }
    }
}

fn status_succeeded(status: &JobStatus) -> (r: bool)
    ensures
        r == exists|i: int|
            0 <= i < status.deep_view().conditions_or_none().len() && (
            #[trigger] status.deep_view().conditions_or_none()[i]).holds("Complete"@),
{
    let ghost all = status.deep_view().conditions_or_none();
    match &status.conditions {
        Some(conditions) => {
            for i in 0..conditions.len()
                invariant
                    all == conditions.deep_view(),
                    all == status.deep_view().conditions_or_none(),
                    forall|j: int| 0 <= j < i ==> !(#[trigger] all[j]).holds("Complete"@),
            {
                assert(all[i as int] == conditions@[i as int].deep_view());
                if conditions[i].holds("Complete") {
                    assert(status.deep_view().conditions_or_none()[i as int].holds("Complete"@));
                    return true;
                }
            }
            assert forall|j: int|
                0 <= j < status.deep_view().conditions_or_none().len() implies !(
            #[trigger] status.deep_view().conditions_or_none()[j]).holds("Complete"@) by {
                assert(!all[j].holds("Complete"@));
            }
            false
        },
        None => false,
    }
}

fn job_succeeded(job: &Job) -> (r: bool)
    ensures
        r == has_succeeded(job.deep_view()),
{
    match &job.status {
        Some(status) => status_succeeded(status),
        None => false,
    }
}

/// When a job of each template last ended, completed or failed, from the archive and the
/// live jobs; or when one last succeeded, where `succeeded` is set.
pub fn last_times(archived: LastTimes, jobs: &Vec<Job>, succeeded: bool) -> (r: LastTimes)
    ensures
        r@ == last_times_spec(archived@, jobs.deep_view(), succeeded),
{
    let ghost all = jobs.deep_view();
    let ghost first = archived@;
    let mut times = archived;
    for i in 0..jobs.len()
        invariant
            all == jobs.deep_view(),
            times@ == last_times_spec(first, all.take(i as int), succeeded),
    {
        assert(all.take(i + 1).drop_last() =~= all.take(i as int));
        assert(all.take(i + 1).last() == jobs@[i as int].deep_view());
        let job = &jobs[i];
        if let Some(owner) = job.template_owner() {
            if let Some(t) = end_of(job, succeeded) {
                if !succeeded || job_succeeded(job) {
                    let namespace = text_or(&job.metadata.namespace, "default");
                    let is_later = match times.get(owner.name.as_str(), namespace.as_str()) {
                        Some(known) => !t.le(&known),
                        None => true,
                    };
                    if is_later {
                        times = times.insert(owner.name.clone(), namespace, t);
                    }
                }
            }
        }
    }
    assert(all.take(all.len() as int) =~= all);
    times
}

/// The latest end of a template, or its latest success, is no earlier than that of any of
/// its live jobs, and no earlier than the one that the archive holds.
pub proof fn law_last_times(
    archived: Map<(Seq<char>, Seq<char>), Timestamp>,
    jobs: Seq<JobView>,
    succeeded: bool,
    i: int,
)
    requires
        0 <= i < jobs.len(),
        completion_spec(jobs[i], succeeded) is Some,
    ensures
        ({
            let (key, t) = completion_spec(jobs[i], succeeded)->0;
            let times = last_times_spec(archived, jobs, succeeded);
            times.dom().contains(key) && t.rank() <= times[key].rank() && (
            archived.dom().contains(key) ==> archived[key].rank()
                <= times[key].rank())
        }),
    decreases jobs.len(),
{
    let front = jobs.drop_last();
    let (key, t) = completion_spec(jobs[i], succeeded)->0;
    lemma_last_times_grow(archived, front, succeeded, key);
    if i < jobs.len() - 1 {
        law_last_times(archived, front, succeeded, i);
        assert(front[i] == jobs[i]);
    }
    assert(jobs[jobs.len() - 1] == jobs.last());
}

proof fn lemma_last_times_grow(
    archived: Map<(Seq<char>, Seq<char>), Timestamp>,
    jobs: Seq<JobView>,
    succeeded: bool,
    key: (Seq<char>, Seq<char>),
)
    ensures
        archived.dom().contains(key) ==> last_times_spec(archived, jobs, succeeded).dom().contains(key)
            && archived[key].rank() <= last_times_spec(
            archived,
            jobs,
            succeeded,
        )[key].rank(),
    decreases jobs.len(),
{
    if jobs.len() > 0 {
        lemma_last_times_grow(archived, jobs.drop_last(), succeeded, key);
    }
}

/// The whole seconds since the time of a template, where it has one.
pub fn seconds_since(times: &LastTimes, template: &str, namespace: &str, now: &Timestamp) -> (r:
    Option<i64>)
    ensures
        match r {
            Some(secs) => times@.dom().contains((template@, namespace@)) && secs
                == now.seconds_since_spec(times@[(template@, namespace@)]),
            None => !times@.dom().contains((template@, namespace@)),
        },
{
    match times.get(template, namespace) {
        Some(t) => Some(now.seconds_since(&t)),
        None => None,
    }
}

/// A run counts as a failure exactly where it did not succeed, has no results that can be read,
/// some suite of it counts a failure or an error, or its snapshots differ from the baseline.
/// How many tests were skipped does not matter.
pub proof fn law_failed(
    status: Seq<char>,
    suites: Option<TestSuitesView>,
    snapshot_status: Option<Seq<char>>,
)
    ensures
        failed_spec(status, suites, snapshot_status) <==> (status != "Succeeded"@ || snapshot_status
            == Some("differs_from_baseline"@) || (match suites {
            Some(all) => exists|i: int|
                0 <= i < all.suites.len() && ((#[trigger] all.suites[i]).failures > 0
                    || all.suites[i].errors > 0),
            None => true,
        })),
{
    if let Some(all) = suites {
        junit::law_all_passed(all.suites);
        assert(all == (TestSuitesView { suites: all.suites }));
        if !all.all_passed() {
            let i = choose|i: int|
                0 <= i < all.suites.len() && !((#[trigger] all.suites[i]).failures == 0
                    && all.suites[i].errors == 0);
            assert(all.suites[i].failures > 0 || all.suites[i].errors > 0);
        }
    }
}

/// A run that succeeded, whose results can be read and count no failure and no error, and whose
/// snapshots do not differ from the baseline does not count as a failure, however many of its
/// tests were skipped.
pub proof fn law_clean_run_passes(
    suites: Seq<junit::TestSuiteView>,
    snapshot_status: Option<Seq<char>>,
)
    requires
        forall|i: int|
            0 <= i < suites.len() ==> (#[trigger] suites[i]).failures == 0 && suites[i].errors == 0,
        snapshot_status != Some("differs_from_baseline"@),
    ensures
        !failed_spec("Succeeded"@, Some(TestSuitesView { suites }), snapshot_status),
{
    law_failed("Succeeded"@, Some(TestSuitesView { suites }), snapshot_status);
}

/// What a run counts as is told from its own status, the results that its own text holds and
/// its own snapshots; a run without results counts as a failure, whenever it began.
pub proof fn law_run_failed(run: AcceptanceRunView)
    ensures
        run.junit_xml is None ==> run.failed(),
        run.junit_xml matches Some(xml) ==> run.failed() == failed_spec(
            run.status,
            junit::suites_of_events_spec(junit::xml_events_spec(xml)),
            run.snapshot_status,
        ),
{
}

/// The runs that fail in a row are the newest ones, up to the first that does not fail: when
/// the newest runs fail, they and those that fail in a row behind them count.
pub proof fn law_failures_in_a_row(
    failing: Seq<AcceptanceRunView>,
    passing: AcceptanceRunView,
    older: Seq<AcceptanceRunView>,
)
    requires
        forall|i: int| 0 <= i < failing.len() ==> (#[trigger] failing[i]).failed(),
        !passing.failed(),
    ensures
        leading_failures(failing) == failing.len(),
        leading_failures(failing + seq![passing] + older) == failing.len(),
    decreases failing.len(),
{
    let all = failing + seq![passing] + older;
    if failing.len() == 0 {
        assert(all[0] == passing);
    } else {
        assert(all[0] == failing[0]);
        let rest = failing.drop_first();
        assert forall|i: int| 0 <= i < rest.len() implies (#[trigger] rest[i]).failed() by {
            assert(rest[i] == failing[i + 1]);
        }
        law_failures_in_a_row(rest, passing, older);
        assert(all.drop_first() =~= rest + seq![passing] + older);
    }
}

/// Of two runs the one that began later is looked at first.
pub proof fn law_newest_run_first(runs: Seq<AcceptanceRunView>, i: int, j: int)
    requires
        0 <= i < j < runs.len(),
    ensures
        ({
            let sorted = crate::order::sorted_spec::<AcceptanceRun>(runs);
            sorted.len() == runs.len() && text_le(sorted[j].start_time, sorted[i].start_time)
        }),
{
    crate::order::law_sorted_in_order::<AcceptanceRun>(runs);
    crate::order::law_sorted_same_values::<AcceptanceRun>(runs);
    let sorted = crate::order::sorted_spec::<AcceptanceRun>(runs);
    assert(AcceptanceRun::before(sorted[i], sorted[j]));
}

/// Each ended job of a template is a run, in the order of the jobs, and no other job is: not one
/// that has not ended, nor one of another template. Where only completed jobs are asked for, a
/// job that failed without completing is left out.
pub proof fn law_live_runs(jobs: Seq<JobView>, job: JobView, uid: Seq<char>, completed: bool)
    ensures
        live_runs_spec(Seq::empty(), uid, completed).len() == 0,
        ({
            let owned = job.template_owner() matches Some(owner) && owner.uid == uid;
            let ended = if completed {
                job.status matches Some(status) && status.completion_time is Some
            } else {
                exists|t: Timestamp| #[trigger] crate::kubernetes::job::ended_at(job, t)
            };
            let before = live_runs_spec(jobs, uid, completed);
            let after = live_runs_spec(jobs.push(job), uid, completed);
            &&& owned && ended ==> after == before.push(live_run_spec(job))
            &&& !(owned && ended) ==> after == before
        }),
{
    assert(jobs.push(job).drop_last() =~= jobs);
    crate::kubernetes::job::law_terminal_time(job);
}

/// A run has the name and the namespace of its job, succeeded or failed as its job did, and
/// began when its job began; it is placed by that moment, or else by the moment of its end.
pub proof fn law_live_run(job: JobView)
    ensures
        ({
            let run = live_run_spec(job);
            &&& job.metadata.name matches Some(n) ==> run.name == n
            &&& job.metadata.namespace matches Some(n) ==> run.namespace == n
            &&& job.metadata.namespace is None ==> run.namespace == "default"@
            &&& (run.status == "Succeeded"@) == (job.verdict() == Some(
                crate::kubernetes::job::Verdict::Succeeded,
            ))
            &&& (run.status == "Failed"@) == (job.verdict() == Some(
                crate::kubernetes::job::Verdict::Failed,
            ))
            &&& (run.status == "Unknown"@) == (job.verdict() is None)
            &&& run.start_time is Some <==> job.start_time() is Some
            &&& job.start_time() matches Some(t) ==> run.start_time == Some(
                time::rfc3339_spec(t.secs(), t.nanos()),
            ) && run.sort_time == time::rfc3339_spec(t.secs(), t.nanos())
            &&& job.start_time() is None ==> forall|t: Timestamp|
                crate::kubernetes::job::ended_at(job, t) ==> run.sort_time == time::rfc3339_spec(
                    t.secs(),
                    t.nanos(),
                )
        }),
{
    reveal_strlit("Succeeded");
    reveal_strlit("Failed");
    reveal_strlit("Unknown");
    assert("Succeeded"@.len() == 9 && "Failed"@.len() == 6 && "Unknown"@.len() == 7);
    crate::kubernetes::job::law_terminal_time(job);
}

/// The newest results are those of the archive or of a live job that has begun, with the moment
/// at which that run began; of two that began at the same moment the earlier in the list counts,
/// and the archive before all. There are none only where the archive has none and no live job
/// has begun.
pub proof fn law_newest_results_are_given(
    archived: Option<(Seq<char>, Seq<char>)>,
    live: Seq<(Option<Seq<char>>, Seq<char>)>,
)
    ensures
        match newest_results_spec(archived, live) {
            Some((xml, start)) => archived == Some((xml, start)) || exists|i: int|
                0 <= i < live.len() && #[trigger] live[i] == (Some(start), xml) && (
                archived matches Some((_, s)) ==> text_lt(s, start)) && forall|j: int|
                    0 <= j < i && (#[trigger] live[j]).0 is Some ==> text_lt(live[j].0->0, start),
            None => archived is None && forall|i: int|
                0 <= i < live.len() ==> (#[trigger] live[i]).0 is None,
        },
        archived matches Some((_, s)) ==> newest_results_spec(archived, live) matches Some((_, t))
            && text_le(s, t),
    decreases live.len(),
{
    if live.len() > 0 {
        let front = live.drop_last();
        law_newest_results_are_given(archived, front);
        assert forall|i: int| 0 <= i < front.len() implies #[trigger] front[i] == live[i] by {}
        let before = newest_results_spec(archived, front);
        let after = newest_results_spec(archived, live);
        assert(live[live.len() - 1] == live.last());
        if after != before {
            let (xml, start) = after->0;
            let n = live.len() - 1;
            assert(live[n] == (Some(start), xml));
            assert forall|j: int| 0 <= j < n && (#[trigger] live[j]).0 is Some implies text_lt(
                live[j].0->0,
                start,
            ) by {
                assert(front[j] == live[j]);
                law_newest_results(archived, front, j);
                let (_, newest) = before->0;
                if text_le(start, live[j].0->0) {
                    crate::order::lemma_text_transitive(start, live[j].0->0, newest);
                }
            }
            if let Some((_, s)) = archived {
                let (_, newest) = before->0;
                if text_le(start, s) {
                    crate::order::lemma_text_transitive(start, s, newest);
                }
                crate::order::lemma_text_total(s, start);
            }
        } else {
            match after {
                Some((xml, start)) => {
                    if archived != Some((xml, start)) {
                        let i = choose|i: int|
                            0 <= i < front.len() && #[trigger] front[i] == (Some(start), xml) && (
                            archived matches Some((_, s)) ==> text_lt(s, start)) && forall|j: int|
                                0 <= j < i && (#[trigger] front[j]).0 is Some ==> text_lt(
                                    front[j].0->0,
                                    start,
                                );
                        assert(live[i] == front[i]);
                        assert forall|j: int|
                            0 <= j < i && (#[trigger] live[j]).0 is Some implies text_lt(
                            live[j].0->0,
                            start,
                        ) by {
                            assert(front[j] == live[j]);
                        }
                    }
                },
                None => {
                    assert forall|i: int| 0 <= i < live.len() implies (
                    #[trigger] live[i]).0 is None by {
                        if i < front.len() {
                            assert(front[i] == live[i]);
                        }
                    }
                },
            }
        }
    } else if let Some((_, s)) = archived {
        crate::order::lemma_text_total(s, s);
    }
}

/// Every case that has a time is timed once, with the name of its suite, its own name and its
/// own time, in the order of the suites and of the cases in each; a case without a time is not.
pub proof fn law_timed_cases(
    suites: Seq<junit::TestSuiteView>,
    s: junit::TestSuiteView,
    case: junit::TestCaseView,
)
    ensures
        timed_cases_spec(Seq::empty()).len() == 0,
        timed_cases_spec(suites.push(junit::TestSuiteView { cases: Seq::empty(), ..s }))
            == timed_cases_spec(suites),
        timed_cases_spec(
            suites.push(junit::TestSuiteView { cases: s.cases.push(case), ..s }),
        ) == (match case.time {
            Some(t) => timed_cases_spec(suites.push(s)).push((s.name, case.name, t)),
            None => timed_cases_spec(suites.push(s)),
        }),
{
    let none = junit::TestSuiteView { cases: Seq::empty(), ..s };
    let more = junit::TestSuiteView { cases: s.cases.push(case), ..s };
    assert(suites.push(none).drop_last() =~= suites);
    assert(suites.push(s).drop_last() =~= suites);
    assert(suites.push(more).drop_last() =~= suites);
    assert(s.cases.push(case).drop_last() =~= s.cases);
    assert(timed_in_suite(s.name, none.cases).len() == 0);
    assert(timed_cases_spec(suites) + timed_in_suite(s.name, none.cases) =~= timed_cases_spec(
        suites,
    ));
    if let Some(t) = case.time {
        assert(timed_cases_spec(suites) + timed_in_suite(s.name, s.cases).push((s.name, case.name, t))
            =~= (timed_cases_spec(suites) + timed_in_suite(s.name, s.cases)).push(
            (s.name, case.name, t),
        ));
    }
}

/// Whether a job is running for the template with that name: it has not ended, has begun, and
/// its template is one of the templates, the last with its identifier, and has that name.
pub open spec fn is_running_for(
    job: JobView,
    templates: Seq<JobTemplateView>,
    name: Seq<char>,
) -> bool {
    &&& !job.is_terminal()
    &&& job.start_time() is Some
    &&& job.template_owner() matches Some(owner)
    &&& exists|k: int|
        0 <= k < templates.len() && (#[trigger] templates[k]).metadata.uid == Some(owner.uid)
            && templates[k].name() == name && forall|l: int|
            k < l < templates.len() ==> (#[trigger] templates[l]).metadata.uid != Some(owner.uid)
}

/// A job counts as running exactly for the template that owns it, once it has begun and until
/// it has ended, and for the seconds from its start until now.
pub proof fn law_running(job: JobView, templates: Seq<JobTemplateView>, now: Timestamp)
    ensures
        match running_spec(job, templates, now) {
            Some((name, secs)) => is_running_for(job, templates, name) && secs
                == now.seconds_since_spec(job.start_time()->0),
            None => forall|name: Seq<char>| !is_running_for(job, templates, name),
        },
{
    if let Some(owner) = job.template_owner() {
        lemma_template_name(templates, owner.uid);
    }
}

proof fn lemma_template_name(templates: Seq<JobTemplateView>, uid: Seq<char>)
    ensures
        match template_name_spec(templates, uid) {
            Some(name) => exists|k: int|
                0 <= k < templates.len() && (#[trigger] templates[k]).metadata.uid == Some(uid)
                    && templates[k].name() == name && forall|l: int|
                    k < l < templates.len() ==> (#[trigger] templates[l]).metadata.uid != Some(uid),
            None => forall|k: int|
                0 <= k < templates.len() ==> (#[trigger] templates[k]).metadata.uid != Some(uid),
        },
    decreases templates.len(),
{
    if templates.len() > 0 {
        let front = templates.drop_last();
        lemma_template_name(front, uid);
        let n = templates.len() - 1;
        assert(templates[n] == templates.last());
        assert forall|k: int| 0 <= k < front.len() implies #[trigger] front[k] == templates[k] by {}
        if templates.last().metadata.uid == Some(uid) {
        } else {
            match template_name_spec(front, uid) {
                Some(name) => {
                    let k = choose|k: int|
                        0 <= k < front.len() && (#[trigger] front[k]).metadata.uid == Some(uid)
                            && front[k].name() == name && forall|l: int|
                            k < l < front.len() ==> (#[trigger] front[l]).metadata.uid != Some(uid);
                    assert(templates[k] == front[k]);
                    assert forall|l: int| k < l < templates.len() implies (
                    #[trigger] templates[l]).metadata.uid != Some(uid) by {
                        if l < front.len() {
                            assert(front[l] == templates[l]);
                        }
                    }
                },
                None => {
                    assert forall|k: int| 0 <= k < templates.len() implies (
                    #[trigger] templates[k]).metadata.uid != Some(uid) by {
                        if k < front.len() {
                            assert(front[k] == templates[k]);
                        }
                    }
                },
            }
        }
    }
}

/// A template has a longest running job only where one of the jobs is running for it, and then
/// it is the time of one of them, or zero where none has run for longer.
pub proof fn law_longest_running_is_one(
    jobs: Seq<JobView>,
    templates: Seq<JobTemplateView>,
    now: Timestamp,
    name: Seq<char>,
)
    requires
        time::valid_parts(now.secs(), now.nanos()),
        forall|j: int|
            0 <= j < jobs.len() && (#[trigger] jobs[j]).start_time() is Some ==> time::valid_parts(
                jobs[j].start_time()->0.secs(),
                jobs[j].start_time()->0.nanos(),
            ),
    ensures
        ({
            let longest = longest_running_spec(jobs, templates, now);
            longest.dom().contains(name) ==> exists|i: int|
                0 <= i < jobs.len() && (running_spec(#[trigger] jobs[i], templates, now) matches Some(
                    (n, secs),
                ) && n == name && (longest[name] == secs || longest[name] == 0))
        }),
    decreases jobs.len(),
{
    if jobs.len() > 0 {
        let front = jobs.drop_last();
        assert forall|j: int|
            0 <= j < front.len() && (
            #[trigger] front[j]).start_time() is Some implies time::valid_parts(
            front[j].start_time()->0.secs(),
            front[j].start_time()->0.nanos(),
        ) by {
            assert(front[j] == jobs[j]);
        }
        law_longest_running_is_one(front, templates, now, name);
        let before = longest_running_spec(front, templates, now);
        let n = jobs.len() - 1;
        assert(jobs[n] == jobs.last());
        if let Some((m, secs)) = running_spec(jobs[n], templates, now) {
            time::lemma_seconds_between(now, jobs[n].start_time()->0);
        }
        if before.dom().contains(name) {
            let i = choose|i: int|
                0 <= i < front.len() && (running_spec(#[trigger] front[i], templates, now) matches Some(
                    (n, secs),
                ) && n == name && (before[name] == secs || before[name] == 0));
            assert(jobs[i] == front[i]);
        }
    }
}

/// The time of a template is that of the archive or that of one of its jobs that ended; where
/// only successes count, of one that completed and says so.
pub proof fn law_last_time_is_one(
    archived: Map<(Seq<char>, Seq<char>), Timestamp>,
    jobs: Seq<JobView>,
    succeeded: bool,
    key: (Seq<char>, Seq<char>),
)
    ensures
        ({
            let times = last_times_spec(archived, jobs, succeeded);
            &&& times.dom().contains(key) ==> (archived.dom().contains(key) && times[key]
                == archived[key]) || exists|i: int|
                0 <= i < jobs.len() && #[trigger] completion_spec(jobs[i], succeeded) == Some(
                    (key, times[key]),
                )
            &&& archived.dom().contains(key) ==> times.dom().contains(key)
        }),
    decreases jobs.len(),
{
    if jobs.len() > 0 {
        let front = jobs.drop_last();
        law_last_time_is_one(archived, front, succeeded, key);
        let before = last_times_spec(archived, front, succeeded);
        let times = last_times_spec(archived, jobs, succeeded);
        let n = jobs.len() - 1;
        assert(jobs[n] == jobs.last());
        if times.dom().contains(key) {
            if before.dom().contains(key) && before[key] == times[key] {
                if !(archived.dom().contains(key) && times[key] == archived[key]) {
                    let i = choose|i: int|
                        0 <= i < front.len() && #[trigger] completion_spec(front[i], succeeded)
                            == Some((key, before[key]));
                    assert(jobs[i] == front[i]);
                    assert(completion_spec(jobs[i], succeeded) == Some((key, times[key])));
                }
            } else {
                assert(completion_spec(jobs[n], succeeded) == Some((key, times[key])));
            }
        }
    }
}

/// A job tells when its template last ran: it is owned by a template, and it ended, whether it
/// completed or failed. It tells of a success only where it completed, and one of its
/// conditions is a true `Complete`. It is told of under the name of its template and its own
/// namespace.
pub proof fn law_completion(job: JobView, t: Timestamp)
    ensures
        ({
            let done = job.status matches Some(status) && status.completion_time == Some(t);
            let complete = exists|i: int|
                0 <= i < crate::kubernetes::job::reported(job).len()
                    && crate::kubernetes::job::is_true(
                    #[trigger] crate::kubernetes::job::reported(job)[i],
                    "Complete"@,
                );
            &&& completion_spec(job, false) matches Some((_, end)) ==> job.template_owner() is Some
                && crate::kubernetes::job::ended_at(job, end)
            &&& job.template_owner() is Some && crate::kubernetes::job::ended_at(job, t)
                ==> (completion_spec(job, false) matches Some((_, end)) && end == t)
            &&& job.template_owner() is Some && done && complete ==> (completion_spec(
                job,
                true,
            ) matches Some((_, end)) && end == t)
            &&& completion_spec(job, true) is Some ==> complete && job.template_owner() is Some && (
            job.status matches Some(status) && status.completion_time is Some)
            &&& forall|s: bool| #[trigger]
                completion_spec(job, s) matches Some((key, _)) ==> key.0
                    == job.template_owner()->0.name && (job.metadata.namespace matches Some(n)
                    ==> key.1 == n) && (job.metadata.namespace is None ==> key.1 == "default"@)
        }),
{
    crate::kubernetes::job::law_terminal_time(job);
    let all = crate::kubernetes::job::reported(job);
    if job.status is Some {
        assert(job.status->0.conditions_or_none() =~= all);
        if has_succeeded(job) {
            let i = choose|i: int| 0 <= i < all.len() && (#[trigger] all[i]).holds("Complete"@);
            assert(crate::kubernetes::job::is_true(all[i], "Complete"@));
        }
        if exists|i: int|
            0 <= i < all.len() && crate::kubernetes::job::is_true(
                #[trigger] all[i],
                "Complete"@,
            ) {
            let i = choose|i: int|
                0 <= i < all.len() && crate::kubernetes::job::is_true(
                    #[trigger] all[i],
                    "Complete"@,
                );
            assert(all[i].holds("Complete"@));
        }
    }
}

/// The archive holds the moment of a row whose text can be read, under the template and the
/// namespace of the row; of two such rows of one template the later counts, and a row that
/// cannot be read takes nothing away.
pub proof fn law_archived_times(
    rows: Seq<(Seq<char>, Seq<char>, Option<Seq<char>>)>,
    row: (Seq<char>, Seq<char>, Option<Seq<char>>),
)
    ensures
        archived_times_spec(Seq::empty()) == Map::<(Seq<char>, Seq<char>), Timestamp>::empty(),
        ({
            let before = archived_times_spec(rows);
            let after = archived_times_spec(rows.push(row));
            let moment = match row.2 {
                Some(s) => time::moment_spec(time::parsed_utc_spec(s)),
                None => None,
            };
            &&& moment is None ==> after == before
            &&& moment matches Some(t) ==> after.dom().contains((row.0, row.1)) && after[(
                row.0,
                row.1,
            )] == t && forall|key: (Seq<char>, Seq<char>)|
                key != (row.0, row.1) ==> #[trigger] after.dom().contains(key)
                    == before.dom().contains(key) && (before.dom().contains(key) ==> after[key]
                    == before[key])
        }),
{
    assert(rows.push(row).drop_last() =~= rows);
}

/// The namespaces of templates are those in which at least one of them lives; a template that
/// names no namespace adds none.
pub proof fn law_namespaces(templates: Seq<JobTemplateView>, t: JobTemplateView, namespace: Seq<char>)
    ensures
        !is_namespace_of(Seq::empty(), namespace),
        is_namespace_of(templates.push(t), namespace) <==> is_namespace_of(templates, namespace)
            || t.metadata.namespace == Some(namespace),
{
    let more = templates.push(t);
    if is_namespace_of(templates, namespace) {
        let i = choose|i: int|
            0 <= i < templates.len() && (#[trigger] templates[i]).metadata.namespace == Some(
                namespace,
            );
        assert(more[i].metadata.namespace == Some(namespace));
    }
    if t.metadata.namespace == Some(namespace) {
        assert(more[templates.len() as int].metadata.namespace == Some(namespace));
    }
    if is_namespace_of(more, namespace) {
        let i = choose|i: int|
            0 <= i < more.len() && (#[trigger] more[i]).metadata.namespace == Some(namespace);
        if i < templates.len() {
            assert(templates[i].metadata.namespace == Some(namespace));
        }
    }
}

} // verus!

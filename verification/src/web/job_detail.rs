//! The page of a job: its state, its results and its snapshots.

use vstd::prelude::*;

use crate::db::archived_job::{ArchivedJob, ArchivedJobView};
use crate::decimal;
use crate::dup::Dup;
use crate::kubernetes::events::EventInfo;
use crate::kubernetes::job::{Job, JobView, Verdict};
use crate::kubernetes::job_output::{JobOutput, JobOutputView};
use crate::order::{self, text_le, text_lt, Ordered};
use crate::snapshot::{
    is_diff, DiffLine, DiffLineView, FileDiffStatus, FileDiffView, Files, SnapshotDiff,
};
use crate::text;
use crate::time::{self, Timestamp};
use crate::web::api::{json_diff_of, running_secs};
use crate::web::junit::{parse_junit_xml, TestSuites, TestSuitesView};

verus! {

/// A duration in words: seconds, minutes and seconds, or hours and minutes.
pub open spec fn format_duration_spec(seconds: int) -> Seq<char> {
    if seconds < 60 {
        decimal::decimal_spec(seconds) + "s"@
    } else if seconds < 3600 {
        decimal::decimal_spec(seconds / 60) + "m "@ + decimal::decimal_spec(seconds % 60) + "s"@
    } else {
        decimal::decimal_spec(seconds / 3600) + "h "@ + decimal::decimal_spec((seconds % 3600) / 60)
            + "m"@
    }
}

/// A duration in words.
pub fn format_duration(seconds: i64) -> (r: String)
    ensures
        r@ == format_duration_spec(seconds as int),
{
    if seconds < 60 {
        let mut r = decimal::of_i64(seconds);
        r.append("s");
        r
    } else if seconds < 3600 {
        let mut r = decimal::of_i64(seconds / 60);
        r.append("m ");
        r.append(decimal::of_i64(seconds % 60).as_str());
        r.append("s");
        r
    } else {
        let mut r = decimal::of_i64(seconds / 3600);
        r.append("h ");
        r.append(decimal::of_i64((seconds % 3600) / 60).as_str());
        r.append("m");
        r
    }
}

/// How long a job ran, or has been running by now, in words; empty where it has
/// not begun.
pub open spec fn job_duration_display_spec(job: JobView, now: Timestamp) -> Seq<char> {
    match job.running_secs(now) {
        Some(secs) => format_duration_spec(secs as int),
        None => Seq::empty(),
    }
}

/// How long a job ran, or has been running by now, in words.
pub fn job_duration_display(job: &Job, now: &Timestamp) -> (r: String)
    ensures
        r@ == job_duration_display_spec(job.deep_view(), *now),
{
    match running_secs(job, now) {
        Some(secs) => format_duration(secs),
        None => String::new(),
    }
}

/// The badge and the status of a live job. It counts as running only once a
/// container of it is ready.
pub open spec fn job_status_spec(job: JobView) -> (Seq<char>, Seq<char>) {
    match job.verdict() {
        Some(Verdict::Succeeded) => ("success"@, "Succeeded"@),
        Some(Verdict::Failed) => ("danger"@, "Failed"@),
        None => if job.status matches Some(status) && status.some_active() && status.some_ready() {
            ("info"@, "Running"@)
        } else {
            ("muted"@, "Pending"@)
        },
    }
}

/// The badge and the status of a live job.
pub fn job_status(job: &Job) -> (r: (&'static str, &'static str))
    ensures
        (r.0@, r.1@) == job_status_spec(job.deep_view()),
{
    match job.verdict() {
        Some(Verdict::Succeeded) => ("success", "Succeeded"),
        Some(Verdict::Failed) => ("danger", "Failed"),
        None => match &job.status {
            Some(status) => if status.some_active() && status.some_ready() {
                ("info", "Running")
            } else {
                ("muted", "Pending")
            },
            None => ("muted", "Pending"),
        },
    }
}

/// A file of a snapshot, as the page shows it.
#[derive(Debug)]
pub struct SnapshotFileView {
    pub path: String,
    pub status: FileDiffStatus,
    pub diff_lines: Option<Vec<DiffLine>>,
}

/// What a [`SnapshotFileView`] holds.
#[verifier::ext_equal]
pub struct SnapshotFileModel {
    pub path: Seq<char>,
    pub status: FileDiffStatus,
    pub diff_lines: Option<Seq<DiffLineView>>,
}

impl DeepView for SnapshotFileView {
    type V = SnapshotFileModel;

    open spec fn deep_view(&self) -> SnapshotFileModel {
        SnapshotFileModel {
            path: self.path.deep_view(),
            status: self.status.deep_view(),
            diff_lines: self.diff_lines.deep_view(),
        }
    }
}

/// What the page knows of the snapshots of a job.
#[derive(Debug)]
pub struct SnapshotContext {
    pub file_views: Vec<SnapshotFileView>,
    pub snapshot_status: Option<String>,
    pub jt_name: String,
    pub jt_namespace: String,
    /// The baseline set that the job is compared with.
    pub baseline_id: Option<i64>,
    /// Whether this is the latest run of its template that has snapshots.
    pub is_latest_run: bool,
}

/// What a [`SnapshotContext`] holds.
#[verifier::ext_equal]
pub struct SnapshotContextView {
    pub file_views: Seq<SnapshotFileModel>,
    pub snapshot_status: Option<Seq<char>>,
    pub jt_name: Seq<char>,
    pub jt_namespace: Seq<char>,
    pub baseline_id: Option<i64>,
    pub is_latest_run: bool,
}

impl DeepView for SnapshotContext {
    type V = SnapshotContextView;

    open spec fn deep_view(&self) -> SnapshotContextView {
        SnapshotContextView {
            file_views: self.file_views.deep_view(),
            snapshot_status: self.snapshot_status.deep_view(),
            jt_name: self.jt_name.deep_view(),
            jt_namespace: self.jt_namespace.deep_view(),
            baseline_id: self.baseline_id.deep_view(),
            is_latest_run: self.is_latest_run.deep_view(),
        }
    }
}

/// A file that differs, as the page shows it.
pub open spec fn differing_view(
    file: FileDiffView,
    baseline: Map<Seq<char>, Seq<u8>>,
    current: Map<Seq<char>, Seq<u8>>,
) -> SnapshotFileModel {
    SnapshotFileModel {
        path: file.path,
        status: file.status,
        diff_lines: json_diff_of(file, baseline, current),
    }
}

/// A file that matches the baseline, as the page shows it.
pub open spec fn matched_view(path: Seq<char>) -> SnapshotFileModel {
    SnapshotFileModel { path, status: FileDiffStatus::Matched, diff_lines: None }
}

/// Whether one of the differences is of the file at `path`.
pub open spec fn differs(files: Seq<FileDiffView>, path: Seq<char>) -> bool {
    exists|i: int| 0 <= i < files.len() && (#[trigger] files[i]).path == path
}

/// The current files that are not among the differences, as the page shows them.
pub open spec fn matched_views(files: Seq<FileDiffView>, paths: Seq<Seq<char>>) -> Seq<
    SnapshotFileModel,
>
    decreases paths.len(),
{
    if paths.len() == 0 {
        Seq::empty()
    } else {
        let front = matched_views(files, paths.drop_last());
        if differs(files, paths.last()) {
            front
        } else {
            front.push(matched_view(paths.last()))
        }
    }
}

/// The files of a snapshot in the order of their paths: those that differ, and
/// the current ones that do not.
pub open spec fn file_views_spec(
    files: Seq<FileDiffView>,
    baseline: Map<Seq<char>, Seq<u8>>,
    current: Map<Seq<char>, Seq<u8>>,
    paths: Seq<Seq<char>>,
) -> Seq<SnapshotFileModel> {
    order::sorted_spec::<SnapshotFileView>(
        files.map_values(|f: FileDiffView| differing_view(f, baseline, current)) + matched_views(
            files,
            paths,
        ),
    )
}

impl Ordered for SnapshotFileView {
    open spec fn before(a: SnapshotFileModel, b: SnapshotFileModel) -> bool {
        text_le(a.path, b.path)
    }

    proof fn lemma_total(a: SnapshotFileModel, b: SnapshotFileModel) {
        order::lemma_text_total(a.path, b.path);
    }

    proof fn lemma_transitive(a: SnapshotFileModel, b: SnapshotFileModel, c: SnapshotFileModel) {
        order::lemma_text_transitive(a.path, b.path, c.path);
    }

    fn is_before(&self, other: &SnapshotFileView) -> (r: bool) {
        order::le(self.path.as_str(), other.path.as_str())
    }
}

fn file_diff_lines(
    diff: &SnapshotDiff,
    i: usize,
    baseline: &Files,
    current: &Files,
) -> (r: Option<Vec<DiffLine>>)
    requires
        i < diff.files@.len(),
    ensures
        r.deep_view() == json_diff_of(diff.files@[i as int].deep_view(), baseline@, current@),
{
    let file = &diff.files[i];
    if text::ends_with(file.path.as_str(), ".json") && file.status == FileDiffStatus::Changed {
        if let Some(before) = baseline.get(file.path.as_str()) {
            if let Some(after) = current.get(file.path.as_str()) {
                assert(before.deep_view() =~= before@);
                assert(after.deep_view() =~= after@);
                return crate::snapshot::json_diff(before.as_slice(), after.as_slice());
            }
        }
    }
    None
}

fn is_differing(diff: &SnapshotDiff, path: &str) -> (r: bool)
    ensures
        r == differs(diff.deep_view().files, path@),
{
    let ghost all = diff.files.deep_view();
    for i in 0..diff.files.len()
        invariant
            all == diff.files.deep_view(),
            forall|j: int| 0 <= j < i ==> (#[trigger] all[j]).path != path@,
    {
        assert(all[i as int] == diff.files@[i as int].deep_view());
        if text::eq(diff.files[i].path.as_str(), path) {
            return true;
        }
    }
    false
}

/// The files of a snapshot, as the page shows them.
pub fn build_snapshot_file_views(diff: &SnapshotDiff, baseline: &Files, current: &Files) -> (r: Vec<
    SnapshotFileView,
>)
    ensures
        r.deep_view() == file_views_spec(
            diff.deep_view().files,
            baseline@,
            current@,
            current.keys(),
        ),
{
    let ghost all = diff.files.deep_view();
    let ghost f = |d: FileDiffView| differing_view(d, baseline@, current@);
    let mut views: Vec<SnapshotFileView> = Vec::new();
    for i in 0..diff.files.len()
        invariant
            all == diff.files.deep_view(),
            f == (|d: FileDiffView| differing_view(d, baseline@, current@)),
            views.deep_view() == all.take(i as int).map_values(f),
    {
        let ghost before = views.deep_view();
        let diff_lines = file_diff_lines(diff, i, baseline, current);
        let status: FileDiffStatus = diff.files[i].status;
        let view = SnapshotFileView { path: diff.files[i].path.clone(), status, diff_lines };
        views.push(view);
        assert(views.deep_view() =~= before.push(view.deep_view()));
        assert(all[i as int] == diff.files@[i as int].deep_view());
        assert(all.take(i + 1).map_values(f) =~= all.take(i as int).map_values(f).push(
            view.deep_view(),
        ));
    }
    assert(all.take(all.len() as int) =~= all);
    let ghost start = views.deep_view();
    let n: usize = current.len();
    let ghost paths = current.keys();
    assert(start + matched_views(all, paths.take(0)) =~= start);
    for i in 0..n
        invariant
            n == current.keys().len(),
            paths == current.keys(),
            all == diff.files.deep_view(),
            views.deep_view() == start + matched_views(all, paths.take(i as int)),
    {
        let ghost before = views.deep_view();
        let path = current.key(i);
        assert(paths.take(i + 1).drop_last() =~= paths.take(i as int));
        assert(paths.take(i + 1).last() == path@);
        if !is_differing(diff, path.as_str()) {
            let view = SnapshotFileView {
                path: path.clone(),
                status: FileDiffStatus::Matched,
                diff_lines: None,
            };
            views.push(view);
            assert(views.deep_view() =~= before.push(view.deep_view()));
        }
        assert(views.deep_view() =~= start + matched_views(all, paths.take(i + 1)));
    }
    assert(paths.take(paths.len() as int) =~= paths);
    order::sort(views)
}

proof fn lemma_matched_views(files: Seq<FileDiffView>, paths: Seq<Seq<char>>, v: SnapshotFileModel)
    ensures
        matched_views(files, paths).contains(v) <==> (paths.contains(v.path) && !differs(
            files,
            v.path,
        ) && v == matched_view(v.path)),
    decreases paths.len(),
{
    let list = matched_views(files, paths);
    if paths.len() > 0 {
        let rest = paths.drop_last();
        let front = matched_views(files, rest);
        lemma_matched_views(files, rest, v);
        assert(paths.contains(v.path) <==> rest.contains(v.path) || v.path == paths.last()) by {
            if paths.contains(v.path) {
                let i = paths.index_of(v.path);
                assert(paths[i] == v.path);
                if i < rest.len() {
                    assert(rest[i] == v.path);
                }
            }
            if rest.contains(v.path) {
                let i = rest.index_of(v.path);
                assert(rest[i] == v.path);
                assert(paths[i] == v.path);
            }
            assert(paths[paths.len() - 1] == paths.last());
        }
        if !differs(files, paths.last()) {
            let w = matched_view(paths.last());
            assert(list == front.push(w));
            assert(list.contains(v) <==> front.contains(v) || v == w) by {
                if list.contains(v) {
                    let i = list.index_of(v);
                    assert(list[i] == v);
                    if i < front.len() {
                        assert(front[i] == v);
                    }
                }
                if front.contains(v) {
                    let i = front.index_of(v);
                    assert(front[i] == v);
                    assert(list[i] == v);
                }
                assert(list[front.len() as int] == w);
            }
        }
    }
}

/// The page shows every file of the baseline and of the snapshot, and no other:
/// with the difference where it differs, and as matching where it does not.
pub proof fn law_every_file_is_shown(
    baseline: Map<Seq<char>, Seq<u8>>,
    current: Map<Seq<char>, Seq<u8>>,
    files: Seq<FileDiffView>,
    paths: Seq<Seq<char>>,
    path: Seq<char>,
)
    requires
        is_diff(baseline, current, files),
        forall|k: Seq<char>| #[trigger] paths.contains(k) <==> current.dom().contains(k),
    ensures
        ({
            let views = file_views_spec(files, baseline, current, paths);
            (exists|v: SnapshotFileModel| #[trigger] views.contains(v) && v.path == path) <==> (
            baseline.dom().contains(path) || current.dom().contains(path))
        }),
{
    let f = |d: FileDiffView| differing_view(d, baseline, current);
    let first = files.map_values(f);
    let second = matched_views(files, paths);
    let all = first + second;
    let views = file_views_spec(files, baseline, current, paths);
    order::law_sorted_same_values::<SnapshotFileView>(all);
    broadcast use vstd::seq_lib::group_to_multiset_ensures;

    assert forall|v: SnapshotFileModel| views.contains(v) == all.contains(v) by {
        assert(views.contains(v) <==> views.to_multiset().count(v) > 0);
        assert(all.contains(v) <==> all.to_multiset().count(v) > 0);
    }
    assert(differs(files, path) <==> crate::snapshot::diff_status_spec(baseline, current, path) is
        Some) by {
        if differs(files, path) {
            let i = choose|i: int| 0 <= i < files.len() && (#[trigger] files[i]).path == path;
            assert(files.contains(files[i]));
        }
        if let Some(status) = crate::snapshot::diff_status_spec(baseline, current, path) {
            let d = FileDiffView { path, status };
            assert(files.contains(d));
            let i = files.index_of(d);
            assert(files[i] == d);
        }
    }
    if exists|v: SnapshotFileModel| #[trigger] views.contains(v) && v.path == path {
        let v = choose|v: SnapshotFileModel| #[trigger] views.contains(v) && v.path == path;
        assert(all.contains(v));
        let i = all.index_of(v);
        assert(all[i] == v);
        if i < first.len() {
            assert(first[i] == v);
            assert(files[i].path == path);
            assert(differs(files, path));
        } else {
            assert(second[i - first.len()] == v);
            lemma_matched_views(files, paths, v);
        }
    }
    if baseline.dom().contains(path) || current.dom().contains(path) {
        if differs(files, path) {
            let i = choose|i: int| 0 <= i < files.len() && (#[trigger] files[i]).path == path;
            assert(all[i] == f(files[i]));
            assert(all.contains(f(files[i])));
            assert(views.contains(f(files[i])));
        } else {
            assert(current.dom().contains(path));
            let v = matched_view(path);
            lemma_matched_views(files, paths, v);
            let i = second.index_of(v);
            assert(second[i] == v);
            assert(all[first.len() + i] == v);
            assert(all.contains(v));
            assert(views.contains(v));
        }
    }
}

/// How the page shows the file at a path of the baseline or of the snapshot.
pub open spec fn view_at(
    baseline: Map<Seq<char>, Seq<u8>>,
    current: Map<Seq<char>, Seq<u8>>,
    path: Seq<char>,
) -> SnapshotFileModel {
    match crate::snapshot::diff_status_spec(baseline, current, path) {
        Some(status) => differing_view(FileDiffView { path, status }, baseline, current),
        None => matched_view(path),
    }
}

proof fn lemma_matched_distinct(files: Seq<FileDiffView>, paths: Seq<Seq<char>>)
    requires
        paths.no_duplicates(),
    ensures
        matched_views(files, paths).no_duplicates(),
    decreases paths.len(),
{
    if paths.len() > 0 {
        let rest = paths.drop_last();
        lemma_matched_distinct(files, rest);
        let w = matched_view(paths.last());
        lemma_matched_views(files, rest, w);
        if rest.contains(paths.last()) {
            let i = rest.index_of(paths.last());
            assert(paths[i] == paths[paths.len() - 1]);
        }
        let front = matched_views(files, rest);
        if !differs(files, paths.last()) {
            let list = front.push(w);
            assert forall|i: int, j: int|
                0 <= i < list.len() && 0 <= j < list.len() && i != j implies list[i] != list[j] by {
                if i < front.len() && j < front.len() {
                    assert(front[i] != front[j]);
                } else if i < front.len() {
                    assert(front.contains(front[i]));
                } else {
                    assert(front.contains(front[j]));
                }
            }
        }
    }
}

/// What is shown of the differing and of the matching files, before it is sorted: every view
/// is that of its path, and none comes twice.
proof fn lemma_unsorted_views(
    baseline: Map<Seq<char>, Seq<u8>>,
    current: Map<Seq<char>, Seq<u8>>,
    files: Seq<FileDiffView>,
    paths: Seq<Seq<char>>,
)
    requires
        is_diff(baseline, current, files),
        paths.no_duplicates(),
    ensures
        ({
            let all = files.map_values(|d: FileDiffView| differing_view(d, baseline, current))
                + matched_views(files, paths);
            &&& all.no_duplicates()
            &&& forall|v: SnapshotFileModel| #[trigger]
                all.contains(v) ==> v == view_at(baseline, current, v.path)
        }),
{
    let f = |d: FileDiffView| differing_view(d, baseline, current);
    let first = files.map_values(f);
    let second = matched_views(files, paths);
    let all = first + second;
    lemma_matched_distinct(files, paths);
    assert forall|i: int| 0 <= i < files.len() implies (#[trigger] first[i]).path == files[i].path
        && first[i] == view_at(baseline, current, files[i].path) by {
        assert(files.contains(files[i]));
    }
    assert forall|i: int| 0 <= i < second.len() implies !differs(
        files,
        (#[trigger] second[i]).path,
    ) && second[i] == view_at(baseline, current, second[i].path) by {
        let v = second[i];
        assert(second.contains(v));
        lemma_matched_views(files, paths, v);
        if let Some(status) = crate::snapshot::diff_status_spec(baseline, current, v.path) {
            let d = FileDiffView { path: v.path, status };
            assert(files.contains(d));
            let k = files.index_of(d);
            assert(files[k].path == v.path);
        }
    }
    assert forall|v: SnapshotFileModel| #[trigger] all.contains(v) implies v == view_at(
        baseline,
        current,
        v.path,
    ) by {
        let i = all.index_of(v);
        if i < first.len() {
            assert(all[i] == first[i]);
        } else {
            assert(all[i] == second[i - first.len()]);
        }
    }
    assert forall|i: int, j: int| 0 <= i < j < all.len() implies all[i] != all[j] by {
        if j < first.len() {
            assert(all[i] == first[i] && all[j] == first[j]);
            assert(text_lt(files[i].path, files[j].path));
            crate::sorted_map::lemma_text_lt(files[i].path, files[j].path);
        } else if i < first.len() {
            assert(all[i] == first[i] && all[j] == second[j - first.len()]);
            assert(files[i].path == first[i].path);
        } else {
            assert(all[i] == second[i - first.len()] && all[j] == second[j - first.len()]);
        }
    }
}

/// The files are shown in the order of their paths, each path once, and each file as what it
/// is: with how it differs from the baseline, or as matching.
pub proof fn law_files_are_shown_in_order(
    baseline: Map<Seq<char>, Seq<u8>>,
    current: Map<Seq<char>, Seq<u8>>,
    files: Seq<FileDiffView>,
    paths: Seq<Seq<char>>,
)
    requires
        is_diff(baseline, current, files),
        paths.no_duplicates(),
    ensures
        ({
            let views = file_views_spec(files, baseline, current, paths);
            &&& forall|i: int, j: int|
                0 <= i < j < views.len() ==> text_lt(
                    (#[trigger] views[i]).path,
                    (#[trigger] views[j]).path,
                )
            &&& forall|i: int|
                0 <= i < views.len() ==> #[trigger] views[i] == view_at(
                    baseline,
                    current,
                    views[i].path,
                )
        }),
{
    let f = |d: FileDiffView| differing_view(d, baseline, current);
    let all = files.map_values(f) + matched_views(files, paths);
    let views = file_views_spec(files, baseline, current, paths);
    lemma_unsorted_views(baseline, current, files, paths);
    order::law_sorted_in_order::<SnapshotFileView>(all);
    order::law_sorted_same_values::<SnapshotFileView>(all);
    all.lemma_multiset_has_no_duplicates();
    broadcast use vstd::seq_lib::group_to_multiset_ensures;

    views.lemma_multiset_has_no_duplicates_conv();
    assert forall|i: int| 0 <= i < views.len() implies #[trigger] views[i] == view_at(
        baseline,
        current,
        views[i].path,
    ) by {
        assert(views.contains(views[i]));
        assert(views.to_multiset().count(views[i]) > 0);
        assert(all.contains(views[i]));
    }
    assert forall|i: int, j: int| 0 <= i < j < views.len() implies text_lt(
        (#[trigger] views[i]).path,
        (#[trigger] views[j]).path,
    ) by {
        crate::sorted_map::lemma_text_lt(views[i].path, views[j].path);
        assert(SnapshotFileView::before(views[i], views[j]));
        if views[i].path == views[j].path {
            assert(views[i] == views[j]);
        }
    }
}

/// Whether the snapshots of a job were accepted as baseline.
pub open spec fn is_accepted(status: Option<Seq<char>>) -> bool {
    status == Some("accepted_as_baseline"@)
}

/// How many of the files differ from the baseline.
pub open spec fn differing_count(views: Seq<SnapshotFileModel>) -> nat
    decreases views.len(),
{
    if views.len() == 0 {
        0
    } else if views.last().status == FileDiffStatus::Matched {
        differing_count(views.drop_last())
    } else {
        differing_count(views.drop_last()) + 1
    }
}

/// The tests of a report and the files of the snapshots, taken together.
#[derive(Clone, Copy, Debug)]
pub struct OutputSummary {
    pub total: u32,
    pub failed: u32,
    pub skipped: u32,
    pub all_passed: bool,
    /// Whether the snapshots can be accepted as the new baseline.
    pub can_accept: bool,
    pub snapshot_files: u32,
}

pub open spec fn suite_total(suites: Option<TestSuitesView>) -> nat {
    match suites {
        Some(s) => s.total_tests(),
        None => 0,
    }
}

pub open spec fn suite_failed(suites: Option<TestSuitesView>) -> nat {
    match suites {
        Some(s) => s.total_failures() + s.total_errors(),
        None => 0,
    }
}

pub open spec fn suite_skipped(suites: Option<TestSuitesView>) -> nat {
    match suites {
        Some(s) => s.total_skipped(),
        None => 0,
    }
}

pub open spec fn snapshot_total(ctx: Option<SnapshotContextView>) -> nat {
    match ctx {
        Some(c) => c.file_views.len(),
        None => 0,
    }
}

/// The files that count as failed: those that differ, unless they were accepted.
pub open spec fn snapshot_failed(ctx: Option<SnapshotContextView>) -> nat {
    match ctx {
        Some(c) => if is_accepted(c.snapshot_status) {
            0
        } else {
            differing_count(c.file_views)
        },
        None => 0,
    }
}

/// Whether the snapshots can be accepted as the new baseline: some differ, they
/// have not been accepted, and the run is the latest.
pub open spec fn can_accept_spec(ctx: Option<SnapshotContextView>) -> bool {
    ctx matches Some(c) && differing_count(c.file_views) > 0 && !is_accepted(c.snapshot_status)
        && c.is_latest_run
}

/// Whether all counts of the summary fit 32 bits.
pub open spec fn summary_fits(
    suites: Option<TestSuitesView>,
    ctx: Option<SnapshotContextView>,
) -> bool {
    &&& suite_total(suites) + snapshot_total(ctx) <= u32::MAX
    &&& suite_failed(suites) + snapshot_failed(ctx) <= u32::MAX
    &&& suite_skipped(suites) <= u32::MAX
}

/// The summary of test results and snapshots.
pub open spec fn is_summary(
    r: OutputSummary,
    suites: Option<TestSuitesView>,
    ctx: Option<SnapshotContextView>,
) -> bool {
    &&& r.total == suite_total(suites) + snapshot_total(ctx)
    &&& r.failed == suite_failed(suites) + snapshot_failed(ctx)
    &&& r.skipped == suite_skipped(suites)
    &&& r.all_passed == (r.failed == 0)
    &&& r.can_accept == can_accept_spec(ctx)
    &&& r.snapshot_files == snapshot_total(ctx)
}

proof fn lemma_differing_count(views: Seq<SnapshotFileModel>)
    ensures
        differing_count(views) <= views.len(),
    decreases views.len(),
{
    if views.len() > 0 {
        lemma_differing_count(views.drop_last());
    }
}

fn count_differing(views: &Vec<SnapshotFileView>) -> (r: usize)
    ensures
        r == differing_count(views.deep_view()),
        r <= views@.len(),
{
    let ghost all = views.deep_view();
    let mut count: usize = 0;
    for i in 0..views.len()
        invariant
            all == views.deep_view(),
            count == differing_count(all.take(i as int)),
            count <= i,
    {
        assert(all.take(i + 1).drop_last() =~= all.take(i as int));
        assert(all.take(i + 1).last() == views@[i as int].deep_view());
        if views[i].status != FileDiffStatus::Matched {
            count = count + 1;
        }
    }
    assert(all.take(all.len() as int) =~= all);
    count
}

/// Sums up test results and snapshots; nothing where a count does not fit 32 bits.
pub fn output_summary(suites: &Option<TestSuites>, ctx: &Option<SnapshotContext>) -> (r: Option<
    OutputSummary,
>)
    ensures
        r is Some <==> summary_fits(suites.deep_view(), ctx.deep_view()),
        r matches Some(summary) ==> is_summary(summary, suites.deep_view(), ctx.deep_view()),
{
    let (tests, failures, errors, skipped): (u32, u32, u32, u32) = match suites {
        Some(s) => {
            match (
                s.checked_total_tests(),
                s.checked_total_failures(),
                s.checked_total_errors(),
                s.checked_total_skipped(),
            ) {
                (Some(a), Some(b), Some(c), Some(d)) => (a, b, c, d),
                _ => {
                    return None;
                },
            }
        },
        None => (0, 0, 0, 0),
    };
    let (files, differing, accepted, latest): (usize, usize, bool, bool) = match ctx {
        Some(c) => {
            let accepted: bool = match &c.snapshot_status {
                Some(status) => text::eq(status.as_str(), "accepted_as_baseline"),
                None => false,
            };
            let differing: usize = count_differing(&c.file_views);
            (c.file_views.len(), differing, accepted, c.is_latest_run)
        },
        None => (0, 0, false, false),
    };
    let counted: usize = if accepted {
        0
    } else {
        differing
    };
    let total: u128 = tests as u128 + files as u128;
    let failed: u128 = failures as u128 + errors as u128 + counted as u128;
    if total > u32::MAX as u128 || failed > u32::MAX as u128 {
        return None;
    }
    Some(
        OutputSummary {
            total: total as u32,
            failed: failed as u32,
            skipped,
            all_passed: failed == 0,
            can_accept: differing > 0 && !accepted && latest,
            snapshot_files: files as u32,
        },
    )
}

/// Snapshots that were accepted do not count as failures, and cannot be accepted
/// again.
pub proof fn law_accepted_snapshots_pass(ctx: SnapshotContextView)
    requires
        is_accepted(ctx.snapshot_status),
    ensures
        snapshot_failed(Some(ctx)) == 0,
        !can_accept_spec(Some(ctx)),
{
}

/// Snapshots can be accepted only from the latest run.
pub proof fn law_only_latest_can_be_accepted(ctx: SnapshotContextView)
    requires
        can_accept_spec(Some(ctx)),
    ensures
        ctx.is_latest_run,
        snapshot_failed(Some(ctx)) > 0,
{
}

/// Which parts of the output of a job the page has.
#[derive(Clone, Copy, Debug, PartialEq, Eq, Structural)]
pub struct OutputParts {
    /// Test results or snapshots.
    pub tests: bool,
    /// Any of the other files.
    pub other: bool,
    /// Test results that cannot be read, which are shown as they are.
    pub raw_results: bool,
}

/// Which parts of the output of a job the page has.
pub open spec fn output_parts_spec(
    output: JobOutputView,
    has_suites: bool,
    has_snapshots: bool,
) -> OutputParts {
    OutputParts {
        tests: output.test_results_xml is Some || has_snapshots,
        other: output.result_json is Some || output.report_md is Some || output.archive is Some,
        raw_results: output.test_results_xml is Some && !has_suites,
    }
}

/// Which parts of the output of a job the page has, given whether its test results
/// could be read and whether it has snapshots to show.
pub fn output_parts(output: &JobOutput, has_suites: bool, has_snapshots: bool) -> (r: OutputParts)
    ensures
        r == output_parts_spec(output.deep_view(), has_suites, has_snapshots),
{
    OutputParts {
        tests: output.test_results_xml.is_some() || has_snapshots,
        other: output.result_json.is_some() || output.report_md.is_some()
            || output.archive.is_some(),
        raw_results: output.test_results_xml.is_some() && !has_suites,
    }
}

/// The class of the bar that sums up the tests.
pub fn summary_class(all_passed: bool) -> (r: &'static str)
    ensures
        r@ == (if all_passed {
            "test-summary-bar test-summary-pass"@
        } else {
            "test-summary-bar test-summary-fail"@
        }),
{
    if all_passed {
        "test-summary-bar test-summary-pass"
    } else {
        "test-summary-bar test-summary-fail"
    }
}

/// The sentence that sums up the tests.
pub open spec fn summary_text_spec(total: nat, failed: nat) -> Seq<char> {
    if failed == 0 {
        " All "@ + decimal::digits_spec(total) + " tests passed"@
    } else {
        " "@ + decimal::digits_spec(failed) + " of "@ + decimal::digits_spec(total)
            + " tests failed"@
    }
}

/// The sentence that sums up the tests.
pub fn summary_text(total: u32, failed: u32) -> (r: String)
    ensures
        r@ == summary_text_spec(total as nat, failed as nat),
{
    if failed == 0 {
        text::concat3(" All ", decimal::of_u64(total as u64).as_str(), " tests passed")
    } else {
        let mut r = " ".to_owned();
        r.append(decimal::of_u64(failed as u64).as_str());
        r.append(" of ");
        r.append(decimal::of_u64(total as u64).as_str());
        r.append(" tests failed");
        r
    }
}

/// The row of a file of a snapshot.
#[derive(Debug)]
pub struct SnapshotRow {
    /// A check mark, a cross or a delta.
    pub icon: String,
    pub row_class: String,
    pub status_label: String,
    pub baseline_link: Option<String>,
    pub current_link: Option<String>,
    /// Whether the lines that changed can be unfolded.
    pub has_lines: bool,
}

/// What a [`SnapshotRow`] holds.
#[verifier::ext_equal]
pub struct SnapshotRowView {
    pub icon: Seq<char>,
    pub row_class: Seq<char>,
    pub status_label: Seq<char>,
    pub baseline_link: Option<Seq<char>>,
    pub current_link: Option<Seq<char>>,
    pub has_lines: bool,
}

impl DeepView for SnapshotRow {
    type V = SnapshotRowView;

    open spec fn deep_view(&self) -> SnapshotRowView {
        SnapshotRowView {
            icon: self.icon.deep_view(),
            row_class: self.row_class.deep_view(),
            status_label: self.status_label.deep_view(),
            baseline_link: self.baseline_link.deep_view(),
            current_link: self.current_link.deep_view(),
            has_lines: self.has_lines.deep_view(),
        }
    }
}

/// The link to a file of the baseline: of the set that the job is compared with,
/// or else of the latest set of the template.
pub open spec fn baseline_link_spec(ctx: SnapshotContextView, path: Seq<char>) -> Seq<char> {
    match ctx.baseline_id {
        Some(id) => "/snapshots/baseline/"@ + decimal::decimal_spec(id as int) + "/"@ + path,
        None => "/job-templates/"@ + ctx.jt_namespace + "/"@ + ctx.jt_name
            + "/snapshots/baseline/"@ + path,
    }
}

/// The link to a file of the snapshot.
pub open spec fn current_link_spec(namespace: Seq<char>, job_name: Seq<char>, path: Seq<char>) -> Seq<
    char,
> {
    "/jobs/"@ + namespace + "/"@ + job_name + "/snapshots/current/"@ + path
}

/// The row of a file: a file that matches shows the current file only; one that
/// differs shows the baseline unless it was added, and the current file unless it
/// was removed and has no lines to show.
pub open spec fn snapshot_row_spec(
    file: SnapshotFileModel,
    ctx: SnapshotContextView,
    namespace: Seq<char>,
    job_name: Seq<char>,
) -> SnapshotRowView {
    let differs = file.status != FileDiffStatus::Matched;
    SnapshotRowView {
        icon: if !differs {
            "\u{2713}"@
        } else if is_accepted(ctx.snapshot_status) {
            "\u{0394}"@
        } else {
            "\u{2717}"@
        },
        row_class: if !differs {
            "test-case test-case-passed"@
        } else if is_accepted(ctx.snapshot_status) {
            "test-case test-case-info"@
        } else {
            "test-case test-case-failed"@
        },
        status_label: match file.status {
            FileDiffStatus::Added => " (added)"@,
            FileDiffStatus::Removed => " (removed)"@,
            FileDiffStatus::Changed => " (changed)"@,
            FileDiffStatus::Matched => ""@,
        },
        baseline_link: if differs && file.status != FileDiffStatus::Added {
            Some(baseline_link_spec(ctx, file.path))
        } else {
            None
        },
        current_link: if file.status == FileDiffStatus::Removed && file.diff_lines is None {
            None
        } else {
            Some(current_link_spec(namespace, job_name, file.path))
        },
        has_lines: differs && file.diff_lines is Some,
    }
}

fn baseline_link(ctx: &SnapshotContext, path: &str) -> (r: String)
    ensures
        r@ == baseline_link_spec(ctx.deep_view(), path@),
{
    match ctx.baseline_id {
        Some(id) => {
            let mut r = "/snapshots/baseline/".to_owned();
            r.append(decimal::of_i64(id).as_str());
            r.append("/");
            r.append(path);
            r
        },
        None => {
            let mut r = "/job-templates/".to_owned();
            r.append(ctx.jt_namespace.as_str());
            r.append("/");
            r.append(ctx.jt_name.as_str());
            r.append("/snapshots/baseline/");
            r.append(path);
            r
        },
    }
}

fn current_link(namespace: &str, job_name: &str, path: &str) -> (r: String)
    ensures
        r@ == current_link_spec(namespace@, job_name@, path@),
{
    let mut r = "/jobs/".to_owned();
    r.append(namespace);
    r.append("/");
    r.append(job_name);
    r.append("/snapshots/current/");
    r.append(path);
    r
}

/// The row of a file of a snapshot.
pub fn snapshot_row(
    file: &SnapshotFileView,
    ctx: &SnapshotContext,
    namespace: &str,
    job_name: &str,
) -> (r: SnapshotRow)
    ensures
        r.deep_view() == snapshot_row_spec(
            file.deep_view(),
            ctx.deep_view(),
            namespace@,
            job_name@,
        ),
{
    let accepted: bool = match &ctx.snapshot_status {
        Some(status) => text::eq(status.as_str(), "accepted_as_baseline"),
        None => false,
    };
    let differs: bool = file.status != FileDiffStatus::Matched;
    let (icon, row_class) = if !differs {
        ("\u{2713}", "test-case test-case-passed")
    } else if accepted {
        ("\u{0394}", "test-case test-case-info")
    } else {
        ("\u{2717}", "test-case test-case-failed")
    };
    let status_label = match file.status {
        FileDiffStatus::Added => " (added)",
        FileDiffStatus::Removed => " (removed)",
        FileDiffStatus::Changed => " (changed)",
        FileDiffStatus::Matched => "",
    };
    let has_lines: bool = differs && file.diff_lines.is_some();
    SnapshotRow {
        icon: icon.to_owned(),
        row_class: row_class.to_owned(),
        status_label: status_label.to_owned(),
        baseline_link: if differs && file.status != FileDiffStatus::Added {
            Some(baseline_link(ctx, file.path.as_str()))
        } else {
            None
        },
        current_link: if file.status == FileDiffStatus::Removed && file.diff_lines.is_none() {
            None
        } else {
            Some(current_link(namespace, job_name, file.path.as_str()))
        },
        has_lines,
    }
}

/// The rows of all files of the snapshots of a job.
pub fn snapshot_rows(ctx: &SnapshotContext, namespace: &str, job_name: &str) -> (r: Vec<SnapshotRow>)
    ensures
        r.deep_view() == ctx.deep_view().file_views.map_values(
            |f: SnapshotFileModel| snapshot_row_spec(f, ctx.deep_view(), namespace@, job_name@),
        ),
{
    let ghost f = |v: SnapshotFileModel|
        snapshot_row_spec(v, ctx.deep_view(), namespace@, job_name@);
    let ghost all = ctx.file_views.deep_view();
    let mut rows: Vec<SnapshotRow> = Vec::new();
    for i in 0..ctx.file_views.len()
        invariant
            all == ctx.file_views.deep_view(),
            f == (|v: SnapshotFileModel|
                snapshot_row_spec(v, ctx.deep_view(), namespace@, job_name@)),
            rows.deep_view() == all.take(i as int).map_values(f),
    {
        let ghost before = rows.deep_view();
        let row = snapshot_row(&ctx.file_views[i], ctx, namespace, job_name);
        rows.push(row);
        assert(rows.deep_view() =~= before.push(row.deep_view()));
        assert(all[i as int] == ctx.file_views@[i as int].deep_view());
        assert(all.take(i + 1).map_values(f) =~= all.take(i as int).map_values(f).push(
            row.deep_view(),
        ));
    }
    assert(all.take(all.len() as int) =~= all);
    rows
}

/// The address that accepts the snapshots of a job.
pub fn accept_link(namespace: &str, job_name: &str) -> (r: String)
    ensures
        r@ == "/api/jobs/"@ + namespace@ + "/"@ + job_name@ + "/snapshots/accept"@,
{
    let mut r = "/api/jobs/".to_owned();
    r.append(namespace);
    r.append("/");
    r.append(job_name);
    r.append("/snapshots/accept");
    r
}

/// The values that are sent when snapshots are accepted.
pub fn accept_values(ctx: &SnapshotContext) -> (r: String)
    ensures
        r@ == "{\"job_template_name\":\""@ + ctx.deep_view().jt_name
            + "\",\"job_template_namespace\":\""@ + ctx.deep_view().jt_namespace + "\"}"@,
{
    let mut r = "{\"job_template_name\":\"".to_owned();
    r.append(ctx.jt_name.as_str());
    r.append("\",\"job_template_namespace\":\"");
    r.append(ctx.jt_namespace.as_str());
    r.append("\"}");
    r
}

/// The address of a file of the output of a job.
pub fn output_link(namespace: &str, job_name: &str, file: &str) -> (r: String)
    ensures
        r@ == "/jobs/"@ + namespace@ + "/"@ + job_name@ + "/output/"@ + file@,
{
    let mut r = "/jobs/".to_owned();
    r.append(namespace);
    r.append("/");
    r.append(job_name);
    r.append("/output/");
    r.append(file);
    r
}

/// The class and the marker of a line of a difference.
pub fn diff_line_style(line: &DiffLine) -> (r: (&'static str, &'static str))
    ensures
        (r.0@, r.1@) == (match line.deep_view() {
            DiffLineView::Context(_) => ("diff-line diff-context"@, " "@),
            DiffLineView::Added(_) => ("diff-line diff-added"@, "+"@),
            DiffLineView::Removed(_) => ("diff-line diff-removed"@, "-"@),
        }),
{
    match line {
        DiffLine::Context(_) => ("diff-line diff-context", " "),
        DiffLine::Added(_) => ("diff-line diff-added", "+"),
        DiffLine::Removed(_) => ("diff-line diff-removed", "-"),
    }
}

/// The address of a template.
pub open spec fn template_link_spec(namespace: Seq<char>, name: Seq<char>) -> Seq<char> {
    "/job-templates/"@ + namespace + "/"@ + name
}

/// The address of a template.
pub fn template_link(namespace: &str, name: &str) -> (r: String)
    ensures
        r@ == template_link_spec(namespace@, name@),
{
    let mut r = "/job-templates/".to_owned();
    r.append(namespace);
    r.append("/");
    r.append(name);
    r
}

/// The head of the page of a job.
#[derive(Debug)]
pub struct JobHeader {
    pub name: String,
    pub badge_class: String,
    pub status: String,
    /// Where the job is: in the cluster or in the archive.
    pub source_class: String,
    pub source: String,
    /// Empty where there is nothing to show.
    pub duration: String,
    pub template_name: Option<String>,
    pub template_link: Option<String>,
    /// When it began, or what is said where that is not known.
    pub started: String,
    pub started_known: bool,
    pub completed: Option<String>,
    pub archived_at: Option<String>,
}

/// What a [`JobHeader`] holds.
#[verifier::ext_equal]
pub struct JobHeaderView {
    pub name: Seq<char>,
    pub badge_class: Seq<char>,
    pub status: Seq<char>,
    pub source_class: Seq<char>,
    pub source: Seq<char>,
    pub duration: Seq<char>,
    pub template_name: Option<Seq<char>>,
    pub template_link: Option<Seq<char>>,
    pub started: Seq<char>,
    pub started_known: bool,
    pub completed: Option<Seq<char>>,
    pub archived_at: Option<Seq<char>>,
}

impl DeepView for JobHeader {
    type V = JobHeaderView;

    open spec fn deep_view(&self) -> JobHeaderView {
        JobHeaderView {
            name: self.name.deep_view(),
            badge_class: self.badge_class.deep_view(),
            status: self.status.deep_view(),
            source_class: self.source_class.deep_view(),
            source: self.source.deep_view(),
            duration: self.duration.deep_view(),
            template_name: self.template_name.deep_view(),
            template_link: self.template_link.deep_view(),
            started: self.started.deep_view(),
            started_known: self.started_known.deep_view(),
            completed: self.completed.deep_view(),
            archived_at: self.archived_at.deep_view(),
        }
    }
}

pub open spec fn date_time_spec(t: Option<Timestamp>) -> Option<Seq<char>> {
    match t {
        Some(m) => Some(time::date_time_spec(m)),
        None => None,
    }
}

fn date_time(t: &Option<Timestamp>) -> (r: Option<String>)
    ensures
        r.deep_view() == date_time_spec(*t),
{
    match t {
        Some(m) => Some(time::to_date_time(m)),
        None => None,
    }
}

/// The head of the page of a live job.
pub open spec fn live_header_spec(job: JobView, namespace: Seq<char>, now: Timestamp) -> JobHeaderView {
    JobHeaderView {
        name: job.metadata.name_any(),
        badge_class: "badge badge-"@ + job_status_spec(job).0,
        status: job_status_spec(job).1,
        source_class: "badge badge-info"@,
        source: "Live"@,
        duration: job_duration_display_spec(job, now),
        template_name: match job.template_owner() {
            Some(owner) => Some(owner.name),
            None => None,
        },
        template_link: match job.template_owner() {
            Some(owner) => Some(template_link_spec(namespace, owner.name)),
            None => None,
        },
        started: match date_time_spec(job.start_time()) {
            Some(t) => t,
            None => "Not started"@,
        },
        started_known: job.start_time() is Some,
        completed: date_time_spec(job.completion_time()),
        archived_at: None,
    }
}

/// The head of the page of a live job.
pub fn live_header(job: &Job, namespace: &str, now: &Timestamp) -> (r: JobHeader)
    ensures
        r.deep_view() == live_header_spec(job.deep_view(), namespace@, *now),
{
    let (badge, status) = job_status(job);
    let completion: Option<Timestamp> = match &job.status {
        Some(s) => s.completion_time,
        None => None,
    };
    let start: Option<Timestamp> = job.start_time();
    let started_known: bool = start.is_some();
    JobHeader {
        name: job.metadata.name_any(),
        badge_class: text::concat("badge badge-", badge),
        status: status.to_owned(),
        source_class: "badge badge-info".to_owned(),
        source: "Live".to_owned(),
        duration: job_duration_display(job, now),
        template_name: match job.template_owner() {
            Some(owner) => Some(owner.name.clone()),
            None => None,
        },
        template_link: match job.template_owner() {
            Some(owner) => Some(template_link(namespace, owner.name.as_str())),
            None => None,
        },
        started: match date_time(&start) {
            Some(t) => t,
            None => "Not started".to_owned(),
        },
        started_known,
        completed: date_time(&completion),
        archived_at: None,
    }
}

/// The badge of an archived job.
pub open spec fn archived_badge_spec(status: Seq<char>) -> Seq<char> {
    if status == "Succeeded"@ {
        "success"@
    } else if status == "Failed"@ {
        "danger"@
    } else {
        "muted"@
    }
}

/// The head of the page of an archived job.
pub open spec fn archived_header_spec(job: ArchivedJobView) -> JobHeaderView {
    JobHeaderView {
        name: job.name,
        badge_class: "badge badge-"@ + archived_badge_spec(job.status),
        status: job.status,
        source_class: "badge badge-muted"@,
        source: "Archived"@,
        duration: match job.duration_seconds {
            Some(secs) => format_duration_spec(secs as int),
            None => Seq::empty(),
        },
        template_name: Some(job.job_template_name),
        template_link: Some(
            template_link_spec(job.job_template_namespace, job.job_template_name),
        ),
        started: match job.start_time {
            Some(t) => t,
            None => "Unknown"@,
        },
        started_known: job.start_time is Some,
        completed: job.completion_time,
        archived_at: Some(job.archived_at),
    }
}

/// The head of the page of an archived job.
pub fn archived_header(job: &ArchivedJob) -> (r: JobHeader)
    ensures
        r.deep_view() == archived_header_spec(job.deep_view()),
{
    let badge = if text::eq(job.status.as_str(), "Succeeded") {
        "success"
    } else if text::eq(job.status.as_str(), "Failed") {
        "danger"
    } else {
        "muted"
    };
    let started_known: bool = job.start_time.is_some();
    JobHeader {
        name: job.name.clone(),
        badge_class: text::concat("badge badge-", badge),
        status: job.status.clone(),
        source_class: "badge badge-muted".to_owned(),
        source: "Archived".to_owned(),
        duration: match job.duration_seconds {
            Some(secs) => format_duration(secs),
            None => String::new(),
        },
        template_name: Some(job.job_template_name.clone()),
        template_link: Some(
            template_link(job.job_template_namespace.as_str(), job.job_template_name.as_str()),
        ),
        started: match &job.start_time {
            Some(t) => t.clone(),
            None => "Unknown".to_owned(),
        },
        started_known,
        completed: job.completion_time.dup(),
        archived_at: Some(job.archived_at.clone()),
    }
}

/// The output of an archived job.
pub fn archived_output(job: &ArchivedJob) -> (r: JobOutput)
    ensures
        r.deep_view() == (JobOutputView {
            result_json: job.deep_view().output_result_json,
            report_md: job.deep_view().output_report_md,
            test_results_xml: job.deep_view().output_test_results_xml,
            archive: job.deep_view().output_archive,
            test_snapshots: job.deep_view().output_test_snapshots,
        }),
{
    JobOutput {
        result_json: job.output_result_json.dup(),
        report_md: job.output_report_md.dup(),
        test_results_xml: job.output_test_results_xml.dup(),
        archive: job.output_archive.dup(),
        test_snapshots: job.output_test_snapshots.dup(),
    }
}

/// The output of a live job that the page shows: what it uploaded, once it has
/// ended; nothing before.
pub fn live_output(job: &Job, files: Vec<(String, Vec<u8>)>) -> (r: JobOutput)
    ensures
        r.deep_view() == (if job.deep_view().is_terminal() {
            crate::kubernetes::job_output::output_of(files.deep_view())
        } else {
            crate::kubernetes::job_output::empty_output()
        }),
{
    if job.is_terminal() {
        JobOutput::load(files)
    } else {
        JobOutput::empty()
    }
}

/// Compares the snapshots of a live job with a baseline, for its page.
pub fn live_snapshot_context(
    baseline: &Files,
    current: &Files,
    snapshot_status: Option<String>,
    jt_name: String,
    jt_namespace: String,
    baseline_id: Option<i64>,
    is_latest_run: bool,
) -> (r: SnapshotContext)
    ensures
        ({
            let v = r.deep_view();
            &&& v.snapshot_status == snapshot_status.deep_view()
            &&& v.jt_name == jt_name@
            &&& v.jt_namespace == jt_namespace@
            &&& v.baseline_id == baseline_id
            &&& v.is_latest_run == is_latest_run
            &&& exists|files: Seq<FileDiffView>|
                is_diff(baseline@, current@, files) && v.file_views == file_views_spec(
                    files,
                    baseline@,
                    current@,
                    current.keys(),
                )
        }),
{
    let diff = crate::snapshot::compare(baseline, current);
    let file_views = build_snapshot_file_views(&diff, baseline, current);
    SnapshotContext {
        file_views,
        snapshot_status,
        jt_name,
        jt_namespace,
        baseline_id,
        is_latest_run,
    }
}

/// The class of the row of an event, and the class of its badge.
pub fn event_style(event: &EventInfo) -> (r: (&'static str, &'static str))
    ensures
        (r.0@, r.1@) == (if event.deep_view().type_ == "Warning"@ {
            ("event-warning"@, "badge badge-danger"@)
        } else {
            (""@, "badge badge-muted"@)
        }),
{
    if text::eq(event.type_.as_str(), "Warning") {
        ("event-warning", "badge badge-danger")
    } else {
        ("", "badge badge-muted")
    }
}

/// The snapshots of an archived job, for its page: its files where they can be unpacked,
/// held against the differences that were recorded.
pub fn archived_snapshot_context(
    job: &ArchivedJob,
    diff: &SnapshotDiff,
    baseline: &Files,
    current: &Option<Files>,
    is_latest_run: bool,
) -> (r: SnapshotContext)
    ensures
        r.deep_view() == (SnapshotContextView {
            file_views: match current {
                Some(files) => file_views_spec(
                    diff.deep_view().files,
                    baseline@,
                    files@,
                    files.keys(),
                ),
                None => Seq::empty(),
            },
            snapshot_status: job.deep_view().snapshot_status,
            jt_name: job.deep_view().job_template_name,
            jt_namespace: job.deep_view().job_template_namespace,
            baseline_id: job.deep_view().snapshot_baseline_id,
            is_latest_run,
        }),
{
    let file_views: Vec<SnapshotFileView> = match current {
        Some(files) => build_snapshot_file_views(diff, baseline, files),
        None => Vec::new(),
    };
    assert(current is None ==> file_views.deep_view() =~= Seq::empty());
    SnapshotContext {
        file_views,
        snapshot_status: job.snapshot_status.dup(),
        jt_name: job.job_template_name.clone(),
        jt_namespace: job.job_template_namespace.clone(),
        baseline_id: job.snapshot_baseline_id,
        is_latest_run,
    }
}

/// The sections of the page that show the output of a job.
pub struct OutputSections {
    pub parts: OutputParts,
    /// The test results, where they can be read.
    pub suites: Option<TestSuites>,
    /// The tests and snapshots, summed up.
    pub summary: OutputSummary,
    /// The rows of the files of the snapshots.
    pub rows: Vec<SnapshotRow>,
}

/// The rows of the files of snapshots; none where there are no snapshots.
pub open spec fn context_rows_spec(
    ctx: Option<SnapshotContextView>,
    namespace: Seq<char>,
    job_name: Seq<char>,
) -> Seq<SnapshotRowView> {
    match ctx {
        Some(c) => c.file_views.map_values(
            |f: SnapshotFileModel| snapshot_row_spec(f, c, namespace, job_name),
        ),
        None => Seq::empty(),
    }
}

/// The sections that show the output of a job, given its test results.
pub fn sections_for(
    output: &JobOutput,
    suites: Option<TestSuites>,
    ctx: &Option<SnapshotContext>,
    namespace: &str,
    job_name: &str,
) -> (r: Option<OutputSections>)
    ensures
        r is Some <==> summary_fits(suites.deep_view(), ctx.deep_view()),
        r matches Some(s) ==> {
            &&& s.parts == output_parts_spec(output.deep_view(), suites is Some, ctx is Some)
            &&& s.suites == suites
            &&& is_summary(s.summary, suites.deep_view(), ctx.deep_view())
            &&& s.rows.deep_view() == context_rows_spec(ctx.deep_view(), namespace@, job_name@)
        },
{
    let parts = output_parts(output, suites.is_some(), ctx.is_some());
    match output_summary(&suites, ctx) {
        Some(summary) => {
            let rows: Vec<SnapshotRow> = match ctx {
                Some(c) => snapshot_rows(c, namespace, job_name),
                None => Vec::new(),
            };
            assert(ctx is None ==> rows.deep_view() =~= Seq::empty());
            Some(OutputSections { parts, suites, summary, rows })
        },
        None => None,
    }
}

/// The sections of the page that show the output of a job and its snapshots; nothing where
/// its tests cannot be counted in 32 bits.
pub fn output_sections(
    output: &JobOutput,
    ctx: &Option<SnapshotContext>,
    namespace: &str,
    job_name: &str,
) -> (r: Option<OutputSections>)
    ensures
        ({
            let suites = crate::metrics::suites_of_xml(output.deep_view().test_results_xml);
            &&& r is Some <==> summary_fits(suites, ctx.deep_view())
            &&& r matches Some(s) ==> {
                &&& s.parts == output_parts_spec(output.deep_view(), suites is Some, ctx is Some)
                &&& s.suites.deep_view() == suites
                &&& is_summary(s.summary, suites, ctx.deep_view())
                &&& s.rows.deep_view() == context_rows_spec(ctx.deep_view(), namespace@, job_name@)
            }
        }),
{
    let suites = match &output.test_results_xml {
        Some(xml) => parse_junit_xml(xml.as_str()),
        None => None,
    };
    sections_for(output, suites, ctx, namespace, job_name)
}

/// A duration is told in seconds below a minute, in minutes and seconds below an hour, and in
/// hours and minutes from then on.
pub proof fn law_duration_words(h: int, m: int, s: int)
    requires
        0 <= h,
        0 <= m < 60,
        0 <= s < 60,
    ensures
        format_duration_spec(s) == decimal::decimal_spec(s) + "s"@,
        m > 0 ==> format_duration_spec(m * 60 + s) == decimal::decimal_spec(m) + "m "@
            + decimal::decimal_spec(s) + "s"@,
        h > 0 ==> format_duration_spec(h * 3600 + m * 60 + s) == decimal::decimal_spec(h) + "h "@
            + decimal::decimal_spec(m) + "m"@,
{
    let n = h * 3600 + m * 60 + s;
    assert(n / 3600 == h && (n % 3600) / 60 == m) by (nonlinear_arith)
        requires
            n == h * 3600 + m * 60 + s,
            0 <= m < 60,
            0 <= s < 60,
            0 <= h,
    ;
}

/// The duration of a job is the time from its start to its completion, or until now; one that
/// has not begun shows none.
pub proof fn law_job_duration(job: JobView, now: Timestamp)
    ensures
        job.status is None ==> job_duration_display_spec(job, now).len() == 0,
        job.status matches Some(status) ==> {
            &&& status.start_time is None ==> job_duration_display_spec(job, now).len() == 0
            &&& status.start_time matches Some(start) ==> job_duration_display_spec(job, now)
                == format_duration_spec(
                (match status.completion_time {
                    Some(end) => end.seconds_since_spec(start),
                    None => now.seconds_since_spec(start),
                }) as i64 as int,
            )
        },
{
}

/// A live job shows the badge and the word for how it ended; until then it is running exactly
/// where it has active and ready pods.
pub proof fn law_job_badge(job: JobView)
    ensures
        ({
            let active = job.status matches Some(s) && (s.active matches Some(n) && n > 0);
            let ready = job.status matches Some(s) && (s.ready matches Some(n) && n > 0);
            &&& job.verdict() == Some(Verdict::Succeeded) ==> job_status_spec(job) == (
                "success"@,
                "Succeeded"@,
            )
            &&& job.verdict() == Some(Verdict::Failed) ==> job_status_spec(job) == (
                "danger"@,
                "Failed"@,
            )
            &&& job.verdict() is None && active && ready ==> job_status_spec(job) == (
                "info"@,
                "Running"@,
            )
            &&& job.verdict() is None && !(active && ready) ==> job_status_spec(job) == (
                "muted"@,
                "Pending"@,
            )
        }),
        job_status_spec(job).1 == crate::web::api::job_status_spec(job),
{
}

/// Each file that does not match the baseline counts as differing once.
pub proof fn law_differing_count(views: Seq<SnapshotFileModel>, v: SnapshotFileModel)
    ensures
        differing_count(Seq::empty()) == 0,
        differing_count(views.push(v)) == differing_count(views) + (if v.status
            == FileDiffStatus::Matched {
            0nat
        } else {
            1nat
        }),
        differing_count(views) <= views.len(),
        differing_count(views) == 0 <==> forall|i: int|
            0 <= i < views.len() ==> (#[trigger] views[i]).status == FileDiffStatus::Matched,
    decreases views.len(),
{
    assert(views.push(v).drop_last() =~= views);
    if views.len() > 0 {
        let front = views.drop_last();
        law_differing_count(front, v);
        assert(views[views.len() - 1] == views.last());
        if differing_count(views) == 0 {
            assert forall|i: int| 0 <= i < views.len() implies (#[trigger] views[i]).status
                == FileDiffStatus::Matched by {
                if i < front.len() {
                    assert(front[i] == views[i]);
                }
            }
        }
        if forall|i: int|
            0 <= i < views.len() ==> (#[trigger] views[i]).status == FileDiffStatus::Matched {
            assert forall|i: int| 0 <= i < front.len() implies (#[trigger] front[i]).status
                == FileDiffStatus::Matched by {
                assert(front[i] == views[i]);
            }
        }
    }
}

/// The summary counts every test and every snapshot file. As failed it counts the tests that
/// failed or were in error, and the files that differ unless they were accepted. All passed
/// exactly where none failed.
pub proof fn law_summary(
    r: OutputSummary,
    suites: Option<TestSuitesView>,
    ctx: Option<SnapshotContextView>,
)
    requires
        is_summary(r, suites, ctx),
    ensures
        ({
            let tests = match suites {
                Some(s) => s.total_tests(),
                None => 0,
            };
            let bad = match suites {
                Some(s) => s.total_failures() + s.total_errors(),
                None => 0,
            };
            let files = match ctx {
                Some(c) => c.file_views.len(),
                None => 0,
            };
            let accepted = ctx matches Some(c) && c.snapshot_status == Some(
                "accepted_as_baseline"@,
            );
            let differing = match ctx {
                Some(c) => differing_count(c.file_views),
                None => 0,
            };
            &&& r.total == tests + files
            &&& r.snapshot_files == files
            &&& accepted ==> r.failed == bad
            &&& !accepted ==> r.failed == bad + differing
            &&& r.skipped == (match suites {
                Some(s) => s.total_skipped(),
                None => 0,
            })
            &&& r.all_passed <==> r.failed == 0
            &&& r.can_accept <==> differing > 0 && !accepted && (ctx matches Some(c)
                && c.is_latest_run)
        }),
{
}

/// The page has a part for tests where there are results or snapshots, and one for the rest
/// where there is any other file. Results that cannot be read are shown as they are.
pub proof fn law_output_parts(output: JobOutputView, has_suites: bool, has_snapshots: bool)
    ensures
        ({
            let parts = output_parts_spec(output, has_suites, has_snapshots);
            &&& has_snapshots ==> parts.tests
            &&& output.test_results_xml is Some ==> parts.tests
            &&& output.test_results_xml is None && !has_snapshots ==> !parts.tests
            &&& output.result_json is Some ==> parts.other
            &&& output.report_md is Some ==> parts.other
            &&& output.archive is Some ==> parts.other
            &&& output.result_json is None && output.report_md is None && output.archive is None
                ==> !parts.other
            &&& parts.raw_results <==> output.test_results_xml is Some && !has_suites
        }),
{
}

/// The sentence that sums up tells how many tests there were, and how many of them failed where
/// some did.
pub proof fn law_summary_sentence(total: nat, failed: nat)
    ensures
        summary_text_spec(total, 0) == " All "@ + decimal::digits_spec(total) + " tests passed"@,
        failed > 0 ==> summary_text_spec(total, failed) == " "@ + decimal::digits_spec(failed)
            + " of "@ + decimal::digits_spec(total) + " tests failed"@,
{
}

/// The row of a file tells by its mark, its class and its label whether the file matches, and
/// how it differs; differences that were accepted are told apart from those that were not. A
/// file that matches or was added has no link to the baseline. One that was removed has no link
/// to the current file, unless it has lines to show.
pub proof fn law_snapshot_row(
    file: SnapshotFileModel,
    ctx: SnapshotContextView,
    namespace: Seq<char>,
    job_name: Seq<char>,
)
    ensures
        ({
            let row = snapshot_row_spec(file, ctx, namespace, job_name);
            let matched = file.status == FileDiffStatus::Matched;
            let accepted = ctx.snapshot_status == Some("accepted_as_baseline"@);
            let old = match ctx.baseline_id {
                Some(id) => "/snapshots/baseline/"@ + decimal::decimal_spec(id as int) + "/"@
                    + file.path,
                None => "/job-templates/"@ + ctx.jt_namespace + "/"@ + ctx.jt_name
                    + "/snapshots/baseline/"@ + file.path,
            };
            let new = "/jobs/"@ + namespace + "/"@ + job_name + "/snapshots/current/"@ + file.path;
            &&& matched ==> row.icon == "\u{2713}"@ && row.row_class
                == "test-case test-case-passed"@ && row.status_label == ""@
            &&& !matched && accepted ==> row.icon == "\u{0394}"@ && row.row_class
                == "test-case test-case-info"@
            &&& !matched && !accepted ==> row.icon == "\u{2717}"@ && row.row_class
                == "test-case test-case-failed"@
            &&& file.status == FileDiffStatus::Added ==> row.status_label == " (added)"@
            &&& file.status == FileDiffStatus::Removed ==> row.status_label == " (removed)"@
            &&& file.status == FileDiffStatus::Changed ==> row.status_label == " (changed)"@
            &&& matched || file.status == FileDiffStatus::Added ==> row.baseline_link is None
            &&& file.status == FileDiffStatus::Removed || file.status == FileDiffStatus::Changed
                ==> row.baseline_link == Some(old)
            &&& file.status == FileDiffStatus::Removed && file.diff_lines is None
                ==> row.current_link is None
            &&& file.status != FileDiffStatus::Removed || file.diff_lines is Some
                ==> row.current_link == Some(new)
            &&& row.has_lines <==> !matched && file.diff_lines is Some
        }),
{
}

/// There is one row for each file of the snapshots, in their order.
pub proof fn law_rows(
    ctx: Option<SnapshotContextView>,
    namespace: Seq<char>,
    job_name: Seq<char>,
    i: int,
)
    ensures
        ctx is None ==> context_rows_spec(ctx, namespace, job_name).len() == 0,
        ctx matches Some(c) ==> {
            &&& context_rows_spec(ctx, namespace, job_name).len() == c.file_views.len()
            &&& 0 <= i < c.file_views.len() ==> context_rows_spec(ctx, namespace, job_name)[i]
                == snapshot_row_spec(c.file_views[i], c, namespace, job_name)
        },
{
}

/// The page shows a file with how it differs, and with its lines where they can be shown; a file
/// that does not differ is shown as matching, without lines.
pub proof fn law_file_shown(
    baseline: Map<Seq<char>, Seq<u8>>,
    current: Map<Seq<char>, Seq<u8>>,
    path: Seq<char>,
)
    requires
        baseline.dom().contains(path) || current.dom().contains(path),
    ensures
        ({
            let shown = view_at(baseline, current, path);
            let before = baseline.dom().contains(path);
            let after = current.dom().contains(path);
            &&& shown.path == path
            &&& shown.status == FileDiffStatus::Added <==> !before && after
            &&& shown.status == FileDiffStatus::Removed <==> before && !after
            &&& shown.status == FileDiffStatus::Changed <==> before && after && baseline[path]
                != current[path]
            &&& shown.status == FileDiffStatus::Matched <==> before && after && baseline[path]
                == current[path]
            &&& shown.status == FileDiffStatus::Matched ==> shown.diff_lines is None
            &&& shown.status != FileDiffStatus::Matched ==> shown.diff_lines == json_diff_of(
                FileDiffView { path, status: shown.status },
                baseline,
                current,
            )
        }),
{
}

/// The head of the page of a live job tells what is known of it: its name, how it stands, for
/// how long it has run, its template, and when it began and completed.
pub proof fn law_live_header(job: JobView, namespace: Seq<char>, now: Timestamp)
    ensures
        ({
            let head = live_header_spec(job, namespace, now);
            &&& job.metadata.name matches Some(n) ==> head.name == n
            &&& head.badge_class == "badge badge-"@ + job_status_spec(job).0
            &&& head.status == job_status_spec(job).1
            &&& head.source == "Live"@ && head.source_class == "badge badge-info"@
            &&& head.duration == job_duration_display_spec(job, now)
            &&& job.template_owner() matches Some(owner) ==> head.template_name == Some(owner.name)
                && head.template_link == Some("/job-templates/"@ + namespace + "/"@ + owner.name)
            &&& job.template_owner() is None ==> head.template_name is None
                && head.template_link is None
            &&& job.start_time() matches Some(t) ==> head.started == time::date_time_spec(t)
                && head.started_known
            &&& job.start_time() is None ==> head.started == "Not started"@ && !head.started_known
            &&& job.status matches Some(s) ==> (s.completion_time matches Some(t) ==> head.completed
                == Some(time::date_time_spec(t))) && (s.completion_time is None
                ==> head.completed is None)
            &&& head.archived_at is None
        }),
{
}

/// The head of the page of an archived job tells what its row holds.
pub proof fn law_archived_header(job: ArchivedJobView)
    ensures
        ({
            let head = archived_header_spec(job);
            &&& head.name == job.name
            &&& head.status == job.status
            &&& job.status == "Succeeded"@ ==> head.badge_class == "badge badge-"@ + "success"@
            &&& job.status == "Failed"@ ==> head.badge_class == "badge badge-"@ + "danger"@
            &&& job.status != "Succeeded"@ && job.status != "Failed"@ ==> head.badge_class
                == "badge badge-"@ + "muted"@
            &&& head.source == "Archived"@ && head.source_class == "badge badge-muted"@
            &&& job.duration_seconds matches Some(n) ==> head.duration == format_duration_spec(
                n as int,
            )
            &&& job.duration_seconds is None ==> head.duration.len() == 0
            &&& head.template_name == Some(job.job_template_name)
            &&& head.template_link == Some(
                "/job-templates/"@ + job.job_template_namespace + "/"@ + job.job_template_name,
            )
            &&& job.start_time matches Some(t) ==> head.started == t && head.started_known
            &&& job.start_time is None ==> head.started == "Unknown"@ && !head.started_known
            &&& head.completed == job.completion_time
            &&& head.archived_at == Some(job.archived_at)
        }),
{
    reveal_strlit("Succeeded");
    reveal_strlit("Failed");
    assert("Succeeded"@.len() == 9 && "Failed"@.len() == 6);
}

} // verus!

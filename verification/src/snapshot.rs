//! Snapshots of test output: unpacking them, and comparing them with a baseline.

use flate2::read::GzDecoder;
use vstd::prelude::*;

use crate::order::{self, text_le, text_lt, Ordered};
use crate::sorted_map::{lemma_text_lt, SortedMap};
use crate::text;

verus! {

/// How a file differs from the baseline.
#[derive(Clone, Copy, Debug, PartialEq, Eq, Structural)]
pub enum FileDiffStatus {
    Added,
    Removed,
    Changed,
    Matched,
}

impl DeepView for FileDiffStatus {
    type V = FileDiffStatus;

    open spec fn deep_view(&self) -> FileDiffStatus {
        *self
    }
}

/// A file that differs from the baseline.
#[derive(Clone, Debug)]
pub struct FileDiff {
    pub path: String,
    pub status: FileDiffStatus,
}

/// What a [`FileDiff`] holds.
#[verifier::ext_equal]
pub struct FileDiffView {
    pub path: Seq<char>,
    pub status: FileDiffStatus,
}

impl DeepView for FileDiff {
    type V = FileDiffView;

    open spec fn deep_view(&self) -> FileDiffView {
        FileDiffView {
            path: self.path.deep_view(),
            status: self.status.deep_view(),
        }
    }
}

/// The files that differ from the baseline.
#[derive(Clone, Debug)]
pub struct SnapshotDiff {
    pub files: Vec<FileDiff>,
}

/// What a [`SnapshotDiff`] holds.
#[verifier::ext_equal]
pub struct SnapshotDiffView {
    pub files: Seq<FileDiffView>,
}

impl DeepView for SnapshotDiff {
    type V = SnapshotDiffView;

    open spec fn deep_view(&self) -> SnapshotDiffView {
        SnapshotDiffView {
            files: self.files.deep_view(),
        }
    }
}

impl SnapshotDiff {
    /// Whether any file differs.
    pub fn has_differences(&self) -> (r: bool)
        ensures
            r == (self.deep_view().files.len() > 0),
    {
        self.files.len() > 0
    }
}

/// The files of a snapshot, by path.
pub type Files = SortedMap<Vec<u8>>;

/// How the file at `path` differs from the baseline, where it does.
pub open spec fn diff_status_spec(
    baseline: Map<Seq<char>, Seq<u8>>,
    current: Map<Seq<char>, Seq<u8>>,
    path: Seq<char>,
) -> Option<FileDiffStatus> {
    if baseline.dom().contains(path) {
        if !current.dom().contains(path) {
            Some(FileDiffStatus::Removed)
        } else if baseline[path] != current[path] {
            Some(FileDiffStatus::Changed)
        } else {
            None
        }
    } else if current.dom().contains(path) {
        Some(FileDiffStatus::Added)
    } else {
        None
    }
}

/// The differences in the order of their paths: each file that differs, once,
/// with how it differs.
pub open spec fn is_diff(
    baseline: Map<Seq<char>, Seq<u8>>,
    current: Map<Seq<char>, Seq<u8>>,
    files: Seq<FileDiffView>,
) -> bool {
    &&& forall|i: int, j: int|
        0 <= i < j < files.len() ==> text_lt(
            (#[trigger] files[i]).path,
            (#[trigger] files[j]).path,
        )
    &&& forall|f: FileDiffView| #[trigger]
        files.contains(f) <==> diff_status_spec(baseline, current, f.path) == Some(f.status)
}

impl Ordered for FileDiff {
    open spec fn before(a: FileDiffView, b: FileDiffView) -> bool {
        text_le(a.path, b.path)
    }

    proof fn lemma_total(a: FileDiffView, b: FileDiffView) {
        order::lemma_text_total(a.path, b.path);
    }

    proof fn lemma_transitive(a: FileDiffView, b: FileDiffView, c: FileDiffView) {
        order::lemma_text_transitive(a.path, b.path, c.path);
    }

    fn is_before(&self, other: &FileDiff) -> (r: bool) {
        order::le(self.path.as_str(), other.path.as_str())
    }
}

fn same_bytes(a: &Vec<u8>, b: &Vec<u8>) -> (r: bool)
    ensures
        r == (a.deep_view() == b.deep_view()),
{
    if a.len() != b.len() {
        assert(a.deep_view().len() != b.deep_view().len());
        return false;
    }
    for i in 0..a.len()
        invariant
            a@.len() == b@.len(),
            forall|j: int| 0 <= j < i ==> a@[j] == b@[j],
    {
        if a[i] != b[i] {
            assert(a.deep_view()[i as int] != b.deep_view()[i as int]);
            return false;
        }
    }
    assert(a.deep_view() =~= b.deep_view());
    true
}

fn push_diff(files: Vec<FileDiff>, path: &String, status: FileDiffStatus) -> (r: Vec<FileDiff>)
    ensures
        r.deep_view() == files.deep_view().push(FileDiffView { path: path@, status }),
{
    let mut files = files;
    let ghost before = files.deep_view();
    let file = FileDiff { path: path.clone(), status };
    files.push(file);
    assert(files.deep_view() =~= before.push(file.deep_view()));
    files
}

/// What has been found once the first `n` paths of the baseline and the first
/// `m` paths of the current files have been looked at.
spec fn found(
    baseline: Files,
    current: Files,
    n: int,
    m: int,
    files: Seq<FileDiffView>,
) -> bool {
    &&& files.no_duplicates()
    &&& forall|f: FileDiffView| #[trigger]
        files.contains(f) <==> diff_status_spec(baseline@, current@, f.path) == Some(f.status) && (
        baseline.keys().take(n).contains(f.path) || (!baseline@.dom().contains(f.path)
            && current.keys().take(m).contains(f.path)))
}

proof fn lemma_take_contains(keys: Seq<Seq<char>>, n: int, x: Seq<char>)
    requires
        0 <= n < keys.len(),
    ensures
        keys.take(n + 1).contains(x) <==> keys.take(n).contains(x) || x == keys[n],
{
    if keys.take(n + 1).contains(x) {
        let i = keys.take(n + 1).index_of(x);
        assert(keys.take(n + 1)[i] == x);
        if i < n {
            assert(keys.take(n)[i] == x);
        }
    }
    if keys.take(n).contains(x) {
        let i = keys.take(n).index_of(x);
        assert(keys.take(n)[i] == x);
        assert(keys.take(n + 1)[i] == x);
    }
    assert(keys.take(n + 1)[n] == keys[n]);
}

proof fn lemma_push_contains(files: Seq<FileDiffView>, f: FileDiffView)
    requires
        files.no_duplicates(),
        !files.contains(f),
    ensures
        files.push(f).no_duplicates(),
        forall|g: FileDiffView| #[trigger]
            files.push(f).contains(g) <==> files.contains(g) || g == f,
{
    let after = files.push(f);
    assert forall|g: FileDiffView| #[trigger] after.contains(g) <==> files.contains(g) || g
        == f by {
        if after.contains(g) {
            let i = after.index_of(g);
            assert(after[i] == g);
            if i < files.len() {
                assert(files[i] == g);
            }
        }
        if files.contains(g) {
            let i = files.index_of(g);
            assert(files[i] == g);
            assert(after[i] == g);
        }
        assert(after[files.len() as int] == f);
    }
    assert forall|i: int, j: int| 0 <= i < after.len() && 0 <= j < after.len() && i != j implies
        after[i] != after[j] by {
        if i < files.len() && j < files.len() {
            assert(files[i] != files[j]);
        } else if i < files.len() {
            assert(files.contains(files[i]));
        } else {
            assert(files.contains(files[j]));
        }
    }
}

proof fn lemma_sorted_diff(
    baseline: Map<Seq<char>, Seq<u8>>,
    current: Map<Seq<char>, Seq<u8>>,
    files: Seq<FileDiffView>,
)
    requires
        files.no_duplicates(),
        forall|f: FileDiffView| #[trigger]
            files.contains(f) <==> diff_status_spec(baseline, current, f.path) == Some(f.status),
    ensures
        is_diff(baseline, current, order::sorted_spec::<FileDiff>(files)),
{
    let sorted = order::sorted_spec::<FileDiff>(files);
    order::law_sorted_in_order::<FileDiff>(files);
    order::law_sorted_same_values::<FileDiff>(files);
    files.lemma_multiset_has_no_duplicates();
    broadcast use vstd::seq_lib::group_to_multiset_ensures;

    assert forall|f: FileDiffView| #[trigger] sorted.contains(f) <==> diff_status_spec(
        baseline,
        current,
        f.path,
    ) == Some(f.status) by {
        assert(sorted.contains(f) <==> sorted.to_multiset().count(f) > 0);
        assert(files.contains(f) <==> files.to_multiset().count(f) > 0);
    }
    sorted.lemma_multiset_has_no_duplicates_conv();
    assert forall|i: int, j: int| 0 <= i < j < sorted.len() implies text_lt(
        (#[trigger] sorted[i]).path,
        (#[trigger] sorted[j]).path,
    ) by {
        lemma_text_lt(sorted[i].path, sorted[j].path);
        assert(sorted.contains(sorted[i]));
        assert(sorted.contains(sorted[j]));
        if sorted[i].path == sorted[j].path {
            assert(sorted[i] == sorted[j]);
        }
    }
}

/// Compares the files of a snapshot with those of a baseline.
pub fn compare(baseline: &Files, current: &Files) -> (r: SnapshotDiff)
    ensures
        is_diff(baseline@, current@, r.deep_view().files),
{
    let mut files: Vec<FileDiff> = Vec::new();
    let n: usize = baseline.len();
    let m: usize = current.len();
    assert(files.deep_view() =~= Seq::empty());
    proof {
        crate::sorted_map::lemma_ascending_distinct(baseline.keys());
        crate::sorted_map::lemma_ascending_distinct(current.keys());
        assert(baseline.keys().take(0) =~= Seq::empty());
        assert(current.keys().take(0) =~= Seq::empty());
        assert(found(*baseline, *current, 0, 0, files.deep_view()));
    }
    for i in 0..n
        invariant
            n == baseline.keys().len(),
            baseline.keys().no_duplicates(),
            found(*baseline, *current, i as int, 0, files.deep_view()),
    {
        let path = baseline.key(i);
        let ghost before = files.deep_view();
        proof {
            assert forall|x: Seq<char>| baseline.keys().take(i + 1).contains(x) <==> (
            #[trigger] baseline.keys().take(i as int).contains(x)) || x == path@ by {
                lemma_take_contains(baseline.keys(), i as int, x);
            }
            if baseline.keys().take(i as int).contains(path@) {
                let k = baseline.keys().take(i as int).index_of(path@);
                assert(baseline.keys().take(i as int)[k] == path@);
                assert(baseline.keys()[k] == baseline.keys()[i as int]);
            }
            assert(current.keys().take(0) =~= Seq::empty());
        }
        match current.get(path.as_str()) {
            None => {
                proof {
                    lemma_push_contains(
                        before,
                        FileDiffView { path: path@, status: FileDiffStatus::Removed },
                    );
                }
                files = push_diff(files, path, FileDiffStatus::Removed);
            },
            Some(content) => {
                if !same_bytes(baseline.value(i), content) {
                    proof {
                        lemma_push_contains(
                            before,
                            FileDiffView { path: path@, status: FileDiffStatus::Changed },
                        );
                    }
                    files = push_diff(files, path, FileDiffStatus::Changed);
                }
            },
        }
        assert(found(*baseline, *current, i + 1, 0, files.deep_view()));
    }
    for i in 0..m
        invariant
            n == baseline.keys().len(),
            m == current.keys().len(),
            current.keys().no_duplicates(),
            found(*baseline, *current, n as int, i as int, files.deep_view()),
    {
        let path = current.key(i);
        let ghost before = files.deep_view();
        proof {
            assert forall|x: Seq<char>| current.keys().take(i + 1).contains(x) <==> (
            #[trigger] current.keys().take(i as int).contains(x)) || x == path@ by {
                lemma_take_contains(current.keys(), i as int, x);
            }
            if current.keys().take(i as int).contains(path@) {
                let k = current.keys().take(i as int).index_of(path@);
                assert(current.keys().take(i as int)[k] == path@);
                assert(current.keys()[k] == current.keys()[i as int]);
            }
            if baseline.keys().take(n as int).contains(path@) {
                assert(baseline.keys().take(n as int) =~= baseline.keys());
            }
        }
        if !baseline.contains_key(path.as_str()) {
            proof {
                assert(baseline.keys().take(n as int) =~= baseline.keys());
                lemma_push_contains(
                    before,
                    FileDiffView { path: path@, status: FileDiffStatus::Added },
                );
            }
            files = push_diff(files, path, FileDiffStatus::Added);
        }
        assert(found(*baseline, *current, n as int, i + 1, files.deep_view()));
    }
    proof {
        assert(baseline.keys().take(n as int) =~= baseline.keys());
        assert(current.keys().take(m as int) =~= current.keys());
        lemma_sorted_diff(baseline@, current@, files.deep_view());
    }
    SnapshotDiff { files: order::sort(files) }
}

/// Files compared with themselves show no difference.
pub proof fn law_same_files_match(files: Map<Seq<char>, Seq<u8>>, diff: Seq<FileDiffView>)
    requires
        is_diff(files, files, diff),
    ensures
        diff.len() == 0,
{
    if diff.len() > 0 {
        assert(diff.contains(diff[0]));
    }
}

/// There is a difference exactly where the files are not those of the baseline.
pub proof fn law_differs_unless_equal(
    baseline: Map<Seq<char>, Seq<u8>>,
    current: Map<Seq<char>, Seq<u8>>,
    diff: Seq<FileDiffView>,
)
    requires
        is_diff(baseline, current, diff),
    ensures
        diff.len() == 0 <==> baseline == current,
{
    if diff.len() == 0 {
        assert forall|p: Seq<char>| #[trigger] diff_status_spec(baseline, current, p) is None by {
            if let Some(status) = diff_status_spec(baseline, current, p) {
                assert(diff.contains(FileDiffView { path: p, status }));
            }
        }
        assert forall|p: Seq<char>| #[trigger] baseline.dom().contains(p) <==> current.dom().contains(
            p,
        ) by {
            assert(diff_status_spec(baseline, current, p) is None);
        }
        assert forall|p: Seq<char>| #[trigger] baseline.dom().contains(p) implies baseline[p]
            == current[p] by {
            assert(diff_status_spec(baseline, current, p) is None);
        }
        assert(baseline =~= current);
    } else if baseline == current {
        law_same_files_match(baseline, diff);
    }
}

/// The differences of two sets of files are fixed: there is one list of them.
pub proof fn law_one_diff(
    baseline: Map<Seq<char>, Seq<u8>>,
    current: Map<Seq<char>, Seq<u8>>,
    a: Seq<FileDiffView>,
    b: Seq<FileDiffView>,
)
    requires
        is_diff(baseline, current, a),
        is_diff(baseline, current, b),
    ensures
        a == b,
    decreases a.len(),
{
    assert forall|f: FileDiffView| a.contains(f) == b.contains(f) by {
        assert(a.contains(f) <==> diff_status_spec(baseline, current, f.path) == Some(f.status));
    }
    lemma_ascending_unique(a, b);
}

/// What a file is seen from the other side: what was added there was removed here.
pub open spec fn exchanged(f: FileDiffView) -> FileDiffView {
    FileDiffView {
        path: f.path,
        status: match f.status {
            FileDiffStatus::Added => FileDiffStatus::Removed,
            FileDiffStatus::Removed => FileDiffStatus::Added,
            other => other,
        },
    }
}

/// Exchanging the two sides exchanges added and removed files, and changes nothing else.
pub proof fn law_exchanged_sides(
    baseline: Map<Seq<char>, Seq<u8>>,
    current: Map<Seq<char>, Seq<u8>>,
    there: Seq<FileDiffView>,
    back: Seq<FileDiffView>,
)
    requires
        is_diff(baseline, current, there),
        is_diff(current, baseline, back),
    ensures
        back == there.map_values(|f: FileDiffView| exchanged(f)),
{
    let turned = there.map_values(|f: FileDiffView| exchanged(f));
    assert forall|i: int, j: int| 0 <= i < j < turned.len() implies text_lt(
        (#[trigger] turned[i]).path,
        (#[trigger] turned[j]).path,
    ) by {
        assert(text_lt(there[i].path, there[j].path));
    }
    assert forall|f: FileDiffView| #[trigger] turned.contains(f) <==> diff_status_spec(
        current,
        baseline,
        f.path,
    ) == Some(f.status) by {
        let g = exchanged(f);
        assert(exchanged(g) == f);
        assert(there.contains(g) <==> diff_status_spec(baseline, current, g.path) == Some(
            g.status,
        ));
        if turned.contains(f) {
            let i = turned.index_of(f);
            assert(turned[i] == f);
            assert(exchanged(there[i]) == f);
            assert(there[i] == g);
            assert(there.contains(g));
        }
        if there.contains(g) {
            let i = there.index_of(g);
            assert(there[i] == g);
            assert(turned[i] == f);
        }
    }
    law_one_diff(current, baseline, turned, back);
}

proof fn lemma_ascending_unique(a: Seq<FileDiffView>, b: Seq<FileDiffView>)
    requires
        forall|i: int, j: int|
            0 <= i < j < a.len() ==> text_lt((#[trigger] a[i]).path, (#[trigger] a[j]).path),
        forall|i: int, j: int|
            0 <= i < j < b.len() ==> text_lt((#[trigger] b[i]).path, (#[trigger] b[j]).path),
        forall|f: FileDiffView| a.contains(f) == b.contains(f),
    ensures
        a == b,
    decreases a.len(),
{
    if a.len() == 0 {
        if b.len() > 0 {
            assert(b.contains(b[0]));
        }
        assert(a =~= b);
    } else {
        assert(a.contains(a[0]));
        assert(b.contains(a[0]));
        assert(b.contains(b[0]));
        assert(a.contains(b[0]));
        let k = b.index_of(a[0]);
        let l = a.index_of(b[0]);
        assert(b[k] == a[0]);
        assert(a[l] == b[0]);
        lemma_text_lt(a[0].path, b[0].path);
        lemma_text_lt(b[0].path, a[0].path);
        order::lemma_text_total(a[0].path, b[0].path);
        assert(a[0] == b[0]);
        let x = a.drop_first();
        let y = b.drop_first();
        assert forall|f: FileDiffView| x.contains(f) == y.contains(f) by {
            if x.contains(f) {
                let i = x.index_of(f);
                assert(x[i] == f);
                assert(a[i + 1] == f);
                assert(a.contains(f));
                let j = b.index_of(f);
                assert(b[j] == f);
                lemma_text_lt(a[0].path, a[i + 1].path);
                assert(j > 0);
                assert(y[j - 1] == f);
            }
            if y.contains(f) {
                let i = y.index_of(f);
                assert(y[i] == f);
                assert(b[i + 1] == f);
                assert(b.contains(f));
                let j = a.index_of(f);
                assert(a[j] == f);
                lemma_text_lt(b[0].path, b[i + 1].path);
                assert(j > 0);
                assert(x[j - 1] == f);
            }
        }
        lemma_ascending_unique(x, y);
        assert(a =~= seq![a[0]] + x);
        assert(b =~= seq![b[0]] + y);
    }
}

/// The status that is recorded of snapshots when they are uploaded.
pub open spec fn upload_status_spec(
    baseline: Map<Seq<char>, Seq<u8>>,
    current: Map<Seq<char>, Seq<u8>>,
) -> Seq<char> {
    if baseline == current {
        "matches_baseline"@
    } else {
        "differs_from_baseline"@
    }
}

/// Compares uploaded snapshots with the baseline, and says under which status
/// they are recorded.
pub fn upload_status(baseline: &Files, current: &Files) -> (r: (SnapshotDiff, &'static str))
    ensures
        is_diff(baseline@, current@, r.0.deep_view().files),
        r.1@ == upload_status_spec(baseline@, current@),
{
    let diff = compare(baseline, current);
    proof {
        law_differs_unless_equal(baseline@, current@, diff.deep_view().files);
    }
    if diff.has_differences() {
        (diff, "differs_from_baseline")
    } else {
        (diff, "matches_baseline")
    }
}

/// An entry of a tarball.
#[derive(Debug)]
pub struct TarEntry {
    pub is_file: bool,
    /// The path, or why there is none.
    pub path: Result<String, String>,
    /// The content, or why it cannot be read.
    pub content: Result<Vec<u8>, String>,
}

/// What a [`TarEntry`] holds.
#[verifier::ext_equal]
pub struct TarEntryView {
    pub is_file: bool,
    pub path: Result<Seq<char>, Seq<char>>,
    pub content: Result<Seq<u8>, Seq<char>>,
}

impl DeepView for TarEntry {
    type V = TarEntryView;

    open spec fn deep_view(&self) -> TarEntryView {
        TarEntryView {
            is_file: self.is_file,
            path: match self.path {
                Ok(p) => Ok(p@),
                Err(e) => Err(e@),
            },
            content: match self.content {
                Ok(c) => Ok(c.deep_view()),
                Err(e) => Err(e@),
            },
        }
    }
}

/// A place in a tarball: an entry, or why none can be read there.
#[derive(Debug)]
pub enum TarItem {
    Entry(TarEntry),
    Unreadable(String),
}

/// What a [`TarItem`] holds.
#[verifier::ext_equal]
pub enum TarItemView {
    Entry(TarEntryView),
    Unreadable(Seq<char>),
}

impl DeepView for TarItem {
    type V = TarItemView;

    open spec fn deep_view(&self) -> TarItemView {
        match self {
            TarItem::Entry(e) => TarItemView::Entry(e.deep_view()),
            TarItem::Unreadable(e) => TarItemView::Unreadable(e@),
        }
    }
}

/// The path under which an entry is kept: without a leading `./`.
pub open spec fn normal_path(path: Seq<char>) -> Seq<char> {
    text::without_prefix_spec(path, "./"@)
}

/// The files among the entries of a tarball, added to those that were there.
/// The first thing that cannot be read is an error.
pub open spec fn files_of_spec(
    items: Seq<TarItemView>,
    files: Map<Seq<char>, Seq<u8>>,
) -> Result<Map<Seq<char>, Seq<u8>>, Seq<char>>
    decreases items.len(),
{
    if items.len() == 0 {
        Ok(files)
    } else {
        match items[0] {
            TarItemView::Unreadable(e) => Err("Failed to read tarball entry: "@ + e),
            TarItemView::Entry(entry) => if !entry.is_file {
                files_of_spec(items.drop_first(), files)
            } else {
                match entry.path {
                    Err(e) => Err("Invalid path in tarball: "@ + e),
                    Ok(p) => {
                        let path = normal_path(p);
                        if path.len() == 0 {
                            files_of_spec(items.drop_first(), files)
                        } else {
                            match entry.content {
                                Err(e) => Err("Failed to read file "@ + path + ": "@ + e),
                                Ok(content) => files_of_spec(
                                    items.drop_first(),
                                    files.insert(path, content),
                                ),
                            }
                        }
                    },
                }
            },
        }
    }
}

/// The first file among the entries of a tarball that has the given path.
pub open spec fn find_file_spec(items: Seq<TarItemView>, target: Seq<char>) -> Result<
    Option<Seq<u8>>,
    Seq<char>,
>
    decreases items.len(),
{
    if items.len() == 0 {
        Ok(None)
    } else {
        match items[0] {
            TarItemView::Unreadable(e) => Err("Failed to read tarball entry: "@ + e),
            TarItemView::Entry(entry) => if !entry.is_file {
                find_file_spec(items.drop_first(), target)
            } else {
                match entry.path {
                    Err(e) => Err("Invalid path: "@ + e),
                    Ok(p) => if normal_path(p) == target {
                        match entry.content {
                            Err(e) => Err("Failed to read file: "@ + e),
                            Ok(content) => Ok(Some(content)),
                        }
                    } else {
                        find_file_spec(items.drop_first(), target)
                    },
                }
            },
        }
    }
}

/// Whether an entry of a tarball is a file that is kept under the given path.
pub open spec fn is_file_at(item: TarItemView, path: Seq<char>) -> bool {
    &&& item matches TarItemView::Entry(entry)
    &&& entry.is_file
    &&& entry.path matches Ok(p)
    &&& normal_path(p) == path
}

/// Whether no two entries of a tarball are files that are kept under the same path.
pub open spec fn distinct_paths(items: Seq<TarItemView>) -> bool {
    forall|i: int, j: int, path: Seq<char>|
        0 <= i < j < items.len() && #[trigger] is_file_at(items[i], path) ==> !#[trigger] is_file_at(
            items[j],
            path,
        )
}

proof fn lemma_absent_file(items: Seq<TarItemView>, target: Seq<char>)
    requires
        forall|i: int| 0 <= i < items.len() ==> !is_file_at(#[trigger] items[i], target),
    ensures
        find_file_spec(items, target) matches Ok(found) ==> found is None,
    decreases items.len(),
{
    if items.len() > 0 {
        assert(!is_file_at(items[0], target));
        let rest = items.drop_first();
        assert forall|i: int| 0 <= i < rest.len() implies !is_file_at(#[trigger] rest[i], target) by {
            assert(rest[i] == items[i + 1]);
        }
        lemma_absent_file(rest, target);
    }
}

proof fn lemma_single_file(
    items: Seq<TarItemView>,
    files: Map<Seq<char>, Seq<u8>>,
    target: Seq<char>,
)
    requires
        distinct_paths(items),
        target.len() > 0,
        files_of_spec(items, files) is Ok,
    ensures
        find_file_spec(items, target) is Ok,
        ({
            let all = files_of_spec(items, files)->Ok_0;
            match find_file_spec(items, target)->Ok_0 {
                Some(content) => all.dom().contains(target) && all[target] == content,
                None => all.dom().contains(target) == files.dom().contains(target) && (
                files.dom().contains(target) ==> all[target] == files[target]),
            }
        }),
    decreases items.len(),
{
    if items.len() > 0 {
        let rest = items.drop_first();
        assert forall|i: int, j: int, path: Seq<char>|
            0 <= i < j < rest.len() && #[trigger] is_file_at(rest[i], path) implies !#[trigger]
        is_file_at(rest[j], path) by {
            assert(rest[i] == items[i + 1] && rest[j] == items[j + 1]);
            assert(is_file_at(items[i + 1], path));
        }
        let entry = items[0]->Entry_0;
        if !entry.is_file {
            lemma_single_file(rest, files, target);
        } else {
            let path = normal_path(entry.path->Ok_0);
            if path.len() == 0 {
                lemma_single_file(rest, files, target);
            } else {
                lemma_single_file(rest, files.insert(path, entry.content->Ok_0), target);
                if path == target {
                    assert(is_file_at(items[0], target));
                    assert forall|i: int| 0 <= i < rest.len() implies !is_file_at(
                        #[trigger] rest[i],
                        target,
                    ) by {
                        assert(rest[i] == items[i + 1]);
                        assert(!is_file_at(items[i + 1], target));
                    }
                    lemma_absent_file(rest, target);
                }
            }
        }
    }
}

/// Taking one file from a tarball gives what taking all of them gives under its path, where
/// all of them can be read and no path comes twice.
pub proof fn law_single_file_agrees(items: Seq<TarItemView>, target: Seq<char>)
    requires
        distinct_paths(items),
        target.len() > 0,
        files_of_spec(items, Map::empty()) is Ok,
    ensures
        ({
            let all = files_of_spec(items, Map::empty())->Ok_0;
            find_file_spec(items, target) == Ok::<Option<Seq<u8>>, Seq<char>>(
                if all.dom().contains(target) {
                    Some(all[target])
                } else {
                    None
                },
            )
        }),
{
    lemma_single_file(items, Map::empty(), target);
}

pub open spec fn files_result(r: Result<Files, String>) -> Result<
    Map<Seq<char>, Seq<u8>>,
    Seq<char>,
> {
    match r {
        Ok(files) => Ok(files@),
        Err(e) => Err(e@),
    }
}

/// Gathers the files among the entries of a tarball.
pub fn files_of(items: Vec<TarItem>) -> (r: Result<Files, String>)
    ensures
        files_result(r) == files_of_spec(items.deep_view(), Map::empty()),
{
    let mut files: Files = SortedMap::new();
    let mut rest = items;
    let ghost all = rest.deep_view();
    while rest.len() > 0
        invariant
            all == items.deep_view(),
            files_of_spec(all, Map::empty()) == files_of_spec(rest.deep_view(), files@),
        decreases rest@.len(),
    {
        assert(rest.deep_view().len() == rest@.len());
        let item = crate::dup::take_first(&mut rest);
        match item {
            TarItem::Unreadable(e) => {
                return Err(text::concat("Failed to read tarball entry: ", e.as_str()));
            },
            TarItem::Entry(entry) => {
                if entry.is_file {
                    let TarEntry { is_file, path, content } = entry;
                    match path {
                        Err(e) => {
                            return Err(text::concat("Invalid path in tarball: ", e.as_str()));
                        },
                        Ok(p) => {
                            let path = text::without_prefix(p.as_str(), "./");
                            if !path.as_str().is_empty() {
                                match content {
                                    Err(e) => {
                                        let mut message = "Failed to read file ".to_owned();
                                        message.append(path.as_str());
                                        message.append(": ");
                                        message.append(e.as_str());
                                        return Err(message);
                                    },
                                    Ok(content) => {
                                        files = files.insert(path, content);
                                    },
                                }
                            }
                        },
                    }
                }
            },
        }
    }
    assert(rest.deep_view().len() == rest@.len());
    Ok(files)
}

pub open spec fn file_result(r: Result<Option<Vec<u8>>, String>) -> Result<
    Option<Seq<u8>>,
    Seq<char>,
> {
    match r {
        Ok(content) => Ok(content.deep_view()),
        Err(e) => Err(e@),
    }
}

/// Finds the file with the given path among the entries of a tarball.
pub fn find_file(items: Vec<TarItem>, target: &str) -> (r: Result<Option<Vec<u8>>, String>)
    ensures
        file_result(r) == find_file_spec(items.deep_view(), target@),
{
    let mut rest = items;
    let ghost all = rest.deep_view();
    while rest.len() > 0
        invariant
            all == items.deep_view(),
            find_file_spec(all, target@) == find_file_spec(rest.deep_view(), target@),
        decreases rest@.len(),
    {
        assert(rest.deep_view().len() == rest@.len());
        let item = crate::dup::take_first(&mut rest);
        match item {
            TarItem::Unreadable(e) => {
                return Err(text::concat("Failed to read tarball entry: ", e.as_str()));
            },
            TarItem::Entry(entry) => {
                if entry.is_file {
                    let TarEntry { is_file, path, content } = entry;
                    match path {
                        Err(e) => {
                            return Err(text::concat("Invalid path: ", e.as_str()));
                        },
                        Ok(p) => {
                            let path = text::without_prefix(p.as_str(), "./");
                            if text::eq(path.as_str(), target) {
                                match content {
                                    Err(e) => {
                                        return Err(
                                            text::concat("Failed to read file: ", e.as_str()),
                                        );
                                    },
                                    Ok(content) => {
                                        return Ok(Some(content));
                                    },
                                }
                            }
                        },
                    }
                }
            },
        }
    }
    assert(rest.deep_view().len() == rest@.len());
    Ok(None)
}

/// What is seen of a place in a tarball without reading content: whether an entry is a
/// regular file, and its path; or why no entry can be read there.
#[derive(Debug)]
pub enum TarHead {
    Entry(bool, Result<String, String>),
    Unreadable(String),
}

/// What a [`TarHead`] holds.
#[verifier::ext_equal]
pub enum TarHeadView {
    Entry(bool, Result<Seq<char>, Seq<char>>),
    Unreadable(Seq<char>),
}

impl DeepView for TarHead {
    type V = TarHeadView;

    open spec fn deep_view(&self) -> TarHeadView {
        match self {
            TarHead::Entry(is_file, path) => TarHeadView::Entry(
                *is_file,
                match path {
                    Ok(p) => Ok(p@),
                    Err(e) => Err(e@),
                },
            ),
            TarHead::Unreadable(e) => TarHeadView::Unreadable(e@),
        }
    }
}

impl TarItemView {
    /// What is seen of it without reading content.
    pub open spec fn head(self) -> TarHeadView {
        match self {
            TarItemView::Entry(entry) => TarHeadView::Entry(entry.is_file, entry.path),
            TarItemView::Unreadable(e) => TarHeadView::Unreadable(e),
        }
    }
}

/// The entries of a gzipped tarball as `flate2` and `tar` read them, or why it
/// has none. Each entry stands with what reading its content gives; the next is found by
/// passing over that content.
pub uninterp spec fn tar_items_spec(data: Seq<u8>) -> Result<Seq<TarItemView>, Seq<char>>;

/// `tar::Archive::entries` over a `flate2::read::GzDecoder`: of each entry whether it is a
/// regular file, and its path. No content is read. All of it depends on the bytes alone.
#[verifier::external_body]
fn tar_heads(data: &[u8]) -> (r: Result<Vec<TarHead>, String>)
    ensures
        match tar_items_spec(data@) {
            Ok(items) => r matches Ok(heads) && heads.deep_view() == items.map_values(
                |item: TarItemView| item.head(),
            ),
            Err(e) => r matches Err(f) && f@ == e,
        },
{
    let mut archive = tar::Archive::new(GzDecoder::new(data));
    let entries = archive.entries().map_err(|e| e.to_string())?;
    Ok(entries.map(|item| match item {
        Err(e) => TarHead::Unreadable(e.to_string()),
        Ok(e) => TarHead::Entry(
            e.header().entry_type().is_file(),
            e.path().map(|p| p.to_string_lossy().to_string()).map_err(|e| e.to_string()),
        ),
    }).collect())
}

/// The place that is reached by passing over the given number of entries each time and
/// taking the next, for the last time at `i`.
pub open spec fn place_spec(gaps: Seq<usize>, i: int) -> int
    decreases i + 1,
{
    if i < 0 {
        -1
    } else {
        place_spec(gaps, i - 1) + gaps[i] + 1
    }
}

/// `nth` of `tar::Archive::entries`, again and again, and `read_to_end` on each entry that it
/// gives; those between are passed over. An entry that was read leaves the archive where one
/// that was passed over does. Nothing is said of what follows an entry that cannot be read.
#[verifier::external_body]
fn tar_contents(data: &[u8], gaps: &Vec<usize>) -> (r: Vec<Result<Vec<u8>, String>>)
    requires
        tar_items_spec(data@) is Ok,
        forall|i: int|
            0 <= i < gaps@.len() ==> #[trigger] place_spec(gaps@, i) < tar_items_spec(
                data@,
            )->Ok_0.len(),
        forall|i: int, j: int|
            0 <= i < gaps@.len() && 0 <= j <= #[trigger] place_spec(gaps@, i)
                ==> #[trigger] tar_items_spec(data@)->Ok_0[j] is Entry,
    ensures
        r@.len() == gaps@.len(),
        forall|i: int|
            0 <= i < r@.len() && (forall|j: int| 0 <= j < i ==> (#[trigger] r@[j]) is Ok) ==> (
            tar_items_spec(data@)->Ok_0[place_spec(gaps@, i)])->Entry_0.content == content_result(
                #[trigger] r@[i],
            ),
{
    let mut archive = tar::Archive::new(GzDecoder::new(data));
    archive.entries().map(|mut entries| gaps.iter().map(|gap| match entries.nth(*gap) {
        Some(Ok(mut entry)) => {
            let mut bytes = Vec::new();
            let read = std::io::Read::read_to_end(&mut entry, &mut bytes);
            read.map(|_| bytes).map_err(|e| e.to_string())
        },
        Some(Err(e)) => Err(e.to_string()),
        None => Err(String::new()),
    }).collect()).unwrap_or_default()
}

pub open spec fn content_result(r: Result<Vec<u8>, String>) -> Result<Seq<u8>, Seq<char>> {
    match r {
        Ok(bytes) => Ok(bytes.deep_view()),
        Err(e) => Err(e@),
    }
}

/// Whether the content of an entry is needed: that of a regular file that is kept under some
/// path; only that of the file at `target`, where one is asked for.
pub open spec fn is_wanted(head: TarHeadView, target: Option<Seq<char>>) -> bool {
    head matches TarHeadView::Entry(is_file, path) && is_file && (path matches Ok(p) && (
    match target {
        Some(t) => normal_path(p) == t,
        None => normal_path(p).len() > 0,
    }))
}

/// Whether nothing that follows matters: the place or the path cannot be read, or it is the
/// one file that is asked for.
pub open spec fn is_final(head: TarHeadView, target: Option<Seq<char>>) -> bool {
    match head {
        TarHeadView::Entry(is_file, path) => is_file && (path is Err || (target is Some
            && is_wanted(head, target))),
        TarHeadView::Unreadable(_) => true,
    }
}

/// The path of the one file that is asked for.
spec fn asked(target: Option<&str>) -> Option<Seq<char>> {
    match target {
        Some(t) => Some(t@),
        None => None,
    }
}

fn wants(head: &TarHead, target: Option<&str>) -> (r: bool)
    ensures
        r == is_wanted(head.deep_view(), asked(target)),
{
    match head {
        TarHead::Entry(is_file, Ok(p)) => {
            let path = text::without_prefix(p.as_str(), "./");
            *is_file && match target {
                Some(t) => text::eq(path.as_str(), t),
                None => !path.as_str().is_empty(),
            }
        },
        _ => false,
    }
}

fn ends_with(head: &TarHead, target: Option<&str>) -> (r: bool)
    ensures
        r == is_final(head.deep_view(), asked(target)),
{
    match head {
        TarHead::Entry(is_file, path) => *is_file && (path.is_err() || (target.is_some() && wants(
            head,
            target,
        ))),
        TarHead::Unreadable(_) => true,
    }
}

/// The places among the first `n` whose content is needed.
spec fn wanted_places(heads: Seq<TarHeadView>, n: int, target: Option<Seq<char>>) -> Seq<int>
    decreases n,
{
    if n <= 0 {
        Seq::empty()
    } else {
        let front = wanted_places(heads, n - 1, target);
        if is_wanted(heads[n - 1], target) {
            front.push(n - 1)
        } else {
            front
        }
    }
}

/// Where a place whose content is needed stands among those.
proof fn lemma_wanted_place(heads: Seq<TarHeadView>, i: int, n: int, target: Option<Seq<char>>)
    requires
        0 <= i < n,
        is_wanted(heads[i], target),
    ensures
        wanted_places(heads, i, target).len() < wanted_places(heads, n, target).len(),
        wanted_places(heads, n, target)[wanted_places(heads, i, target).len() as int] == i,
    decreases n,
{
    if i < n - 1 {
        lemma_wanted_place(heads, i, n - 1, target);
    }
}

proof fn lemma_place_is_wanted(
    heads: Seq<TarHeadView>,
    n: int,
    target: Option<Seq<char>>,
    k: int,
)
    requires
        0 <= k < wanted_places(heads, n, target).len(),
    ensures
        0 <= wanted_places(heads, n, target)[k] < n,
        is_wanted(heads[wanted_places(heads, n, target)[k]], target),
    decreases n,
{
    if n > 0 && k < wanted_places(heads, n - 1, target).len() {
        lemma_place_is_wanted(heads, n - 1, target, k);
    }
}

proof fn lemma_place_prefix(gaps: Seq<usize>, gap: usize, i: int)
    requires
        i < gaps.len(),
    ensures
        place_spec(gaps.push(gap), i) == place_spec(gaps, i),
    decreases i + 1,
{
    if i >= 0 {
        lemma_place_prefix(gaps, gap, i - 1);
    }
}

/// Whether two lists of entries lead to the same: to the same files, whatever files they are
/// added to; or to the same single file, where one is asked for.
spec fn same_outcome(
    a: Seq<TarItemView>,
    b: Seq<TarItemView>,
    target: Option<Seq<char>>,
) -> bool {
    match target {
        Some(t) => find_file_spec(a, t) == find_file_spec(b, t),
        None => forall|files: Map<Seq<char>, Seq<u8>>| #[trigger]
            files_of_spec(a, files) == files_of_spec(b, files),
    }
}

proof fn lemma_same_after(
    front: Seq<TarItemView>,
    a: Seq<TarItemView>,
    b: Seq<TarItemView>,
    target: Option<Seq<char>>,
)
    requires
        same_outcome(a, b, target),
    ensures
        same_outcome(front + a, front + b, target),
    decreases front.len(),
{
    if front.len() == 0 {
        assert(front + a =~= a);
        assert(front + b =~= b);
    } else {
        let rest = front.drop_first();
        lemma_same_after(rest, a, b, target);
        assert((front + a).drop_first() =~= rest + a);
        assert((front + b).drop_first() =~= rest + b);
        assert((front + a)[0] == front[0] && (front + b)[0] == front[0]);
        if target is None {
            assert forall|files: Map<Seq<char>, Seq<u8>>| #[trigger]
                files_of_spec(front + a, files) == files_of_spec(front + b, files) by {
                lemma_files_step(front + a, front + b, files);
            }
        }
    }
}

proof fn lemma_files_step(
    a: Seq<TarItemView>,
    b: Seq<TarItemView>,
    files: Map<Seq<char>, Seq<u8>>,
)
    requires
        a.len() > 0,
        b.len() > 0,
        a[0] == b[0],
        same_outcome(a.drop_first(), b.drop_first(), None),
    ensures
        files_of_spec(a, files) == files_of_spec(b, files),
{
    if let TarItemView::Entry(entry) = a[0] {
        if entry.is_file && entry.path is Ok && entry.content is Ok {
            let more = files.insert(normal_path(entry.path->Ok_0), entry.content->Ok_0);
            assert(files_of_spec(a.drop_first(), more) == files_of_spec(b.drop_first(), more));
        }
        assert(files_of_spec(a.drop_first(), files) == files_of_spec(b.drop_first(), files));
    }
}

/// An entry of which only the head is known can stand for one whose content is not needed.
proof fn lemma_unread(
    x: TarItemView,
    y: TarItemView,
    rest: Seq<TarItemView>,
    target: Option<Seq<char>>,
)
    requires
        x.head() == y.head(),
        !is_wanted(x.head(), target),
    ensures
        same_outcome(seq![x] + rest, seq![y] + rest, target),
{
    assert((seq![x] + rest).drop_first() =~= rest);
    assert((seq![y] + rest).drop_first() =~= rest);
}

/// Nothing matters behind an entry that is final, or whose needed content cannot be read.
proof fn lemma_cut(x: TarItemView, rest: Seq<TarItemView>, target: Option<Seq<char>>)
    requires
        is_final(x.head(), target) || (is_wanted(x.head(), target) && x->Entry_0.content is Err),
    ensures
        same_outcome(seq![x] + rest, seq![x], target),
{
    assert((seq![x] + rest)[0] == x);
}

/// Whether `count` heads matter, up to the first that is final, and `gaps` lead to those among
/// them whose content is needed.
spec fn is_plan(
    heads: Seq<TarHeadView>,
    target: Option<Seq<char>>,
    count: int,
    gaps: Seq<usize>,
) -> bool {
    let places = wanted_places(heads, count, target);
    &&& 0 <= count <= heads.len()
    &&& forall|i: int| 0 <= i < count - 1 ==> !is_final(#[trigger] heads[i], target)
    &&& count < heads.len() ==> count > 0 && is_final(heads[count - 1], target)
    &&& gaps.len() == places.len()
    &&& forall|k: int| 0 <= k < gaps.len() ==> #[trigger] place_spec(gaps, k) == places[k]
}

/// How many heads matter, and how to reach those whose content is needed.
fn plan(heads: &Vec<TarHead>, target: Option<&str>) -> (r: (usize, Vec<usize>))
    ensures
        is_plan(heads.deep_view(), asked(target), r.0 as int, r.1@),
{
    let ghost wish = asked(target);
    let ghost all = heads.deep_view();
    let mut gaps: Vec<usize> = Vec::new();
    let mut gap: usize = 0;
    assert(all.len() == heads@.len());
    for i in 0..heads.len()
        invariant
            all == heads.deep_view(),
            all.len() == heads@.len(),
            wish == asked(target),
            forall|j: int| 0 <= j < i ==> !is_final(#[trigger] all[j], wish),
            gap <= i,
            gap + place_spec(gaps@, gaps@.len() - 1) + 1 == i,
            gaps@.len() == wanted_places(all, i as int, wish).len(),
            forall|k: int|
                0 <= k < gaps@.len() ==> #[trigger] place_spec(gaps@, k) == wanted_places(
                    all,
                    i as int,
                    wish,
                )[k],
    {
        let head = &heads[i];
        assert(head.deep_view() == all[i as int]);
        if wants(head, target) {
            let ghost before = gaps@;
            gaps.push(gap);
            proof {
                lemma_place_prefix(before, gap, before.len() - 1);
                assert forall|k: int| 0 <= k < gaps@.len() implies #[trigger] place_spec(gaps@, k)
                    == wanted_places(all, i + 1, wish)[k] by {
                    if k < before.len() {
                        lemma_place_prefix(before, gap, k);
                    }
                }
            }
            gap = 0;
        } else {
            gap = gap + 1;
        }
        if ends_with(head, target) {
            return (i + 1, gaps);
        }
    }
    (heads.len(), gaps)
}

/// Whether what was read is the content at the given places, up to the first that cannot be
/// read.
spec fn is_content_at(
    items: Seq<TarItemView>,
    places: Seq<int>,
    read: Seq<Result<Vec<u8>, String>>,
) -> bool {
    &&& read.len() == places.len()
    &&& forall|i: int|
        0 <= i < read.len() && (forall|j: int| 0 <= j < i ==> (#[trigger] read[j]) is Ok) ==> (
        items[places[i]])->Entry_0.content == content_result(#[trigger] read[i])
}

/// Reads the content at the places of a plan.
fn read_planned(
    data: &[u8],
    heads: &Vec<TarHead>,
    target: Option<&str>,
    count: usize,
    gaps: &Vec<usize>,
) -> (r: Vec<Result<Vec<u8>, String>>)
    requires
        tar_items_spec(data@) matches Ok(items) && heads.deep_view() == items.map_values(
            |item: TarItemView| item.head(),
        ),
        is_plan(heads.deep_view(), asked(target), count as int, gaps@),
    ensures
        is_content_at(
            tar_items_spec(data@)->Ok_0,
            wanted_places(heads.deep_view(), count as int, asked(target)),
            r@,
        ),
{
    proof {
        let all = tar_items_spec(data@)->Ok_0;
        let hs = heads.deep_view();
        let wish = asked(target);
        let places = wanted_places(hs, count as int, wish);
        assert forall|i: int| 0 <= i < gaps@.len() implies #[trigger] place_spec(gaps@, i)
            < all.len() by {
            lemma_place_is_wanted(hs, count as int, wish, i);
        }
        assert forall|i: int, j: int|
            0 <= i < gaps@.len() && 0 <= j <= #[trigger] place_spec(gaps@, i) implies
        #[trigger] all[j] is Entry by {
            lemma_place_is_wanted(hs, count as int, wish, i);
            assert(hs[j] == all[j].head());
            if j < places[i] {
                assert(!is_final(hs[j], wish));
            }
        }
    }
    tar_contents(data, gaps)
}

/// One more entry has been put down: with its content, or with its head alone where the
/// content is not needed.
proof fn lemma_put_down(
    items: Seq<TarItemView>,
    down: Seq<TarItemView>,
    i: int,
    n: int,
    y: TarItemView,
    target: Option<Seq<char>>,
)
    requires
        0 <= i < n <= items.len(),
        same_outcome(items, down + items.subrange(i, n), target),
        y == items[i] || (y.head() == items[i].head() && !is_wanted(y.head(), target)),
    ensures
        same_outcome(items, down.push(y) + items.subrange(i + 1, n), target),
{
    let x = items[i];
    let rest = items.subrange(i + 1, n);
    assert(items.subrange(i, n) =~= seq![x] + rest);
    if y != x {
        lemma_unread(x, y, rest, target);
        lemma_same_after(down, seq![x] + rest, seq![y] + rest, target);
    }
    assert(down + (seq![y] + rest) =~= down.push(y) + rest);
}

/// The last entry that matters has been put down.
proof fn lemma_put_down_last(
    items: Seq<TarItemView>,
    down: Seq<TarItemView>,
    rest: Seq<TarItemView>,
    x: TarItemView,
    target: Option<Seq<char>>,
)
    requires
        same_outcome(items, down.push(x) + rest, target),
        is_final(x.head(), target) || (is_wanted(x.head(), target) && x->Entry_0.content is Err),
    ensures
        same_outcome(items, down.push(x), target),
{
    lemma_cut(x, rest, target);
    lemma_same_after(down, seq![x] + rest, seq![x], target);
    assert(down + (seq![x] + rest) =~= down.push(x) + rest);
    assert(down + seq![x] =~= down.push(x));
}

/// The entries of a gzipped tarball as far as they matter, with the content of those whose
/// content is needed; that of the others is left empty.
fn read_items(data: &[u8], target: Option<&str>) -> (r: Result<Vec<TarItem>, String>)
    ensures
        match tar_items_spec(data@) {
            Ok(items) => r matches Ok(read) && same_outcome(
                items,
                read.deep_view(),
                asked(target),
            ),
            Err(e) => r matches Err(f) && f@ == e,
        },
{
    let heads = match tar_heads(data) {
        Ok(heads) => heads,
        Err(e) => {
            return Err(e);
        },
    };
    let (count, gaps) = plan(&heads, target);
    let mut contents = read_planned(data, &heads, target, count, &gaps);
    let ghost all = tar_items_spec(data@)->Ok_0;
    let ghost hs = heads.deep_view();
    let ghost wish = asked(target);
    let ghost places = wanted_places(hs, count as int, wish);
    let ghost read = contents@;
    let ghost mut k: int = 0;
    let mut items: Vec<TarItem> = Vec::new();
    proof {
        assert(hs.len() == heads@.len());
        assert(items.deep_view() + all.subrange(0, count as int) =~= all.take(count as int));
        if count < all.len() {
            let front = all.take(count - 1);
            let last = all[count - 1];
            assert(hs[count - 1] == last.head());
            assert(front.push(last) + all.skip(count as int) =~= all);
            assert(front.push(last) =~= all.take(count as int));
            lemma_put_down_last(all, front, all.skip(count as int), last, wish);
        } else {
            assert(all.take(count as int) =~= all);
        }
        assert(contents@ =~= read.skip(0));
    }
    for i in 0..count
        invariant
            hs == heads.deep_view(),
            hs == all.map_values(|item: TarItemView| item.head()),
            count <= all.len(),
            heads@.len() == all.len(),
            wish == asked(target),
            tar_items_spec(data@) == Ok::<Seq<TarItemView>, Seq<char>>(all),
            places == wanted_places(hs, count as int, wish),
            is_content_at(all, places, read),
            0 <= k <= read.len(),
            k == wanted_places(hs, i as int, wish).len(),
            contents@ == read.skip(k),
            forall|j: int| 0 <= j < k ==> (#[trigger] read[j]) is Ok,
            same_outcome(all, items.deep_view() + all.subrange(i as int, count as int), wish),
    {
        let head = &heads[i];
        let ghost x = all[i as int];
        let ghost before = items.deep_view();
        assert(head.deep_view() == hs[i as int]);
        assert(hs[i as int] == x.head());
        let wanted: bool = wants(head, target);
        proof {
            if wanted {
                lemma_wanted_place(hs, i as int, count as int, wish);
                assert(places[k] == i);
            }
        }
        let content: Result<Vec<u8>, String> = if wanted {
            contents.remove(0)
        } else {
            Ok(Vec::new())
        };
        let failed: bool = content.is_err();
        let item = item_of(head, content);
        let ghost y = item.deep_view();
        items.push(item);
        proof {
            assert(items.deep_view() =~= before.push(y));
            if wanted {
                assert(contents@ =~= read.skip(k + 1));
                assert(content_result(read[k]) == x->Entry_0.content);
                k = k + 1;
            }
            lemma_put_down(all, before, i as int, count as int, y, wish);
        }
        if failed {
            proof {
                lemma_put_down_last(all, before, all.subrange(i + 1, count as int), x, wish);
            }
            return Ok(items);
        }
    }
    assert(items.deep_view() + all.subrange(count as int, count as int) =~= items.deep_view());
    Ok(items)
}

/// The entry with the given head and content.
fn item_of(head: &TarHead, content: Result<Vec<u8>, String>) -> (r: TarItem)
    ensures
        r.deep_view().head() == head.deep_view(),
        r.deep_view() matches TarItemView::Entry(entry) ==> entry.content == content_result(
            content,
        ),
{
    match head {
        TarHead::Entry(is_file, path) => {
            let path: Result<String, String> = match path {
                Ok(p) => Ok(p.clone()),
                Err(e) => Err(e.clone()),
            };
            TarItem::Entry(TarEntry { is_file: *is_file, path, content })
        },
        TarHead::Unreadable(e) => TarItem::Unreadable(e.clone()),
    }
}

/// The files in a gzipped tarball, by path.
pub fn extract_tarball(data: &[u8]) -> (r: Result<Files, String>)
    ensures
        files_result(r) == (match tar_items_spec(data@) {
            Ok(items) => files_of_spec(items, Map::empty()),
            Err(e) => Err("Failed to read tarball: "@ + e),
        }),
{
    match read_items(data, None) {
        Ok(items) => files_of(items),
        Err(e) => Err(text::concat("Failed to read tarball: ", e.as_str())),
    }
}

/// A single file of a gzipped tarball.
pub fn extract_file_from_tarball(data: &[u8], target_path: &str) -> (r: Result<
    Option<Vec<u8>>,
    String,
>)
    ensures
        file_result(r) == (match tar_items_spec(data@) {
            Ok(items) => find_file_spec(items, target_path@),
            Err(e) => Err("Failed to read tarball: "@ + e),
        }),
{
    match read_items(data, Some(target_path)) {
        Ok(items) => find_file(items, target_path),
        Err(e) => Err(text::concat("Failed to read tarball: ", e.as_str())),
    }
}

/// A line of a difference.
#[derive(Debug)]
pub enum DiffLine {
    Context(String),
    Added(String),
    Removed(String),
}

/// What a [`DiffLine`] holds.
#[verifier::ext_equal]
pub enum DiffLineView {
    Context(Seq<char>),
    Added(Seq<char>),
    Removed(Seq<char>),
}

impl DeepView for DiffLine {
    type V = DiffLineView;

    open spec fn deep_view(&self) -> DiffLineView {
        match self {
            DiffLine::Context(t) => DiffLineView::Context(t@),
            DiffLine::Added(t) => DiffLineView::Added(t@),
            DiffLine::Removed(t) => DiffLineView::Removed(t@),
        }
    }
}

/// What became of a line.
#[derive(Clone, Copy, Debug, PartialEq, Eq, Structural)]
pub enum LineTag {
    Equal,
    Insert,
    Delete,
}

impl DeepView for LineTag {
    type V = LineTag;

    open spec fn deep_view(&self) -> LineTag {
        *self
    }
}

/// A change as a line of the difference, without the line feeds at its end.
pub open spec fn diff_line_spec(change: (LineTag, Seq<char>)) -> DiffLineView {
    let line = text::trim_end_matches_spec(change.1, '\n');
    match change.0 {
        LineTag::Equal => DiffLineView::Context(line),
        LineTag::Insert => DiffLineView::Added(line),
        LineTag::Delete => DiffLineView::Removed(line),
    }
}

/// The changes of all hunks as lines of the difference.
pub open spec fn diff_lines_spec(hunks: Seq<Seq<(LineTag, Seq<char>)>>) -> Seq<DiffLineView> {
    hunks.flatten().map_values(|c: (LineTag, Seq<char>)| diff_line_spec(c))
}

fn diff_line(tag: LineTag, line: &str) -> (r: DiffLine)
    ensures
        r.deep_view() == diff_line_spec((tag, line@)),
{
    let line = text::trim_end_matches(line, '\n');
    match tag {
        LineTag::Equal => DiffLine::Context(line),
        LineTag::Insert => DiffLine::Added(line),
        LineTag::Delete => DiffLine::Removed(line),
    }
}

/// Puts the changes of all hunks into lines.
pub fn diff_lines(hunks: &Vec<Vec<(LineTag, String)>>) -> (r: Vec<DiffLine>)
    ensures
        r.deep_view() == diff_lines_spec(hunks.deep_view()),
{
    let ghost f = |c: (LineTag, Seq<char>)| diff_line_spec(c);
    let ghost all = hunks.deep_view();
    let mut lines: Vec<DiffLine> = Vec::new();
    assert(all.take(0).flatten() =~= Seq::empty());
    for i in 0..hunks.len()
        invariant
            all == hunks.deep_view(),
            f == (|c: (LineTag, Seq<char>)| diff_line_spec(c)),
            lines.deep_view() == all.take(i as int).flatten().map_values(f),
    {
        let hunk = &hunks[i];
        let ghost start = lines.deep_view();
        let ghost changes = hunk.deep_view();
        assert(changes.take(0).map_values(f) =~= Seq::empty());
        assert(start + changes.take(0).map_values(f) =~= start);
        for j in 0..hunk.len()
            invariant
                changes == hunk.deep_view(),
                f == (|c: (LineTag, Seq<char>)| diff_line_spec(c)),
                lines.deep_view() == start + changes.take(j as int).map_values(f),
        {
            let ghost before = lines.deep_view();
            let line = diff_line(hunk[j].0, hunk[j].1.as_str());
            lines.push(line);
            assert(lines.deep_view() =~= before.push(line.deep_view()));
            assert(changes[j as int] == (hunk@[j as int].0, hunk@[j as int].1@));
            assert(changes.take(j + 1).map_values(f) =~= changes.take(j as int).map_values(
                f,
            ).push(line.deep_view()));
            assert(lines.deep_view() =~= start + changes.take(j + 1).map_values(f));
        }
        proof {
            assert(changes.take(changes.len() as int) =~= changes);
            assert(all[i as int] == changes);
            assert(all.take(i + 1) =~= all.take(i as int).push(changes));
            all.take(i as int).lemma_flatten_push(changes);
            assert(all.take(i + 1).flatten().map_values(f) =~= all.take(
                i as int,
            ).flatten().map_values(f) + changes.map_values(f));
        }
    }
    assert(all.take(all.len() as int) =~= all);
    lines
}

/// The hunks of changed lines between two texts, with the given number of
/// unchanged lines around each, as `similar` finds them.
pub uninterp spec fn hunks_spec(old_text: Seq<char>, new_text: Seq<char>, context: nat) -> Seq<
    Seq<(LineTag, Seq<char>)>,
>;

/// `similar::TextDiff::from_lines`, its hunks with the given context, and the
/// tag and text of each change in them. Without a deadline, which is not set,
/// they depend on the two texts and the context alone. Twice the context is reckoned with,
/// which `requires` keeps within its type.
#[verifier::external_body]
fn hunks(old_text: &str, new_text: &str, context: usize) -> (r: Vec<Vec<(LineTag, String)>>)
    requires
        context <= usize::MAX / 2,
    ensures
        r.deep_view() == hunks_spec(old_text@, new_text@, context as nat),
{
    let tag = |t: similar::ChangeTag| match t {
        similar::ChangeTag::Equal => LineTag::Equal,
        similar::ChangeTag::Insert => LineTag::Insert,
        similar::ChangeTag::Delete => LineTag::Delete,
    };
    let diff = similar::TextDiff::from_lines(old_text, new_text);
    diff.unified_diff().context_radius(context).iter_hunks().map(
        |h| h.iter_changes().map(|c| (tag(c.tag()), c.value().to_string())).collect(),
    ).collect()
}

/// The difference of two texts, line by line, with the given number of unchanged
/// lines around each change.
pub fn unified_diff(old_text: &str, new_text: &str, context: usize) -> (r: Vec<DiffLine>)
    requires
        context <= usize::MAX / 2,
    ensures
        r.deep_view() == diff_lines_spec(hunks_spec(old_text@, new_text@, context as nat)),
{
    let found = hunks(old_text, new_text, context);
    diff_lines(&found)
}

/// A JSON text laid out on lines, as `serde_json` does it, where it is one.
pub uninterp spec fn pretty_json_spec(bytes: Seq<u8>) -> Option<Seq<char>>;

/// `serde_json::from_slice` and `serde_json::to_string_pretty` on what it gives;
/// the text depends on the bytes alone.
#[verifier::external_body]
fn pretty_json(bytes: &[u8]) -> (r: Option<String>)
    ensures
        r.deep_view() == pretty_json_spec(bytes@),
{
    serde_json::from_slice::<serde_json::Value>(bytes).and_then(
        |v| serde_json::to_string_pretty(&v),
    ).ok()
}

/// The difference of two JSON texts, line by line; nothing where either is not
/// JSON.
pub fn json_diff(old_bytes: &[u8], new_bytes: &[u8]) -> (r: Option<Vec<DiffLine>>)
    ensures
        r.deep_view() == (match (pretty_json_spec(old_bytes@), pretty_json_spec(new_bytes@)) {
            (Some(a), Some(b)) => Some(diff_lines_spec(hunks_spec(a, b, 3))),
            _ => None,
        }),
{
    match (pretty_json(old_bytes), pretty_json(new_bytes)) {
        (Some(a), Some(b)) => Some(unified_diff(a.as_str(), b.as_str(), 3)),
        _ => None,
    }
}

/// The differences from the baseline are exactly these: a file that only the baseline has was
/// removed, one that only the current files have was added, and one that both have with
/// different content was changed. They come in the order of their paths, each path once.
pub proof fn law_differences(
    baseline: Map<Seq<char>, Seq<u8>>,
    current: Map<Seq<char>, Seq<u8>>,
    diff: Seq<FileDiffView>,
    path: Seq<char>,
    i: int,
    j: int,
)
    requires
        is_diff(baseline, current, diff),
    ensures
        diff.contains(FileDiffView { path, status: FileDiffStatus::Added })
            <==> !baseline.dom().contains(path) && current.dom().contains(path),
        diff.contains(FileDiffView { path, status: FileDiffStatus::Removed })
            <==> baseline.dom().contains(path) && !current.dom().contains(path),
        diff.contains(FileDiffView { path, status: FileDiffStatus::Changed })
            <==> baseline.dom().contains(path) && current.dom().contains(path) && baseline[path]
            != current[path],
        0 <= i < j < diff.len() ==> text_lt(diff[i].path, diff[j].path),
{
    let added = FileDiffView { path, status: FileDiffStatus::Added };
    let removed = FileDiffView { path, status: FileDiffStatus::Removed };
    let changed = FileDiffView { path, status: FileDiffStatus::Changed };
    assert(diff.contains(added) <==> diff_status_spec(baseline, current, added.path) == Some(
        added.status,
    ));
    assert(diff.contains(removed) <==> diff_status_spec(baseline, current, removed.path) == Some(
        removed.status,
    ));
    assert(diff.contains(changed) <==> diff_status_spec(baseline, current, changed.path) == Some(
        changed.status,
    ));
    if 0 <= i < j < diff.len() {
        assert(text_lt(diff[i].path, diff[j].path));
    }
}

/// Uploaded snapshots match the baseline exactly where they are the same files with the same
/// content, and otherwise differ from it.
pub proof fn law_upload_status(
    baseline: Map<Seq<char>, Seq<u8>>,
    current: Map<Seq<char>, Seq<u8>>,
)
    ensures
        ({
            let same = baseline.dom() == current.dom() && forall|path: Seq<char>| #[trigger]
                baseline.dom().contains(path) ==> baseline[path] == current[path];
            &&& same ==> upload_status_spec(baseline, current) == "matches_baseline"@
            &&& !same ==> upload_status_spec(baseline, current) == "differs_from_baseline"@
        }),
{
    if baseline.dom() == current.dom() && forall|path: Seq<char>| #[trigger]
        baseline.dom().contains(path) ==> baseline[path] == current[path] {
        assert(baseline =~= current);
    }
}

/// A leading `./` is no part of the path of a file in a tarball; only the first one is left out,
/// and every other path is as it is.
pub proof fn law_normal_path(path: Seq<char>)
    ensures
        normal_path("./"@ + path) == path,
        !(path.len() >= 2 && path[0] == '.' && path[1] == '/') ==> normal_path(path) == path,
{
    reveal_strlit("./");
    text::law_without_prefix("./"@, path, path);
    if !(path.len() >= 2 && path[0] == '.' && path[1] == '/') {
        assert forall|t: Seq<char>| path != #[trigger] ("./"@ + t) by {
            assert(("./"@ + t)[0] == '.' && ("./"@ + t)[1] == '/');
        }
    }
}

/// The entries of a tarball are read in turn: a regular file is kept under its path with its
/// content, in place of what was kept there before. What is no file, or has no path left, is
/// passed over. The first thing that cannot be read ends the reading, and the reason says what
/// it was.
pub proof fn law_files_read_in_turn(
    items: Seq<TarItemView>,
    more: Seq<TarItemView>,
    files: Map<Seq<char>, Seq<u8>>,
    entry: TarEntryView,
    why: Seq<char>,
)
    ensures
        files_of_spec(Seq::empty(), files) == Ok::<Map<Seq<char>, Seq<u8>>, Seq<char>>(files),
        files_of_spec(items + more, files) == (match files_of_spec(items, files) {
            Ok(read) => files_of_spec(more, read),
            Err(e) => Err(e),
        }),
        files_of_spec(seq![TarItemView::Unreadable(why)], files) == Err::<
            Map<Seq<char>, Seq<u8>>,
            Seq<char>,
        >("Failed to read tarball entry: "@ + why),
        ({
            let read = files_of_spec(seq![TarItemView::Entry(entry)], files);
            &&& !entry.is_file ==> read == Ok::<Map<Seq<char>, Seq<u8>>, Seq<char>>(files)
            &&& entry.is_file ==> (entry.path matches Err(e) ==> read == Err::<
                Map<Seq<char>, Seq<u8>>,
                Seq<char>,
            >("Invalid path in tarball: "@ + e))
            &&& entry.is_file ==> (entry.path matches Ok(p) ==> {
                let path = normal_path(p);
                &&& path.len() == 0 ==> read == Ok::<Map<Seq<char>, Seq<u8>>, Seq<char>>(files)
                &&& path.len() > 0 ==> (entry.content matches Ok(content) ==> read == Ok::<
                    Map<Seq<char>, Seq<u8>>,
                    Seq<char>,
                >(files.insert(path, content)))
                &&& path.len() > 0 ==> (entry.content matches Err(e) ==> read == Err::<
                    Map<Seq<char>, Seq<u8>>,
                    Seq<char>,
                >("Failed to read file "@ + path + ": "@ + e))
            })
        }),
    decreases items.len(),
{
    reveal_with_fuel(files_of_spec, 2);
    assert(seq![TarItemView::Entry(entry)].drop_first() =~= Seq::<TarItemView>::empty());
    if items.len() == 0 {
        assert(items + more =~= more);
    } else {
        assert((items + more)[0] == items[0]);
        assert((items + more).drop_first() =~= items.drop_first() + more);
        law_files_read_in_turn(items.drop_first(), more, files, entry, why);
        if let TarItemView::Entry(first) = items[0] {
            if first.is_file && first.path is Ok && normal_path(first.path->Ok_0).len() > 0
                && first.content is Ok {
                law_files_read_in_turn(
                    items.drop_first(),
                    more,
                    files.insert(normal_path(first.path->Ok_0), first.content->Ok_0),
                    entry,
                    why,
                );
            }
        }
    }
}

/// One file of a tarball is looked for in turn: the first regular file at the path that is asked
/// for is the one, with its content. The search ends there, or at the first thing that cannot be
/// read, and passes over everything else.
pub proof fn law_file_found_in_turn(
    items: Seq<TarItemView>,
    more: Seq<TarItemView>,
    target: Seq<char>,
    entry: TarEntryView,
    why: Seq<char>,
)
    ensures
        find_file_spec(Seq::empty(), target) == Ok::<Option<Seq<u8>>, Seq<char>>(None),
        find_file_spec(items + more, target) == (match find_file_spec(items, target) {
            Ok(None) => find_file_spec(more, target),
            found => found,
        }),
        find_file_spec(seq![TarItemView::Unreadable(why)], target) == Err::<
            Option<Seq<u8>>,
            Seq<char>,
        >("Failed to read tarball entry: "@ + why),
        ({
            let found = find_file_spec(seq![TarItemView::Entry(entry)], target);
            &&& !entry.is_file ==> found == Ok::<Option<Seq<u8>>, Seq<char>>(None)
            &&& entry.is_file ==> (entry.path matches Err(e) ==> found == Err::<
                Option<Seq<u8>>,
                Seq<char>,
            >("Invalid path: "@ + e))
            &&& entry.is_file ==> (entry.path matches Ok(p) ==> {
                &&& normal_path(p) != target ==> found == Ok::<Option<Seq<u8>>, Seq<char>>(None)
                &&& normal_path(p) == target ==> (entry.content matches Ok(content) ==> found
                    == Ok::<Option<Seq<u8>>, Seq<char>>(Some(content)))
                &&& normal_path(p) == target ==> (entry.content matches Err(e) ==> found == Err::<
                    Option<Seq<u8>>,
                    Seq<char>,
                >("Failed to read file: "@ + e))
            })
        }),
    decreases items.len(),
{
    reveal_with_fuel(find_file_spec, 2);
    assert(seq![TarItemView::Entry(entry)].drop_first() =~= Seq::<TarItemView>::empty());
    if items.len() == 0 {
        assert(items + more =~= more);
    } else {
        assert((items + more)[0] == items[0]);
        assert((items + more).drop_first() =~= items.drop_first() + more);
        law_file_found_in_turn(items.drop_first(), more, target, entry, why);
    }
}

/// Each change is one line of the difference, in the order of the hunks and of the changes in
/// each: a line that both texts have is context, one that only the new text has was added, and
/// one that only the old text has was removed. A line stands without the line feeds at its end.
pub proof fn law_difference_lines(
    hunks: Seq<Seq<(LineTag, Seq<char>)>>,
    hunk: Seq<(LineTag, Seq<char>)>,
    line: Seq<char>,
    tag: LineTag,
)
    requires
        line.len() == 0 || line.last() != '\n',
    ensures
        diff_lines_spec(Seq::empty()).len() == 0,
        diff_lines_spec(hunks.push(Seq::empty())) == diff_lines_spec(hunks),
        forall|change: Seq<char>|
            change == line || change == line.push('\n') ==> #[trigger] diff_lines_spec(
                hunks.push(hunk.push((tag, change))),
            ) == diff_lines_spec(hunks.push(hunk)).push(
                match tag {
                    LineTag::Equal => DiffLineView::Context(line),
                    LineTag::Insert => DiffLineView::Added(line),
                    LineTag::Delete => DiffLineView::Removed(line),
                },
            ),
{
    let f = |c: (LineTag, Seq<char>)| diff_line_spec(c);
    lemma_flatten_push(hunks, Seq::empty());
    lemma_flatten_push(hunks, hunk);
    assert(hunks.flatten() + Seq::<(LineTag, Seq<char>)>::empty() =~= hunks.flatten());
    assert(Seq::<Seq<(LineTag, Seq<char>)>>::empty().flatten().len() == 0);
    assert forall|change: Seq<char>|
        change == line || change == line.push('\n') implies #[trigger] diff_lines_spec(
        hunks.push(hunk.push((tag, change))),
    ) == diff_lines_spec(hunks.push(hunk)).push(
        match tag {
            LineTag::Equal => DiffLineView::Context(line),
            LineTag::Insert => DiffLineView::Added(line),
            LineTag::Delete => DiffLineView::Removed(line),
        },
    ) by {
        lemma_flatten_push(hunks, hunk.push((tag, change)));
        let before = hunks.flatten() + hunk;
        assert(hunks.flatten() + hunk.push((tag, change)) =~= before.push((tag, change)));
        text::law_trim_end_matches(line, '\n');
        text::law_trim_end_matches(change, '\n');
        lemma_line_without_end(line);
        assert(before.push((tag, change)).map_values(f) =~= before.map_values(f).push(
            f((tag, change)),
        ));
    }
}

proof fn lemma_flatten_push<A>(all: Seq<Seq<A>>, last: Seq<A>)
    ensures
        all.push(last).flatten() == all.flatten() + last,
    decreases all.len(),
{
    reveal_with_fuel(Seq::<_>::flatten, 2);
    if all.len() == 0 {
        assert(all.push(last).first() == last);
        assert(all.push(last).drop_first() =~= Seq::<Seq<A>>::empty());
        assert(all.push(last).flatten() =~= last);
        assert(all.flatten() + last =~= last);
    } else {
        let rest = all.drop_first();
        lemma_flatten_push(rest, last);
        assert(all.push(last).drop_first() =~= rest.push(last));
        assert(all.push(last).first() == all.first());
        assert(all.first() + (rest.flatten() + last) =~= (all.first() + rest.flatten()) + last);
    }
}

proof fn lemma_line_without_end(line: Seq<char>)
    requires
        line.len() == 0 || line.last() != '\n',
    ensures
        text::trim_end_matches_spec(line, '\n') == line,
        text::trim_end_matches_spec(line.push('\n'), '\n') == line,
{
    reveal_with_fuel(text::trim_end_matches_spec, 3);
    assert(line.push('\n').drop_last() =~= line);
}

} // verus!

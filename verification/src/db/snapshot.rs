//! Baselines that snapshots are compared with, and which run may set one.

use vstd::prelude::*;

use crate::calendar;
use crate::dup::{take_first, Dup};
use crate::json::JsonView;
use crate::kubernetes::job_create::{
    is_job_of, is_run_of, job_name_spec, law_jobs_are_runs_of_their_template, law_names_sort_by_age,
};
use crate::kubernetes::job_template::JobTemplateView;
use crate::order::{self, text_lt};
use crate::sorted_map::{lemma_ascending_distinct, strictly_ascending, SortedMap};
use crate::text;
use crate::time::{self, Timestamp};

verus! {

/// A set of baseline files of a template. Older sets are kept.
#[derive(Debug)]
pub struct BaselineSet {
    pub id: i64,
    pub job_template_name: String,
    pub job_template_namespace: String,
    pub is_latest: bool,
}

/// What a [`BaselineSet`] holds.
#[verifier::ext_equal]
pub struct BaselineSetView {
    pub id: i64,
    pub job_template_name: Seq<char>,
    pub job_template_namespace: Seq<char>,
    pub is_latest: bool,
}

impl DeepView for BaselineSet {
    type V = BaselineSetView;

    open spec fn deep_view(&self) -> BaselineSetView {
        BaselineSetView {
            id: self.id,
            job_template_name: self.job_template_name@,
            job_template_namespace: self.job_template_namespace@,
            is_latest: self.is_latest,
        }
    }
}

impl BaselineSetView {
    /// Whether the set is one of the given template.
    pub open spec fn is_of(self, name: Seq<char>, namespace: Seq<char>) -> bool {
        self.job_template_name == name && self.job_template_namespace == namespace
    }
}

/// A file of a baseline set.
#[derive(Debug)]
pub struct BaselineFile {
    pub baseline_set_id: i64,
    pub file_path: String,
    pub content: Vec<u8>,
}

/// What a [`BaselineFile`] holds.
#[verifier::ext_equal]
pub struct BaselineFileView {
    pub baseline_set_id: i64,
    pub file_path: Seq<char>,
    pub content: Seq<u8>,
}

impl DeepView for BaselineFile {
    type V = BaselineFileView;

    open spec fn deep_view(&self) -> BaselineFileView {
        BaselineFileView {
            baseline_set_id: self.baseline_set_id,
            file_path: self.file_path@,
            content: self.content.deep_view(),
        }
    }
}

/// The files of a set, each under its path.
pub open spec fn files_of(rows: Seq<BaselineFileView>, id: i64) -> Map<Seq<char>, Seq<u8>>
    decreases rows.len(),
{
    if rows.len() == 0 {
        Map::empty()
    } else {
        let before = files_of(rows.drop_last(), id);
        if rows.last().baseline_set_id == id {
            before.insert(rows.last().file_path, rows.last().content)
        } else {
            before
        }
    }
}

/// The rows that hold the files of a set, in the order of their paths.
pub open spec fn rows_spec(
    id: i64,
    paths: Seq<Seq<char>>,
    files: Map<Seq<char>, Seq<u8>>,
) -> Seq<BaselineFileView> {
    Seq::new(
        paths.len(),
        |i: int|
            BaselineFileView {
                baseline_set_id: id,
                file_path: paths[i],
                content: files[paths[i]],
            },
    )
}

/// The first set of the template that is marked as the latest.
pub open spec fn latest_spec(
    sets: Seq<BaselineSetView>,
    name: Seq<char>,
    namespace: Seq<char>,
) -> Option<i64>
    decreases sets.len(),
{
    if sets.len() == 0 {
        None
    } else if sets[0].is_of(name, namespace) && sets[0].is_latest {
        Some(sets[0].id)
    } else {
        latest_spec(sets.drop_first(), name, namespace)
    }
}

/// The set as it stands once its template, if it is the given one, has a newer set.
pub open spec fn superseded(
    set: BaselineSetView,
    name: Seq<char>,
    namespace: Seq<char>,
) -> BaselineSetView {
    BaselineSetView { is_latest: set.is_latest && !set.is_of(name, namespace), ..set }
}

/// The sets after a new one has been made for a template.
pub open spec fn created_spec(
    sets: Seq<BaselineSetView>,
    name: Seq<char>,
    namespace: Seq<char>,
    id: i64,
) -> Seq<BaselineSetView> {
    sets.map_values(|s: BaselineSetView| superseded(s, name, namespace)).push(
        BaselineSetView {
            id,
            job_template_name: name,
            job_template_namespace: namespace,
            is_latest: true,
        },
    )
}

impl BaselineSet {
    fn is_of(&self, name: &str, namespace: &str) -> (r: bool)
        ensures
            r == self.deep_view().is_of(name@, namespace@),
    {
        text::eq(self.job_template_name.as_str(), name) && text::eq(
            self.job_template_namespace.as_str(),
            namespace,
        )
    }
}

/// The latest baseline set of a template.
pub fn get_latest_baseline_id(sets: &Vec<BaselineSet>, name: &str, namespace: &str) -> (r: Option<
    i64,
>)
    ensures
        r == latest_spec(sets.deep_view(), name@, namespace@),
{
    let ghost all = sets.deep_view();
    assert(all.skip(0) =~= all);
    for i in 0..sets.len()
        invariant
            all == sets.deep_view(),
            latest_spec(all, name@, namespace@) == latest_spec(
                all.skip(i as int),
                name@,
                namespace@,
            ),
    {
        assert(all.skip(i as int)[0] == sets@[i as int].deep_view());
        assert(all.skip(i as int).drop_first() =~= all.skip(i + 1));
        if sets[i].is_latest && sets[i].is_of(name, namespace) {
            return Some(sets[i].id);
        }
    }
    None
}

/// The files of a baseline set, from the rows that hold files.
pub fn load_baseline_files(rows: Vec<BaselineFile>, id: i64) -> (r: SortedMap<Vec<u8>>)
    ensures
        r@ == files_of(rows.deep_view(), id),
{
    let ghost all = rows.deep_view();
    let mut rest = rows;
    let mut files: SortedMap<Vec<u8>> = SortedMap::new();
    let ghost mut k: int = 0;
    assert(all.skip(0) =~= all);
    while rest.len() > 0
        invariant
            0 <= k <= all.len(),
            rest.deep_view() == all.skip(k),
            files@ == files_of(all.take(k), id),
        decreases rest@.len(),
    {
        assert(rest.deep_view().len() == rest@.len());
        let row = take_first(&mut rest);
        proof {
            assert(all.skip(k)[0] == all[k]);
            assert(all.skip(k).drop_first() =~= all.skip(k + 1));
            assert(all.take(k + 1).drop_last() =~= all.take(k));
            assert(all.take(k + 1).last() == all[k]);
            k = k + 1;
        }
        if row.baseline_set_id == id {
            files = files.insert(row.file_path, row.content);
        }
    }
    assert(rest.deep_view().len() == 0);
    assert(all.take(k) =~= all);
    files
}

/// The rows that hold the files of a new set.
fn rows_of(id: i64, files: &SortedMap<Vec<u8>>) -> (r: Vec<BaselineFile>)
    ensures
        r.deep_view() == rows_spec(id, files.keys(), files@),
        strictly_ascending(files.keys()),
        forall|k: Seq<char>| #[trigger] files@.dom().contains(k) <==> files.keys().contains(k),
{
    let count: usize = files.len();
    let mut rows: Vec<BaselineFile> = Vec::new();
    for i in 0..count
        invariant
            count == files.keys().len(),
            rows@.len() == i,
            forall|j: int|
                0 <= j < i ==> (#[trigger] rows.deep_view()[j]) == rows_spec(
                    id,
                    files.keys(),
                    files@,
                )[j],
    {
        let ghost before = rows.deep_view();
        let row = BaselineFile {
            baseline_set_id: id,
            file_path: files.key(i).clone(),
            content: files.value(i).dup(),
        };
        rows.push(row);
        assert(rows.deep_view() =~= before.push(row.deep_view()));
    }
    assert(rows.deep_view() =~= rows_spec(id, files.keys(), files@));
    rows
}

/// Adds a new baseline set of a template, which is then its latest. Gives the sets as they
/// then are, and the rows that hold the files of the new one.
pub fn create_baseline(
    sets: Vec<BaselineSet>,
    name: &str,
    namespace: &str,
    id: i64,
    files: &SortedMap<Vec<u8>>,
) -> (r: (Vec<BaselineSet>, Vec<BaselineFile>))
    ensures
        r.0.deep_view() == created_spec(sets.deep_view(), name@, namespace@, id),
        r.1.deep_view() == rows_spec(id, files.keys(), files@),
        files_of(r.1.deep_view(), id) == files@,
{
    let rows = rows_of(id, files);
    proof {
        lemma_rows_hold_files(id, files.keys(), files@);
    }
    (with_new_set(sets, name, namespace, id), rows)
}

fn with_new_set(sets: Vec<BaselineSet>, name: &str, namespace: &str, id: i64) -> (r: Vec<
    BaselineSet,
>)
    ensures
        r.deep_view() == created_spec(sets.deep_view(), name@, namespace@, id),
{
    let ghost all = sets.deep_view();
    let mut r: Vec<BaselineSet> = Vec::new();
    for i in 0..sets.len()
        invariant
            all == sets.deep_view(),
            r@.len() == i,
            forall|j: int|
                0 <= j < i ==> (#[trigger] r.deep_view()[j]) == superseded(
                    all[j],
                    name@,
                    namespace@,
                ),
    {
        let ghost before = r.deep_view();
        let is_latest: bool = sets[i].is_latest && !sets[i].is_of(name, namespace);
        let set = BaselineSet {
            id: sets[i].id,
            job_template_name: sets[i].job_template_name.clone(),
            job_template_namespace: sets[i].job_template_namespace.clone(),
            is_latest,
        };
        r.push(set);
        assert(r.deep_view() =~= before.push(set.deep_view()));
        assert(all[i as int] == sets@[i as int].deep_view());
    }
    let ghost before = r.deep_view();
    let newest = BaselineSet {
        id,
        job_template_name: name.to_owned(),
        job_template_namespace: namespace.to_owned(),
        is_latest: true,
    };
    r.push(newest);
    assert(r.deep_view() =~= before.push(newest.deep_view()));
    assert(before =~= all.map_values(|s: BaselineSetView| superseded(s, name@, namespace@)));
    r
}

/// A new baseline set is the latest of its template from then on, and the
/// latest set of every other template stays what it was.
pub proof fn law_new_baseline_is_latest(
    sets: Seq<BaselineSetView>,
    name: Seq<char>,
    namespace: Seq<char>,
    id: i64,
    other_name: Seq<char>,
    other_namespace: Seq<char>,
)
    ensures
        latest_spec(created_spec(sets, name, namespace, id), name, namespace) == Some(id),
        (other_name != name || other_namespace != namespace) ==> latest_spec(
            created_spec(sets, name, namespace, id),
            other_name,
            other_namespace,
        ) == latest_spec(sets, other_name, other_namespace),
    decreases sets.len(),
{
    reveal_with_fuel(latest_spec, 2);
    let after = created_spec(sets, name, namespace, id);
    if sets.len() == 0 {
        assert(after.drop_first() =~= Seq::empty());
    } else {
        law_new_baseline_is_latest(
            sets.drop_first(),
            name,
            namespace,
            id,
            other_name,
            other_namespace,
        );
        assert(after.drop_first() =~= created_spec(sets.drop_first(), name, namespace, id));
        assert(after[0] == superseded(sets[0], name, namespace));
    }
}

/// Making a new baseline set drops none of the earlier sets: each is still
/// there, under its number and for its template.
pub proof fn law_earlier_baselines_kept(
    sets: Seq<BaselineSetView>,
    name: Seq<char>,
    namespace: Seq<char>,
    id: i64,
    i: int,
)
    requires
        0 <= i < sets.len(),
    ensures
        ({
            let after = created_spec(sets, name, namespace, id);
            &&& after.len() == sets.len() + 1
            &&& after[i].id == sets[i].id
            &&& after[i].job_template_name == sets[i].job_template_name
            &&& after[i].job_template_namespace == sets[i].job_template_namespace
        }),
{
}

proof fn lemma_rows_hold_files(
    id: i64,
    paths: Seq<Seq<char>>,
    files: Map<Seq<char>, Seq<u8>>,
)
    requires
        strictly_ascending(paths),
        forall|k: Seq<char>| #[trigger] files.dom().contains(k) <==> paths.contains(k),
    ensures
        files_of(rows_spec(id, paths, files), id) == files,
    decreases paths.len(),
{
    let rows = rows_spec(id, paths, files);
    if paths.len() == 0 {
        assert forall|k: Seq<char>| !#[trigger] files.dom().contains(k) by {
            assert(!paths.contains(k));
        }
        assert(files =~= Map::empty());
    } else {
        let front = paths.drop_last();
        let fewer = files.remove(paths.last());
        lemma_ascending_distinct(paths);
        assert forall|k: Seq<char>| #[trigger] fewer.dom().contains(k) <==> front.contains(k) by {
            if front.contains(k) {
                let i = front.index_of(k);
                assert(paths[i] == k);
            }
            if paths.contains(k) && k != paths.last() {
                let i = paths.index_of(k);
                assert(front[i] == k);
            }
        }
        lemma_rows_hold_files(id, front, fewer);
        assert(rows.drop_last() =~= rows_spec(id, front, fewer)) by {
            assert forall|i: int| 0 <= i < front.len() implies #[trigger] rows.drop_last()[i]
                == rows_spec(id, front, fewer)[i] by {
                assert(paths[i] == front[i]);
                assert(paths[i] != paths[paths.len() - 1]);
            }
        }
        assert(paths.contains(paths.last())) by {
            assert(paths[paths.len() - 1] == paths.last());
        }
        assert(files_of(rows, id) =~= files);
    }
}

proof fn lemma_rows_of_others(
    before: Seq<BaselineFileView>,
    rows: Seq<BaselineFileView>,
    id: i64,
    other: i64,
)
    requires
        forall|i: int| 0 <= i < rows.len() ==> (#[trigger] rows[i]).baseline_set_id == id,
        forall|i: int| 0 <= i < before.len() ==> (#[trigger] before[i]).baseline_set_id != id,
    ensures
        files_of(before + rows, id) == files_of(rows, id),
        other != id ==> files_of(before + rows, other) == files_of(before, other),
    decreases before.len() + rows.len(),
{
    if rows.len() == 0 {
        assert(before + rows =~= before);
        if before.len() > 0 {
            lemma_rows_of_others(before.drop_last(), rows, id, other);
            assert(before.drop_last() + rows =~= before.drop_last());
            assert(before[before.len() - 1] == before.last());
        }
    } else {
        lemma_rows_of_others(before, rows.drop_last(), id, other);
        assert((before + rows).drop_last() =~= before + rows.drop_last());
        assert(rows[rows.len() - 1] == rows.last());
    }
}

/// A new baseline set holds the files that it was made of, and every other set keeps the
/// files that it had. `rows` are the rows of files before, none of which is of the new set.
pub proof fn law_baselines_hold_their_files(
    rows: Seq<BaselineFileView>,
    id: i64,
    paths: Seq<Seq<char>>,
    files: Map<Seq<char>, Seq<u8>>,
    other: i64,
)
    requires
        forall|i: int| 0 <= i < rows.len() ==> (#[trigger] rows[i]).baseline_set_id != id,
        strictly_ascending(paths),
        forall|k: Seq<char>| #[trigger] files.dom().contains(k) <==> paths.contains(k),
    ensures
        files_of(rows + rows_spec(id, paths, files), id) == files,
        other != id ==> files_of(rows + rows_spec(id, paths, files), other) == files_of(
            rows,
            other,
        ),
{
    lemma_rows_hold_files(id, paths, files);
    lemma_rows_of_others(rows, rows_spec(id, paths, files), id, other);
}

/// No template has two sets that are marked as the latest.
pub open spec fn one_latest(sets: Seq<BaselineSetView>) -> bool {
    forall|i: int, j: int|
        0 <= i < j < sets.len() && (#[trigger] sets[i]).is_latest && (
        #[trigger] sets[j]).is_latest ==> !sets[j].is_of(
            sets[i].job_template_name,
            sets[i].job_template_namespace,
        )
}

/// No template ever has two latest sets.
pub proof fn law_one_latest(
    sets: Seq<BaselineSetView>,
    name: Seq<char>,
    namespace: Seq<char>,
    id: i64,
)
    requires
        one_latest(sets),
    ensures
        one_latest(created_spec(sets, name, namespace, id)),
{
    let after = created_spec(sets, name, namespace, id);
    assert forall|i: int, j: int|
        0 <= i < j < after.len() && (#[trigger] after[i]).is_latest && (
        #[trigger] after[j]).is_latest implies !after[j].is_of(
        after[i].job_template_name,
        after[i].job_template_namespace,
    ) by {
        assert(after[i] == superseded(sets[i], name, namespace));
        if j < sets.len() {
            assert(after[j] == superseded(sets[j], name, namespace));
        }
    }
}

/// Making a new baseline set, under a number that no set had before: it is the latest of its
/// template and the only one, and holds the files that it was made of; the set under any other
/// number holds what it held, and the latest set of every other template stays what it was.
pub proof fn law_created_baseline(
    sets: Seq<BaselineSetView>,
    rows: Seq<BaselineFileView>,
    name: Seq<char>,
    namespace: Seq<char>,
    id: i64,
    paths: Seq<Seq<char>>,
    files: Map<Seq<char>, Seq<u8>>,
)
    requires
        forall|i: int| 0 <= i < sets.len() ==> (#[trigger] sets[i]).id != id,
        forall|i: int| 0 <= i < rows.len() ==> (#[trigger] rows[i]).baseline_set_id != id,
        strictly_ascending(paths),
        forall|k: Seq<char>| #[trigger] files.dom().contains(k) <==> paths.contains(k),
    ensures
        ({
            let after = created_spec(sets, name, namespace, id);
            let held = rows + rows_spec(id, paths, files);
            &&& latest_spec(after, name, namespace) == Some(id)
            &&& forall|i: int|
                0 <= i < after.len() && (#[trigger] after[i]).is_of(name, namespace)
                    && after[i].is_latest ==> after[i].id == id
            &&& files_of(held, id) == files
            &&& forall|i: int|
                0 <= i < sets.len() ==> (#[trigger] after[i]).id == sets[i].id && after[i].id
                    != id
            &&& forall|other: i64|
                other != id ==> #[trigger] files_of(held, other) == files_of(rows, other)
            &&& forall|n: Seq<char>, ns: Seq<char>|
                n != name || ns != namespace ==> #[trigger] latest_spec(after, n, ns)
                    == latest_spec(sets, n, ns)
        }),
{
    let after = created_spec(sets, name, namespace, id);
    let held = rows + rows_spec(id, paths, files);
    law_new_baseline_is_latest(sets, name, namespace, id, name, namespace);
    law_baselines_hold_their_files(rows, id, paths, files, id);
    assert forall|i: int| 0 <= i < sets.len() implies (#[trigger] after[i]) == superseded(
        sets[i],
        name,
        namespace,
    ) by {}
    assert forall|other: i64| other != id implies #[trigger] files_of(held, other) == files_of(
        rows,
        other,
    ) by {
        law_baselines_hold_their_files(rows, id, paths, files, other);
    }
    assert forall|n: Seq<char>, ns: Seq<char>| n != name || ns != namespace implies
        #[trigger] latest_spec(after, n, ns) == latest_spec(sets, n, ns) by {
        law_new_baseline_is_latest(sets, name, namespace, id, n, ns);
    }
}

/// Whether one of the names comes after `name`.
pub open spec fn any_after(names: Seq<Seq<char>>, name: Seq<char>) -> bool {
    exists|i: int| 0 <= i < names.len() && text_lt(name, #[trigger] names[i])
}

/// Whether one of the names that are those of jobs of the template comes after `name`.
pub open spec fn any_run_after(
    names: Seq<Seq<char>>,
    template: Seq<char>,
    name: Seq<char>,
) -> bool {
    exists|i: int|
        0 <= i < names.len() && is_run_of(#[trigger] names[i], template) && text_lt(
            name,
            names[i],
        )
}

/// Whether a job is the latest of its template that has snapshots. `archived`
/// are the names of the archived jobs of the template that have some, `live`
/// the names of the jobs of the namespace that have uploaded some. A job can be told by its
/// name to be one of the template, and the names sort by the time at which the job was made.
pub fn is_latest_snapshot_job(
    job_template_name: &str,
    job_name: &str,
    archived: &Vec<String>,
    live: &Vec<String>,
) -> (r: bool)
    ensures
        r == (!any_after(archived.deep_view(), job_name@) && !any_run_after(
            live.deep_view(),
            job_template_name@,
            job_name@,
        )),
{
    let ghost old_names = archived.deep_view();
    for i in 0..archived.len()
        invariant
            old_names == archived.deep_view(),
            forall|j: int| 0 <= j < i ==> !text_lt(job_name@, #[trigger] old_names[j]),
    {
        assert(old_names[i as int] == archived@[i as int]@);
        if !order::le(archived[i].as_str(), job_name) {
            return false;
        }
    }
    let ghost names = live.deep_view();
    for i in 0..live.len()
        invariant
            names == live.deep_view(),
            forall|j: int|
                0 <= j < i ==> !(is_run_of(#[trigger] names[j], job_template_name@) && text_lt(
                    job_name@,
                    names[j],
                )),
    {
        assert(names[i as int] == live@[i as int]@);
        if is_job_of(live[i].as_str(), job_template_name) && !order::le(
            live[i].as_str(),
            job_name,
        ) {
            return false;
        }
    }
    true
}

/// A job whose name is that of no job of the template does not matter, whatever its name: a
/// job of a template whose name goes on from this one's leaves this one's jobs alone.
pub proof fn law_other_templates_do_not_matter(
    live: Seq<Seq<char>>,
    other: Seq<char>,
    template: Seq<char>,
    name: Seq<char>,
)
    requires
        !is_run_of(other, template),
    ensures
        any_run_after(live.push(other), template, name) == any_run_after(live, template, name),
{
    let more = live.push(other);
    if any_run_after(live, template, name) {
        let i = choose|i: int|
            0 <= i < live.len() && is_run_of(#[trigger] live[i], template) && text_lt(
                name,
                live[i],
            );
        assert(more[i] == live[i]);
    }
    if any_run_after(more, template, name) {
        let i = choose|i: int|
            0 <= i < more.len() && is_run_of(#[trigger] more[i], template) && text_lt(
                name,
                more[i],
            );
        assert(more[i] == live[i]);
    }
}

/// A run is not the latest where a job that was made from its template in a later second has
/// snapshots.
pub proof fn law_older_runs_are_not_latest(
    live: Seq<Seq<char>>,
    template: JobTemplateView,
    made: Timestamp,
    later: Timestamp,
)
    requires
        time::valid_parts(made.secs(), made.nanos()),
        calendar::in_four_digits(made.secs()),
        calendar::in_four_digits(later.secs()),
        made.secs() < later.secs(),
        live.contains(job_name_spec(template, later)),
    ensures
        any_run_after(live, template.name(), job_name_spec(template, made)),
{
    let pod = JsonView::Null;
    law_names_sort_by_age(template, pod, made, pod, later);
    law_jobs_are_runs_of_their_template(template, pod, later);
    let i = live.index_of(job_name_spec(template, later));
    assert(is_run_of(live[i], template.name()) && text_lt(
        job_name_spec(template, made),
        live[i],
    ));
}

/// Of the jobs of a template that have snapshots, only the one whose name comes
/// last is the latest.
pub proof fn law_at_most_one_latest_job(archived: Seq<Seq<char>>, a: Seq<char>, b: Seq<char>)
    requires
        archived.contains(a),
        archived.contains(b),
        !any_after(archived, a),
        !any_after(archived, b),
    ensures
        a == b,
{
    let i = archived.index_of(a);
    let j = archived.index_of(b);
    assert(archived[i] == a && archived[j] == b);
    assert(!text_lt(a, archived[j]));
    assert(!text_lt(b, archived[i]));
    order::lemma_text_total(a, b);
}

/// The latest baseline of a template is the first of its own sets that is marked so; sets of
/// other templates, and of templates of that name in other namespaces, do not count.
pub proof fn law_latest_baseline(
    sets: Seq<BaselineSetView>,
    set: BaselineSetView,
    name: Seq<char>,
    namespace: Seq<char>,
)
    ensures
        latest_spec(Seq::empty(), name, namespace) is None,
        latest_spec(seq![set] + sets, name, namespace) == (if set.job_template_name == name
            && set.job_template_namespace == namespace && set.is_latest {
            Some(set.id)
        } else {
            latest_spec(sets, name, namespace)
        }),
        latest_spec(sets, name, namespace) is None <==> forall|i: int|
            0 <= i < sets.len() ==> !((#[trigger] sets[i]).job_template_name == name
                && sets[i].job_template_namespace == namespace && sets[i].is_latest),
    decreases sets.len(),
{
    assert((seq![set] + sets).drop_first() =~= sets);
    assert((seq![set] + sets)[0] == set);
    if sets.len() > 0 {
        let rest = sets.drop_first();
        law_latest_baseline(rest, set, name, namespace);
        if latest_spec(sets, name, namespace) is None {
            assert forall|i: int| 0 <= i < sets.len() implies !((
            #[trigger] sets[i]).job_template_name == name && sets[i].job_template_namespace
                == namespace && sets[i].is_latest) by {
                if i > 0 {
                    assert(sets[i] == rest[i - 1]);
                }
            }
        } else if latest_spec(rest, name, namespace) is Some {
            let i = choose|i: int|
                0 <= i < rest.len() && ((#[trigger] rest[i]).job_template_name == name
                    && rest[i].job_template_namespace == namespace && rest[i].is_latest);
            assert(sets[i + 1] == rest[i]);
        } else {
            assert(sets[0].is_latest);
        }
    }
}

/// The files of a set are its own rows, each under its path with its content; of two rows with
/// one path the later counts, and rows of other sets are passed over.
pub proof fn law_files_of_a_set(rows: Seq<BaselineFileView>, row: BaselineFileView, id: i64)
    ensures
        files_of(Seq::empty(), id) == Map::<Seq<char>, Seq<u8>>::empty(),
        row.baseline_set_id == id ==> files_of(rows.push(row), id) == files_of(rows, id).insert(
            row.file_path,
            row.content,
        ),
        row.baseline_set_id != id ==> files_of(rows.push(row), id) == files_of(rows, id),
{
    assert(rows.push(row).drop_last() =~= rows);
}

/// A new baseline leaves no other set of its template marked as the latest, and takes the mark
/// from no other template.
pub proof fn law_marks(
    sets: Seq<BaselineSetView>,
    name: Seq<char>,
    namespace: Seq<char>,
    id: i64,
    i: int,
)
    requires
        0 <= i < sets.len(),
    ensures
        ({
            let after = created_spec(sets, name, namespace, id);
            let own = sets[i].job_template_name == name && sets[i].job_template_namespace
                == namespace;
            &&& own ==> !after[i].is_latest
            &&& !own ==> after[i] == sets[i]
            &&& after.last() == (BaselineSetView {
                id,
                job_template_name: name,
                job_template_namespace: namespace,
                is_latest: true,
            })
        }),
{
}

/// Some job is newer than a given one exactly where its name comes behind that name; of live
/// jobs only those that the template has made count.
pub proof fn law_newer_jobs(names: Seq<Seq<char>>, template: Seq<char>, name: Seq<char>)
    ensures
        !any_after(names, name) <==> forall|i: int|
            0 <= i < names.len() ==> order::text_le(#[trigger] names[i], name),
        !any_run_after(names, template, name) <==> forall|i: int|
            0 <= i < names.len() && is_run_of(#[trigger] names[i], template) ==> order::text_le(
                names[i],
                name,
            ),
{
    if any_after(names, name) {
        let i = choose|i: int| 0 <= i < names.len() && text_lt(name, #[trigger] names[i]);
        assert(!order::text_le(names[i], name));
    } else {
        assert forall|i: int| 0 <= i < names.len() implies order::text_le(#[trigger] names[i], name) by {
            assert(!text_lt(name, names[i]));
        }
    }
    if any_run_after(names, template, name) {
        let i = choose|i: int|
            0 <= i < names.len() && is_run_of(#[trigger] names[i], template) && text_lt(
                name,
                names[i],
            );
        assert(!order::text_le(names[i], name));
    } else {
        assert forall|i: int|
            0 <= i < names.len() && is_run_of(#[trigger] names[i], template) implies order::text_le(
            names[i],
            name,
        ) by {
            assert(!text_lt(name, names[i]));
        }
    }
}

} // verus!

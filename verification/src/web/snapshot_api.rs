//! Accepting snapshots as a baseline, and showing their files.

use vstd::prelude::*;

use crate::db::archived_job::{ArchivedJob, ArchivedJobView};
use crate::decimal;
use crate::dup::Dup;
use crate::snapshot::{
    extract_tarball, files_of_spec, files_result, tar_items_spec, Files,
};
use crate::sorted_map::SortedMap;
use crate::text;

verus! {

/// What is sent when snapshots are accepted.
#[derive(Debug)]
pub struct AcceptSnapshotsForm {
    pub job_template_name: Option<String>,
    pub job_template_namespace: Option<String>,
}

/// What a [`AcceptSnapshotsForm`] holds.
#[verifier::ext_equal]
pub struct AcceptSnapshotsFormView {
    pub job_template_name: Option<Seq<char>>,
    pub job_template_namespace: Option<Seq<char>>,
}

impl DeepView for AcceptSnapshotsForm {
    type V = AcceptSnapshotsFormView;

    open spec fn deep_view(&self) -> AcceptSnapshotsFormView {
        AcceptSnapshotsFormView {
            job_template_name: self.job_template_name.deep_view(),
            job_template_namespace: self.job_template_namespace.deep_view(),
        }
    }
}

/// The content type that the name of a file suggests.
pub open spec fn content_type_spec(path: Seq<char>) -> Seq<char> {
    if ".json"@.is_suffix_of(path) {
        "application/json; charset=utf-8"@
    } else if ".xml"@.is_suffix_of(path) {
        "application/xml; charset=utf-8"@
    } else if ".html"@.is_suffix_of(path) || ".htm"@.is_suffix_of(path) {
        "text/html; charset=utf-8"@
    } else if ".png"@.is_suffix_of(path) {
        "image/png"@
    } else if ".jpg"@.is_suffix_of(path) || ".jpeg"@.is_suffix_of(path) {
        "image/jpeg"@
    } else if ".gif"@.is_suffix_of(path) {
        "image/gif"@
    } else if ".svg"@.is_suffix_of(path) {
        "image/svg+xml"@
    } else if ".css"@.is_suffix_of(path) {
        "text/css; charset=utf-8"@
    } else if ".js"@.is_suffix_of(path) {
        "application/javascript; charset=utf-8"@
    } else {
        "text/plain; charset=utf-8"@
    }
}

/// The content type that the name of a file suggests.
pub fn guess_content_type(path: &str) -> (r: &'static str)
    ensures
        r@ == content_type_spec(path@),
{
    if text::ends_with(path, ".json") {
        "application/json; charset=utf-8"
    } else if text::ends_with(path, ".xml") {
        "application/xml; charset=utf-8"
    } else if text::ends_with(path, ".html") || text::ends_with(path, ".htm") {
        "text/html; charset=utf-8"
    } else if text::ends_with(path, ".png") {
        "image/png"
    } else if text::ends_with(path, ".jpg") || text::ends_with(path, ".jpeg") {
        "image/jpeg"
    } else if text::ends_with(path, ".gif") {
        "image/gif"
    } else if text::ends_with(path, ".svg") {
        "image/svg+xml"
    } else if text::ends_with(path, ".css") {
        "text/css; charset=utf-8"
    } else if text::ends_with(path, ".js") {
        "application/javascript; charset=utf-8"
    } else {
        "text/plain; charset=utf-8"
    }
}

/// The tarball with the snapshots of a job: the uploaded one, or else the archived one.
pub open spec fn tarball_spec(uploaded: Option<Seq<u8>>, archived: Option<ArchivedJobView>) -> Option<
    Seq<u8>,
> {
    match uploaded {
        Some(t) => Some(t),
        None => match archived {
            Some(row) => row.output_test_snapshots,
            None => None,
        },
    }
}

/// The tarball with the snapshots of a job.
pub fn choose_tarball(uploaded: Option<Vec<u8>>, archived: &Option<ArchivedJob>) -> (r: Option<
    Vec<u8>,
>)
    ensures
        r.deep_view() == tarball_spec(uploaded.deep_view(), archived.deep_view()),
{
    match uploaded {
        Some(t) => Some(t),
        None => match archived {
            Some(row) => row.output_test_snapshots.dup(),
            None => None,
        },
    }
}

/// The template whose baseline is set, by name and namespace: the one that was
/// sent, where both were, or else the one of the archived job.
pub open spec fn accept_target_spec(
    form: AcceptSnapshotsFormView,
    archived: Option<ArchivedJobView>,
) -> Option<(Seq<char>, Seq<char>)> {
    match (form.job_template_name, form.job_template_namespace) {
        (Some(name), Some(namespace)) => Some((name, namespace)),
        _ => match archived {
            Some(row) => Some((row.job_template_name, row.job_template_namespace)),
            None => None,
        },
    }
}

/// The template whose baseline is set.
pub fn accept_target(form: &AcceptSnapshotsForm, archived: &Option<ArchivedJob>) -> (r: Option<
    (String, String),
>)
    ensures
        r.deep_view() == accept_target_spec(form.deep_view(), archived.deep_view()),
{
    match (&form.job_template_name, &form.job_template_namespace) {
        (Some(name), Some(namespace)) => Some((name.clone(), namespace.clone())),
        _ => match archived {
            Some(row) => Some(
                (row.job_template_name.clone(), row.job_template_namespace.clone()),
            ),
            None => None,
        },
    }
}

/// Why snapshots are not accepted, or the files that become the baseline.
pub enum Acceptance {
    NotFound(String),
    BadRequest(String),
    Failed(String),
    Accepted(Files),
}

/// What an [`Acceptance`] holds.
#[verifier::ext_equal]
pub enum AcceptanceView {
    NotFound(Seq<char>),
    BadRequest(Seq<char>),
    Failed(Seq<char>),
    Accepted(Map<Seq<char>, Seq<u8>>),
}

impl DeepView for Acceptance {
    type V = AcceptanceView;

    open spec fn deep_view(&self) -> AcceptanceView {
        match self {
            Acceptance::NotFound(e) => AcceptanceView::NotFound(e@),
            Acceptance::BadRequest(e) => AcceptanceView::BadRequest(e@),
            Acceptance::Failed(e) => AcceptanceView::Failed(e@),
            Acceptance::Accepted(files) => AcceptanceView::Accepted(files@),
        }
    }
}

/// Whether snapshots are accepted: there must be some, a template to set the
/// baseline of, and no later run; and they must be readable.
pub open spec fn acceptance_spec(
    has_tarball: bool,
    has_target: bool,
    is_latest: bool,
    files: Result<Map<Seq<char>, Seq<u8>>, Seq<char>>,
) -> AcceptanceView {
    if !has_tarball {
        AcceptanceView::NotFound("No test snapshots found for this job"@)
    } else if !has_target {
        AcceptanceView::BadRequest(
            "Cannot determine JobTemplate. Provide job_template_name and job_template_namespace."@,
        )
    } else if !is_latest {
        AcceptanceView::BadRequest("Only the latest run can be accepted as baseline"@)
    } else {
        match files {
            Ok(m) => AcceptanceView::Accepted(m),
            Err(e) => AcceptanceView::Failed("Failed to extract snapshots: "@ + e),
        }
    }
}

/// Decides on snapshots, given the files that the tarball holds or why it cannot
/// be read.
pub fn accept_files(
    has_tarball: bool,
    has_target: bool,
    is_latest: bool,
    files: Result<Files, String>,
) -> (r: Acceptance)
    ensures
        r.deep_view() == acceptance_spec(has_tarball, has_target, is_latest, files_result(files)),
{
    if !has_tarball {
        Acceptance::NotFound("No test snapshots found for this job".to_owned())
    } else if !has_target {
        Acceptance::BadRequest(
            "Cannot determine JobTemplate. Provide job_template_name and job_template_namespace.".to_owned(),
        )
    } else if !is_latest {
        Acceptance::BadRequest("Only the latest run can be accepted as baseline".to_owned())
    } else {
        match files {
            Ok(m) => Acceptance::Accepted(m),
            Err(e) => Acceptance::Failed(text::concat("Failed to extract snapshots: ", e.as_str())),
        }
    }
}

/// Decides whether the snapshots in a tarball become the baseline.
pub fn accept(tarball: &Option<Vec<u8>>, has_target: bool, is_latest: bool) -> (r: Acceptance)
    ensures
        r.deep_view() == acceptance_spec(
            tarball is Some,
            has_target,
            is_latest,
            match tarball {
                Some(data) => match tar_items_spec(data@) {
                    Ok(items) => files_of_spec(items, Map::empty()),
                    Err(e) => Err("Failed to read tarball: "@ + e),
                },
                None => Ok(Map::empty()),
            },
        ),
{
    match tarball {
        Some(data) => {
            if has_target && is_latest {
                accept_files(true, has_target, is_latest, extract_tarball(data.as_slice()))
            } else {
                accept_files(true, has_target, is_latest, Ok(SortedMap::new()))
            }
        },
        None => accept_files(false, has_target, is_latest, Ok(SortedMap::new())),
    }
}

/// Snapshots become the baseline only from the latest run, and only where they
/// can be read.
pub proof fn law_accepted_from_latest_run(
    has_tarball: bool,
    has_target: bool,
    is_latest: bool,
    files: Result<Map<Seq<char>, Seq<u8>>, Seq<char>>,
)
    requires
        acceptance_spec(has_tarball, has_target, is_latest, files) is Accepted,
    ensures
        has_tarball,
        has_target,
        is_latest,
        files is Ok,
{
}

/// The line that counts the files of a baseline.
pub fn files_label(n: usize) -> (r: String)
    ensures
        r@ == decimal::digits_spec(n as nat) + " files"@,
{
    let mut r = decimal::of_u64(n as u64);
    r.append(" files");
    r
}

/// The snapshots of the latest run of a known template become the baseline wherever they can
/// be read, file by file as they are. What is missing is told in turn: the snapshots, the
/// template, being the latest run, and last of all being readable.
pub proof fn law_acceptance(
    has_tarball: bool,
    has_target: bool,
    is_latest: bool,
    files: Result<Map<Seq<char>, Seq<u8>>, Seq<char>>,
)
    ensures
        ({
            let answer = acceptance_spec(has_tarball, has_target, is_latest, files);
            &&& answer is Accepted <==> has_tarball && has_target && is_latest && files is Ok
            &&& answer is NotFound <==> !has_tarball
            &&& answer is BadRequest <==> has_tarball && !(has_target && is_latest)
            &&& answer is Failed <==> has_tarball && has_target && is_latest && files is Err
            &&& answer matches AcceptanceView::Accepted(m) ==> files == Ok::<
                Map<Seq<char>, Seq<u8>>,
                Seq<char>,
            >(m)
        }),
{
}

/// The baseline that is set is that of the template that was sent, where it was sent in full,
/// and else that of the archived job; there is none only where neither is there.
pub proof fn law_accept_target(form: AcceptSnapshotsFormView, archived: Option<ArchivedJobView>)
    ensures
        ({
            let target = accept_target_spec(form, archived);
            let sent = form.job_template_name is Some && form.job_template_namespace is Some;
            &&& sent ==> target == Some(
                (form.job_template_name->0, form.job_template_namespace->0),
            )
            &&& !sent ==> (archived matches Some(row) ==> target == Some(
                (row.job_template_name, row.job_template_namespace),
            ))
            &&& target is None <==> !sent && archived is None
        }),
{
}

/// What a job has uploaded counts before what is archived of it.
pub proof fn law_tarball(uploaded: Option<Seq<u8>>, archived: Option<ArchivedJobView>)
    ensures
        uploaded is Some ==> tarball_spec(uploaded, archived) == uploaded,
        uploaded is None && archived is None ==> tarball_spec(uploaded, archived) is None,
        uploaded is None ==> (archived matches Some(row) ==> tarball_spec(uploaded, archived)
            == row.output_test_snapshots),
{
}

/// A file is served as what the ending of its name says, and as plain text where its name ends
/// in none of those that are known.
pub proof fn law_content_types(base: Seq<char>)
    ensures
        content_type_spec(base + ".json"@) == "application/json; charset=utf-8"@,
        content_type_spec(base + ".xml"@) == "application/xml; charset=utf-8"@,
        content_type_spec(base + ".html"@) == "text/html; charset=utf-8"@,
        content_type_spec(base + ".htm"@) == "text/html; charset=utf-8"@,
        content_type_spec(base + ".png"@) == "image/png"@,
        content_type_spec(base + ".jpg"@) == "image/jpeg"@,
        content_type_spec(base + ".jpeg"@) == "image/jpeg"@,
        content_type_spec(base + ".gif"@) == "image/gif"@,
        content_type_spec(base + ".svg"@) == "image/svg+xml"@,
        content_type_spec(base + ".css"@) == "text/css; charset=utf-8"@,
        content_type_spec(base + ".js"@) == "application/javascript; charset=utf-8"@,
        !".json"@.is_suffix_of(base) && !".xml"@.is_suffix_of(base) && !".html"@.is_suffix_of(base) && !".htm"@.is_suffix_of(base) && !".png"@.is_suffix_of(base) && !".jpg"@.is_suffix_of(base) && !".jpeg"@.is_suffix_of(base) && !".gif"@.is_suffix_of(base) && !".svg"@.is_suffix_of(base) && !".css"@.is_suffix_of(base) && !".js"@.is_suffix_of(base) ==> content_type_spec(base)
            == "text/plain; charset=utf-8"@,
{
    assert(content_type_spec(base + ".json"@) == "application/json; charset=utf-8"@) by {
        lemma_ending(base, ".json"@);
    }
    assert(content_type_spec(base + ".xml"@) == "application/xml; charset=utf-8"@) by {
        lemma_ending(base, ".xml"@);
        reveal_strlit(".xml");
        reveal_strlit(".json");
        assert(differ_at(".xml"@, ".json"@, 1));
        lemma_other_ending(base, ".xml"@, ".json"@);
    }
    assert(content_type_spec(base + ".html"@) == "text/html; charset=utf-8"@) by {
        lemma_ending(base, ".html"@);
        reveal_strlit(".html");
        reveal_strlit(".json");
        assert(differ_at(".html"@, ".json"@, 1));
        lemma_other_ending(base, ".html"@, ".json"@);
        reveal_strlit(".html");
        reveal_strlit(".xml");
        assert(differ_at(".html"@, ".xml"@, 3));
        lemma_other_ending(base, ".html"@, ".xml"@);
    }
    assert(content_type_spec(base + ".htm"@) == "text/html; charset=utf-8"@) by {
        lemma_ending(base, ".htm"@);
        reveal_strlit(".htm");
        reveal_strlit(".json");
        assert(differ_at(".htm"@, ".json"@, 1));
        lemma_other_ending(base, ".htm"@, ".json"@);
        reveal_strlit(".htm");
        reveal_strlit(".xml");
        assert(differ_at(".htm"@, ".xml"@, 1));
        lemma_other_ending(base, ".htm"@, ".xml"@);
        reveal_strlit(".htm");
        reveal_strlit(".html");
        assert(differ_at(".htm"@, ".html"@, 1));
        lemma_other_ending(base, ".htm"@, ".html"@);
    }
    assert(content_type_spec(base + ".png"@) == "image/png"@) by {
        lemma_ending(base, ".png"@);
        reveal_strlit(".png");
        reveal_strlit(".json");
        assert(differ_at(".png"@, ".json"@, 1));
        lemma_other_ending(base, ".png"@, ".json"@);
        reveal_strlit(".png");
        reveal_strlit(".xml");
        assert(differ_at(".png"@, ".xml"@, 1));
        lemma_other_ending(base, ".png"@, ".xml"@);
        reveal_strlit(".png");
        reveal_strlit(".html");
        assert(differ_at(".png"@, ".html"@, 1));
        lemma_other_ending(base, ".png"@, ".html"@);
        reveal_strlit(".png");
        reveal_strlit(".htm");
        assert(differ_at(".png"@, ".htm"@, 1));
        lemma_other_ending(base, ".png"@, ".htm"@);
    }
    assert(content_type_spec(base + ".jpg"@) == "image/jpeg"@) by {
        lemma_ending(base, ".jpg"@);
        reveal_strlit(".jpg");
        reveal_strlit(".json");
        assert(differ_at(".jpg"@, ".json"@, 1));
        lemma_other_ending(base, ".jpg"@, ".json"@);
        reveal_strlit(".jpg");
        reveal_strlit(".xml");
        assert(differ_at(".jpg"@, ".xml"@, 1));
        lemma_other_ending(base, ".jpg"@, ".xml"@);
        reveal_strlit(".jpg");
        reveal_strlit(".html");
        assert(differ_at(".jpg"@, ".html"@, 1));
        lemma_other_ending(base, ".jpg"@, ".html"@);
        reveal_strlit(".jpg");
        reveal_strlit(".htm");
        assert(differ_at(".jpg"@, ".htm"@, 1));
        lemma_other_ending(base, ".jpg"@, ".htm"@);
        reveal_strlit(".jpg");
        reveal_strlit(".png");
        assert(differ_at(".jpg"@, ".png"@, 2));
        lemma_other_ending(base, ".jpg"@, ".png"@);
    }
    assert(content_type_spec(base + ".jpeg"@) == "image/jpeg"@) by {
        lemma_ending(base, ".jpeg"@);
        reveal_strlit(".jpeg");
        reveal_strlit(".json");
        assert(differ_at(".jpeg"@, ".json"@, 1));
        lemma_other_ending(base, ".jpeg"@, ".json"@);
        reveal_strlit(".jpeg");
        reveal_strlit(".xml");
        assert(differ_at(".jpeg"@, ".xml"@, 1));
        lemma_other_ending(base, ".jpeg"@, ".xml"@);
        reveal_strlit(".jpeg");
        reveal_strlit(".html");
        assert(differ_at(".jpeg"@, ".html"@, 1));
        lemma_other_ending(base, ".jpeg"@, ".html"@);
        reveal_strlit(".jpeg");
        reveal_strlit(".htm");
        assert(differ_at(".jpeg"@, ".htm"@, 1));
        lemma_other_ending(base, ".jpeg"@, ".htm"@);
        reveal_strlit(".jpeg");
        reveal_strlit(".png");
        assert(differ_at(".jpeg"@, ".png"@, 2));
        lemma_other_ending(base, ".jpeg"@, ".png"@);
        reveal_strlit(".jpeg");
        reveal_strlit(".jpg");
        assert(differ_at(".jpeg"@, ".jpg"@, 2));
        lemma_other_ending(base, ".jpeg"@, ".jpg"@);
    }
    assert(content_type_spec(base + ".gif"@) == "image/gif"@) by {
        lemma_ending(base, ".gif"@);
        reveal_strlit(".gif");
        reveal_strlit(".json");
        assert(differ_at(".gif"@, ".json"@, 1));
        lemma_other_ending(base, ".gif"@, ".json"@);
        reveal_strlit(".gif");
        reveal_strlit(".xml");
        assert(differ_at(".gif"@, ".xml"@, 1));
        lemma_other_ending(base, ".gif"@, ".xml"@);
        reveal_strlit(".gif");
        reveal_strlit(".html");
        assert(differ_at(".gif"@, ".html"@, 1));
        lemma_other_ending(base, ".gif"@, ".html"@);
        reveal_strlit(".gif");
        reveal_strlit(".htm");
        assert(differ_at(".gif"@, ".htm"@, 1));
        lemma_other_ending(base, ".gif"@, ".htm"@);
        reveal_strlit(".gif");
        reveal_strlit(".png");
        assert(differ_at(".gif"@, ".png"@, 1));
        lemma_other_ending(base, ".gif"@, ".png"@);
        reveal_strlit(".gif");
        reveal_strlit(".jpg");
        assert(differ_at(".gif"@, ".jpg"@, 1));
        lemma_other_ending(base, ".gif"@, ".jpg"@);
        reveal_strlit(".gif");
        reveal_strlit(".jpeg");
        assert(differ_at(".gif"@, ".jpeg"@, 1));
        lemma_other_ending(base, ".gif"@, ".jpeg"@);
    }
    assert(content_type_spec(base + ".svg"@) == "image/svg+xml"@) by {
        lemma_ending(base, ".svg"@);
        reveal_strlit(".svg");
        reveal_strlit(".json");
        assert(differ_at(".svg"@, ".json"@, 1));
        lemma_other_ending(base, ".svg"@, ".json"@);
        reveal_strlit(".svg");
        reveal_strlit(".xml");
        assert(differ_at(".svg"@, ".xml"@, 1));
        lemma_other_ending(base, ".svg"@, ".xml"@);
        reveal_strlit(".svg");
        reveal_strlit(".html");
        assert(differ_at(".svg"@, ".html"@, 1));
        lemma_other_ending(base, ".svg"@, ".html"@);
        reveal_strlit(".svg");
        reveal_strlit(".htm");
        assert(differ_at(".svg"@, ".htm"@, 1));
        lemma_other_ending(base, ".svg"@, ".htm"@);
        reveal_strlit(".svg");
        reveal_strlit(".png");
        assert(differ_at(".svg"@, ".png"@, 2));
        lemma_other_ending(base, ".svg"@, ".png"@);
        reveal_strlit(".svg");
        reveal_strlit(".jpg");
        assert(differ_at(".svg"@, ".jpg"@, 2));
        lemma_other_ending(base, ".svg"@, ".jpg"@);
        reveal_strlit(".svg");
        reveal_strlit(".jpeg");
        assert(differ_at(".svg"@, ".jpeg"@, 2));
        lemma_other_ending(base, ".svg"@, ".jpeg"@);
        reveal_strlit(".svg");
        reveal_strlit(".gif");
        assert(differ_at(".svg"@, ".gif"@, 1));
        lemma_other_ending(base, ".svg"@, ".gif"@);
    }
    assert(content_type_spec(base + ".css"@) == "text/css; charset=utf-8"@) by {
        lemma_ending(base, ".css"@);
        reveal_strlit(".css");
        reveal_strlit(".json");
        assert(differ_at(".css"@, ".json"@, 1));
        lemma_other_ending(base, ".css"@, ".json"@);
        reveal_strlit(".css");
        reveal_strlit(".xml");
        assert(differ_at(".css"@, ".xml"@, 1));
        lemma_other_ending(base, ".css"@, ".xml"@);
        reveal_strlit(".css");
        reveal_strlit(".html");
        assert(differ_at(".css"@, ".html"@, 1));
        lemma_other_ending(base, ".css"@, ".html"@);
        reveal_strlit(".css");
        reveal_strlit(".htm");
        assert(differ_at(".css"@, ".htm"@, 1));
        lemma_other_ending(base, ".css"@, ".htm"@);
        reveal_strlit(".css");
        reveal_strlit(".png");
        assert(differ_at(".css"@, ".png"@, 1));
        lemma_other_ending(base, ".css"@, ".png"@);
        reveal_strlit(".css");
        reveal_strlit(".jpg");
        assert(differ_at(".css"@, ".jpg"@, 1));
        lemma_other_ending(base, ".css"@, ".jpg"@);
        reveal_strlit(".css");
        reveal_strlit(".jpeg");
        assert(differ_at(".css"@, ".jpeg"@, 1));
        lemma_other_ending(base, ".css"@, ".jpeg"@);
        reveal_strlit(".css");
        reveal_strlit(".gif");
        assert(differ_at(".css"@, ".gif"@, 1));
        lemma_other_ending(base, ".css"@, ".gif"@);
        reveal_strlit(".css");
        reveal_strlit(".svg");
        assert(differ_at(".css"@, ".svg"@, 1));
        lemma_other_ending(base, ".css"@, ".svg"@);
    }
    assert(content_type_spec(base + ".js"@) == "application/javascript; charset=utf-8"@) by {
        lemma_ending(base, ".js"@);
        reveal_strlit(".js");
        reveal_strlit(".json");
        assert(differ_at(".js"@, ".json"@, 1));
        lemma_other_ending(base, ".js"@, ".json"@);
        reveal_strlit(".js");
        reveal_strlit(".xml");
        assert(differ_at(".js"@, ".xml"@, 1));
        lemma_other_ending(base, ".js"@, ".xml"@);
        reveal_strlit(".js");
        reveal_strlit(".html");
        assert(differ_at(".js"@, ".html"@, 1));
        lemma_other_ending(base, ".js"@, ".html"@);
        reveal_strlit(".js");
        reveal_strlit(".htm");
        assert(differ_at(".js"@, ".htm"@, 1));
        lemma_other_ending(base, ".js"@, ".htm"@);
        reveal_strlit(".js");
        reveal_strlit(".png");
        assert(differ_at(".js"@, ".png"@, 1));
        lemma_other_ending(base, ".js"@, ".png"@);
        reveal_strlit(".js");
        reveal_strlit(".jpg");
        assert(differ_at(".js"@, ".jpg"@, 1));
        lemma_other_ending(base, ".js"@, ".jpg"@);
        reveal_strlit(".js");
        reveal_strlit(".jpeg");
        assert(differ_at(".js"@, ".jpeg"@, 1));
        lemma_other_ending(base, ".js"@, ".jpeg"@);
        reveal_strlit(".js");
        reveal_strlit(".gif");
        assert(differ_at(".js"@, ".gif"@, 1));
        lemma_other_ending(base, ".js"@, ".gif"@);
        reveal_strlit(".js");
        reveal_strlit(".svg");
        assert(differ_at(".js"@, ".svg"@, 1));
        lemma_other_ending(base, ".js"@, ".svg"@);
        reveal_strlit(".js");
        reveal_strlit(".css");
        assert(differ_at(".js"@, ".css"@, 2));
        lemma_other_ending(base, ".js"@, ".css"@);
    }
}

proof fn lemma_ending(base: Seq<char>, ending: Seq<char>)
    ensures
        ending.is_suffix_of(base + ending),
{
    let all = base + ending;
    assert(all.subrange(base.len() as int, all.len() as int) =~= ending);
}

/// What ends in one ending does not end in another, where they differ at a place counted from
/// the end.
proof fn lemma_other_ending(base: Seq<char>, ending: Seq<char>, other: Seq<char>)
    requires
        ending.len() > 0,
        other.len() > 0,
        differ_from_end(ending, other),
    ensures
        !other.is_suffix_of(base + ending),
{
    let path = base + ending;
    let k = choose|k: int| #[trigger] differ_at(ending, other, k);
    if other.is_suffix_of(path) {
        let tail = path.subrange(path.len() - other.len(), path.len() as int);
        assert(tail[other.len() - k] == path[path.len() - k]);
        assert(path[path.len() - k] == ending[ending.len() - k]);
    }
}

spec fn differ_at(a: Seq<char>, b: Seq<char>, k: int) -> bool {
    0 < k <= a.len() && k <= b.len() && a[a.len() - k] != b[b.len() - k]
}

spec fn differ_from_end(a: Seq<char>, b: Seq<char>) -> bool {
    exists|k: int| #[trigger] differ_at(a, b, k)
}

} // verus!

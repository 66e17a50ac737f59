//! What a job has written to its output directory.

use vstd::prelude::*;

use crate::db::job_output::{from_utf8, utf8_spec};
use crate::dup::take_first;
use crate::text;

verus! {

/// The output of a job, file by file.
pub struct JobOutput {
    pub result_json: Option<String>,
    pub report_md: Option<String>,
    pub test_results_xml: Option<String>,
    pub archive: Option<Vec<u8>>,
    pub test_snapshots: Option<Vec<u8>>,
}

/// What a [`JobOutput`] holds.
#[verifier::ext_equal]
pub struct JobOutputView {
    pub result_json: Option<Seq<char>>,
    pub report_md: Option<Seq<char>>,
    pub test_results_xml: Option<Seq<char>>,
    pub archive: Option<Seq<u8>>,
    pub test_snapshots: Option<Seq<u8>>,
}

impl DeepView for JobOutput {
    type V = JobOutputView;

    open spec fn deep_view(&self) -> JobOutputView {
        JobOutputView {
            result_json: self.result_json.deep_view(),
            report_md: self.report_md.deep_view(),
            test_results_xml: self.test_results_xml.deep_view(),
            archive: self.archive.deep_view(),
            test_snapshots: self.test_snapshots.deep_view(),
        }
    }
}

/// The output of a job that wrote nothing.
pub open spec fn empty_output() -> JobOutputView {
    JobOutputView {
        result_json: None,
        report_md: None,
        test_results_xml: None,
        archive: None,
        test_snapshots: None,
    }
}

/// The output with one more file. A text file whose bytes are not UTF-8 counts
/// as missing; a file of another name is passed over.
pub open spec fn with_file(output: JobOutputView, name: Seq<char>, content: Seq<u8>) -> JobOutputView {
    if name == "result.json"@ {
        JobOutputView { result_json: utf8_spec(content), ..output }
    } else if name == "report.md"@ {
        JobOutputView { report_md: utf8_spec(content), ..output }
    } else if name == "test-results.xml"@ {
        JobOutputView { test_results_xml: utf8_spec(content), ..output }
    } else if name == "archive.tar.gz"@ {
        JobOutputView { archive: Some(content), ..output }
    } else if name == "test-snapshots.tar.gz"@ {
        JobOutputView { test_snapshots: Some(content), ..output }
    } else {
        output
    }
}

/// The output made of the given files.
pub open spec fn output_of(files: Seq<(Seq<char>, Seq<u8>)>) -> JobOutputView
    decreases files.len(),
{
    if files.len() == 0 {
        empty_output()
    } else {
        with_file(output_of(files.drop_last()), files.last().0, files.last().1)
    }
}

proof fn lemma_bytes_view(bytes: Vec<u8>)
    ensures
        bytes.deep_view() == bytes@,
{
    assert(bytes.deep_view() =~= bytes@);
}

impl JobOutput {
    /// The output of a job that wrote nothing.
    pub fn empty() -> (r: JobOutput)
        ensures
            r.deep_view() == empty_output(),
    {
        JobOutput {
            result_json: None,
            report_md: None,
            test_results_xml: None,
            archive: None,
            test_snapshots: None,
        }
    }

    /// The output made of the files that a job has uploaded.
    pub fn load(files: Vec<(String, Vec<u8>)>) -> (r: JobOutput)
        ensures
            r.deep_view() == output_of(files.deep_view()),
    {
        let mut output = JobOutput::empty();
        let mut rest = files;
        let ghost all = rest.deep_view();
        let ghost mut k: int = 0;
        assert(all.skip(0) =~= all);
        assert(output_of(all.take(0)) == empty_output());
        while rest.len() > 0
            invariant
                0 <= k <= all.len(),
                rest.deep_view() == all.skip(k),
                output.deep_view() == output_of(all.take(k)),
            decreases rest@.len(),
        {
            assert(rest.deep_view().len() == rest@.len());
            let (name, content) = take_first(&mut rest);
            proof {
                assert(all.skip(k)[0] == all[k]);
                assert(all.skip(k).drop_first() =~= all.skip(k + 1));
                lemma_bytes_view(content);
                assert(all.take(k + 1).drop_last() =~= all.take(k));
                assert(all.take(k + 1).last() == all[k]);
                k = k + 1;
            }
            if text::eq(name.as_str(), "result.json") {
                output.result_json = from_utf8(content);
            } else if text::eq(name.as_str(), "report.md") {
                output.report_md = from_utf8(content);
            } else if text::eq(name.as_str(), "test-results.xml") {
                output.test_results_xml = from_utf8(content);
            } else if text::eq(name.as_str(), "archive.tar.gz") {
                output.archive = Some(content);
            } else if text::eq(name.as_str(), "test-snapshots.tar.gz") {
                output.test_snapshots = Some(content);
            }
        }
        assert(rest.deep_view().len() == rest@.len());
        assert(all.take(k) =~= all);
        output
    }
}

/// What is loaded of a job's output does not depend on files other than those
/// that a job may upload.
pub proof fn law_only_valid_files_count(output: JobOutputView, name: Seq<char>, content: Seq<u8>)
    requires
        !crate::db::job_output::is_valid_file_spec(name),
    ensures
        with_file(output, name, content) == output,
{
}

/// Whether no file of that name comes behind the given place.
pub open spec fn is_last_of(files: Seq<(Seq<char>, Seq<u8>)>, i: int) -> bool {
    0 <= i < files.len() && forall|j: int| i < j < files.len() ==> (#[trigger] files[j]).0
        != files[i].0
}

/// Every file that a job may upload is loaded under its own name, a text where it is one and
/// nothing where its bytes are none, the archive and the snapshots as their bytes; of a name
/// that comes twice, the later file. What was not uploaded is missing.
pub proof fn law_files_are_loaded(files: Seq<(Seq<char>, Seq<u8>)>, i: int)
    ensures
        is_last_of(files, i) ==> {
            let (name, content) = files[i];
            let output = output_of(files);
            let text = if vstd::utf8::valid_utf8(content) {
                Some(vstd::utf8::decode_utf8(content))
            } else {
                None
            };
            &&& name == "result.json"@ ==> output.result_json == text
            &&& name == "report.md"@ ==> output.report_md == text
            &&& name == "test-results.xml"@ ==> output.test_results_xml == text
            &&& name == "archive.tar.gz"@ ==> output.archive == Some(content)
            &&& name == "test-snapshots.tar.gz"@ ==> output.test_snapshots == Some(content)
        },
        (forall|j: int| 0 <= j < files.len() ==> (#[trigger] files[j]).0 != "result.json"@)
            ==> output_of(files).result_json is None,
        (forall|j: int| 0 <= j < files.len() ==> (#[trigger] files[j]).0 != "report.md"@)
            ==> output_of(files).report_md is None,
        (forall|j: int| 0 <= j < files.len() ==> (#[trigger] files[j]).0 != "test-results.xml"@)
            ==> output_of(files).test_results_xml is None,
        (forall|j: int| 0 <= j < files.len() ==> (#[trigger] files[j]).0 != "archive.tar.gz"@)
            ==> output_of(files).archive is None,
        (forall|j: int|
            0 <= j < files.len() ==> (#[trigger] files[j]).0 != "test-snapshots.tar.gz"@)
            ==> output_of(files).test_snapshots is None,
    decreases files.len(),
{
    reveal_strlit("result.json");
    reveal_strlit("report.md");
    reveal_strlit("test-results.xml");
    reveal_strlit("archive.tar.gz");
    reveal_strlit("test-snapshots.tar.gz");
    assert("result.json"@.len() == 11 && "report.md"@.len() == 9 && "test-results.xml"@.len() == 16
        && "archive.tar.gz"@.len() == 14 && "test-snapshots.tar.gz"@.len() == 21);
    if files.len() > 0 {
        let front = files.drop_last();
        law_files_are_loaded(front, i);
        assert(files[files.len() - 1] == files.last());
        assert forall|j: int| 0 <= j < front.len() implies #[trigger] front[j] == files[j] by {}
        if is_last_of(files, i) && i < front.len() {
            assert forall|j: int| i < j < front.len() implies (#[trigger] front[j]).0
                != front[i].0 by {
                assert(files[j].0 != files[i].0);
            }
            assert(is_last_of(front, i));
            assert(files[files.len() - 1].0 != files[i].0);
        }
        lemma_absent_before(files, "result.json"@);
        lemma_absent_before(files, "report.md"@);
        lemma_absent_before(files, "test-results.xml"@);
        lemma_absent_before(files, "archive.tar.gz"@);
        lemma_absent_before(files, "test-snapshots.tar.gz"@);
    }
}

proof fn lemma_absent_before(files: Seq<(Seq<char>, Seq<u8>)>, name: Seq<char>)
    requires
        files.len() > 0,
    ensures
        (forall|j: int| 0 <= j < files.len() ==> (#[trigger] files[j]).0 != name) ==> (forall|
            j: int,
        |
            0 <= j < files.len() - 1 ==> (#[trigger] files.drop_last()[j]).0 != name)
            && files.last().0 != name,
{
    if forall|j: int| 0 <= j < files.len() ==> (#[trigger] files[j]).0 != name {
        assert forall|j: int| 0 <= j < files.len() - 1 implies (#[trigger] files.drop_last()[j]).0
            != name by {
            assert(files[j].0 != name);
        }
        assert(files[files.len() - 1].0 != name);
    }
}

/// A job may upload exactly the files that are loaded: each valid name has its own place in
/// what a job has put out, and a file of another name has none.
pub proof fn law_valid_files_are_loaded(name: Seq<char>, content: Seq<u8>)
    requires
        vstd::utf8::valid_utf8(content),
    ensures
        ({
            let output = output_of(seq![(name, content)]);
            crate::db::job_output::is_valid_file_spec(name) <==> output.result_json is Some || output.report_md is Some
                || output.test_results_xml is Some || output.archive is Some
                || output.test_snapshots is Some
        }),
{
    let files = seq![(name, content)];
    law_files_are_loaded(files, 0);
    assert(is_last_of(files, 0));
    assert forall|j: int| 0 <= j < files.len() implies (#[trigger] files[j]).0 == name by {}
}

} // verus!

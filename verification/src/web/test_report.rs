//! How test results are shown.

use vstd::prelude::*;

use crate::decimal;
use crate::dup::Dup;
use crate::text;
use crate::web::junit::{
    TestCase, TestCaseStatus, TestCaseStatusView, TestCaseView, TestSuite, TestSuiteView, TestSuites,
    TestSuitesView,
};

verus! {

/// How a test case is shown.
#[derive(Debug)]
pub struct CaseBlock {
    pub icon: String,
    pub class: String,
    /// What stands before the name.
    pub class_label: Option<String>,
    pub name: String,
    pub time_text: Option<String>,
    /// Whether anything more is told of the case.
    pub has_detail: bool,
    pub message: Option<String>,
    pub body: Option<String>,
}

/// What a [`CaseBlock`] holds.
#[verifier::ext_equal]
pub struct CaseBlockView {
    pub icon: Seq<char>,
    pub class: Seq<char>,
    pub class_label: Option<Seq<char>>,
    pub name: Seq<char>,
    pub time_text: Option<Seq<char>>,
    pub has_detail: bool,
    pub message: Option<Seq<char>>,
    pub body: Option<Seq<char>>,
}

impl DeepView for CaseBlock {
    type V = CaseBlockView;

    open spec fn deep_view(&self) -> CaseBlockView {
        CaseBlockView {
            icon: self.icon.deep_view(),
            class: self.class.deep_view(),
            class_label: self.class_label.deep_view(),
            name: self.name.deep_view(),
            time_text: self.time_text.deep_view(),
            has_detail: self.has_detail.deep_view(),
            message: self.message.deep_view(),
            body: self.body.deep_view(),
        }
    }
}

/// How a test suite is shown.
#[derive(Debug)]
pub struct SuiteBlock {
    pub name: String,
    /// How many tests there are, and how long they took.
    pub stats: String,
    pub cases: Vec<CaseBlock>,
}

/// What a [`SuiteBlock`] holds.
#[verifier::ext_equal]
pub struct SuiteBlockView {
    pub name: Seq<char>,
    pub stats: Seq<char>,
    pub cases: Seq<CaseBlockView>,
}

impl DeepView for SuiteBlock {
    type V = SuiteBlockView;

    open spec fn deep_view(&self) -> SuiteBlockView {
        SuiteBlockView {
            name: self.name.deep_view(),
            stats: self.stats.deep_view(),
            cases: self.cases.deep_view(),
        }
    }
}

/// How test results are shown.
#[derive(Debug)]
pub struct ResultsBlock {
    pub class: String,
    pub icon: String,
    pub text: String,
    pub skipped_text: Option<String>,
    pub suites: Vec<SuiteBlock>,
}

/// What a [`ResultsBlock`] holds.
#[verifier::ext_equal]
pub struct ResultsBlockView {
    pub class: Seq<char>,
    pub icon: Seq<char>,
    pub text: Seq<char>,
    pub skipped_text: Option<Seq<char>>,
    pub suites: Seq<SuiteBlockView>,
}

impl DeepView for ResultsBlock {
    type V = ResultsBlockView;

    open spec fn deep_view(&self) -> ResultsBlockView {
        ResultsBlockView {
            class: self.class.deep_view(),
            icon: self.icon.deep_view(),
            text: self.text.deep_view(),
            skipped_text: self.skipped_text.deep_view(),
            suites: self.suites.deep_view(),
        }
    }
}

/// The icon and the class of a test case, by how it came out.
pub open spec fn case_style_spec(status: TestCaseStatusView) -> (Seq<char>, Seq<char>) {
    match status {
        TestCaseStatusView::Passed => ("\u{2713}"@, "test-case test-case-passed"@),
        TestCaseStatusView::Failed { .. } => ("\u{2717}"@, "test-case test-case-failed"@),
        TestCaseStatusView::Error { .. } => ("\u{2717}"@, "test-case test-case-failed"@),
        TestCaseStatusView::Skipped { .. } => ("\u{2014}"@, "test-case test-case-skipped"@),
    }
}

/// A text with a unit of seconds behind it.
pub open spec fn seconds_text(time: Option<Seq<char>>) -> Option<Seq<char>> {
    match time {
        Some(t) => Some(t + "s"@),
        None => None,
    }
}

/// How a test case is shown. A case that failed is told of even where nothing is known
/// of why; one that was skipped only where a message says why.
pub open spec fn case_block_spec(case: TestCaseView) -> CaseBlockView {
    let (icon, class) = case_style_spec(case.status);
    let (has_detail, message, body) = match case.status {
        TestCaseStatusView::Passed => (false, None, None),
        TestCaseStatusView::Failed { message, body } => (true, message, body),
        TestCaseStatusView::Error { message, body } => (true, message, body),
        TestCaseStatusView::Skipped { message } => (message is Some, message, None),
    };
    CaseBlockView {
        icon,
        class,
        class_label: match case.classname {
            Some(c) => Some(c + " \u{203a} "@),
            None => None,
        },
        name: case.name,
        time_text: seconds_text(case.time),
        has_detail,
        message,
        body,
    }
}

/// How a test suite is shown.
pub open spec fn suite_block_spec(suite: TestSuiteView) -> SuiteBlockView {
    SuiteBlockView {
        name: suite.name,
        stats: decimal::digits_spec(suite.tests as nat) + " tests"@ + (match suite.time {
            Some(t) => " \u{00b7} "@ + t + "s"@,
            None => Seq::empty(),
        }),
        cases: suite.cases.map_values(|c: TestCaseView| case_block_spec(c)),
    }
}

/// How test results are shown.
pub open spec fn results_block_spec(suites: TestSuitesView) -> ResultsBlockView {
    let total = decimal::digits_spec(suites.total_tests());
    let bad = suites.total_failures() + suites.total_errors();
    ResultsBlockView {
        class: if suites.all_passed() {
            "test-summary-bar test-summary-pass"@
        } else {
            "test-summary-bar test-summary-fail"@
        },
        icon: if suites.all_passed() {
            "\u{2713}"@
        } else {
            "\u{2717}"@
        },
        text: if suites.all_passed() {
            " All "@ + total + " tests passed"@
        } else {
            " "@ + decimal::digits_spec(bad) + " of "@ + total + " tests failed"@
        },
        skipped_text: if suites.total_skipped() > 0 {
            Some(" ("@ + decimal::digits_spec(suites.total_skipped()) + " skipped)"@)
        } else {
            None
        },
        suites: suites.suites.map_values(|s: TestSuiteView| suite_block_spec(s)),
    }
}

fn case_style(status: &TestCaseStatus) -> (r: (&'static str, &'static str))
    ensures
        (r.0@, r.1@) == case_style_spec(status.deep_view()),
{
    match status {
        TestCaseStatus::Passed => ("\u{2713}", "test-case test-case-passed"),
        TestCaseStatus::Failed { .. } => ("\u{2717}", "test-case test-case-failed"),
        TestCaseStatus::Error { .. } => ("\u{2717}", "test-case test-case-failed"),
        TestCaseStatus::Skipped { .. } => ("\u{2014}", "test-case test-case-skipped"),
    }
}

/// How a test case is shown.
pub fn case_block(case: &TestCase) -> (r: CaseBlock)
    ensures
        r.deep_view() == case_block_spec(case.deep_view()),
{
    let (icon, class) = case_style(&case.status);
    let (has_detail, message, body): (bool, Option<String>, Option<String>) = match &case.status {
        TestCaseStatus::Passed => (false, None, None),
        TestCaseStatus::Failed { message, body } => (true, message.dup(), body.dup()),
        TestCaseStatus::Error { message, body } => (true, message.dup(), body.dup()),
        TestCaseStatus::Skipped { message } => (message.is_some(), message.dup(), None),
    };
    CaseBlock {
        icon: icon.to_owned(),
        class: class.to_owned(),
        class_label: match &case.classname {
            Some(c) => Some(text::concat(c.as_str(), " \u{203a} ")),
            None => None,
        },
        name: case.name.clone(),
        time_text: match &case.time {
            Some(t) => Some(text::concat(t.as_str(), "s")),
            None => None,
        },
        has_detail,
        message,
        body,
    }
}

/// How a test suite is shown.
pub fn suite_block(suite: &TestSuite) -> (r: SuiteBlock)
    ensures
        r.deep_view() == suite_block_spec(suite.deep_view()),
{
    let mut stats = decimal::of_u64(suite.tests as u64);
    stats.append(" tests");
    let ghost counted = stats@;
    match &suite.time {
        Some(t) => {
            stats.append(" \u{00b7} ");
            stats.append(t.as_str());
            stats.append("s");
            assert(stats@ =~= counted + (" \u{00b7} "@ + t@ + "s"@));
        },
        None => {
            assert(counted =~= counted + Seq::empty());
        },
    }
    let ghost all = suite.cases.deep_view();
    let ghost f = |c: TestCaseView| case_block_spec(c);
    let mut cases: Vec<CaseBlock> = Vec::new();
    assert(cases.deep_view() =~= all.take(0).map_values(f));
    for i in 0..suite.cases.len()
        invariant
            all == suite.cases.deep_view(),
            f == (|c: TestCaseView| case_block_spec(c)),
            cases.deep_view() == all.take(i as int).map_values(f),
    {
        let ghost before = cases.deep_view();
        let block = case_block(&suite.cases[i]);
        cases.push(block);
        assert(cases.deep_view() =~= before.push(block.deep_view()));
        assert(all[i as int] == suite.cases@[i as int].deep_view());
        assert(all.take(i + 1).map_values(f) =~= all.take(i as int).map_values(f).push(
            block.deep_view(),
        ));
    }
    assert(all.take(all.len() as int) =~= all);
    SuiteBlock { name: suite.name.clone(), stats, cases }
}

/// How test results are shown.
pub fn results_block(suites: &TestSuites) -> (r: ResultsBlock)
    requires
        suites.deep_view().totals_fit(),
        suites.deep_view().total_failures() + suites.deep_view().total_errors() <= u32::MAX,
    ensures
        r.deep_view() == results_block_spec(suites.deep_view()),
{
    let total: u32 = suites.total_tests();
    let failed: u32 = suites.total_failures();
    let errors: u32 = suites.total_errors();
    let skipped: u32 = suites.total_skipped();
    let passed: bool = failed == 0 && errors == 0;
    let mut words: String;
    if passed {
        words = " All ".to_owned();
        words.append(decimal::of_u64(total as u64).as_str());
        words.append(" tests passed");
    } else {
        words = " ".to_owned();
        words.append(decimal::of_u64((failed + errors) as u64).as_str());
        words.append(" of ");
        words.append(decimal::of_u64(total as u64).as_str());
        words.append(" tests failed");
    }
    let skipped_text: Option<String> = if skipped > 0 {
        let mut t = " (".to_owned();
        t.append(decimal::of_u64(skipped as u64).as_str());
        t.append(" skipped)");
        Some(t)
    } else {
        None
    };
    let ghost all = suites.suites.deep_view();
    let ghost f = |s: TestSuiteView| suite_block_spec(s);
    let mut blocks: Vec<SuiteBlock> = Vec::new();
    assert(blocks.deep_view() =~= all.take(0).map_values(f));
    for i in 0..suites.suites.len()
        invariant
            all == suites.suites.deep_view(),
            f == (|s: TestSuiteView| suite_block_spec(s)),
            blocks.deep_view() == all.take(i as int).map_values(f),
    {
        let ghost before = blocks.deep_view();
        let block = suite_block(&suites.suites[i]);
        blocks.push(block);
        assert(blocks.deep_view() =~= before.push(block.deep_view()));
        assert(all[i as int] == suites.suites@[i as int].deep_view());
        assert(all.take(i + 1).map_values(f) =~= all.take(i as int).map_values(f).push(
            block.deep_view(),
        ));
    }
    assert(all.take(all.len() as int) =~= all);
    ResultsBlock {
        class: if passed {
            "test-summary-bar test-summary-pass".to_owned()
        } else {
            "test-summary-bar test-summary-fail".to_owned()
        },
        icon: if passed {
            "\u{2713}".to_owned()
        } else {
            "\u{2717}".to_owned()
        },
        text: words,
        skipped_text,
        suites: blocks,
    }
}

/// The bar is that of a pass exactly where no test failed or broke, skipped tests are told
/// of exactly where there are any, and every suite is shown.
pub proof fn law_bar_agrees(suites: TestSuitesView)
    ensures
        (results_block_spec(suites).class == "test-summary-bar test-summary-pass"@)
            <==> suites.all_passed(),
        (results_block_spec(suites).skipped_text is Some) <==> suites.total_skipped() > 0,
        results_block_spec(suites).suites.len() == suites.suites.len(),
{
    reveal_strlit("test-summary-bar test-summary-pass");
    reveal_strlit("test-summary-bar test-summary-fail");
    assert("test-summary-bar test-summary-pass"@[30] != "test-summary-bar test-summary-fail"@[30]);
}

/// A test case is shown with a mark and a class for how it went, behind its class name where it
/// has one, and with its time. A case that failed or was in error is told of with its message
/// and its body, one that was skipped only where a message says why, and one that passed not at
/// all.
pub proof fn law_case_shown(case: TestCaseView)
    ensures
        ({
            let block = case_block_spec(case);
            &&& block.name == case.name
            &&& case.classname matches Some(c) ==> block.class_label == Some(c + " \u{203a} "@)
            &&& case.classname is None ==> block.class_label is None
            &&& case.time matches Some(t) ==> block.time_text == Some(t + "s"@)
            &&& case.time is None ==> block.time_text is None
            &&& case.status is Passed ==> block.icon == "\u{2713}"@ && block.class
                == "test-case test-case-passed"@ && !block.has_detail && block.message is None
                && block.body is None
            &&& case.status matches TestCaseStatusView::Failed { message, body } ==> block.icon
                == "\u{2717}"@ && block.class == "test-case test-case-failed"@ && block.has_detail
                && block.message == message && block.body == body
            &&& case.status matches TestCaseStatusView::Error { message, body } ==> block.icon
                == "\u{2717}"@ && block.class == "test-case test-case-failed"@ && block.has_detail
                && block.message == message && block.body == body
            &&& case.status matches TestCaseStatusView::Skipped { message } ==> block.icon
                == "\u{2014}"@ && block.class == "test-case test-case-skipped"@ && (
            block.has_detail <==> message is Some) && block.message == message && block.body is None
        }),
{
}

/// A suite is shown with its name, its number of tests and its time, and with each of its cases
/// in order.
pub proof fn law_suite_shown(suite: TestSuiteView, i: int)
    ensures
        ({
            let block = suite_block_spec(suite);
            &&& block.name == suite.name
            &&& suite.time is None ==> block.stats == decimal::digits_spec(suite.tests as nat)
                + " tests"@
            &&& suite.time matches Some(t) ==> block.stats == decimal::digits_spec(
                suite.tests as nat,
            ) + " tests"@ + " \u{00b7} "@ + t + "s"@
            &&& block.cases.len() == suite.cases.len()
            &&& 0 <= i < suite.cases.len() ==> block.cases[i] == case_block_spec(suite.cases[i])
        }),
{
    let head = decimal::digits_spec(suite.tests as nat) + " tests"@;
    assert(head + Seq::empty() =~= head);
    if let Some(t) = suite.time {
        assert(head + (" \u{00b7} "@ + t + "s"@) =~= head + " \u{00b7} "@ + t + "s"@);
    }
}

/// The bar over the results says that all tests passed exactly where none failed and none was in
/// error, and else how many of all did not pass; skipped tests are told of besides, where there
/// are some. The suites come in order.
pub proof fn law_results_shown(suites: TestSuitesView, i: int)
    ensures
        ({
            let block = results_block_spec(suites);
            let total = decimal::digits_spec(suites.total_tests());
            let bad = suites.total_failures() + suites.total_errors();
            &&& bad == 0 ==> block.class == "test-summary-bar test-summary-pass"@ && block.icon
                == "\u{2713}"@ && block.text == " All "@ + total + " tests passed"@
            &&& bad > 0 ==> block.class == "test-summary-bar test-summary-fail"@ && block.icon
                == "\u{2717}"@ && block.text == " "@ + decimal::digits_spec(bad) + " of "@ + total
                + " tests failed"@
            &&& suites.total_skipped() == 0 ==> block.skipped_text is None
            &&& suites.total_skipped() > 0 ==> block.skipped_text == Some(
                " ("@ + decimal::digits_spec(suites.total_skipped()) + " skipped)"@,
            )
            &&& block.suites.len() == suites.suites.len()
            &&& 0 <= i < suites.suites.len() ==> block.suites[i] == suite_block_spec(
                suites.suites[i],
            )
        }),
{
}

} // verus!

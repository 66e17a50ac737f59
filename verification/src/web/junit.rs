//! Test results in the form of JUnit XML.

use quick_xml::events::{BytesStart, Event};
use vstd::prelude::*;

use crate::decimal;
use crate::dup::Dup;
use crate::text;

verus! {

/// The test suites of a report.
#[derive(Default)]
pub struct TestSuites {
    pub suites: Vec<TestSuite>,
}

/// What a [`TestSuites`] holds.
#[verifier::ext_equal]
pub struct TestSuitesView {
    pub suites: Seq<TestSuiteView>,
}

impl DeepView for TestSuites {
    type V = TestSuitesView;

    open spec fn deep_view(&self) -> TestSuitesView {
        TestSuitesView {
            suites: self.suites.deep_view(),
        }
    }
}

/// A test suite, with the counts that the report gives for it.
#[derive(Default)]
pub struct TestSuite {
    pub name: String,
    pub tests: u32,
    pub failures: u32,
    pub errors: u32,
    pub skipped: u32,
    pub time: Option<String>,
    pub cases: Vec<TestCase>,
}

/// What a [`TestSuite`] holds.
#[verifier::ext_equal]
pub struct TestSuiteView {
    pub name: Seq<char>,
    pub tests: u32,
    pub failures: u32,
    pub errors: u32,
    pub skipped: u32,
    pub time: Option<Seq<char>>,
    pub cases: Seq<TestCaseView>,
}

impl DeepView for TestSuite {
    type V = TestSuiteView;

    open spec fn deep_view(&self) -> TestSuiteView {
        TestSuiteView {
            name: self.name.deep_view(),
            tests: self.tests.deep_view(),
            failures: self.failures.deep_view(),
            errors: self.errors.deep_view(),
            skipped: self.skipped.deep_view(),
            time: self.time.deep_view(),
            cases: self.cases.deep_view(),
        }
    }
}

impl Dup for TestSuite {
    fn dup(&self) -> (r: TestSuite) {
        TestSuite {
            name: self.name.dup(),
            tests: self.tests.dup(),
            failures: self.failures.dup(),
            errors: self.errors.dup(),
            skipped: self.skipped.dup(),
            time: self.time.dup(),
            cases: self.cases.dup(),
        }
    }
}

/// A test case.
pub struct TestCase {
    pub name: String,
    pub classname: Option<String>,
    pub time: Option<String>,
    pub status: TestCaseStatus,
}

/// What a [`TestCase`] holds.
#[verifier::ext_equal]
pub struct TestCaseView {
    pub name: Seq<char>,
    pub classname: Option<Seq<char>>,
    pub time: Option<Seq<char>>,
    pub status: TestCaseStatusView,
}

impl DeepView for TestCase {
    type V = TestCaseView;

    open spec fn deep_view(&self) -> TestCaseView {
        TestCaseView {
            name: self.name.deep_view(),
            classname: self.classname.deep_view(),
            time: self.time.deep_view(),
            status: self.status.deep_view(),
        }
    }
}

impl Dup for TestCase {
    fn dup(&self) -> (r: TestCase) {
        TestCase {
            name: self.name.dup(),
            classname: self.classname.dup(),
            time: self.time.dup(),
            status: self.status.dup(),
        }
    }
}

/// How a test case came out.
pub enum TestCaseStatus {
    Passed,
    Failed { message: Option<String>, body: Option<String> },
    Error { message: Option<String>, body: Option<String> },
    Skipped { message: Option<String> },
}

/// What a [`TestCaseStatus`] holds.
#[verifier::ext_equal]
pub enum TestCaseStatusView {
    Passed,
    Failed { message: Option<Seq<char>>, body: Option<Seq<char>> },
    Error { message: Option<Seq<char>>, body: Option<Seq<char>> },
    Skipped { message: Option<Seq<char>> },
}

impl DeepView for TestCaseStatus {
    type V = TestCaseStatusView;

    open spec fn deep_view(&self) -> TestCaseStatusView {
        match self {
            TestCaseStatus::Passed => TestCaseStatusView::Passed,
            TestCaseStatus::Failed { message, body } => TestCaseStatusView::Failed {
                message: message.deep_view(),
                body: body.deep_view(),
            },
            TestCaseStatus::Error { message, body } => TestCaseStatusView::Error {
                message: message.deep_view(),
                body: body.deep_view(),
            },
            TestCaseStatus::Skipped { message } => TestCaseStatusView::Skipped {
                message: message.deep_view(),
            },
        }
    }
}

impl Dup for TestCaseStatus {
    fn dup(&self) -> (r: TestCaseStatus) {
        match self {
            TestCaseStatus::Passed => TestCaseStatus::Passed,
            TestCaseStatus::Failed { message, body } => TestCaseStatus::Failed {
                message: message.dup(),
                body: body.dup(),
            },
            TestCaseStatus::Error { message, body } => TestCaseStatus::Error {
                message: message.dup(),
                body: body.dup(),
            },
            TestCaseStatus::Skipped { message } => TestCaseStatus::Skipped {
                message: message.dup(),
            },
        }
    }
}

/// A tag, with its local name and its attributes.
#[derive(Debug)]
pub struct Element {
    pub name: String,
    /// Those of the attributes that are not well formed have no name and value.
    pub attributes: Vec<Option<(String, String)>>,
}

/// What a [`Element`] holds.
#[verifier::ext_equal]
pub struct ElementView {
    pub name: Seq<char>,
    pub attributes: Seq<Option<(Seq<char>, Seq<char>)>>,
}

impl DeepView for Element {
    type V = ElementView;

    open spec fn deep_view(&self) -> ElementView {
        ElementView {
            name: self.name.deep_view(),
            attributes: self.attributes.deep_view(),
        }
    }
}

/// A piece of an XML document.
#[derive(Debug)]
pub enum XmlEvent {
    /// The tag that opens an element.
    Start(Element),
    /// The tag of an element without content.
    Empty(Element),
    /// The tag that closes an element, with its local name.
    End(String),
    /// Text, where its escapes can be resolved.
    Text(Option<String>),
    /// Anything else: a comment, a declaration and the like.
    Other,
    /// The end of the document.
    Eof,
    /// The document is not well formed.
    Error,
}

/// What an [`XmlEvent`] holds.
#[verifier::ext_equal]
pub enum XmlEventView {
    Start(ElementView),
    Empty(ElementView),
    End(Seq<char>),
    Text(Option<Seq<char>>),
    Other,
    Eof,
    Error,
}

impl DeepView for XmlEvent {
    type V = XmlEventView;

    open spec fn deep_view(&self) -> XmlEventView {
        match self {
            XmlEvent::Start(e) => XmlEventView::Start(e.deep_view()),
            XmlEvent::Empty(e) => XmlEventView::Empty(e.deep_view()),
            XmlEvent::End(name) => XmlEventView::End(name@),
            XmlEvent::Text(t) => XmlEventView::Text(t.deep_view()),
            XmlEvent::Other => XmlEventView::Other,
            XmlEvent::Eof => XmlEventView::Eof,
            XmlEvent::Error => XmlEventView::Error,
        }
    }
}

impl XmlEventView {
    /// Whether nothing is read after the event.
    pub open spec fn is_last(self) -> bool {
        self is Eof || self is Error
    }
}

/// The whole of what is counted in a list of suites.
pub open spec fn sum_spec(counts: Seq<u32>) -> nat
    decreases counts.len(),
{
    if counts.len() == 0 {
        0
    } else {
        sum_spec(counts.drop_last()) + counts.last() as nat
    }
}

/// What is counted of a suite.
#[derive(Clone, Copy, Debug)]
pub enum Counted {
    Tests,
    Failures,
    Errors,
    Skipped,
}

impl TestSuiteView {
    /// How many there are of what is counted.
    pub open spec fn count(self, what: Counted) -> u32 {
        match what {
            Counted::Tests => self.tests,
            Counted::Failures => self.failures,
            Counted::Errors => self.errors,
            Counted::Skipped => self.skipped,
        }
    }
}

impl TestSuitesView {
    pub open spec fn total_tests(self) -> nat {
        sum_spec(self.suites.map_values(|s: TestSuiteView| s.count(Counted::Tests)))
    }

    pub open spec fn total_failures(self) -> nat {
        sum_spec(self.suites.map_values(|s: TestSuiteView| s.count(Counted::Failures)))
    }

    pub open spec fn total_errors(self) -> nat {
        sum_spec(self.suites.map_values(|s: TestSuiteView| s.count(Counted::Errors)))
    }

    pub open spec fn total_skipped(self) -> nat {
        sum_spec(self.suites.map_values(|s: TestSuiteView| s.count(Counted::Skipped)))
    }

    /// Whether no test failed or could not be run.
    pub open spec fn all_passed(self) -> bool {
        self.total_failures() == 0 && self.total_errors() == 0
    }

    /// Whether each of the four totals can be counted in 32 bits.
    pub open spec fn totals_fit(self) -> bool {
        &&& self.total_tests() <= u32::MAX
        &&& self.total_failures() <= u32::MAX
        &&& self.total_errors() <= u32::MAX
        &&& self.total_skipped() <= u32::MAX
    }
}

proof fn lemma_sum_grows(counts: Seq<u32>, i: int)
    requires
        0 <= i <= counts.len(),
    ensures
        sum_spec(counts.take(i)) <= sum_spec(counts),
    decreases counts.len() - i,
{
    if i == counts.len() {
        assert(counts.take(i) =~= counts);
    } else {
        lemma_sum_grows(counts, i + 1);
        assert(counts.take(i + 1).drop_last() =~= counts.take(i));
    }
}

/// Adds up counts, where the sum fits 32 bits.
fn checked_sum(counts: &Vec<u32>) -> (r: Option<u32>)
    ensures
        r is Some <==> sum_spec(counts@) <= u32::MAX,
        r matches Some(n) ==> n == sum_spec(counts@),
{
    let mut total: u32 = 0;
    for i in 0..counts.len()
        invariant
            total == sum_spec(counts@.take(i as int)),
    {
        proof {
            assert(counts@.take(i + 1).drop_last() =~= counts@.take(i as int));
            lemma_sum_grows(counts@, i + 1);
        }
        let next: u64 = total as u64 + counts[i] as u64;
        if next > u32::MAX as u64 {
            return None;
        }
        total = next as u32;
    }
    assert(counts@.take(counts@.len() as int) =~= counts@);
    Some(total)
}

impl TestSuites {
    fn counts(&self, what: Counted) -> (r: Vec<u32>)
        ensures
            r@ == self.deep_view().suites.map_values(|s: TestSuiteView| s.count(what)),
    {
        let ghost all = self.deep_view().suites;
        let mut r: Vec<u32> = Vec::new();
        for i in 0..self.suites.len()
            invariant
                all == self.suites.deep_view(),
                r@.len() == i,
                forall|j: int| 0 <= j < i ==> r@[j] == (#[trigger] all[j]).count(what),
        {
            assert(all[i as int] == self.suites@[i as int].deep_view());
            let suite = &self.suites[i];
            let n: u32 = match what {
                Counted::Tests => suite.tests,
                Counted::Failures => suite.failures,
                Counted::Errors => suite.errors,
                Counted::Skipped => suite.skipped,
            };
            r.push(n);
        }
        assert(r@ =~= all.map_values(|s: TestSuiteView| s.count(what)));
        r
    }

    /// The number of tests, where it fits 32 bits.
    pub fn checked_total_tests(&self) -> (r: Option<u32>)
        ensures
            r is Some <==> self.deep_view().total_tests() <= u32::MAX,
            r matches Some(n) ==> n == self.deep_view().total_tests(),
    {
        checked_sum(&self.counts(Counted::Tests))
    }

    /// The number of tests that failed, where it fits 32 bits.
    pub fn checked_total_failures(&self) -> (r: Option<u32>)
        ensures
            r is Some <==> self.deep_view().total_failures() <= u32::MAX,
            r matches Some(n) ==> n == self.deep_view().total_failures(),
    {
        checked_sum(&self.counts(Counted::Failures))
    }

    /// The number of tests that could not be run, where it fits 32 bits.
    pub fn checked_total_errors(&self) -> (r: Option<u32>)
        ensures
            r is Some <==> self.deep_view().total_errors() <= u32::MAX,
            r matches Some(n) ==> n == self.deep_view().total_errors(),
    {
        checked_sum(&self.counts(Counted::Errors))
    }

    /// The number of tests that were skipped, where it fits 32 bits.
    pub fn checked_total_skipped(&self) -> (r: Option<u32>)
        ensures
            r is Some <==> self.deep_view().total_skipped() <= u32::MAX,
            r matches Some(n) ==> n == self.deep_view().total_skipped(),
    {
        checked_sum(&self.counts(Counted::Skipped))
    }

    /// Whether each of the four totals can be counted in 32 bits.
    pub fn totals_fit(&self) -> (r: bool)
        ensures
            r == self.deep_view().totals_fit(),
    {
        self.checked_total_tests().is_some() && self.checked_total_failures().is_some()
            && self.checked_total_errors().is_some() && self.checked_total_skipped().is_some()
    }

    /// The number of tests.
    pub fn total_tests(&self) -> (r: u32)
        requires
            self.deep_view().total_tests() <= u32::MAX,
        ensures
            r == self.deep_view().total_tests(),
    {
        match self.checked_total_tests() {
            Some(n) => n,
            None => 0,
        }
    }

    /// The number of tests that failed.
    pub fn total_failures(&self) -> (r: u32)
        requires
            self.deep_view().total_failures() <= u32::MAX,
        ensures
            r == self.deep_view().total_failures(),
    {
        match self.checked_total_failures() {
            Some(n) => n,
            None => 0,
        }
    }

    /// The number of tests that could not be run.
    pub fn total_errors(&self) -> (r: u32)
        requires
            self.deep_view().total_errors() <= u32::MAX,
        ensures
            r == self.deep_view().total_errors(),
    {
        match self.checked_total_errors() {
            Some(n) => n,
            None => 0,
        }
    }

    /// The number of tests that were skipped.
    pub fn total_skipped(&self) -> (r: u32)
        requires
            self.deep_view().total_skipped() <= u32::MAX,
        ensures
            r == self.deep_view().total_skipped(),
    {
        match self.checked_total_skipped() {
            Some(n) => n,
            None => 0,
        }
    }

    /// The number of tests that are left when the failed, the broken and the
    /// skipped ones are taken off.
    pub fn total_passed(&self) -> (r: u32)
        requires
            self.deep_view().total_tests() <= u32::MAX,
            self.deep_view().total_failures() + self.deep_view().total_errors()
                + self.deep_view().total_skipped() <= self.deep_view().total_tests(),
        ensures
            r == self.deep_view().total_tests() - self.deep_view().total_failures()
                - self.deep_view().total_errors() - self.deep_view().total_skipped(),
    {
        self.total_tests() - self.total_failures() - self.total_errors() - self.total_skipped()
    }

    /// Whether no test failed or could not be run.
    pub fn all_passed(&self) -> (r: bool)
        ensures
            r == self.deep_view().all_passed(),
    {
        self.checked_total_failures() == Some(0u32) && self.checked_total_errors() == Some(0u32)
    }
}

/// Where a report stands after some of its pieces.
struct ReportState {
    suites: Vec<TestSuite>,
    suite: Option<TestSuite>,
    case: Option<TestCase>,
    in_failure: bool,
    in_error: bool,
    body: String,
}

/// What is known of a report after some of its pieces: the suites that are
/// closed, the suite and the case that are open, whether the text of a failure
/// or an error is being read, and how much of it there is.
#[verifier::ext_equal]
pub struct ReportView {
    pub suites: Seq<TestSuiteView>,
    pub suite: Option<TestSuiteView>,
    pub case: Option<TestCaseView>,
    pub in_failure: bool,
    pub in_error: bool,
    pub body: Seq<char>,
}

impl ReportState {
    spec fn rep(self) -> ReportView {
        ReportView {
            suites: self.suites.deep_view(),
            suite: self.suite.deep_view(),
            case: self.case.deep_view(),
            in_failure: self.in_failure,
            in_error: self.in_error,
            body: self.body@,
        }
    }
}

/// A report of which nothing has been read.
pub open spec fn empty_report() -> ReportView {
    ReportView {
        suites: Seq::empty(),
        suite: None,
        case: None,
        in_failure: false,
        in_error: false,
        body: Seq::empty(),
    }
}

/// The value of the last well-formed attribute of that name.
pub open spec fn last_attribute(
    attributes: Seq<Option<(Seq<char>, Seq<char>)>>,
    name: Seq<char>,
) -> Option<Seq<char>>
    decreases attributes.len(),
{
    if attributes.len() == 0 {
        None
    } else {
        match attributes.last() {
            Some((key, value)) => if key == name {
                Some(value)
            } else {
                last_attribute(attributes.drop_last(), name)
            },
            None => last_attribute(attributes.drop_last(), name),
        }
    }
}

/// The value of the first well-formed attribute of that name.
pub open spec fn first_attribute(
    attributes: Seq<Option<(Seq<char>, Seq<char>)>>,
    name: Seq<char>,
) -> Option<Seq<char>>
    decreases attributes.len(),
{
    if attributes.len() == 0 {
        None
    } else {
        match attributes[0] {
            Some((key, value)) => if key == name {
                Some(value)
            } else {
                first_attribute(attributes.drop_first(), name)
            },
            None => first_attribute(attributes.drop_first(), name),
        }
    }
}

/// A count that an attribute gives: zero where it gives none.
pub open spec fn count_spec(value: Option<Seq<char>>) -> u32 {
    match value {
        Some(v) => match decimal::parse_unsigned_spec(v, u32::MAX as nat) {
            Some(n) => n as u32,
            None => 0,
        },
        None => 0,
    }
}

pub open spec fn text_or_empty_spec(value: Option<Seq<char>>) -> Seq<char> {
    match value {
        Some(v) => v,
        None => Seq::empty(),
    }
}

/// The suite that a `testsuite` tag opens.
pub open spec fn suite_of_tag(e: ElementView) -> TestSuiteView {
    TestSuiteView {
        name: text_or_empty_spec(last_attribute(e.attributes, "name"@)),
        tests: count_spec(last_attribute(e.attributes, "tests"@)),
        failures: count_spec(last_attribute(e.attributes, "failures"@)),
        errors: count_spec(last_attribute(e.attributes, "errors"@)),
        skipped: count_spec(last_attribute(e.attributes, "skipped"@)),
        time: last_attribute(e.attributes, "time"@),
        cases: Seq::empty(),
    }
}

/// The case that a `testcase` tag opens.
pub open spec fn case_of_tag(e: ElementView) -> TestCaseView {
    TestCaseView {
        name: text_or_empty_spec(last_attribute(e.attributes, "name"@)),
        classname: last_attribute(e.attributes, "classname"@),
        time: last_attribute(e.attributes, "time"@),
        status: TestCaseStatusView::Passed,
    }
}

/// The open suite with one more case, where a suite is open.
pub open spec fn with_case(suite: Option<TestSuiteView>, case: TestCaseView) -> Option<TestSuiteView> {
    match suite {
        Some(s) => Some(TestSuiteView { cases: s.cases.push(case), ..s }),
        None => None,
    }
}

/// The open case with another status, where a case is open.
pub open spec fn with_status(case: Option<TestCaseView>, status: TestCaseStatusView) -> Option<
    TestCaseView,
> {
    match case {
        Some(c) => Some(TestCaseView { status, ..c }),
        None => None,
    }
}

/// The report after a tag that opens an element, or stands for an empty one.
pub open spec fn after_tag(r: ReportView, e: ElementView, is_empty: bool) -> ReportView {
    let message = first_attribute(e.attributes, "message"@);
    if e.name == "testsuite"@ {
        ReportView { suite: Some(suite_of_tag(e)), ..r }
    } else if e.name == "testcase"@ {
        if is_empty {
            ReportView { suite: with_case(r.suite, case_of_tag(e)), ..r }
        } else {
            ReportView { case: Some(case_of_tag(e)), ..r }
        }
    } else if e.name == "failure"@ {
        ReportView {
            case: with_status(r.case, TestCaseStatusView::Failed { message, body: None }),
            in_failure: !is_empty,
            body: Seq::empty(),
            ..r
        }
    } else if e.name == "error"@ {
        ReportView {
            case: with_status(r.case, TestCaseStatusView::Error { message, body: None }),
            in_error: !is_empty,
            body: Seq::empty(),
            ..r
        }
    } else if e.name == "skipped"@ {
        ReportView {
            case: with_status(r.case, TestCaseStatusView::Skipped { message }),
            ..r
        }
    } else {
        r
    }
}

/// A failed status with the text that was read for it, where there is some.
pub open spec fn with_failure_body(status: TestCaseStatusView, body: Seq<char>) -> TestCaseStatusView {
    match status {
        TestCaseStatusView::Failed { message, .. } => if body.len() > 0 {
            TestCaseStatusView::Failed { message, body: Some(body) }
        } else {
            status
        },
        _ => status,
    }
}

/// A status of error with the text that was read for it, where there is some.
pub open spec fn with_error_body(status: TestCaseStatusView, body: Seq<char>) -> TestCaseStatusView {
    match status {
        TestCaseStatusView::Error { message, .. } => if body.len() > 0 {
            TestCaseStatusView::Error { message, body: Some(body) }
        } else {
            status
        },
        _ => status,
    }
}

/// The report after a tag that closes an element.
pub open spec fn after_end(r: ReportView, name: Seq<char>) -> ReportView {
    if name == "failure"@ {
        ReportView {
            case: match r.case {
                Some(c) => Some(
                    TestCaseView { status: with_failure_body(c.status, r.body), ..c },
                ),
                None => None,
            },
            in_failure: false,
            ..r
        }
    } else if name == "error"@ {
        ReportView {
            case: match r.case {
                Some(c) => Some(TestCaseView { status: with_error_body(c.status, r.body), ..c }),
                None => None,
            },
            in_error: false,
            ..r
        }
    } else if name == "testcase"@ {
        ReportView {
            suite: match r.case {
                Some(c) => with_case(r.suite, c),
                None => r.suite,
            },
            case: None,
            ..r
        }
    } else if name == "testsuite"@ {
        ReportView {
            suites: match r.suite {
                Some(s) => r.suites.push(s),
                None => r.suites,
            },
            suite: None,
            ..r
        }
    } else {
        r
    }
}

/// The report after one more piece.
pub open spec fn after_event(r: ReportView, event: XmlEventView) -> ReportView {
    match event {
        XmlEventView::Start(e) => after_tag(r, e, false),
        XmlEventView::Empty(e) => after_tag(r, e, true),
        XmlEventView::End(name) => after_end(r, name),
        XmlEventView::Text(Some(t)) => if r.in_failure || r.in_error {
            ReportView { body: r.body + t, ..r }
        } else {
            r
        },
        _ => r,
    }
}

/// The report after all pieces up to the end of the document; nothing where
/// the document is not well formed.
pub open spec fn report_spec(r: ReportView, events: Seq<XmlEventView>) -> Option<ReportView>
    decreases events.len(),
{
    if events.len() == 0 || events[0] is Eof {
        Some(r)
    } else if events[0] is Error {
        None
    } else {
        report_spec(after_event(r, events[0]), events.drop_first())
    }
}

/// The suites of a report: those that were closed, and the one that the
/// document leaves open; nothing where there are none.
pub open spec fn finished_spec(r: ReportView) -> Option<TestSuitesView> {
    let suites = match r.suite {
        Some(s) => r.suites.push(s),
        None => r.suites,
    };
    if suites.len() == 0 {
        None
    } else {
        Some(TestSuitesView { suites })
    }
}

/// The suites that a document made of these pieces reports.
pub open spec fn suites_of_events_spec(events: Seq<XmlEventView>) -> Option<TestSuitesView> {
    match report_spec(empty_report(), events) {
        Some(r) => finished_spec(r),
        None => None,
    }
}

fn count(value: &str) -> (r: u32)
    ensures
        r == count_spec(Some(value@)),
{
    match decimal::parse_u32(value) {
        Some(n) => n,
        None => 0,
    }
}

fn find_last(e: &Element, name: &str) -> (r: Option<String>)
    ensures
        r.deep_view() == last_attribute(e.deep_view().attributes, name@),
{
    let ghost all = e.attributes.deep_view();
    let mut k: usize = e.attributes.len();
    assert(all.take(all.len() as int) =~= all);
    while k > 0
        invariant
            k <= e.attributes@.len(),
            all == e.attributes.deep_view(),
            last_attribute(all, name@) == last_attribute(all.take(k as int), name@),
        decreases k,
    {
        assert(all.take(k as int).last() == e.attributes@[k - 1].deep_view());
        assert(all.take(k as int).drop_last() =~= all.take(k - 1));
        k = k - 1;
        if let Some(attribute) = &e.attributes[k] {
            if text::eq(attribute.0.as_str(), name) {
                return Some(attribute.1.clone());
            }
        }
    }
    None
}

fn find_first(e: &Element, name: &str) -> (r: Option<String>)
    ensures
        r.deep_view() == first_attribute(e.deep_view().attributes, name@),
{
    let ghost all = e.attributes.deep_view();
    assert(all.skip(0) =~= all);
    for k in 0..e.attributes.len()
        invariant
            all == e.attributes.deep_view(),
            first_attribute(all, name@) == first_attribute(all.skip(k as int), name@),
    {
        assert(all.skip(k as int)[0] == e.attributes@[k as int].deep_view());
        assert(all.skip(k as int).drop_first() =~= all.skip(k + 1));
        if let Some(attribute) = &e.attributes[k] {
            if text::eq(attribute.0.as_str(), name) {
                return Some(attribute.1.clone());
            }
        }
    }
    None
}

fn find_count(e: &Element, name: &str) -> (r: u32)
    ensures
        r == count_spec(last_attribute(e.deep_view().attributes, name@)),
{
    match find_last(e, name) {
        Some(value) => count(value.as_str()),
        None => 0,
    }
}

fn find_text(e: &Element, name: &str) -> (r: String)
    ensures
        r@ == text_or_empty_spec(last_attribute(e.deep_view().attributes, name@)),
{
    match find_last(e, name) {
        Some(value) => value,
        None => String::new(),
    }
}

fn open_suite(e: &Element) -> (r: TestSuite)
    ensures
        r.deep_view() == suite_of_tag(e.deep_view()),
{
    let tests: u32 = find_count(e, "tests");
    let failures: u32 = find_count(e, "failures");
    let errors: u32 = find_count(e, "errors");
    let skipped: u32 = find_count(e, "skipped");
    let r = TestSuite {
        name: find_text(e, "name"),
        tests,
        failures,
        errors,
        skipped,
        time: find_last(e, "time"),
        cases: Vec::new(),
    };
    assert(r.cases.deep_view() =~= Seq::empty());
    r
}

fn open_case(e: &Element) -> (r: TestCase)
    ensures
        r.deep_view() == case_of_tag(e.deep_view()),
{
    TestCase {
        name: find_text(e, "name"),
        classname: find_last(e, "classname"),
        time: find_last(e, "time"),
        status: TestCaseStatus::Passed,
    }
}

fn add_case(suite: Option<TestSuite>, case: TestCase) -> (r: Option<TestSuite>)
    ensures
        r.deep_view() == with_case(suite.deep_view(), case.deep_view()),
{
    match suite {
        Some(s) => {
            let mut s = s;
            let ghost before = s.cases.deep_view();
            s.cases.push(case);
            assert(s.cases.deep_view() =~= before.push(case.deep_view()));
            Some(s)
        },
        None => None,
    }
}

fn set_status(case: Option<TestCase>, status: TestCaseStatus) -> (r: Option<TestCase>)
    ensures
        r.deep_view() == with_status(case.deep_view(), status.deep_view()),
{
    match case {
        Some(c) => Some(
            TestCase { name: c.name, classname: c.classname, time: c.time, status },
        ),
        None => None,
    }
}

fn tag(r: ReportState, e: &Element, is_empty: bool) -> (after: ReportState)
    ensures
        after.rep() == after_tag(r.rep(), e.deep_view(), is_empty),
{
    let mut r = r;
    if text::eq(e.name.as_str(), "testsuite") {
        r.suite = Some(open_suite(e));
    } else if text::eq(e.name.as_str(), "testcase") {
        let case = open_case(e);
        if is_empty {
            r.suite = add_case(r.suite, case);
        } else {
            r.case = Some(case);
        }
    } else if text::eq(e.name.as_str(), "failure") {
        let status = TestCaseStatus::Failed { message: find_first(e, "message"), body: None };
        r.case = set_status(r.case, status);
        r.in_failure = !is_empty;
        r.body = String::new();
    } else if text::eq(e.name.as_str(), "error") {
        let status = TestCaseStatus::Error { message: find_first(e, "message"), body: None };
        r.case = set_status(r.case, status);
        r.in_error = !is_empty;
        r.body = String::new();
    } else if text::eq(e.name.as_str(), "skipped") {
        let status = TestCaseStatus::Skipped { message: find_first(e, "message") };
        r.case = set_status(r.case, status);
    }
    r
}

fn failure_body(status: TestCaseStatus, body: &String) -> (r: TestCaseStatus)
    ensures
        r.deep_view() == with_failure_body(status.deep_view(), body@),
{
    match status {
        TestCaseStatus::Failed { message, body: old_body } => if !body.as_str().is_empty() {
            TestCaseStatus::Failed { message, body: Some(body.clone()) }
        } else {
            TestCaseStatus::Failed { message, body: old_body }
        },
        other => other,
    }
}

fn error_body(status: TestCaseStatus, body: &String) -> (r: TestCaseStatus)
    ensures
        r.deep_view() == with_error_body(status.deep_view(), body@),
{
    match status {
        TestCaseStatus::Error { message, body: old_body } => if !body.as_str().is_empty() {
            TestCaseStatus::Error { message, body: Some(body.clone()) }
        } else {
            TestCaseStatus::Error { message, body: old_body }
        },
        other => other,
    }
}

fn close(r: ReportState, name: &str) -> (after: ReportState)
    ensures
        after.rep() == after_end(r.rep(), name@),
{
    let ReportState { suites, suite, case, in_failure, in_error, body } = r;
    if text::eq(name, "failure") {
        let case = match case {
            Some(c) => Some(
                TestCase {
                    name: c.name,
                    classname: c.classname,
                    time: c.time,
                    status: failure_body(c.status, &body),
                },
            ),
            None => None,
        };
        ReportState { suites, suite, case, in_failure: false, in_error, body }
    } else if text::eq(name, "error") {
        let case = match case {
            Some(c) => Some(
                TestCase {
                    name: c.name,
                    classname: c.classname,
                    time: c.time,
                    status: error_body(c.status, &body),
                },
            ),
            None => None,
        };
        ReportState { suites, suite, case, in_failure, in_error: false, body }
    } else if text::eq(name, "testcase") {
        let suite = match case {
            Some(c) => add_case(suite, c),
            None => suite,
        };
        ReportState { suites, suite, case: None, in_failure, in_error, body }
    } else if text::eq(name, "testsuite") {
        let suites = close_suite(suites, suite);
        ReportState { suites, suite: None, case, in_failure, in_error, body }
    } else {
        ReportState { suites, suite, case, in_failure, in_error, body }
    }
}

fn close_suite(suites: Vec<TestSuite>, suite: Option<TestSuite>) -> (r: Vec<TestSuite>)
    ensures
        r.deep_view() == (match suite.deep_view() {
            Some(s) => suites.deep_view().push(s),
            None => suites.deep_view(),
        }),
{
    let mut suites = suites;
    if let Some(s) = suite {
        let ghost before = suites.deep_view();
        suites.push(s);
        assert(suites.deep_view() =~= before.push(s.deep_view()));
    }
    suites
}

fn read(r: ReportState, event: &XmlEvent) -> (after: ReportState)
    ensures
        after.rep() == after_event(r.rep(), event.deep_view()),
{
    match event {
        XmlEvent::Start(e) => tag(r, e, false),
        XmlEvent::Empty(e) => tag(r, e, true),
        XmlEvent::End(name) => close(r, name.as_str()),
        XmlEvent::Text(Some(t)) => {
            let mut r = r;
            if r.in_failure || r.in_error {
                let mut body = r.body;
                body.append(t.as_str());
                r.body = body;
            }
            r
        },
        _ => r,
    }
}

/// The suites that a document made of these pieces reports.
pub fn suites_of_events(events: &Vec<XmlEvent>) -> (r: Option<TestSuites>)
    ensures
        r.deep_view() == suites_of_events_spec(events.deep_view()),
{
    let mut state = ReportState {
        suites: Vec::new(),
        suite: None,
        case: None,
        in_failure: false,
        in_error: false,
        body: String::new(),
    };
    let ghost all = events.deep_view();
    let n: usize = events.len();
    let mut i: usize = 0;
    let mut at_end: bool = false;
    assert(state.suites.deep_view() =~= Seq::empty());
    assert(state.rep() == empty_report());
    assert(all.skip(0) =~= all);
    while i < n && !at_end
        invariant
            n == events@.len(),
            i <= n,
            all == events.deep_view(),
            !at_end ==> report_spec(empty_report(), all) == report_spec(
                state.rep(),
                all.skip(i as int),
            ),
            at_end ==> report_spec(empty_report(), all) == Some(state.rep()),
        decreases n - i,
    {
        assert(all.skip(i as int)[0] == events@[i as int].deep_view());
        assert(all.skip(i as int).drop_first() =~= all.skip(i + 1));
        match &events[i] {
            XmlEvent::Eof => {
                at_end = true;
            },
            XmlEvent::Error => {
                return None;
            },
            event => {
                state = read(state, event);
            },
        }
        i = i + 1;
    }
    let suites = close_suite(state.suites, state.suite);
    assert(suites.deep_view().len() == suites@.len());
    if suites.len() == 0 {
        None
    } else {
        Some(TestSuites { suites })
    }
}

#[verifier::external_type_specification]
#[verifier::external_body]
#[verifier::reject_recursive_types(R)]
pub struct ExReader<R>(quick_xml::Reader<R>);

/// The pieces of an XML document, in order, as `quick_xml` reads them from its
/// text: up to its end, or up to the first place where it is not well formed.
pub uninterp spec fn xml_events_spec(xml: Seq<char>) -> Seq<XmlEventView>;

/// The pieces that a reader has still to give.
pub uninterp spec fn pending_spec(reader: quick_xml::Reader<&[u8]>) -> Seq<XmlEventView>;

/// `quick_xml::Reader::from_str` makes a reader at the start of the text. Every
/// piece takes up some of the text, so that there are finitely many before the
/// end of the document or the first error, which comes last.
#[verifier::external_body]
fn open_xml(xml: &str) -> (r: quick_xml::Reader<&[u8]>)
    ensures
        pending_spec(r) == xml_events_spec(xml@),
        pending_spec(r).len() > 0,
        pending_spec(r).last().is_last(),
        forall|i: int|
            0 <= i < pending_spec(r).len() - 1 ==> !(#[trigger] pending_spec(r)[i]).is_last(),
{
    quick_xml::Reader::from_str(xml)
}

#[verifier::external_type_specification]
#[verifier::external_body]
pub struct ExXmlEvent<'a>(quick_xml::events::Event<'a>);

/// The piece of a document that an event of `quick_xml` stands for: a tag comes with its
/// local name and its attributes, text with its escapes resolved.
pub uninterp spec fn event_spec(event: Event) -> XmlEventView;

/// `quick_xml::Reader::read_event` gives the next piece; it fails exactly where the
/// document is not well formed.
#[verifier::external_body]
fn read_event(reader: &mut quick_xml::Reader<&[u8]>) -> (r: Option<Event<'static>>)
    requires
        pending_spec(*old(reader)).len() > 0,
    ensures
        pending_spec(*old(reader))[0] == (match r {
            Some(event) => event_spec(event),
            None => XmlEventView::Error,
        }),
        pending_spec(*final(reader)) == pending_spec(*old(reader)).drop_first(),
{
    reader.read_event().ok().map(|e| e.into_owned())
}

/// The tag that a `Start` or `Empty` event of `quick_xml` holds: `local_name`, and what
/// `attributes` gives, in its order.
#[verifier::external_body]
fn tag_of(event: &Event) -> (r: Option<XmlEvent>)
    ensures
        r.deep_view() == (if event_spec(*event) is Start || event_spec(*event) is Empty {
            Some(event_spec(*event))
        } else {
            None
        }),
{
    let s = |b: &[u8]| String::from_utf8_lossy(b).into_owned();
    let tag = |e: &BytesStart| Element {
        name: s(e.local_name().as_ref()),
        attributes: e.attributes().map(|a| a.ok().map(|a| (s(a.key.as_ref()), s(&a.value)))).collect(),
    };
    match event {
        Event::Start(e) => Some(XmlEvent::Start(tag(e))),
        Event::Empty(e) => Some(XmlEvent::Empty(tag(e))),
        _ => None,
    }
}

/// What an event of `quick_xml` other than a `Start` or `Empty` one holds: the
/// `local_name` of an `End`, and what `unescape` makes of a `Text`, where it can.
#[verifier::external_body]
fn other_of(event: &Event) -> (r: XmlEvent)
    requires
        !(event_spec(*event) is Start),
        !(event_spec(*event) is Empty),
    ensures
        r.deep_view() == event_spec(*event),
{
    match event {
        Event::End(e) => {
            XmlEvent::End(String::from_utf8_lossy(e.local_name().as_ref()).into_owned())
        },
        Event::Text(t) => XmlEvent::Text(t.unescape().ok().map(|t| t.into_owned())),
        Event::Eof => XmlEvent::Eof,
        _ => XmlEvent::Other,
    }
}

/// The next piece that a reader has to give.
fn next_event(reader: &mut quick_xml::Reader<&[u8]>) -> (r: XmlEvent)
    requires
        pending_spec(*old(reader)).len() > 0,
    ensures
        r.deep_view() == pending_spec(*old(reader))[0],
        pending_spec(*final(reader)) == pending_spec(*old(reader)).drop_first(),
{
    match read_event(reader) {
        Some(event) => match tag_of(&event) {
            Some(tag) => tag,
            None => other_of(&event),
        },
        None => XmlEvent::Error,
    }
}

/// The suites that a report in JUnit XML holds; nothing where the document is
/// not well formed or has none.
pub fn parse_junit_xml(xml: &str) -> (r: Option<TestSuites>)
    ensures
        r.deep_view() == suites_of_events_spec(xml_events_spec(xml@)),
{
    let mut reader = open_xml(xml);
    let ghost all = xml_events_spec(xml@);
    let mut events: Vec<XmlEvent> = Vec::new();
    let mut at_end: bool = false;
    assert(events.deep_view() =~= all.take(0));
    assert(all.skip(0) =~= all);
    while !at_end
        invariant
            all.len() > 0,
            all.last().is_last(),
            forall|i: int| 0 <= i < all.len() - 1 ==> !(#[trigger] all[i]).is_last(),
            events@.len() <= all.len(),
            events.deep_view() == all.take(events@.len() as int),
            pending_spec(reader) == all.skip(events@.len() as int),
            at_end == (events@.len() == all.len()),
        decreases all.len() - events@.len(),
    {
        let ghost k = events@.len() as int;
        let event = next_event(&mut reader);
        assert(all.skip(k).drop_first() =~= all.skip(k + 1));
        assert(event.deep_view() == all[k]);
        at_end = match &event {
            XmlEvent::Eof => true,
            XmlEvent::Error => true,
            _ => false,
        };
        let ghost before = events.deep_view();
        events.push(event);
        assert(events.deep_view() =~= before.push(all[k]));
        assert(all.take(k + 1) =~= all.take(k).push(all[k]));
        assert(k < all.len() - 1 ==> !all[k].is_last());
    }
    assert(all.take(all.len() as int) =~= all);
    suites_of_events(&events)
}

/// Whether a piece is a tag of an element with that name, at either end of it.
pub open spec fn is_tag_of(event: XmlEventView, name: Seq<char>) -> bool {
    match event {
        XmlEventView::Start(e) => e.name == name,
        XmlEventView::Empty(e) => e.name == name,
        XmlEventView::End(n) => n == name,
        _ => false,
    }
}

/// Whether a piece may stand inside a test case: the document goes on behind it, and it is no
/// tag of a suite or of a case.
pub open spec fn is_inside_case(event: XmlEventView) -> bool {
    &&& !(event is Eof) && !(event is Error)
    &&& !is_tag_of(event, "testsuite"@) && !is_tag_of(event, "testcase"@)
}

/// Whether a piece tells nothing of how a test case went: it stands inside one, and is no tag
/// of a failure, an error or a skip.
pub open spec fn is_quiet(event: XmlEventView) -> bool {
    &&& is_inside_case(event)
    &&& !is_tag_of(event, "failure"@) && !is_tag_of(event, "error"@) && !is_tag_of(
        event,
        "skipped"@,
    )
}

pub open spec fn all_inside_case(events: Seq<XmlEventView>) -> bool {
    forall|i: int| 0 <= i < events.len() ==> is_inside_case(#[trigger] events[i])
}

pub open spec fn all_quiet(events: Seq<XmlEventView>) -> bool {
    forall|i: int| 0 <= i < events.len() ==> is_quiet(#[trigger] events[i])
}

/// The text in a row of pieces.
pub open spec fn text_of(events: Seq<XmlEventView>) -> Seq<char>
    decreases events.len(),
{
    if events.len() == 0 {
        Seq::empty()
    } else {
        match events[0] {
            XmlEventView::Text(Some(t)) => t + text_of(events.drop_first()),
            _ => text_of(events.drop_first()),
        }
    }
}

/// An element with what stands between its tags, or an empty one.
pub open spec fn element_spec(e: ElementView, inside: Option<Seq<XmlEventView>>) -> Seq<
    XmlEventView,
> {
    match inside {
        Some(events) => seq![XmlEventView::Start(e)] + events + seq![XmlEventView::End(e.name)],
        None => seq![XmlEventView::Empty(e)],
    }
}

/// Pieces are read one by one, each from where the one before it has led, up to the end of the
/// document; a document that breaks off says nothing.
pub proof fn law_read_in_turn(
    r: ReportView,
    events: Seq<XmlEventView>,
    more: Seq<XmlEventView>,
)
    requires
        forall|i: int|
            0 <= i < events.len() ==> !((#[trigger] events[i]) is Eof) && !(events[i] is Error),
    ensures
        report_spec(r, events) is Some,
        report_spec(r, events + more) == report_spec(report_spec(r, events)->0, more),
        report_spec(r, events + seq![XmlEventView::Eof] + more) == report_spec(r, events),
        report_spec(r, events + seq![XmlEventView::Error] + more) is None,
        suites_of_events_spec(events + seq![XmlEventView::Error] + more) is None,
    decreases events.len(),
{
    lemma_read_in_turn(r, events, more);
    lemma_read_in_turn(r, events, seq![XmlEventView::Eof] + more);
    lemma_read_in_turn(r, events, seq![XmlEventView::Error] + more);
    lemma_read_in_turn(empty_report(), events, seq![XmlEventView::Error] + more);
    assert(events + seq![XmlEventView::Eof] + more =~= events + (seq![XmlEventView::Eof] + more));
    assert(events + seq![XmlEventView::Error] + more =~= events + (seq![XmlEventView::Error]
        + more));
}

proof fn lemma_read_in_turn(r: ReportView, events: Seq<XmlEventView>, more: Seq<XmlEventView>)
    requires
        forall|i: int|
            0 <= i < events.len() ==> !((#[trigger] events[i]) is Eof) && !(events[i] is Error),
    ensures
        report_spec(r, events) is Some,
        report_spec(r, events + more) == report_spec(report_spec(r, events)->0, more),
    decreases events.len(),
{
    if events.len() == 0 {
        assert(events + more =~= more);
    } else {
        assert((events + more).drop_first() =~= events.drop_first() + more);
        assert((events + more)[0] == events[0]);
        assert forall|i: int| 0 <= i < events.drop_first().len() implies !((
        #[trigger] events.drop_first()[i]) is Eof) && !(events.drop_first()[i] is Error) by {
            assert(events.drop_first()[i] == events[i + 1]);
        }
        lemma_read_in_turn(after_event(r, events[0]), events.drop_first(), more);
    }
}

proof fn lemma_one(r: ReportView, event: XmlEventView)
    requires
        !(event is Eof) && !(event is Error),
    ensures
        report_spec(r, seq![event]) == Some(after_event(r, event)),
{
    assert(seq![event].drop_first() =~= Seq::<XmlEventView>::empty());
    assert(report_spec(after_event(r, event), Seq::<XmlEventView>::empty()) == Some(
        after_event(r, event),
    ));
}

/// Quiet pieces change nothing but the text that is being read.
proof fn lemma_quiet(r: ReportView, events: Seq<XmlEventView>)
    requires
        all_quiet(events),
    ensures
        report_spec(r, events) == Some(
            ReportView {
                body: if r.in_failure || r.in_error {
                    r.body + text_of(events)
                } else {
                    r.body
                },
                ..r
            },
        ),
    decreases events.len(),
{
    if events.len() == 0 {
        assert(r.body + text_of(events) =~= r.body);
    } else {
        let rest = events.drop_first();
        assert(is_quiet(events[0]));
        assert forall|i: int| 0 <= i < rest.len() implies is_quiet(#[trigger] rest[i]) by {
            assert(rest[i] == events[i + 1]);
        }
        let r1 = after_event(r, events[0]);
        lemma_quiet(r1, rest);
        if let XmlEventView::Text(Some(t)) = events[0] {
            assert(r.body + (t + text_of(rest)) =~= r.body + t + text_of(rest));
        }
    }
}

/// Whatever stands inside a case leaves open the suite and the case.
proof fn lemma_inside_case(r: ReportView, events: Seq<XmlEventView>)
    requires
        all_inside_case(events),
        r.case is Some,
    ensures
        report_spec(r, events) matches Some(r1) && r1.suites == r.suites && r1.suite == r.suite
            && r1.case == Some(TestCaseView { status: r1.case->0.status, ..r.case->0 }),
    decreases events.len(),
{
    if events.len() > 0 {
        let rest = events.drop_first();
        assert(is_inside_case(events[0]));
        assert forall|i: int| 0 <= i < rest.len() implies is_inside_case(#[trigger] rest[i]) by {
            assert(rest[i] == events[i + 1]);
        }
        lemma_inside_case(after_event(r, events[0]), rest);
    }
}

/// What one element that tells of an outcome comes to, wherever it stands in a case.
proof fn lemma_outcome(r: ReportView, e: ElementView, inside: Option<Seq<XmlEventView>>)
    requires
        r.case is Some,
        e.name == "failure"@ || e.name == "error"@ || e.name == "skipped"@,
        inside matches Some(events) ==> all_quiet(events),
    ensures
        report_spec(r, element_spec(e, inside)) matches Some(r1) && r1.suites == r.suites
            && r1.suite == r.suite && r1.case == Some(
            TestCaseView { status: outcome_spec(e, inside), ..r.case->0 },
        ),
{
    reveal_strlit("failure");
    reveal_strlit("error");
    reveal_strlit("skipped");
    reveal_strlit("testsuite");
    reveal_strlit("testcase");
    assert("failure"@.len() == 7 && "error"@.len() == 5 && "skipped"@.len() == 7
        && "testsuite"@.len() == 9 && "testcase"@.len() == 8);
    assert("failure"@[0] == 'f' && "skipped"@[0] == 's');
    match inside {
        Some(events) => {
            let start = XmlEventView::Start(e);
            let end = XmlEventView::End(e.name);
            lemma_one(r, start);
            let r1 = after_event(r, start);
            lemma_quiet(r1, events);
            let r2 = report_spec(r1, events)->0;
            lemma_one(r2, end);
            lemma_read_in_turn(r, seq![start], events);
            assert forall|i: int| 0 <= i < (seq![start] + events).len() implies !((#[trigger] (
            seq![start] + events)[i]) is Eof) && !((seq![start] + events)[i] is Error) by {
                if i > 0 {
                    assert((seq![start] + events)[i] == events[i - 1]);
                    assert(is_quiet(events[i - 1]));
                }
            }
            lemma_read_in_turn(r, seq![start] + events, seq![end]);
            assert(r1.body.len() == 0 || e.name == "skipped"@);
            assert(e.name != "skipped"@ ==> r1.body + text_of(events) =~= text_of(events));
        },
        None => {
            lemma_one(r, XmlEventView::Empty(e));
        },
    }
}

/// The status that an element tells of: its name says which, its first attribute `message` the
/// message, and the text inside it, where there is some, the body.
pub open spec fn outcome_spec(
    e: ElementView,
    inside: Option<Seq<XmlEventView>>,
) -> TestCaseStatusView {
    let message = first_attribute(e.attributes, "message"@);
    let body = match inside {
        Some(events) => if text_of(events).len() > 0 {
            Some(text_of(events))
        } else {
            None
        },
        None => None,
    };
    if e.name == "failure"@ {
        TestCaseStatusView::Failed { message, body }
    } else if e.name == "error"@ {
        TestCaseStatusView::Error { message, body }
    } else {
        TestCaseStatusView::Skipped { message }
    }
}

/// The pieces of a test case.
pub open spec fn case_element(c: ElementView, inside: Seq<XmlEventView>) -> Seq<XmlEventView> {
    seq![XmlEventView::Start(c)] + inside + seq![XmlEventView::End("testcase"@)]
}

proof fn lemma_case_element(
    r: ReportView,
    c: ElementView,
    inside: Seq<XmlEventView>,
    status: TestCaseStatusView,
)
    requires
        c.name == "testcase"@,
        all_inside_case(inside),
        report_spec(after_event(r, XmlEventView::Start(c)), inside)->0.case->0.status == status,
    ensures
        report_spec(r, case_element(c, inside)) matches Some(r1) && r1.suites == r.suites
            && r1.case is None && r1.suite == (match r.suite {
            Some(s) => Some(
                TestSuiteView {
                    cases: s.cases.push(TestCaseView { status, ..case_of_tag(c) }),
                    ..s
                },
            ),
            None => None,
        }),
{
    reveal_strlit("failure");
    reveal_strlit("error");
    reveal_strlit("testsuite");
    reveal_strlit("testcase");
    assert("failure"@.len() == 7 && "error"@.len() == 5 && "testsuite"@.len() == 9
        && "testcase"@.len() == 8);
    let start = XmlEventView::Start(c);
    let end = XmlEventView::End("testcase"@);
    lemma_one(r, start);
    let r1 = after_event(r, start);
    lemma_inside_case(r1, inside);
    lemma_read_in_turn(r, seq![start], inside);
    let both = seq![start] + inside;
    assert forall|i: int| 0 <= i < both.len() implies !((#[trigger] both[i]) is Eof) && !(
    both[i] is Error) by {
        if i > 0 {
            assert(both[i] == inside[i - 1]);
            assert(is_inside_case(inside[i - 1]));
        }
    }
    lemma_read_in_turn(r, both, seq![end]);
    lemma_one(report_spec(r1, inside)->0, end);
}

/// A test case inside which no failure, error or skip stands has passed. It comes behind the
/// cases of the suite that are there, with its own name, class and time, and leaves everything
/// else as it was.
pub proof fn law_passed_case(r: ReportView, c: ElementView, inside: Seq<XmlEventView>)
    requires
        c.name == "testcase"@,
        all_quiet(inside),
    ensures
        report_spec(r, case_element(c, inside)) matches Some(r1) && r1.suites == r.suites
            && r1.case is None && (r.suite matches Some(s) ==> r1.suite == Some(
            TestSuiteView {
                cases: s.cases.push(
                    TestCaseView {
                        name: match last_attribute(c.attributes, "name"@) {
                            Some(name) => name,
                            None => Seq::empty(),
                        },
                        classname: last_attribute(c.attributes, "classname"@),
                        time: last_attribute(c.attributes, "time"@),
                        status: TestCaseStatusView::Passed,
                    },
                ),
                ..s
            },
        )),
        report_spec(r, seq![XmlEventView::Empty(c)]) matches Some(r1) && r1.suites == r.suites
            && r1.case == r.case && r1.suite == report_spec(r, case_element(c, inside))->0.suite,
{
    reveal_strlit("testsuite");
    reveal_strlit("testcase");
    assert("testsuite"@.len() == 9 && "testcase"@.len() == 8);
    assert forall|i: int| 0 <= i < inside.len() implies is_inside_case(#[trigger] inside[i]) by {
        assert(is_quiet(inside[i]));
    }
    lemma_quiet(after_event(r, XmlEventView::Start(c)), inside);
    lemma_case_element(r, c, inside, TestCaseStatusView::Passed);
    lemma_one(r, XmlEventView::Empty(c));
}

/// The last failure, error or skip inside a test case says how it went: failed, in error or
/// skipped, with the message of that element and with the text inside it, where it is a failure
/// or an error and has some, whatever stood in the case before it, and whether it is an empty
/// element or not. The case comes behind the cases of the suite that are there, with its own
/// name, class and time.
pub proof fn law_case_outcome(
    r: ReportView,
    c: ElementView,
    before: Seq<XmlEventView>,
    e: ElementView,
    inside: Option<Seq<XmlEventView>>,
    behind: Seq<XmlEventView>,
)
    requires
        c.name == "testcase"@,
        all_inside_case(before),
        e.name == "failure"@ || e.name == "error"@ || e.name == "skipped"@,
        inside matches Some(events) ==> all_quiet(events),
        all_quiet(behind),
    ensures
        report_spec(r, case_element(c, before + element_spec(e, inside) + behind)) matches Some(r1)
            && r1.suites == r.suites && r1.case is None && (r.suite matches Some(s) ==> {
            &&& r1.suite matches Some(s1)
            &&& s1 == (TestSuiteView { cases: s1.cases, ..s })
            &&& s1.cases.len() == s.cases.len() + 1
            &&& s1.cases.drop_last() == s.cases
            &&& s1.cases.last().name == (match last_attribute(c.attributes, "name"@) {
                Some(name) => name,
                None => Seq::empty(),
            })
            &&& s1.cases.last().classname == last_attribute(c.attributes, "classname"@)
            &&& s1.cases.last().time == last_attribute(c.attributes, "time"@)
            &&& e.name == "failure"@ ==> (s1.cases.last().status matches TestCaseStatusView::Failed {
                message,
                body,
            } && message == first_attribute(e.attributes, "message"@) && is_body_of(body, inside))
            &&& e.name == "error"@ ==> (s1.cases.last().status matches TestCaseStatusView::Error {
                message,
                body,
            } && message == first_attribute(e.attributes, "message"@) && is_body_of(body, inside))
            &&& e.name == "skipped"@ ==> s1.cases.last().status == TestCaseStatusView::Skipped {
                message: first_attribute(e.attributes, "message"@),
            }
        }),
{
    reveal_strlit("failure");
    reveal_strlit("error");
    reveal_strlit("skipped");
    reveal_strlit("testsuite");
    reveal_strlit("testcase");
    assert("failure"@.len() == 7 && "error"@.len() == 5 && "skipped"@.len() == 7
        && "testsuite"@.len() == 9 && "testcase"@.len() == 8);
    assert("failure"@[0] == 'f' && "skipped"@[0] == 's');
    let element = element_spec(e, inside);
    let all = before + element + behind;
    assert forall|i: int| 0 <= i < element.len() implies is_inside_case(#[trigger] element[i]) by {
        if let Some(events) = inside {
            if 0 < i < element.len() - 1 {
                assert(element[i] == events[i - 1]);
                assert(is_quiet(events[i - 1]));
            }
        }
    }
    assert forall|i: int| 0 <= i < behind.len() implies is_inside_case(#[trigger] behind[i]) by {
        assert(is_quiet(behind[i]));
    }
    assert forall|i: int| 0 <= i < all.len() implies is_inside_case(#[trigger] all[i]) by {
        if i < before.len() {
            assert(all[i] == before[i]);
        } else if i < before.len() + element.len() {
            assert(all[i] == element[i - before.len()]);
        } else {
            assert(all[i] == behind[i - before.len() - element.len()]);
        }
    }
    let r0 = after_event(r, XmlEventView::Start(c));
    lemma_inside_case(r0, before);
    let r1 = report_spec(r0, before)->0;
    lemma_outcome(r1, e, inside);
    let r2 = report_spec(r1, element)->0;
    lemma_quiet(r2, behind);
    assert forall|i: int| 0 <= i < before.len() implies !((#[trigger] before[i]) is Eof) && !(
    before[i] is Error) by {
        assert(is_inside_case(before[i]));
    }
    lemma_read_in_turn(r0, before, element);
    let both = before + element;
    assert forall|i: int| 0 <= i < both.len() implies !((#[trigger] both[i]) is Eof) && !(
    both[i] is Error) by {
        assert(both[i] == all[i]);
        assert(is_inside_case(all[i]));
    }
    lemma_read_in_turn(r0, both, behind);
    lemma_case_element(r, c, all, outcome_spec(e, inside));
    if let Some(s) = r.suite {
        let case = TestCaseView { status: outcome_spec(e, inside), ..case_of_tag(c) };
        assert(s.cases.push(case).drop_last() =~= s.cases);
    }
}

/// Whether a body is the text inside an element, and none where there is no text.
pub open spec fn is_body_of(body: Option<Seq<char>>, inside: Option<Seq<XmlEventView>>) -> bool {
    match inside {
        Some(events) => (text_of(events).len() == 0 ==> body is None) && (text_of(events).len() > 0
            ==> body == Some(text_of(events))),
        None => body is None,
    }
}

/// A `testsuite` tag opens a suite without cases, with the name, time and counts of its
/// attributes: a count is zero where it is missing or no number. Its end closes it, behind the
/// suites that are there. Neither does anything else.
pub proof fn law_suite_element(r: ReportView, e: ElementView, n: nat)
    requires
        e.name == "testsuite"@,
        n <= u32::MAX,
    ensures
        report_spec(r, seq![XmlEventView::Start(e)]) matches Some(r1) && {
            &&& r1 == (ReportView { suite: r1.suite, ..r })
            &&& r1.suite matches Some(s)
            &&& s.cases.len() == 0
            &&& s.name == (match last_attribute(e.attributes, "name"@) {
                Some(name) => name,
                None => Seq::empty(),
            })
            &&& s.time == last_attribute(e.attributes, "time"@)
            &&& last_attribute(e.attributes, "tests"@) is None ==> s.tests == 0
            &&& last_attribute(e.attributes, "failures"@) is None ==> s.failures == 0
            &&& last_attribute(e.attributes, "errors"@) is None ==> s.errors == 0
            &&& last_attribute(e.attributes, "skipped"@) is None ==> s.skipped == 0
            &&& last_attribute(e.attributes, "tests"@) == Some(decimal::digits_spec(n)) ==> s.tests
                == n
            &&& last_attribute(e.attributes, "failures"@) == Some(decimal::digits_spec(n))
                ==> s.failures == n
            &&& last_attribute(e.attributes, "errors"@) == Some(decimal::digits_spec(n))
                ==> s.errors == n
            &&& last_attribute(e.attributes, "skipped"@) == Some(decimal::digits_spec(n))
                ==> s.skipped == n
        },
        report_spec(r, seq![XmlEventView::Empty(e)]) == report_spec(
            r,
            seq![XmlEventView::Start(e)],
        ),
        r.suite matches Some(s) ==> report_spec(r, seq![XmlEventView::End("testsuite"@)]) == Some(
            ReportView { suites: r.suites.push(s), suite: None, ..r },
        ),
        r.suite is None ==> report_spec(r, seq![XmlEventView::End("testsuite"@)]) == Some(r),
{
    reveal_strlit("failure");
    reveal_strlit("error");
    reveal_strlit("testsuite");
    reveal_strlit("testcase");
    assert("failure"@.len() == 7 && "error"@.len() == 5 && "testsuite"@.len() == 9
        && "testcase"@.len() == 8);
    lemma_one(r, XmlEventView::Start(e));
    lemma_one(r, XmlEventView::Empty(e));
    lemma_one(r, XmlEventView::End("testsuite"@));
    decimal::law_unsigned_round_trip(n, u32::MAX as nat);
}

/// A document that comes to its end reports the suites that it closed, in their order, and
/// behind them the one that it left open; where there are none, it reports nothing.
pub proof fn law_document(events: Seq<XmlEventView>)
    requires
        report_spec(empty_report(), events) is Some,
    ensures
        ({
            let r = report_spec(empty_report(), events)->0;
            match suites_of_events_spec(events) {
                Some(all) => all.suites.len() > 0 && (r.suite is None ==> all.suites == r.suites)
                    && (r.suite matches Some(s) ==> all.suites == r.suites.push(s)),
                None => r.suites.len() == 0 && r.suite is None,
            }
        }),
        empty_report().suites.len() == 0 && empty_report().suite is None
            && empty_report().case is None && !empty_report().in_failure
            && !empty_report().in_error && empty_report().body.len() == 0,
{
}

/// A document with one suite and one case in it reports that suite with that case, whatever
/// quiet pieces stand around them.
pub proof fn law_one_case_document(
    prolog: Seq<XmlEventView>,
    s: ElementView,
    ahead: Seq<XmlEventView>,
    c: ElementView,
    inside: Seq<XmlEventView>,
    behind: Seq<XmlEventView>,
)
    requires
        all_quiet(prolog),
        s.name == "testsuite"@,
        all_quiet(ahead),
        c.name == "testcase"@,
        all_inside_case(inside),
        all_quiet(behind),
    ensures
        suites_of_events_spec(
            prolog + seq![XmlEventView::Start(s)] + ahead + case_element(c, inside) + behind
                + seq![XmlEventView::End("testsuite"@)],
        ) matches Some(all) && {
            &&& all.suites.len() == 1
            &&& all.suites[0].name == (match last_attribute(s.attributes, "name"@) {
                Some(name) => name,
                None => Seq::empty(),
            })
            &&& all.suites[0].cases.len() == 1
            &&& all.suites[0].cases[0].name == (match last_attribute(c.attributes, "name"@) {
                Some(name) => name,
                None => Seq::empty(),
            })
            &&& all_quiet(inside) ==> all.suites[0].cases[0].status == TestCaseStatusView::Passed
        },
{
    reveal_strlit("failure");
    reveal_strlit("error");
    reveal_strlit("testsuite");
    reveal_strlit("testcase");
    assert("failure"@.len() == 7 && "error"@.len() == 5 && "testsuite"@.len() == 9
        && "testcase"@.len() == 8);
    let r0 = empty_report();
    lemma_quiet(r0, prolog);
    let r1 = report_spec(r0, prolog)->0;
    let open = XmlEventView::Start(s);
    lemma_one(r1, open);
    let r2 = after_event(r1, open);
    lemma_quiet(r2, ahead);
    let r3 = report_spec(r2, ahead)->0;
    let status = report_spec(after_event(r3, XmlEventView::Start(c)), inside)->0.case->0.status;
    lemma_case_element(r3, c, inside, status);
    if all_quiet(inside) {
        lemma_quiet(after_event(r3, XmlEventView::Start(c)), inside);
    }
    let r4 = report_spec(r3, case_element(c, inside))->0;
    lemma_quiet(r4, behind);
    let r5 = report_spec(r4, behind)->0;
    let close = XmlEventView::End("testsuite"@);
    lemma_one(r5, close);
    lemma_quiet_goes_on(prolog);
    lemma_quiet_goes_on(ahead);
    lemma_quiet_goes_on(behind);
    let chunk = case_element(c, inside);
    assert forall|i: int| 0 <= i < chunk.len() implies !((#[trigger] chunk[i]) is Eof) && !(
    chunk[i] is Error) by {
        if 0 < i < chunk.len() - 1 {
            assert(chunk[i] == inside[i - 1]);
            assert(is_inside_case(inside[i - 1]));
        }
    }
    let d1 = prolog + seq![open];
    let d2 = d1 + ahead;
    let d3 = d2 + chunk;
    let d4 = d3 + behind;
    lemma_read_in_turn(r0, prolog, seq![open]);
    lemma_goes_on(prolog, seq![open]);
    lemma_read_in_turn(r0, d1, ahead);
    lemma_goes_on(d1, ahead);
    lemma_read_in_turn(r0, d2, chunk);
    lemma_goes_on(d2, chunk);
    lemma_read_in_turn(r0, d3, behind);
    lemma_goes_on(d3, behind);
    lemma_read_in_turn(r0, d4, seq![close]);
}

proof fn lemma_quiet_goes_on(events: Seq<XmlEventView>)
    requires
        all_quiet(events),
    ensures
        forall|i: int|
            0 <= i < events.len() ==> !((#[trigger] events[i]) is Eof) && !(events[i] is Error),
{
    assert forall|i: int| 0 <= i < events.len() implies !((#[trigger] events[i]) is Eof) && !(
    events[i] is Error) by {
        assert(is_quiet(events[i]));
    }
}

proof fn lemma_goes_on(a: Seq<XmlEventView>, b: Seq<XmlEventView>)
    requires
        forall|i: int| 0 <= i < a.len() ==> !((#[trigger] a[i]) is Eof) && !(a[i] is Error),
        forall|i: int| 0 <= i < b.len() ==> !((#[trigger] b[i]) is Eof) && !(b[i] is Error),
    ensures
        forall|i: int|
            0 <= i < (a + b).len() ==> !((#[trigger] (a + b)[i]) is Eof) && !((a + b)[i] is Error),
{
    assert forall|i: int| 0 <= i < (a + b).len() implies !((#[trigger] (a + b)[i]) is Eof) && !((a
        + b)[i] is Error) by {
        if i < a.len() {
            assert((a + b)[i] == a[i]);
        } else {
            assert((a + b)[i] == b[i - a.len()]);
        }
    }
}

/// Whether the attribute at that place is well formed and has that name.
pub open spec fn is_attribute(
    attributes: Seq<Option<(Seq<char>, Seq<char>)>>,
    i: int,
    name: Seq<char>,
) -> bool {
    0 <= i < attributes.len() && (attributes[i] matches Some((key, _)) && key == name)
}

pub open spec fn attribute_value(attribute: Option<(Seq<char>, Seq<char>)>) -> Seq<char> {
    match attribute {
        Some((_, value)) => value,
        None => Seq::empty(),
    }
}

/// Of the attributes with a name the last counts for a suite or a case, and the first for a
/// message; there is none only where no well-formed attribute has that name.
pub proof fn law_attributes(
    attributes: Seq<Option<(Seq<char>, Seq<char>)>>,
    i: int,
    name: Seq<char>,
)
    ensures
        last_attribute(attributes, name) is None <==> forall|j: int|
            !#[trigger] is_attribute(attributes, j, name),
        first_attribute(attributes, name) is None <==> forall|j: int|
            !#[trigger] is_attribute(attributes, j, name),
        is_attribute(attributes, i, name) && (forall|j: int|
            i < j ==> !#[trigger] is_attribute(attributes, j, name)) ==> last_attribute(
            attributes,
            name,
        ) == Some(attribute_value(attributes[i])),
        is_attribute(attributes, i, name) && (forall|j: int|
            j < i ==> !#[trigger] is_attribute(attributes, j, name)) ==> first_attribute(
            attributes,
            name,
        ) == Some(attribute_value(attributes[i])),
    decreases attributes.len(),
{
    if attributes.len() > 0 {
        let front = attributes.drop_last();
        let rest = attributes.drop_first();
        law_attributes(front, i, name);
        law_attributes(rest, i - 1, name);
        assert forall|j: int| j < attributes.len() - 1 implies is_attribute(attributes, j, name)
            == #[trigger] is_attribute(front, j, name) by {}
        assert forall|j: int| 0 < j implies is_attribute(attributes, j, name)
            == #[trigger] is_attribute(rest, j - 1, name) by {}
        assert(is_attribute(attributes, attributes.len() - 1, name) == (attributes.last() matches Some(
            (key, _),
        ) && key == name));
        assert(is_attribute(attributes, 0, name) == (attributes[0] matches Some((key, _)) && key
            == name));
        if last_attribute(attributes, name) is None {
            assert forall|j: int| !#[trigger] is_attribute(attributes, j, name) by {
                if 0 <= j < attributes.len() - 1 {
                    assert(!is_attribute(front, j, name));
                }
            }
        } else if forall|j: int| !#[trigger] is_attribute(attributes, j, name) {
            assert forall|j: int| !#[trigger] is_attribute(front, j, name) by {
                if 0 <= j < front.len() {
                    assert(!is_attribute(attributes, j, name));
                }
            }
        }
        if first_attribute(attributes, name) is None {
            assert forall|j: int| !#[trigger] is_attribute(attributes, j, name) by {
                if 0 < j < attributes.len() {
                    assert(!is_attribute(rest, j - 1, name));
                }
            }
        } else if forall|j: int| !#[trigger] is_attribute(attributes, j, name) {
            assert forall|j: int| !#[trigger] is_attribute(rest, j, name) by {
                if 0 <= j < rest.len() {
                    assert(!is_attribute(attributes, j + 1, name));
                }
            }
        }
        if is_attribute(attributes, i, name) && (forall|j: int|
            i < j ==> !#[trigger] is_attribute(attributes, j, name)) && i < attributes.len() - 1 {
            assert(!is_attribute(attributes, attributes.len() - 1, name));
            assert(is_attribute(front, i, name));
            assert forall|j: int| i < j implies !#[trigger] is_attribute(front, j, name) by {
                if j < front.len() {
                    assert(!is_attribute(attributes, j, name));
                }
            }
        }
        if is_attribute(attributes, i, name) && (forall|j: int|
            j < i ==> !#[trigger] is_attribute(attributes, j, name)) && 0 < i {
            assert(!is_attribute(attributes, 0, name));
            assert(is_attribute(rest, i - 1, name));
            assert forall|j: int| j < i - 1 implies !#[trigger] is_attribute(rest, j, name) by {
                if 0 <= j {
                    assert(!is_attribute(attributes, j + 1, name));
                }
            }
        }
    }
}

/// Every suite counts in each total once, with its own count of that kind.
pub proof fn law_totals(all: Seq<TestSuiteView>, s: TestSuiteView)
    ensures
        ({
            let none = TestSuitesView { suites: Seq::empty() };
            let before = TestSuitesView { suites: all };
            let more = TestSuitesView { suites: all.push(s) };
            &&& none.total_tests() == 0 && none.total_failures() == 0 && none.total_errors() == 0
                && none.total_skipped() == 0
            &&& more.total_tests() == before.total_tests() + s.tests
            &&& more.total_failures() == before.total_failures() + s.failures
            &&& more.total_errors() == before.total_errors() + s.errors
            &&& more.total_skipped() == before.total_skipped() + s.skipped
        }),
{
    let more = all.push(s);
    let tests = |x: TestSuiteView| x.count(Counted::Tests);
    let failures = |x: TestSuiteView| x.count(Counted::Failures);
    let errors = |x: TestSuiteView| x.count(Counted::Errors);
    let skipped = |x: TestSuiteView| x.count(Counted::Skipped);
    assert(more.map_values(tests).drop_last() =~= all.map_values(tests));
    assert(more.map_values(failures).drop_last() =~= all.map_values(failures));
    assert(more.map_values(errors).drop_last() =~= all.map_values(errors));
    assert(more.map_values(skipped).drop_last() =~= all.map_values(skipped));
}

/// All tests passed exactly where no suite counts a failure or an error, however many tests
/// were skipped.
pub proof fn law_all_passed(all: Seq<TestSuiteView>)
    ensures
        (TestSuitesView { suites: all }).all_passed() <==> forall|i: int|
            0 <= i < all.len() ==> (#[trigger] all[i]).failures == 0 && all[i].errors == 0,
    decreases all.len(),
{
    if all.len() == 0 {
        let suites = TestSuitesView { suites: all };
        assert(suites.total_failures() == 0 && suites.total_errors() == 0) by {
            assert(all =~= Seq::empty());
            law_totals(all, arbitrary());
        }
    } else {
        let front = all.drop_last();
        law_all_passed(front);
        law_totals(front, all.last());
        assert(front.push(all.last()) =~= all);
        assert(all[all.len() - 1] == all.last());
        if forall|i: int| 0 <= i < front.len() ==> (#[trigger] front[i]).failures == 0
            && front[i].errors == 0 {
            if all.last().failures == 0 && all.last().errors == 0 {
                assert forall|i: int| 0 <= i < all.len() implies (#[trigger] all[i]).failures == 0
                    && all[i].errors == 0 by {
                    if i < front.len() {
                        assert(all[i] == front[i]);
                    }
                }
            }
        } else {
            let i = choose|i: int|
                0 <= i < front.len() && !((#[trigger] front[i]).failures == 0 && front[i].errors
                    == 0);
            assert(all[i] == front[i]);
        }
    }
}

} // verus!

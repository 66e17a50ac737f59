//! Jobs as the cluster describes them.

use vstd::prelude::*;

use crate::dup::text_or_empty;
use crate::json::{Json, JsonView};
use crate::sorted_map::SortedMap;
use crate::text;
use crate::time::Timestamp;

verus! {

/// A resource that a job belongs to.
#[derive(Debug)]
pub struct OwnerReference {
    pub api_version: String,
    pub kind: String,
    pub name: String,
    pub uid: String,
    pub controller: Option<bool>,
    pub block_owner_deletion: Option<bool>,
}

/// What a [`OwnerReference`] holds.
#[verifier::ext_equal]
pub struct OwnerReferenceView {
    pub api_version: Seq<char>,
    pub kind: Seq<char>,
    pub name: Seq<char>,
    pub uid: Seq<char>,
    pub controller: Option<bool>,
    pub block_owner_deletion: Option<bool>,
}

impl DeepView for OwnerReference {
    type V = OwnerReferenceView;

    open spec fn deep_view(&self) -> OwnerReferenceView {
        OwnerReferenceView {
            api_version: self.api_version.deep_view(),
            kind: self.kind.deep_view(),
            name: self.name.deep_view(),
            uid: self.uid.deep_view(),
            controller: self.controller.deep_view(),
            block_owner_deletion: self.block_owner_deletion.deep_view(),
        }
    }
}

/// What every resource of the cluster carries.
#[derive(Debug)]
pub struct ObjectMeta {
    pub name: Option<String>,
    pub generate_name: Option<String>,
    pub namespace: Option<String>,
    pub uid: Option<String>,
    pub creation_timestamp: Option<Timestamp>,
    pub annotations: Option<SortedMap<String>>,
    pub owner_references: Option<Vec<OwnerReference>>,
}

/// What a [`ObjectMeta`] holds.
#[verifier::ext_equal]
pub struct ObjectMetaView {
    pub name: Option<Seq<char>>,
    pub generate_name: Option<Seq<char>>,
    pub namespace: Option<Seq<char>>,
    pub uid: Option<Seq<char>>,
    pub creation_timestamp: Option<Timestamp>,
    pub annotations: Option<Map<Seq<char>, Seq<char>>>,
    pub owner_references: Option<Seq<OwnerReferenceView>>,
}

impl DeepView for ObjectMeta {
    type V = ObjectMetaView;

    open spec fn deep_view(&self) -> ObjectMetaView {
        ObjectMetaView {
            name: self.name.deep_view(),
            generate_name: self.generate_name.deep_view(),
            namespace: self.namespace.deep_view(),
            uid: self.uid.deep_view(),
            creation_timestamp: self.creation_timestamp.deep_view(),
            annotations: self.annotations.deep_view(),
            owner_references: self.owner_references.deep_view(),
        }
    }
}

/// A condition that the cluster reports of a job.
#[derive(Debug)]
pub struct JobCondition {
    pub type_: String,
    pub status: String,
    pub last_transition_time: Option<Timestamp>,
}

/// What a [`JobCondition`] holds.
#[verifier::ext_equal]
pub struct JobConditionView {
    pub type_: Seq<char>,
    pub status: Seq<char>,
    pub last_transition_time: Option<Timestamp>,
}

impl DeepView for JobCondition {
    type V = JobConditionView;

    open spec fn deep_view(&self) -> JobConditionView {
        JobConditionView {
            type_: self.type_.deep_view(),
            status: self.status.deep_view(),
            last_transition_time: self.last_transition_time.deep_view(),
        }
    }
}

/// How far a job has come.
#[derive(Debug)]
pub struct JobStatus {
    pub start_time: Option<Timestamp>,
    pub completion_time: Option<Timestamp>,
    pub conditions: Option<Vec<JobCondition>>,
    pub active: Option<i32>,
    pub ready: Option<i32>,
    pub succeeded: Option<i32>,
    pub failed: Option<i32>,
}

/// What a [`JobStatus`] holds.
#[verifier::ext_equal]
pub struct JobStatusView {
    pub start_time: Option<Timestamp>,
    pub completion_time: Option<Timestamp>,
    pub conditions: Option<Seq<JobConditionView>>,
    pub active: Option<i32>,
    pub ready: Option<i32>,
    pub succeeded: Option<i32>,
    pub failed: Option<i32>,
}

impl DeepView for JobStatus {
    type V = JobStatusView;

    open spec fn deep_view(&self) -> JobStatusView {
        JobStatusView {
            start_time: self.start_time.deep_view(),
            completion_time: self.completion_time.deep_view(),
            conditions: self.conditions.deep_view(),
            active: self.active.deep_view(),
            ready: self.ready.deep_view(),
            succeeded: self.succeeded.deep_view(),
            failed: self.failed.deep_view(),
        }
    }
}

/// What a job runs.
#[derive(Debug)]
pub struct JobSpec {
    pub pod_spec: Json,
    pub backoff_limit: Option<i32>,
}

/// What a [`JobSpec`] holds.
#[verifier::ext_equal]
pub struct JobSpecView {
    pub pod_spec: JsonView,
    pub backoff_limit: Option<i32>,
}

impl DeepView for JobSpec {
    type V = JobSpecView;

    open spec fn deep_view(&self) -> JobSpecView {
        JobSpecView {
            pod_spec: self.pod_spec.deep_view(),
            backoff_limit: self.backoff_limit.deep_view(),
        }
    }
}

/// A job of the cluster.
#[derive(Debug)]
pub struct Job {
    pub metadata: ObjectMeta,
    pub spec: Option<JobSpec>,
    pub status: Option<JobStatus>,
}

/// What a [`Job`] holds.
#[verifier::ext_equal]
pub struct JobView {
    pub metadata: ObjectMetaView,
    pub spec: Option<JobSpecView>,
    pub status: Option<JobStatusView>,
}

impl DeepView for Job {
    type V = JobView;

    open spec fn deep_view(&self) -> JobView {
        JobView {
            metadata: self.metadata.deep_view(),
            spec: self.spec.deep_view(),
            status: self.status.deep_view(),
        }
    }
}

impl ObjectMetaView {
    /// The annotation under `key`.
    pub open spec fn annotation(self, key: Seq<char>) -> Option<Seq<char>> {
        match self.annotations {
            Some(m) => if m.dom().contains(key) {
                Some(m[key])
            } else {
                None
            },
            None => None,
        }
    }

    /// The name, or else what the name is to begin with, or else the empty text.
    pub open spec fn name_any(self) -> Seq<char> {
        match self.name {
            Some(n) => n,
            None => match self.generate_name {
                Some(n) => n,
                None => Seq::empty(),
            },
        }
    }

    /// The namespace, or the empty text where there is none.
    pub open spec fn namespace_or_empty(self) -> Seq<char> {
        match self.namespace {
            Some(n) => n,
            None => Seq::empty(),
        }
    }

    /// The unique identifier, or the empty text where there is none.
    pub open spec fn uid_or_empty(self) -> Seq<char> {
        match self.uid {
            Some(n) => n,
            None => Seq::empty(),
        }
    }

    /// Whether one of the owners has the identifier `uid`.
    pub open spec fn owned_by(self, uid: Seq<char>) -> bool {
        self.owner_references matches Some(refs) && exists|i: int|
            0 <= i < refs.len() && (#[trigger] refs[i]).uid == uid
    }
}

impl ObjectMeta {
    /// The name, or else what the name is to begin with, or else the empty text.
    pub fn name_any(&self) -> (r: String)
        ensures
            r@ == self.deep_view().name_any(),
    {
        match &self.name {
            Some(n) => n.clone(),
            None => text_or_empty(&self.generate_name),
        }
    }

    /// The annotation under `key`.
    pub fn annotation(&self, key: &str) -> (r: Option<String>)
        ensures
            r.deep_view() == self.deep_view().annotation(key@),
    {
        match &self.annotations {
            Some(m) => match m.get(key) {
                Some(v) => Some(v.clone()),
                None => None,
            },
            None => None,
        }
    }

    /// Whether one of the owners has the identifier `uid`.
    pub fn owned_by(&self, uid: &str) -> (r: bool)
        ensures
            r == self.deep_view().owned_by(uid@),
    {
        match &self.owner_references {
            Some(refs) => {
                for i in 0..refs.len()
                    invariant
                        forall|j: int| 0 <= j < i ==> (#[trigger] refs@[j]).uid@ != uid@,
                        self.owner_references == Some(*refs),
                {
                    if text::eq(refs[i].uid.as_str(), uid) {
                        assert(refs.deep_view()[i as int].uid == uid@);
                        return true;
                    }
                }
                assert forall|j: int| 0 <= j < refs.deep_view().len() implies (
                #[trigger] refs.deep_view()[j]).uid != uid@ by {
                    assert(refs@[j].uid@ != uid@);
                }
                false
            },
            None => false,
        }
    }
}

/// How a job ended.
#[derive(Clone, Copy, Debug, PartialEq, Eq, Structural)]
pub enum Verdict {
    Succeeded,
    Failed,
}

impl JobConditionView {
    /// Whether the condition is of the given kind and holds.
    pub open spec fn holds(self, kind: Seq<char>) -> bool {
        self.type_ == kind && self.status == "True"@
    }
}

/// The verdict of the first condition that gives one.
pub open spec fn verdict_spec(conditions: Seq<JobConditionView>) -> Option<Verdict>
    decreases conditions.len(),
{
    if conditions.len() == 0 {
        None
    } else if conditions[0].holds("Complete"@) {
        Some(Verdict::Succeeded)
    } else if conditions[0].holds("Failed"@) {
        Some(Verdict::Failed)
    } else {
        verdict_spec(conditions.drop_first())
    }
}

/// The moment of the first failure that has one.
pub open spec fn failure_time_spec(conditions: Seq<JobConditionView>) -> Option<Timestamp>
    decreases conditions.len(),
{
    if conditions.len() == 0 {
        None
    } else if conditions[0].holds("Failed"@) && conditions[0].last_transition_time is Some {
        conditions[0].last_transition_time
    } else {
        failure_time_spec(conditions.drop_first())
    }
}

/// Whether one of the conditions is a failure.
pub open spec fn any_failed_spec(conditions: Seq<JobConditionView>) -> bool {
    exists|i: int| 0 <= i < conditions.len() && (#[trigger] conditions[i]).holds("Failed"@)
}

impl JobStatusView {
    pub open spec fn conditions_or_none(self) -> Seq<JobConditionView> {
        match self.conditions {
            Some(list) => list,
            None => Seq::empty(),
        }
    }

    /// Whether the count is there and above zero.
    pub open spec fn some_active(self) -> bool {
        self.active matches Some(n) && n > 0
    }

    pub open spec fn some_ready(self) -> bool {
        self.ready matches Some(n) && n > 0
    }

    /// Whether a pod of the job has ended.
    pub open spec fn some_ended(self) -> bool {
        (self.succeeded matches Some(n) && n > 0) || (self.failed matches Some(n) && n > 0)
    }
}

impl JobView {
    /// How the job ended, where its conditions say.
    pub open spec fn verdict(self) -> Option<Verdict> {
        match self.status {
            Some(status) => verdict_spec(status.conditions_or_none()),
            None => None,
        }
    }

    /// When the job ended: the completion time, or else the moment of a failure.
    pub open spec fn terminal_time(self) -> Option<Timestamp> {
        match self.status {
            Some(status) => if status.completion_time is Some {
                status.completion_time
            } else {
                failure_time_spec(status.conditions_or_none())
            },
            None => None,
        }
    }

    /// Whether the job has ended: it has a completion time or has failed.
    pub open spec fn is_terminal(self) -> bool {
        self.status matches Some(status) && (status.completion_time is Some || any_failed_spec(
            status.conditions_or_none(),
        ))
    }

    /// The moment at which the job began.
    pub open spec fn start_time(self) -> Option<Timestamp> {
        match self.status {
            Some(status) => status.start_time,
            None => None,
        }
    }

    /// The owner of the given kind that is listed first.
    pub open spec fn template_owner(self) -> Option<OwnerReferenceView> {
        match self.metadata.owner_references {
            Some(refs) => first_owner(refs),
            None => None,
        }
    }
}

/// The first owner that is a template.
pub open spec fn first_owner(refs: Seq<OwnerReferenceView>) -> Option<OwnerReferenceView>
    decreases refs.len(),
{
    if refs.len() == 0 {
        None
    } else if refs[0].kind == "JobTemplate"@ {
        Some(refs[0])
    } else {
        first_owner(refs.drop_first())
    }
}

impl JobCondition {
    /// Whether the condition is of the given kind and holds.
    pub fn holds(&self, kind: &str) -> (r: bool)
        ensures
            r == self.deep_view().holds(kind@),
    {
        text::eq(self.type_.as_str(), kind) && text::eq(self.status.as_str(), "True")
    }
}

fn positive(n: Option<i32>) -> (r: bool)
    ensures
        r == (n matches Some(k) && k > 0),
{
    match n {
        Some(k) => k > 0,
        None => false,
    }
}

impl JobStatus {
    pub fn some_active(&self) -> (r: bool)
        ensures
            r == self.deep_view().some_active(),
    {
        positive(self.active)
    }

    pub fn some_ready(&self) -> (r: bool)
        ensures
            r == self.deep_view().some_ready(),
    {
        positive(self.ready)
    }

    pub fn some_ended(&self) -> (r: bool)
        ensures
            r == self.deep_view().some_ended(),
    {
        positive(self.succeeded) || positive(self.failed)
    }
}

fn verdict_of(conditions: &Vec<JobCondition>) -> (r: Option<Verdict>)
    ensures
        r == verdict_spec(conditions.deep_view()),
{
    let ghost all = conditions.deep_view();
    assert(all.skip(0) =~= all);
    for i in 0..conditions.len()
        invariant
            all == conditions.deep_view(),
            verdict_spec(all) == verdict_spec(all.skip(i as int)),
    {
        assert(all.skip(i as int)[0] == conditions@[i as int].deep_view());
        assert(all.skip(i as int).drop_first() =~= all.skip(i + 1));
        if conditions[i].holds("Complete") {
            return Some(Verdict::Succeeded);
        }
        if conditions[i].holds("Failed") {
            return Some(Verdict::Failed);
        }
    }
    None
}

fn failure_time(conditions: &Vec<JobCondition>) -> (r: Option<Timestamp>)
    ensures
        r == failure_time_spec(conditions.deep_view()),
{
    let ghost all = conditions.deep_view();
    assert(all.skip(0) =~= all);
    for i in 0..conditions.len()
        invariant
            all == conditions.deep_view(),
            failure_time_spec(all) == failure_time_spec(all.skip(i as int)),
    {
        assert(all.skip(i as int)[0] == conditions@[i as int].deep_view());
        assert(all.skip(i as int).drop_first() =~= all.skip(i + 1));
        if conditions[i].holds("Failed") {
            if let Some(t) = conditions[i].last_transition_time {
                return Some(t);
            }
        }
    }
    None
}

fn any_failed(conditions: &Vec<JobCondition>) -> (r: bool)
    ensures
        r == any_failed_spec(conditions.deep_view()),
{
    let ghost all = conditions.deep_view();
    for i in 0..conditions.len()
        invariant
            all == conditions.deep_view(),
            forall|j: int| 0 <= j < i ==> !(#[trigger] all[j]).holds("Failed"@),
    {
        assert(all[i as int] == conditions@[i as int].deep_view());
        if conditions[i].holds("Failed") {
            return true;
        }
    }
    false
}

impl Job {
    /// How the job ended, where its conditions say.
    pub fn verdict(&self) -> (r: Option<Verdict>)
        ensures
            r == self.deep_view().verdict(),
    {
        match &self.status {
            Some(status) => match &status.conditions {
                Some(conditions) => verdict_of(conditions),
                None => None,
            },
            None => None,
        }
    }

    /// When the job ended.
    pub fn terminal_time(&self) -> (r: Option<Timestamp>)
        ensures
            r == self.deep_view().terminal_time(),
    {
        match &self.status {
            Some(status) => match status.completion_time {
                Some(t) => Some(t),
                None => match &status.conditions {
                    Some(conditions) => failure_time(conditions),
                    None => None,
                },
            },
            None => None,
        }
    }

    /// Whether the job has ended.
    pub fn is_terminal(&self) -> (r: bool)
        ensures
            r == self.deep_view().is_terminal(),
    {
        match &self.status {
            Some(status) => {
                if status.completion_time.is_some() {
                    true
                } else {
                    match &status.conditions {
                        Some(conditions) => any_failed(conditions),
                        None => false,
                    }
                }
            },
            None => false,
        }
    }

    /// The moment at which the job began.
    pub fn start_time(&self) -> (r: Option<Timestamp>)
        ensures
            r == self.deep_view().start_time(),
    {
        match &self.status {
            Some(status) => status.start_time,
            None => None,
        }
    }

    /// The first of its owners that is a template.
    pub fn template_owner(&self) -> (r: Option<&OwnerReference>)
        ensures
            match r {
                Some(owner) => self.deep_view().template_owner() == Some(owner.deep_view()),
                None => self.deep_view().template_owner() is None,
            },
    {
        match &self.metadata.owner_references {
            Some(refs) => {
                let ghost all = refs.deep_view();
                assert(all.skip(0) =~= all);
                for i in 0..refs.len()
                    invariant
                        all == refs.deep_view(),
                        self.metadata.owner_references == Some(*refs),
                        first_owner(all) == first_owner(all.skip(i as int)),
                {
                    assert(all.skip(i as int)[0] == refs@[i as int].deep_view());
                    assert(all.skip(i as int).drop_first() =~= all.skip(i + 1));
                    if text::eq(refs[i].kind.as_str(), "JobTemplate") {
                        return Some(&refs[i]);
                    }
                }
                None
            },
            None => None,
        }
    }
}

/// A job with a moment at which it ended has ended.
pub proof fn law_ended_at_a_moment(job: JobView)
    requires
        job.terminal_time() is Some,
    ensures
        job.is_terminal(),
{
    let status = job.status->0;
    if status.completion_time is None {
        lemma_failure_time(status.conditions_or_none());
    }
}

proof fn lemma_failure_time(conditions: Seq<JobConditionView>)
    ensures
        failure_time_spec(conditions) is Some ==> any_failed_spec(conditions),
    decreases conditions.len(),
{
    if conditions.len() > 0 {
        let rest = conditions.drop_first();
        lemma_failure_time(rest);
        if failure_time_spec(conditions) is Some {
            if conditions[0].holds("Failed"@) {
            } else {
                let i = choose|i: int|
                    0 <= i < rest.len() && (#[trigger] rest[i]).holds("Failed"@);
                assert(conditions[i + 1].holds("Failed"@));
            }
        }
    }
}

/// Whether a condition of that kind is true.
pub open spec fn is_true(c: JobConditionView, kind: Seq<char>) -> bool {
    c.type_ == kind && c.status == "True"@
}

/// The conditions that the cluster reports of a job.
pub open spec fn reported(job: JobView) -> Seq<JobConditionView> {
    match job.status {
        Some(status) => match status.conditions {
            Some(list) => list,
            None => Seq::empty(),
        },
        None => Seq::empty(),
    }
}

/// A job succeeded or failed by the first of its conditions that is a true `Complete` or a
/// true `Failed`, and by that alone; where there is none, it is not known to have ended.
pub proof fn law_verdict(job: JobView)
    ensures
        match job.verdict() {
            Some(v) => exists|i: int|
                0 <= i < reported(job).len() && (if v == Verdict::Succeeded {
                    is_true(#[trigger] reported(job)[i], "Complete"@)
                } else {
                    is_true(reported(job)[i], "Failed"@)
                }) && forall|j: int|
                    0 <= j < i ==> !is_true(#[trigger] reported(job)[j], "Complete"@) && !is_true(
                        reported(job)[j],
                        "Failed"@,
                    ),
            None => forall|j: int|
                0 <= j < reported(job).len() ==> !is_true(
                    #[trigger] reported(job)[j],
                    "Complete"@,
                ) && !is_true(reported(job)[j], "Failed"@),
        },
{
    lemma_verdict_spec(reported(job));
    if job.verdict() is Some {
        let all = reported(job);
        let i = choose|i: int| #[trigger] decides(all, i, job.verdict()->0);
        assert(decides(all, i, job.verdict()->0));
    }
}

spec fn decides(all: Seq<JobConditionView>, i: int, v: Verdict) -> bool {
    0 <= i < all.len() && (if v == Verdict::Succeeded {
        is_true(all[i], "Complete"@)
    } else {
        is_true(all[i], "Failed"@)
    }) && forall|j: int|
        0 <= j < i ==> !is_true(#[trigger] all[j], "Complete"@) && !is_true(all[j], "Failed"@)
}

proof fn lemma_verdict_spec(all: Seq<JobConditionView>)
    ensures
        match verdict_spec(all) {
            Some(v) => exists|i: int| #[trigger] decides(all, i, v),
            None => forall|j: int|
                0 <= j < all.len() ==> !is_true(#[trigger] all[j], "Complete"@) && !is_true(
                    all[j],
                    "Failed"@,
                ),
        },
    decreases all.len(),
{
    if all.len() > 0 {
        let rest = all.drop_first();
        lemma_verdict_spec(rest);
        if is_true(all[0], "Complete"@) {
            assert(decides(all, 0, Verdict::Succeeded));
        } else if is_true(all[0], "Failed"@) {
            reveal_strlit("Complete");
            reveal_strlit("Failed");
            assert(decides(all, 0, Verdict::Failed));
        } else {
            match verdict_spec(rest) {
                Some(v) => {
                    let i = choose|i: int| #[trigger] decides(rest, i, v);
                    assert forall|j: int| 0 <= j < i + 1 implies !is_true(
                        #[trigger] all[j],
                        "Complete"@,
                    ) && !is_true(all[j], "Failed"@) by {
                        if j > 0 {
                            assert(all[j] == rest[j - 1]);
                        }
                    }
                    assert(all[i + 1] == rest[i]);
                    assert(decides(all, i + 1, v));
                },
                None => {
                    assert forall|j: int| 0 <= j < all.len() implies !is_true(
                        #[trigger] all[j],
                        "Complete"@,
                    ) && !is_true(all[j], "Failed"@) by {
                        if j > 0 {
                            assert(all[j] == rest[j - 1]);
                        }
                    }
                },
            }
        }
    }
}

/// Whether a job ended at a moment: it completed then; or it did not complete, and then the
/// first of its true `Failed` conditions that has a moment came about.
pub open spec fn ended_at(job: JobView, t: Timestamp) -> bool {
    job.status matches Some(status) && (status.completion_time == Some(t) || (
    status.completion_time is None && exists|i: int|
        0 <= i < reported(job).len() && is_failure_at(#[trigger] reported(job)[i], t) && forall|
            j: int,
        |
            0 <= j < i ==> !(is_true(#[trigger] reported(job)[j], "Failed"@) && reported(
                job,
            )[j].last_transition_time is Some)))
}

pub open spec fn is_failure_at(c: JobConditionView, t: Timestamp) -> bool {
    is_true(c, "Failed"@) && c.last_transition_time == Some(t)
}

/// The end of a job is the moment at which it completed, or else that of its first failure
/// that has one; where there is neither, it has no end.
pub proof fn law_terminal_time(job: JobView)
    ensures
        match job.terminal_time() {
            Some(t) => ended_at(job, t),
            None => forall|t: Timestamp| !ended_at(job, t),
        },
        forall|t: Timestamp| ended_at(job, t) ==> job.terminal_time() == Some(t),
{
    let all = reported(job);
    lemma_failure_moment(all);
    assert forall|t: Timestamp| ended_at(job, t) implies job.terminal_time() == Some(t) by {
        if job.status->0.completion_time is None {
            let i = choose|i: int|
                0 <= i < all.len() && is_failure_at(#[trigger] all[i], t) && forall|j: int|
                    0 <= j < i ==> !(is_true(#[trigger] all[j], "Failed"@)
                        && all[j].last_transition_time is Some);
            lemma_first_failure(all, i, t);
        }
    }
    if job.terminal_time() is Some && job.status->0.completion_time is None {
        let t = failure_time_spec(all)->0;
        let i = choose|i: int|
            0 <= i < all.len() && is_failure_at(#[trigger] all[i], t) && forall|j: int|
                0 <= j < i ==> !(is_true(#[trigger] all[j], "Failed"@)
                    && all[j].last_transition_time is Some);
        assert(ended_at(job, t));
    }
}

proof fn lemma_first_failure(all: Seq<JobConditionView>, i: int, t: Timestamp)
    requires
        0 <= i < all.len(),
        is_failure_at(all[i], t),
        forall|j: int|
            0 <= j < i ==> !(is_true(#[trigger] all[j], "Failed"@)
                && all[j].last_transition_time is Some),
    ensures
        failure_time_spec(all) == Some(t),
    decreases all.len(),
{
    if i > 0 {
        let rest = all.drop_first();
        assert(!(is_true(all[0], "Failed"@) && all[0].last_transition_time is Some));
        assert forall|j: int| 0 <= j < i - 1 implies !(is_true(#[trigger] rest[j], "Failed"@)
            && rest[j].last_transition_time is Some) by {
            assert(rest[j] == all[j + 1]);
        }
        lemma_first_failure(rest, i - 1, t);
    }
}

proof fn lemma_failure_moment(all: Seq<JobConditionView>)
    ensures
        failure_time_spec(all) matches Some(t) ==> exists|i: int|
            0 <= i < all.len() && is_failure_at(#[trigger] all[i], t) && forall|j: int|
                0 <= j < i ==> !(is_true(#[trigger] all[j], "Failed"@)
                    && all[j].last_transition_time is Some),
    decreases all.len(),
{
    if all.len() > 0 {
        let rest = all.drop_first();
        lemma_failure_moment(rest);
        if let Some(t) = failure_time_spec(all) {
            if is_true(all[0], "Failed"@) && all[0].last_transition_time is Some {
                assert(is_failure_at(all[0], t));
            } else {
                let i = choose|i: int|
                    0 <= i < rest.len() && is_failure_at(#[trigger] rest[i], t) && forall|j: int|
                        0 <= j < i ==> !(is_true(#[trigger] rest[j], "Failed"@)
                            && rest[j].last_transition_time is Some);
                assert forall|j: int| 0 <= j < i + 1 implies !(is_true(
                    #[trigger] all[j],
                    "Failed"@,
                ) && all[j].last_transition_time is Some) by {
                    if j > 0 {
                        assert(all[j] == rest[j - 1]);
                    }
                }
                assert(is_failure_at(all[i + 1], t));
            }
        }
    }
}

/// A job has ended exactly where it has a completion time or a true `Failed` condition.
pub proof fn law_is_terminal(job: JobView)
    ensures
        job.is_terminal() <==> (job.status matches Some(status) && (status.completion_time is Some
            || exists|i: int|
            0 <= i < reported(job).len() && is_true(#[trigger] reported(job)[i], "Failed"@))),
{
    if job.status is Some {
        let all = reported(job);
        if job.is_terminal() && job.status->0.completion_time is None {
            let i = choose|i: int|
                0 <= i < all.len() && (#[trigger] all[i]).holds("Failed"@);
            assert(is_true(all[i], "Failed"@));
        }
        if exists|i: int| 0 <= i < all.len() && is_true(#[trigger] all[i], "Failed"@) {
            let i = choose|i: int| 0 <= i < all.len() && is_true(#[trigger] all[i], "Failed"@);
            assert(all[i].holds("Failed"@));
        }
    }
}

/// The owners of a job.
pub open spec fn owners_of(job: JobView) -> Seq<OwnerReferenceView> {
    match job.metadata.owner_references {
        Some(list) => list,
        None => Seq::empty(),
    }
}

/// Whether an owner stands at that place and is the first that is a `JobTemplate`.
pub open spec fn is_first_template(owners: Seq<OwnerReferenceView>, i: int) -> bool {
    &&& 0 <= i < owners.len()
    &&& owners[i].kind == "JobTemplate"@
    &&& forall|j: int| 0 <= j < i ==> (#[trigger] owners[j]).kind != "JobTemplate"@
}

/// The template of a job is the first of its owners that is a `JobTemplate`; a job without
/// such an owner has none.
pub proof fn law_template_owner(job: JobView)
    ensures
        match job.template_owner() {
            Some(owner) => exists|i: int| #[trigger]
                is_first_template(owners_of(job), i) && owners_of(job)[i] == owner,
            None => forall|j: int|
                0 <= j < owners_of(job).len() ==> (#[trigger] owners_of(job)[j]).kind
                    != "JobTemplate"@,
        },
        forall|i: int| #[trigger]
            is_first_template(owners_of(job), i) ==> job.template_owner() == Some(
                owners_of(job)[i],
            ),
{
    let refs = owners_of(job);
    lemma_first_owner(refs);
    assert forall|i: int| #[trigger] is_first_template(refs, i) implies job.template_owner()
        == Some(refs[i]) by {
        assert(refs[i].kind == "JobTemplate"@);
        assert(first_owner(refs) is Some);
        let k = choose|k: int| #[trigger] is_first_template(refs, k) && refs[k] == first_owner(refs)->0;
        assert(refs[k].kind == "JobTemplate"@);
        assert(i == k);
    }
}

proof fn lemma_first_owner(refs: Seq<OwnerReferenceView>)
    ensures
        match first_owner(refs) {
            Some(owner) => exists|i: int| #[trigger] is_first_template(refs, i) && refs[i] == owner,
            None => forall|j: int|
                0 <= j < refs.len() ==> (#[trigger] refs[j]).kind != "JobTemplate"@,
        },
    decreases refs.len(),
{
    if refs.len() > 0 {
        let rest = refs.drop_first();
        lemma_first_owner(rest);
        if refs[0].kind == "JobTemplate"@ {
            assert(is_first_template(refs, 0));
        } else {
            if let Some(owner) = first_owner(rest) {
                let i = choose|i: int| #[trigger] is_first_template(rest, i) && rest[i] == owner;
                assert forall|j: int| 0 <= j < i + 1 implies (#[trigger] refs[j]).kind
                    != "JobTemplate"@ by {
                    if j > 0 {
                        assert(refs[j] == rest[j - 1]);
                    }
                }
                assert(refs[i + 1] == rest[i]);
                assert(is_first_template(refs, i + 1));
            } else {
                assert forall|j: int| 0 <= j < refs.len() implies (#[trigger] refs[j]).kind
                    != "JobTemplate"@ by {
                    if j > 0 {
                        assert(refs[j] == rest[j - 1]);
                    }
                }
            }
        }
    }
}

/// An object is owned under an identifier exactly where one of its owners has it, wherever that
/// stands in the list; one without owners is owned by none.
pub proof fn law_owned_by(meta: ObjectMetaView, refs: Seq<OwnerReferenceView>, i: int, uid: Seq<char>)
    ensures
        meta.owner_references is None ==> !meta.owned_by(uid),
        meta.owner_references == Some(refs) ==> {
            &&& 0 <= i < refs.len() && refs[i].uid == uid ==> meta.owned_by(uid)
            &&& (forall|j: int| 0 <= j < refs.len() ==> (#[trigger] refs[j]).uid != uid)
                ==> !meta.owned_by(uid)
        },
{
}

} // verus!

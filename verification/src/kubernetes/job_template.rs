//! Templates that jobs are made from.

use vstd::prelude::*;

use crate::json::{Json, JsonView};
use crate::kubernetes::job::{ObjectMeta, ObjectMetaView};

verus! {

/// What a template says of its jobs.
#[derive(Debug)]
pub struct JobTemplateSpec {
    pub schedule: Option<String>,
    pub acceptance_test: Option<bool>,
    pub cleanup_after: Option<String>,
    /// The pod spec of the jobs.
    pub spec: Json,
}

/// What a [`JobTemplateSpec`] holds.
#[verifier::ext_equal]
pub struct JobTemplateSpecView {
    pub schedule: Option<Seq<char>>,
    pub acceptance_test: Option<bool>,
    pub cleanup_after: Option<Seq<char>>,
    pub spec: JsonView,
}

impl DeepView for JobTemplateSpec {
    type V = JobTemplateSpecView;

    open spec fn deep_view(&self) -> JobTemplateSpecView {
        JobTemplateSpecView {
            schedule: self.schedule.deep_view(),
            acceptance_test: self.acceptance_test.deep_view(),
            cleanup_after: self.cleanup_after.deep_view(),
            spec: self.spec.deep_view(),
        }
    }
}

/// The status of a template, of which nothing is recorded.
#[derive(Clone, Debug, Default)]
pub struct JobTemplateStatus {}

impl DeepView for JobTemplateStatus {
    type V = JobTemplateStatus;

    open spec fn deep_view(&self) -> JobTemplateStatus {
        *self
    }
}

/// A template that jobs are made from.
#[derive(Debug)]
pub struct JobTemplate {
    pub metadata: ObjectMeta,
    pub spec: JobTemplateSpec,
    pub status: Option<JobTemplateStatus>,
}

/// What a [`JobTemplate`] holds.
#[verifier::ext_equal]
pub struct JobTemplateView {
    pub metadata: ObjectMetaView,
    pub spec: JobTemplateSpecView,
    pub status: Option<JobTemplateStatus>,
}

impl DeepView for JobTemplate {
    type V = JobTemplateView;

    open spec fn deep_view(&self) -> JobTemplateView {
        JobTemplateView {
            metadata: self.metadata.deep_view(),
            spec: self.spec.deep_view(),
            status: self.status.deep_view(),
        }
    }
}

impl JobTemplateView {
    /// How long a finished job stays before it is archived, as the template puts it.
    pub open spec fn cleanup_after(self) -> Seq<char> {
        match self.spec.cleanup_after {
            Some(text) => text,
            None => "30m"@,
        }
    }

    /// Whether the jobs are acceptance tests.
    pub open spec fn is_acceptance_test(self) -> bool {
        self.spec.acceptance_test == Some(true)
    }

    /// The namespace of the template.
    pub open spec fn namespace(self) -> Seq<char> {
        match self.metadata.namespace {
            Some(n) => n,
            None => "default"@,
        }
    }

    /// The name of the template.
    pub open spec fn name(self) -> Seq<char> {
        match self.metadata.name {
            Some(n) => n,
            None => "unknown"@,
        }
    }
}

impl JobTemplate {
    /// Whether jobs are made on a schedule.
    pub fn is_cronjob(&self) -> (r: bool)
        ensures
            r == (self.deep_view().spec.schedule is Some),
    {
        self.spec.schedule.is_some()
    }

    /// Whether the jobs are acceptance tests: only where the template says so.
    pub fn is_acceptance_test(&self) -> (r: bool)
        ensures
            r == self.deep_view().is_acceptance_test(),
    {
        match self.spec.acceptance_test {
            Some(b) => b,
            None => false,
        }
    }

    /// How long a finished job stays before it is archived: `30m` where the
    /// template does not say.
    pub fn cleanup_after(&self) -> (r: &str)
        ensures
            r@ == self.deep_view().cleanup_after(),
    {
        match &self.spec.cleanup_after {
            Some(text) => text.as_str(),
            None => "30m",
        }
    }
}

/// A template that does not say how long its finished jobs stay keeps them for half an hour;
/// one that says so is taken at its word.
pub proof fn law_cleanup(template: JobTemplateView)
    ensures
        template.spec.cleanup_after is None ==> crate::kubernetes::reconciler::duration_spec(
            template.cleanup_after(),
        ) == 1800,
        template.spec.cleanup_after matches Some(text) ==> template.cleanup_after() == text,
{
    reveal_strlit("30m");
    crate::kubernetes::reconciler::law_units(30);
    reveal_with_fuel(crate::decimal::digits_spec, 2);
    assert("30m"@ =~= crate::decimal::digits_spec(30).push('m'));
}

/// A template is known by its own name and namespace, and runs acceptance tests only where it
/// says so.
pub proof fn law_template_says(template: JobTemplateView)
    ensures
        template.metadata.name matches Some(n) ==> template.name() == n,
        template.metadata.name is None ==> template.name() == "unknown"@,
        template.metadata.namespace matches Some(n) ==> template.namespace() == n,
        template.metadata.namespace is None ==> template.namespace() == "default"@,
        template.is_acceptance_test() <==> (template.spec.acceptance_test matches Some(b) && b),
{
}

} // verus!

//! Making a job from a template.

use vstd::prelude::*;

use crate::calendar;
use crate::dup::{text_or, text_or_empty, Dup};
use crate::json::{lemma_array_deep_view, Json, JsonView};
use crate::kubernetes::job::{
    Job, JobSpec, JobSpecView, JobView, ObjectMeta, ObjectMetaView, OwnerReference,
    OwnerReferenceView,
};
use crate::kubernetes::job_template::{JobTemplate, JobTemplateView};
use crate::kubernetes::pod_spec;
use crate::order::{self, text_lt};
use crate::sorted_map::SortedMap;
use crate::text;
use crate::time::{self, Timestamp};

verus! {

/// What a run may set in place of what the template says.
#[derive(Debug)]
pub struct JobOverrides {
    pub command: Option<Vec<String>>,
    pub args: Option<Vec<String>>,
    pub env: Option<Vec<(String, String)>>,
}

/// What a [`JobOverrides`] holds.
#[verifier::ext_equal]
pub struct JobOverridesView {
    pub command: Option<Seq<Seq<char>>>,
    pub args: Option<Seq<Seq<char>>>,
    pub env: Option<Seq<(Seq<char>, Seq<char>)>>,
}

impl DeepView for JobOverrides {
    type V = JobOverridesView;

    open spec fn deep_view(&self) -> JobOverridesView {
        JobOverridesView {
            command: self.command.deep_view(),
            args: self.args.deep_view(),
            env: self.env.deep_view(),
        }
    }
}

/// An object with no members.
pub open spec fn empty_object() -> JsonView {
    JsonView::Object(Map::empty())
}

/// The volume that job output is written to.
pub open spec fn output_volume_spec() -> JsonView {
    empty_object().set("name"@, JsonView::Text("job-output"@)).set("emptyDir"@, empty_object())
}

/// The mount of that volume.
pub open spec fn output_mount_spec() -> JsonView {
    empty_object().set("name"@, JsonView::Text("job-output"@)).set(
        "mountPath"@,
        JsonView::Text("/job-output"@),
    )
}

/// The object with `item` added to the list under `key`, which is made where
/// there is nothing; where there is something other than a list, it is left.
pub open spec fn appended(object: JsonView, key: Seq<char>, item: JsonView) -> JsonView {
    match object.get(key) {
        None => object.set(key, JsonView::Array(seq![item])),
        Some(JsonView::Array(items)) => object.set(key, JsonView::Array(items.push(item))),
        Some(_) => object,
    }
}

/// A list of texts.
pub open spec fn texts_spec(words: Seq<Seq<char>>) -> JsonView {
    JsonView::Array(words.map_values(|w: Seq<char>| JsonView::Text(w)))
}

/// The container with the words under `key` replaced, where words are given
/// and either there is one at least or the template has some to replace.
pub open spec fn words_replaced(
    container: JsonView,
    template: JsonView,
    key: Seq<char>,
    words: Option<Seq<Seq<char>>>,
) -> JsonView {
    match words {
        Some(w) => if w.len() > 0 || template.get(key) is Some {
            container.set(key, texts_spec(w))
        } else {
            container
        },
        None => container,
    }
}

/// An environment variable with a plain value.
pub open spec fn env_entry_spec(name: Seq<char>, value: Seq<char>) -> JsonView {
    empty_object().set("name"@, JsonView::Text(name)).set("value"@, JsonView::Text(value))
}

/// Whether an environment variable takes its value from elsewhere.
pub open spec fn takes_value_from(entry: JsonView) -> bool {
    entry.get("valueFrom"@) is Some
}

/// The variables of the template that take their value from elsewhere, and
/// after them the given ones.
pub open spec fn env_spec(
    template: Option<Seq<JsonView>>,
    env: Seq<(Seq<char>, Seq<char>)>,
) -> Seq<JsonView> {
    let kept = match template {
        Some(entries) => entries.filter(|e: JsonView| takes_value_from(e)),
        None => Seq::empty(),
    };
    kept + env.map_values(|e: (Seq<char>, Seq<char>)| env_entry_spec(e.0, e.1))
}

pub open spec fn env_replaced(
    container: JsonView,
    env: Option<Seq<(Seq<char>, Seq<char>)>>,
) -> JsonView {
    match env {
        Some(e) => container.set(
            "env"@,
            JsonView::Array(env_spec(container.get_array("env"@), e)),
        ),
        None => container,
    }
}

/// The container that a job runs: with the output volume mounted, and with
/// what the run sets.
pub open spec fn container_spec(template: JsonView, over: JobOverridesView) -> JsonView {
    let mounted = appended(template, "volumeMounts"@, output_mount_spec());
    let commanded = words_replaced(mounted, template, "command"@, over.command);
    let with_args = words_replaced(commanded, template, "args"@, over.args);
    env_replaced(with_args, over.env)
}

/// The pod spec with its first container, where there is one, made ready.
pub open spec fn first_container_spec(pod: JsonView, over: JobOverridesView) -> JsonView {
    match pod.get_array("containers"@) {
        Some(containers) => if containers.len() > 0 {
            pod.set(
                "containers"@,
                JsonView::Array(containers.update(0, container_spec(containers[0], over))),
            )
        } else {
            pod
        },
        None => pod,
    }
}

/// The script that the sidecar runs: on termination it uploads what the job
/// has written.
pub open spec fn sidecar_script() -> Seq<char> {
    "upload() { for f in result.json report.md test-results.xml archive.tar.gz; do [ -f \"/job-output/$f\" ] && curl -sf -X PUT --data-binary \"@/job-output/$f\" \"$JOBFATHER_URL/api/jobs/$JOBFATHER_NAMESPACE/$JOBFATHER_JOB_NAME/output/$f\" || true; done; if [ -d /job-output/test-snapshots ] && [ \"$(ls -A /job-output/test-snapshots 2>/dev/null)\" ]; then tar czf /tmp/test-snapshots.tar.gz -C /job-output/test-snapshots . && curl -sf -X PUT --data-binary @/tmp/test-snapshots.tar.gz \"$JOBFATHER_URL/api/jobs/$JOBFATHER_NAMESPACE/$JOBFATHER_JOB_NAME/output/test-snapshots.tar.gz\" || true; fi; exit 0; }; trap upload TERM; while true; do sleep 3600 & wait; done"@
}

/// The container that uploads the output of a job.
pub open spec fn sidecar_spec(url: Seq<char>, namespace: Seq<char>) -> JsonView {
    empty_object().set("name"@, JsonView::Text("job-output-sidecar"@)).set(
        "image"@,
        JsonView::Text("curlimages/curl:latest"@),
    ).set("restartPolicy"@, JsonView::Text("Always"@)).set(
        "command"@,
        texts_spec(seq!["sh"@, "-c"@, sidecar_script()]),
    ).set(
        "env"@,
        JsonView::Array(
            seq![
                env_entry_spec("JOBFATHER_URL"@, url),
                env_entry_spec("JOBFATHER_NAMESPACE"@, namespace),
                empty_object().set("name"@, JsonView::Text("JOBFATHER_JOB_NAME"@)).set(
                    "valueFrom"@,
                    empty_object().set(
                        "fieldRef"@,
                        empty_object().set(
                            "fieldPath"@,
                            JsonView::Text("metadata.labels['job-name']"@),
                        ),
                    ),
                ),
            ],
        ),
    ).set("volumeMounts"@, JsonView::Array(seq![output_mount_spec()]))
}

/// The pod spec with the sidecar, where there is an address to upload to.
pub open spec fn sidecar_added(
    pod: JsonView,
    url: Seq<char>,
    namespace: Seq<char>,
) -> JsonView {
    if url.len() == 0 {
        pod
    } else {
        appended(pod, "initContainers"@, sidecar_spec(url, namespace))
    }
}

/// The pod spec with a restart policy: `Never` where it has none.
pub open spec fn restart_policy_set(pod: JsonView) -> JsonView {
    if pod.get("restartPolicy"@) is Some {
        pod
    } else {
        pod.set("restartPolicy"@, JsonView::Text("Never"@))
    }
}

/// The pod spec of a job made from a template.
pub open spec fn pod_spec_spec(
    template: JobTemplateView,
    over: JobOverridesView,
    url: Seq<char>,
) -> JsonView {
    let with_volume = appended(template.spec.spec, "volumes"@, output_volume_spec());
    let with_container = first_container_spec(with_volume, over);
    let with_sidecar = sidecar_added(
        with_container,
        text::trim_end_matches_spec(url, '/'),
        template.namespace(),
    );
    restart_policy_set(with_sidecar)
}

/// Whether a job can be made of the pod spec of a template: it is an object,
/// or null, and so is its first container where it has one.
pub open spec fn buildable(pod: JsonView) -> bool {
    &&& pod.takes_members()
    &&& pod.get_array("containers"@) matches Some(containers) ==> containers.len() > 0
        ==> containers[0].takes_members()
}

/// The annotations that a job inherits from its template; none where the
/// template has neither.
pub open spec fn inherited_annotations_spec(
    annotations: Option<Map<Seq<char>, Seq<char>>>,
) -> Option<Map<Seq<char>, Seq<char>>> {
    match annotations {
        Some(m) => {
            let kept = m.restrict(set!["artifactSha"@, "configSha"@]);
            if kept.dom().contains("artifactSha"@) || kept.dom().contains("configSha"@) {
                Some(kept)
            } else {
                None
            }
        },
        None => None,
    }
}

/// The name of the job made from a template at a moment.
pub open spec fn job_name_spec(template: JobTemplateView, now: Timestamp) -> Seq<char> {
    template.name() + "-"@ + time::name_suffix_spec(now)
}

/// Whether a job of that name can have been made from the template of the given name: it
/// begins with that name and a dash, and ends in eight digits, a dash and six digits.
pub open spec fn is_run_of(name: Seq<char>, template: Seq<char>) -> bool {
    &&& name.len() == template.len() + 16
    &&& name.take(template.len() as int) == template
    &&& name[template.len() as int] == '-'
    &&& calendar::is_stamp(name.skip(template.len() as int + 1))
}

/// Whether a job of that name can have been made from the template of the given name.
pub fn is_job_of(name: &str, template: &str) -> (r: bool)
    ensures
        r == is_run_of(name@, template@),
{
    let x = text::chars_of(name);
    let y = text::chars_of(template);
    if x.len() < y.len() || x.len() - y.len() != 16 || x[y.len()] != '-' {
        return false;
    }
    for i in 0..y.len()
        invariant
            x@ == name@,
            y@ == template@,
            y@.len() <= x@.len(),
            forall|j: int| 0 <= j < i ==> x@[j] == y@[j],
    {
        if x[i] != y[i] {
            assert(name@.take(template@.len() as int)[i as int] == name@[i as int]);
            return false;
        }
    }
    assert(name@.take(template@.len() as int) =~= template@);
    calendar::is_stamp_from(&x, y.len() + 1)
}

/// The jobs of a template sort by age: the name of a job comes before that of every job that
/// is made in a later second, whatever is set for either.
pub proof fn law_names_sort_by_age(
    template: JobTemplateView,
    pod: JsonView,
    now: Timestamp,
    later_pod: JsonView,
    later: Timestamp,
)
    requires
        time::valid_parts(now.secs(), now.nanos()),
        calendar::in_four_digits(now.secs()),
        calendar::in_four_digits(later.secs()),
        now.secs() < later.secs(),
    ensures
        job_spec(template, pod, now).metadata.name matches Some(a) && job_spec(
            template,
            later_pod,
            later,
        ).metadata.name matches Some(b) && text_lt(a, b),
{
    calendar::law_stamps_sort_by_time(now.secs(), now.nanos(), later.secs(), later.nanos());
    order::lemma_lt_after_prefix(
        template.name() + "-"@,
        time::name_suffix_spec(now),
        time::name_suffix_spec(later),
    );
}

/// A job can be told by its name to be one of its template.
pub proof fn law_jobs_are_runs_of_their_template(
    template: JobTemplateView,
    pod: JsonView,
    now: Timestamp,
)
    requires
        calendar::in_four_digits(now.secs()),
    ensures
        job_spec(template, pod, now).metadata.name matches Some(name) && is_run_of(
            name,
            template.name(),
        ),
{
    let name = job_name_spec(template, now);
    calendar::law_stamp_has_fixed_width(now.secs(), now.nanos());
    reveal_strlit("-");
    assert(name.take(template.name().len() as int) =~= template.name());
    assert(name.skip(template.name().len() as int + 1) =~= time::name_suffix_spec(now));
}

/// The job made from a template at a moment, with its pod spec.
pub open spec fn job_spec(template: JobTemplateView, pod: JsonView, now: Timestamp) -> JobView {
    JobView {
        metadata: ObjectMetaView {
            name: Some(job_name_spec(template, now)),
            generate_name: None,
            namespace: Some(template.namespace()),
            uid: None,
            creation_timestamp: None,
            annotations: inherited_annotations_spec(template.metadata.annotations),
            owner_references: Some(
                seq![
                    OwnerReferenceView {
                        api_version: "jobfather.coolkev.com/v1"@,
                        kind: "JobTemplate"@,
                        name: template.name(),
                        uid: template.metadata.uid_or_empty(),
                        controller: Some(true),
                        block_owner_deletion: Some(true),
                    },
                ],
            ),
        },
        spec: Some(JobSpecView { pod_spec: pod, backoff_limit: Some(0) }),
        status: None,
    }
}

/// The result of making a job, given what is wrong with its pod spec.
pub open spec fn build_result_spec(
    template: JobTemplateView,
    pod: JsonView,
    error: Option<Seq<char>>,
    now: Timestamp,
) -> Result<JobView, Seq<char>> {
    match error {
        Some(e) => Err("Invalid pod spec: "@ + e),
        None => Ok(job_spec(template, pod, now)),
    }
}

fn append(object: Json, key: &str, item: Json) -> (r: Json)
    requires
        object.deep_view().takes_members(),
    ensures
        r.deep_view() == appended(object.deep_view(), key@, item.deep_view()),
        r.deep_view().takes_members(),
{
    let ghost before = object.deep_view();
    let mut items: Vec<Json> = match object.get(key) {
        None => Vec::new(),
        Some(Json::Array(items)) => {
            proof {
                lemma_array_deep_view(*items);
            }
            items.dup()
        },
        Some(_) => {
            return object;
        },
    };
    let ghost so_far = items.deep_view();
    items.push(item);
    assert(items.deep_view() =~= so_far.push(item.deep_view()));
    assert(before.get(key@) is None ==> items.deep_view() =~= seq![item.deep_view()]);
    let list = Json::array(items);
    object.set(key, list)
}

/// A list of texts.
pub fn texts(words: &Vec<String>) -> (r: Json)
    ensures
        r.deep_view() == texts_spec(words.deep_view()),
{
    let mut items: Vec<Json> = Vec::new();
    for i in 0..words.len()
        invariant
            items@.len() == i,
            forall|j: int|
                0 <= j < i ==> (#[trigger] items.deep_view()[j]) == JsonView::Text(words@[j]@),
    {
        let ghost before = items.deep_view();
        let item = Json::text(words[i].as_str());
        items.push(item);
        assert(items.deep_view() =~= before.push(item.deep_view()));
    }
    assert(items.deep_view() =~= words.deep_view().map_values(
        |w: Seq<char>| JsonView::Text(w),
    ));
    Json::array(items)
}

fn replace_words(container: Json, has_words: bool, key: &str, words: &Option<Vec<String>>) -> (r:
    Json)
    requires
        container.deep_view().takes_members(),
    ensures
        r.deep_view().takes_members(),
        forall|template: JsonView|
            has_words == ((#[trigger] template.get(key@)) is Some) ==> r.deep_view()
                == words_replaced(container.deep_view(), template, key@, words.deep_view()),
{
    match words {
        Some(w) => if w.len() > 0 || has_words {
            container.set(key, texts(w))
        } else {
            container
        },
        None => container,
    }
}

fn env_entry(name: &str, value: &str) -> (r: Json)
    ensures
        r.deep_view() == env_entry_spec(name@, value@),
{
    Json::object().set("name", Json::text(name)).set("value", Json::text(value))
}

fn replace_env(container: Json, env: &Option<Vec<(String, String)>>) -> (r: Json)
    requires
        container.deep_view().takes_members(),
    ensures
        r.deep_view().takes_members(),
        r.deep_view() == env_replaced(container.deep_view(), env.deep_view()),
{
    match env {
        Some(given) => {
            let ghost of_template = container.deep_view().get_array("env"@);
            let ghost keep = |e: JsonView| takes_value_from(e);
            let ghost make = |e: (Seq<char>, Seq<char>)| env_entry_spec(e.0, e.1);
            let ghost kept = match of_template {
                Some(entries) => entries.filter(keep),
                None => Seq::empty(),
            };
            let mut list: Vec<Json> = Vec::new();
            assert(list.deep_view() =~= Seq::empty());
            if let Some(entries) = container.get_array("env") {
                let ghost all = entries.deep_view();
                assert(all.take(0).filter(keep) =~= Seq::empty()) by {
                    reveal(Seq::filter);
                }
                for i in 0..entries.len()
                    invariant
                        all == entries.deep_view(),
                        keep == (|e: JsonView| takes_value_from(e)),
                        list.deep_view() == all.take(i as int).filter(keep),
                {
                    reveal(Seq::filter);
                    let ghost before = list.deep_view();
                    assert(all.take(i + 1).drop_last() =~= all.take(i as int));
                    assert(all.take(i + 1).last() == entries@[i as int].deep_view());
                    if entries[i].has("valueFrom") {
                        let entry = entries[i].copy();
                        list.push(entry);
                        assert(list.deep_view() =~= before.push(entry.deep_view()));
                    }
                }
                assert(all.take(all.len() as int) =~= all);
            }
            assert(list.deep_view() == kept);
            let ghost pairs = given.deep_view();
            for i in 0..given.len()
                invariant
                    pairs == given.deep_view(),
                    make == (|e: (Seq<char>, Seq<char>)| env_entry_spec(e.0, e.1)),
                    list.deep_view() == kept + pairs.take(i as int).map_values(make),
            {
                let ghost before = list.deep_view();
                let entry = env_entry(given[i].0.as_str(), given[i].1.as_str());
                list.push(entry);
                assert(list.deep_view() =~= before.push(entry.deep_view()));
                assert(pairs.take(i + 1).map_values(make) =~= pairs.take(i as int).map_values(
                    make,
                ).push(entry.deep_view())) by {
                    assert(pairs[i as int] == (given@[i as int].0@, given@[i as int].1@));
                }
                assert(list.deep_view() =~= kept + pairs.take(i + 1).map_values(make));
            }
            assert(pairs.take(pairs.len() as int) =~= pairs);
            assert(list.deep_view() =~= env_spec(of_template, pairs));
            container.set("env", Json::array(list))
        },
        None => container,
    }
}

fn output_mount() -> (r: Json)
    ensures
        r.deep_view() == output_mount_spec(),
{
    Json::object().set("name", Json::text("job-output")).set(
        "mountPath",
        Json::text("/job-output"),
    )
}

fn container_for(template: &Json, over: &JobOverrides) -> (r: Json)
    requires
        template.deep_view().takes_members(),
    ensures
        r.deep_view() == container_spec(template.deep_view(), over.deep_view()),
{
    let mounted = append(template.copy(), "volumeMounts", output_mount());
    let commanded = replace_words(mounted, template.has("command"), "command", &over.command);
    let with_args = replace_words(commanded, template.has("args"), "args", &over.args);
    replace_env(with_args, &over.env)
}

fn sidecar(url: &str, namespace: &str) -> (r: Json)
    ensures
        r.deep_view() == sidecar_spec(url@, namespace@),
{
    let mut command: Vec<String> = Vec::new();
    command.push("sh".to_owned());
    command.push("-c".to_owned());
    command.push(
        "upload() { for f in result.json report.md test-results.xml archive.tar.gz; do [ -f \"/job-output/$f\" ] && curl -sf -X PUT --data-binary \"@/job-output/$f\" \"$JOBFATHER_URL/api/jobs/$JOBFATHER_NAMESPACE/$JOBFATHER_JOB_NAME/output/$f\" || true; done; if [ -d /job-output/test-snapshots ] && [ \"$(ls -A /job-output/test-snapshots 2>/dev/null)\" ]; then tar czf /tmp/test-snapshots.tar.gz -C /job-output/test-snapshots . && curl -sf -X PUT --data-binary @/tmp/test-snapshots.tar.gz \"$JOBFATHER_URL/api/jobs/$JOBFATHER_NAMESPACE/$JOBFATHER_JOB_NAME/output/test-snapshots.tar.gz\" || true; fi; exit 0; }; trap upload TERM; while true; do sleep 3600 & wait; done".to_owned(),
    );
    assert(command.deep_view() =~= seq!["sh"@, "-c"@, sidecar_script()]);
    let mut env: Vec<Json> = Vec::new();
    let address = env_entry("JOBFATHER_URL", url);
    let space = env_entry("JOBFATHER_NAMESPACE", namespace);
    let job_name = Json::object().set("name", Json::text("JOBFATHER_JOB_NAME")).set(
        "valueFrom",
        Json::object().set(
            "fieldRef",
            Json::object().set("fieldPath", Json::text("metadata.labels['job-name']")),
        ),
    );
    let ghost entries = seq![address.deep_view(), space.deep_view(), job_name.deep_view()];
    env.push(address);
    env.push(space);
    env.push(job_name);
    assert(env.deep_view() =~= entries);
    let mut mounts: Vec<Json> = Vec::new();
    mounts.push(output_mount());
    assert(mounts.deep_view() =~= seq![output_mount_spec()]);
    Json::object().set("name", Json::text("job-output-sidecar")).set(
        "image",
        Json::text("curlimages/curl:latest"),
    ).set("restartPolicy", Json::text("Always")).set("command", texts(&command)).set(
        "env",
        Json::array(env),
    ).set("volumeMounts", Json::array(mounts))
}

/// Whether a job can be made of the pod spec of a template.
pub fn is_buildable(template: &JobTemplate) -> (r: bool)
    ensures
        r == buildable(template.deep_view().spec.spec),
{
    let pod = &template.spec.spec;
    if !pod.takes_members() {
        return false;
    }
    match pod.get_array("containers") {
        Some(containers) => {
            if containers.len() > 0 {
                assert(containers.deep_view()[0] == containers@[0].deep_view());
                containers[0].takes_members()
            } else {
                true
            }
        },
        None => true,
    }
}

/// The pod spec of a job made from `template`: with the output volume, the
/// first container made ready, the sidecar where `url` names an address to
/// upload to, and a restart policy.
pub fn pod_spec_for(template: &JobTemplate, over: &JobOverrides, url: &str) -> (r: Json)
    requires
        buildable(template.deep_view().spec.spec),
    ensures
        r.deep_view() == pod_spec_spec(template.deep_view(), over.deep_view(), url@),
{
    proof {
        reveal_strlit("volumes");
        reveal_strlit("containers");
    }
    assert("volumes"@ != "containers"@) by {
        assert("volumes"@.len() != "containers"@.len());
    }
    let ghost t = template.deep_view();
    let volume = Json::object().set("name", Json::text("job-output")).set(
        "emptyDir",
        Json::object(),
    );
    let pod = append(template.spec.spec.copy(), "volumes", volume);
    let ghost with_volume = pod.deep_view();
    assert(with_volume.get("containers"@) == t.spec.spec.get("containers"@));
    let pod = match pod.get_array("containers") {
        Some(containers) => {
            if containers.len() > 0 {
                let ghost old_list = containers.deep_view();
                assert(old_list[0] == containers@[0].deep_view());
                let first = container_for(&containers[0], over);
                let mut list = containers.dup();
                let ghost before = list.deep_view();
                list.set(0, first);
                assert(list.deep_view() =~= old_list.update(0, first.deep_view()));
                let list = Json::array(list);
                pod.set("containers", list)
            } else {
                pod
            }
        },
        None => pod,
    };
    assert(pod.deep_view() == first_container_spec(with_volume, over.deep_view()));
    assert(pod.deep_view().takes_members());
    let address = text::trim_end_matches(url, '/');
    let namespace = text_or(&template.metadata.namespace, "default");
    let pod = if address.as_str().is_empty() {
        pod
    } else {
        append(pod, "initContainers", sidecar(address.as_str(), namespace.as_str()))
    };
    if pod.has("restartPolicy") {
        pod
    } else {
        pod.set("restartPolicy", Json::text("Never"))
    }
}

fn inherited_annotations(annotations: &Option<SortedMap<String>>) -> (r: Option<SortedMap<String>>)
    ensures
        r.deep_view() == inherited_annotations_spec(annotations.deep_view()),
{
    proof {
        reveal_strlit("artifactSha");
        reveal_strlit("configSha");
        assert("artifactSha"@.len() != "configSha"@.len());
    }
    match annotations {
        Some(m) => {
            let ghost kept = m@.restrict(set!["artifactSha"@, "configSha"@]);
            let mut r: SortedMap<String> = SortedMap::new();
            let mut any: bool = false;
            if let Some(v) = m.get("artifactSha") {
                r = r.insert("artifactSha".to_owned(), v.clone());
                any = true;
            }
            if let Some(v) = m.get("configSha") {
                r = r.insert("configSha".to_owned(), v.clone());
                any = true;
            }
            assert(r@ =~= kept);
            if any {
                Some(r)
            } else {
                None
            }
        },
        None => None,
    }
}

/// The job made from `template` at the moment `now`, with the given pod spec.
pub fn job_from(template: &JobTemplate, pod_spec: Json, now: &Timestamp) -> (r: Job)
    ensures
        r.deep_view() == job_spec(template.deep_view(), pod_spec.deep_view(), *now),
{
    let name = text_or(&template.metadata.name, "unknown");
    let namespace = text_or(&template.metadata.namespace, "default");
    let suffix = time::to_name_suffix(now);
    let job_name = text::concat3(name.as_str(), "-", suffix.as_str());
    let owner = OwnerReference {
        api_version: "jobfather.coolkev.com/v1".to_owned(),
        kind: "JobTemplate".to_owned(),
        name,
        uid: text_or_empty(&template.metadata.uid),
        controller: Some(true),
        block_owner_deletion: Some(true),
    };
    let mut owners: Vec<OwnerReference> = Vec::new();
    owners.push(owner);
    assert(owners.deep_view() =~= seq![owner.deep_view()]);
    Job {
        metadata: ObjectMeta {
            name: Some(job_name),
            generate_name: None,
            namespace: Some(namespace),
            uid: None,
            creation_timestamp: None,
            annotations: inherited_annotations(&template.metadata.annotations),
            owner_references: Some(owners),
        },
        spec: Some(JobSpec { pod_spec, backoff_limit: Some(0) }),
        status: None,
    }
}

/// The job, or the error where something is wrong with its pod spec.
pub fn build_result(
    template: &JobTemplate,
    pod_spec: Json,
    error: Option<String>,
    now: &Timestamp,
) -> (r: Result<Job, String>)
    ensures
        build_result_spec(template.deep_view(), pod_spec.deep_view(), error.deep_view(), *now) == (
        match r {
            Ok(job) => Ok(job.deep_view()),
            Err(e) => Err(e@),
        }),
{
    match error {
        Some(e) => Err(text::concat("Invalid pod spec: ", e.as_str())),
        None => Ok(job_from(template, pod_spec, now)),
    }
}

/// Makes a job from `template` at the moment `now`, with what `over` sets.
/// `jobfather_url` is the address that output is uploaded to, empty where there
/// is none.
pub fn build_job_with(
    template: &JobTemplate,
    over: &JobOverrides,
    jobfather_url: &str,
    now: &Timestamp,
) -> (r: Result<Job, String>)
    requires
        buildable(template.deep_view().spec.spec),
    ensures
        ({
            let pod = pod_spec_spec(template.deep_view(), over.deep_view(), jobfather_url@);
            build_result_spec(template.deep_view(), pod, pod_spec::pod_spec_error_spec(pod_spec::as_read(pod)), *now)
        }) == (match r {
            Ok(job) => Ok(job.deep_view()),
            Err(e) => Err(e@),
        }),
{
    let pod = pod_spec_for(template, over, jobfather_url);
    let error = pod_spec::pod_spec_error(&pod);
    build_result(template, pod, error, now)
}

/// Makes a job from `template`, with arguments and environment set where given.
pub fn build_job(
    template: &JobTemplate,
    args: Option<Vec<String>>,
    env: Option<Vec<(String, String)>>,
    jobfather_url: &str,
    now: &Timestamp,
) -> (r: Result<Job, String>)
    requires
        buildable(template.deep_view().spec.spec),
    ensures
        ({
            let over = JobOverridesView {
                command: None,
                args: args.deep_view(),
                env: env.deep_view(),
            };
            let pod = pod_spec_spec(template.deep_view(), over, jobfather_url@);
            build_result_spec(template.deep_view(), pod, pod_spec::pod_spec_error_spec(pod_spec::as_read(pod)), *now)
        }) == (match r {
            Ok(job) => Ok(job.deep_view()),
            Err(e) => Err(e@),
        }),
{
    let over = JobOverrides { command: None, args, env };
    build_job_with(template, &over, jobfather_url, now)
}

proof fn lemma_keys_differ()
    ensures
        "volumes"@ != "containers"@,
        "volumes"@ != "initContainers"@,
        "volumes"@ != "restartPolicy"@,
        "containers"@ != "initContainers"@,
        "containers"@ != "restartPolicy"@,
        "initContainers"@ != "restartPolicy"@,
        "volumeMounts"@ != "command"@,
        "volumeMounts"@ != "args"@,
        "volumeMounts"@ != "env"@,
        "command"@ != "args"@,
        "command"@ != "env"@,
        "args"@ != "env"@,
{
    reveal_strlit("volumes");
    reveal_strlit("containers");
    reveal_strlit("initContainers");
    reveal_strlit("restartPolicy");
    reveal_strlit("volumeMounts");
    reveal_strlit("command");
    reveal_strlit("args");
    reveal_strlit("env");
    assert("volumes"@.len() == 7 && "containers"@.len() == 10 && "initContainers"@.len() == 14
        && "restartPolicy"@.len() == 13 && "volumeMounts"@.len() == 12 && "command"@.len() == 7
        && "args"@.len() == 4 && "env"@.len() == 3);
}

proof fn lemma_pod_members(template: JobTemplateView, over: JobOverridesView, url: Seq<char>)
    requires
        buildable(template.spec.spec),
    ensures
        ({
            let pod = pod_spec_spec(template, over, url);
            let with_volume = appended(template.spec.spec, "volumes"@, output_volume_spec());
            let with_container = first_container_spec(with_volume, over);
            &&& pod.get("volumes"@) == with_volume.get("volumes"@)
            &&& pod.get("containers"@) == with_container.get("containers"@)
            &&& with_volume.get("containers"@) == template.spec.spec.get("containers"@)
            &&& pod.get("restartPolicy"@) == restart_policy_set(template.spec.spec).get(
                "restartPolicy"@,
            )
            &&& with_container.get("initContainers"@) == template.spec.spec.get("initContainers"@)
            &&& pod.get("initContainers"@) == sidecar_added(
                with_container,
                text::trim_end_matches_spec(url, '/'),
                template.namespace(),
            ).get("initContainers"@)
        }),
{
    lemma_keys_differ();
}

/// Every job has the output volume: it is the last of the volumes, unless the
/// template puts something other than a list in their place.
pub proof fn law_output_volume(template: JobTemplateView, over: JobOverridesView, url: Seq<char>)
    requires
        buildable(template.spec.spec),
        template.spec.spec.get("volumes"@) matches Some(v) ==> v is Array,
    ensures
        pod_spec_spec(template, over, url).get_array("volumes"@) matches Some(volumes)
            && volumes.len() > 0 && volumes.last() == output_volume_spec(),
{
    lemma_pod_members(template, over, url);
}

/// Every job mounts the output volume in its first container, unless the
/// template puts something other than a list in place of the mounts.
pub proof fn law_output_mounted(template: JobTemplateView, over: JobOverridesView, url: Seq<char>)
    requires
        buildable(template.spec.spec),
        template.spec.spec.get_array("containers"@) matches Some(containers) && containers.len() > 0
            && (containers[0].get("volumeMounts"@) matches Some(v) ==> v is Array),
    ensures
        pod_spec_spec(template, over, url).get_array("containers"@) matches Some(containers)
            && containers.len() > 0 && (containers[0].get_array("volumeMounts"@) matches Some(
            mounts,
        ) && mounts.len() > 0 && mounts.last() == output_mount_spec()),
{
    lemma_pod_members(template, over, url);
    lemma_keys_differ();
}

/// The containers after the first are those of the template.
pub proof fn law_other_containers_kept(
    template: JobTemplateView,
    over: JobOverridesView,
    url: Seq<char>,
    i: int,
)
    requires
        buildable(template.spec.spec),
        template.spec.spec.get_array("containers"@) matches Some(containers) && 0 < i
            < containers.len(),
    ensures
        pod_spec_spec(template, over, url).get_array("containers"@) matches Some(containers)
            && containers.len() == template.spec.spec.get_array("containers"@)->0.len()
            && containers[i] == template.spec.spec.get_array("containers"@)->0[i],
{
    lemma_pod_members(template, over, url);
}

/// The variables of the template that take their value from elsewhere, such as
/// a secret, are carried over as they are, whatever the run sets.
pub proof fn law_references_carried_over(
    template: JobTemplateView,
    over: JobOverridesView,
    url: Seq<char>,
    i: int,
)
    requires
        buildable(template.spec.spec),
        template.spec.spec.get_array("containers"@) matches Some(containers) && containers.len() > 0
            && (containers[0].get_array("env"@) matches Some(env) && 0 <= i < env.len()
            && takes_value_from(env[i])),
    ensures
        ({
            let entry = template.spec.spec.get_array("containers"@)->0[0].get_array(
                "env"@,
            )->0[i];
            pod_spec_spec(template, over, url).get_array("containers"@) matches Some(containers)
                && containers.len() > 0 && (containers[0].get_array("env"@) matches Some(env)
                && env.contains(entry))
        }),
{
    lemma_pod_members(template, over, url);
    lemma_keys_differ();
    let container = template.spec.spec.get_array("containers"@)->0[0];
    let env = container.get_array("env"@)->0;
    let made = container_spec(container, over);
    let keep = |e: JsonView| takes_value_from(e);
    match over.env {
        Some(given) => {
            let list = env_spec(Some(env), given);
            let kept = env.filter(keep);
            assert(kept.contains(env[i])) by {
                lemma_filter_contains(env, keep, i);
            }
            let k = kept.index_of(env[i]);
            assert(list[k] == env[i]);
            assert(made.get_array("env"@) == Some(list));
        },
        None => {
            assert(made.get_array("env"@) == Some(env));
        },
    }
}

proof fn lemma_filter_contains<A>(s: Seq<A>, keep: spec_fn(A) -> bool, i: int)
    requires
        0 <= i < s.len(),
        keep(s[i]),
    ensures
        s.filter(keep).contains(s[i]),
    decreases s.len(),
{
    reveal(Seq::filter);
    if i == s.len() - 1 {
        let front = s.drop_last().filter(keep);
        assert(s.filter(keep) == front.push(s.last()));
        assert(s.filter(keep)[front.len() as int] == s[i]);
    } else {
        lemma_filter_contains(s.drop_last(), keep, i);
        let front = s.drop_last().filter(keep);
        let k = front.index_of(s[i]);
        assert(s.drop_last()[i] == s[i]);
        assert(front[k] == s[i]);
        assert(s.filter(keep)[k] == s[i]);
    }
}

/// A run that sets nothing runs what the template says: the command, the
/// arguments and the environment of its first container.
pub proof fn law_nothing_set(template: JobTemplateView, url: Seq<char>)
    requires
        buildable(template.spec.spec),
        template.spec.spec.get_array("containers"@) matches Some(containers) && containers.len()
            > 0,
    ensures
        ({
            let over = JobOverridesView { command: None, args: None, env: None };
            let before = template.spec.spec.get_array("containers"@)->0[0];
            pod_spec_spec(template, over, url).get_array("containers"@) matches Some(containers)
                && containers.len() > 0 && containers[0].get("command"@) == before.get("command"@)
                && containers[0].get("args"@) == before.get("args"@) && containers[0].get("env"@)
                == before.get("env"@)
        }),
{
    lemma_pod_members(template, JobOverridesView { command: None, args: None, env: None }, url);
    lemma_keys_differ();
}

/// The sidecar is added exactly where there is an address to upload to: it is
/// then the last of the init containers; else these are those of the template.
pub proof fn law_sidecar(template: JobTemplateView, over: JobOverridesView, url: Seq<char>)
    requires
        buildable(template.spec.spec),
        template.spec.spec.get("initContainers"@) matches Some(v) ==> v is Array,
    ensures
        ({
            let address = text::trim_end_matches_spec(url, '/');
            let pod = pod_spec_spec(template, over, url);
            if address.len() == 0 {
                pod.get("initContainers"@) == template.spec.spec.get("initContainers"@)
            } else {
                pod.get_array("initContainers"@) matches Some(list) && list.len() > 0
                    && list.last() == sidecar_spec(address, template.namespace())
            }
        }),
{
    lemma_pod_members(template, over, url);
}

/// Every job has a restart policy: that of the template, or `Never`.
pub proof fn law_restart_policy(template: JobTemplateView, over: JobOverridesView, url: Seq<char>)
    requires
        buildable(template.spec.spec),
    ensures
        pod_spec_spec(template, over, url).get("restartPolicy"@) == (
        match template.spec.spec.get("restartPolicy"@) {
            Some(policy) => Some(policy),
            None => Some(JsonView::Text("Never"@)),
        }),
{
    lemma_pod_members(template, over, url);
}

/// The first container of a pod spec.
pub open spec fn main_container(pod: JsonView) -> Option<JsonView> {
    match pod.get("containers"@) {
        Some(JsonView::Array(list)) => if list.len() > 0 {
            Some(list[0])
        } else {
            None
        },
        _ => None,
    }
}

/// Whether a value is a list of just these texts, in order.
pub open spec fn is_list_of(value: Option<JsonView>, words: Seq<Seq<char>>) -> bool {
    value matches Some(JsonView::Array(list)) && list.len() == words.len() && forall|i: int|
        0 <= i < words.len() ==> #[trigger] list[i] == JsonView::Text(words[i])
}

/// What a run gives as command or arguments is what its first container runs, word for word
/// and whatever the template has there. An empty list takes the place of what the template
/// has. Where nothing is given, or an empty list and the template has nothing, it stays as it
/// is.
pub proof fn law_given_words_are_run(
    template: JobTemplateView,
    over: JobOverridesView,
    url: Seq<char>,
)
    requires
        buildable(template.spec.spec),
        main_container(template.spec.spec) is Some,
    ensures
        ({
            let before = main_container(template.spec.spec)->0;
            &&& main_container(pod_spec_spec(template, over, url)) matches Some(after)
            &&& over.args matches Some(words) ==> (words.len() > 0 ==> is_list_of(
                after.get("args"@),
                words,
            )) && (before.get("args"@) is Some ==> is_list_of(after.get("args"@), words)) && (
            words.len() == 0 && before.get("args"@) is None ==> after.get("args"@) is None)
            &&& over.args is None ==> after.get("args"@) == before.get("args"@)
            &&& over.command matches Some(words) ==> (words.len() > 0 ==> is_list_of(
                after.get("command"@),
                words,
            )) && (before.get("command"@) is Some ==> is_list_of(after.get("command"@), words)) && (
            words.len() == 0 && before.get("command"@) is None ==> after.get("command"@) is None)
            &&& over.command is None ==> after.get("command"@) == before.get("command"@)
        }),
{
    lemma_pod_members(template, over, url);
    lemma_keys_differ();
}

/// Where a run gives variables, its first container has those of the template that take their
/// value from elsewhere, in their order, and behind them the given ones, in theirs, each with
/// its name and its value and nothing else. Where it gives none, the variables stay.
pub proof fn law_given_variables_are_set(
    template: JobTemplateView,
    over: JobOverridesView,
    url: Seq<char>,
)
    requires
        buildable(template.spec.spec),
        main_container(template.spec.spec) is Some,
    ensures
        ({
            let before = main_container(template.spec.spec)->0;
            let old = match before.get("env"@) {
                Some(JsonView::Array(list)) => list,
                _ => Seq::empty(),
            };
            let kept = old.filter(|e: JsonView| e.get("valueFrom"@) is Some);
            &&& main_container(pod_spec_spec(template, over, url)) matches Some(after)
            &&& over.env is None ==> after.get("env"@) == before.get("env"@)
            &&& over.env matches Some(given) ==> (after.get("env"@) matches Some(
                JsonView::Array(list),
            ) && list.len() == kept.len() + given.len() && list.take(kept.len() as int) == kept && (
            forall|i: int|
                0 <= i < given.len() ==> {
                    let entry = #[trigger] list[kept.len() + i];
                    &&& entry.get("name"@) == Some(JsonView::Text(given[i].0))
                    &&& entry.get("value"@) == Some(JsonView::Text(given[i].1))
                    &&& forall|k: Seq<char>|
                        k != "name"@ && k != "value"@ ==> (#[trigger] entry.get(k)) is None
                }))
        }),
{
    lemma_pod_members(template, over, url);
    lemma_keys_differ();
    reveal_strlit("name");
    reveal_strlit("value");
    assert("name"@.len() != "value"@.len());
    let before = main_container(template.spec.spec)->0;
    let after = container_spec(before, over);
    let old = match before.get("env"@) {
        Some(JsonView::Array(list)) => list,
        _ => Seq::empty(),
    };
    let keep = |e: JsonView| e.get("valueFrom"@) is Some;
    let kept = old.filter(keep);
    assert(main_container(pod_spec_spec(template, over, url)) == Some(after));
    assert(keep =~= (|e: JsonView| takes_value_from(e)));
    if let Some(given) = over.env {
        let list = env_spec(before.get_array("env"@), given);
        assert(Seq::<JsonView>::empty().filter(keep) =~= Seq::empty()) by {
            reveal(Seq::filter);
        }
        assert(after.get("env"@) == Some(JsonView::Array(list)));
        assert(list.take(kept.len() as int) =~= kept);
        assert forall|i: int| 0 <= i < given.len() implies {
            let entry = #[trigger] list[kept.len() + i];
            &&& entry.get("name"@) == Some(JsonView::Text(given[i].0))
            &&& entry.get("value"@) == Some(JsonView::Text(given[i].1))
            &&& forall|k: Seq<char>|
                k != "name"@ && k != "value"@ ==> (#[trigger] entry.get(k)) is None
        } by {
            assert(list[kept.len() + i] == env_entry_spec(given[i].0, given[i].1));
        }
    }
}

/// What neither a run nor the upload of output is about stays as the template has it: every
/// other member of the pod spec, and of its first container.
pub proof fn law_the_rest_of_the_template_stays(
    template: JobTemplateView,
    over: JobOverridesView,
    url: Seq<char>,
    key: Seq<char>,
)
    requires
        buildable(template.spec.spec),
    ensures
        key != "volumes"@ && key != "containers"@ && key != "initContainers"@ && key
            != "restartPolicy"@ ==> pod_spec_spec(template, over, url).get(key)
            == template.spec.spec.get(key),
        main_container(template.spec.spec) matches Some(before) && key != "volumeMounts"@ && key
            != "command"@ && key != "args"@ && key != "env"@ ==> (main_container(
            pod_spec_spec(template, over, url),
        ) matches Some(after) && after.get(key) == main_container(template.spec.spec)->0.get(key)),
        main_container(template.spec.spec) is None ==> pod_spec_spec(template, over, url).get(
            "containers"@,
        ) == template.spec.spec.get("containers"@),
{
    lemma_pod_members(template, over, url);
    lemma_keys_differ();
}

/// Every job has a volume for its output, an empty directory behind the volumes of its
/// template, and its first container has it mounted at `/job-output`, behind its other mounts.
pub proof fn law_output_has_a_place(
    template: JobTemplateView,
    over: JobOverridesView,
    url: Seq<char>,
)
    requires
        buildable(template.spec.spec),
        template.spec.spec.get("volumes"@) matches Some(v) ==> v is Array,
        main_container(template.spec.spec) matches Some(c) && (c.get("volumeMounts"@) matches Some(
            v,
        ) ==> v is Array),
    ensures
        ({
            let pod = pod_spec_spec(template, over, url);
            let c = main_container(template.spec.spec)->0;
            let old_volumes = match template.spec.spec.get("volumes"@) {
                Some(JsonView::Array(list)) => list,
                _ => Seq::empty(),
            };
            let old_mounts = match c.get("volumeMounts"@) {
                Some(JsonView::Array(list)) => list,
                _ => Seq::empty(),
            };
            &&& pod.get("volumes"@) matches Some(JsonView::Array(volumes))
            &&& volumes.len() == old_volumes.len() + 1
            &&& volumes.drop_last() == old_volumes
            &&& volumes.last().get("name"@) == Some(JsonView::Text("job-output"@))
            &&& volumes.last().get("emptyDir"@) == Some(
                JsonView::Object(Map::<Seq<char>, JsonView>::empty()),
            )
            &&& main_container(pod) matches Some(made)
            &&& made.get("volumeMounts"@) matches Some(JsonView::Array(mounts))
            &&& mounts.len() == old_mounts.len() + 1
            &&& mounts.drop_last() == old_mounts
            &&& mounts.last().get("name"@) == Some(JsonView::Text("job-output"@))
            &&& mounts.last().get("mountPath"@) == Some(JsonView::Text("/job-output"@))
        }),
{
    lemma_pod_members(template, over, url);
    lemma_keys_differ();
    reveal_strlit("name");
    reveal_strlit("emptyDir");
    reveal_strlit("mountPath");
    assert("name"@.len() == 4 && "emptyDir"@.len() == 8 && "mountPath"@.len() == 9);
    let c = main_container(template.spec.spec)->0;
    let pod = pod_spec_spec(template, over, url);
    let old_volumes = match template.spec.spec.get("volumes"@) {
        Some(JsonView::Array(list)) => list,
        _ => Seq::empty(),
    };
    let old_mounts = match c.get("volumeMounts"@) {
        Some(JsonView::Array(list)) => list,
        _ => Seq::empty(),
    };
    assert(seq![output_volume_spec()].drop_last() =~= Seq::empty());
    assert(seq![output_mount_spec()].drop_last() =~= Seq::empty());
    assert(old_volumes.push(output_volume_spec()).drop_last() =~= old_volumes);
    assert(old_mounts.push(output_mount_spec()).drop_last() =~= old_mounts);
    assert(main_container(pod) == Some(container_spec(c, over)));
}

/// Where there is an address to upload to, a sidecar that uploads stands behind the init
/// containers of the template: it restarts always, mounts the output, and is told the address,
/// without slashes at its end, and the namespace. Where there is none, or it is nothing but
/// slashes, the init containers stay.
pub proof fn law_output_is_uploaded(
    template: JobTemplateView,
    over: JobOverridesView,
    address: Seq<char>,
    slashes: nat,
)
    requires
        buildable(template.spec.spec),
        template.spec.spec.get("initContainers"@) matches Some(v) ==> v is Array,
        address.len() > 0 ==> address.last() != '/',
    ensures
        ({
            let url = address + Seq::new(slashes, |i: int| '/');
            let pod = pod_spec_spec(template, over, url);
            let old = match template.spec.spec.get("initContainers"@) {
                Some(JsonView::Array(list)) => list,
                _ => Seq::empty(),
            };
            let namespace = match template.metadata.namespace {
                Some(n) => n,
                None => "default"@,
            };
            if address.len() == 0 {
                pod.get("initContainers"@) == template.spec.spec.get("initContainers"@)
            } else {
                &&& pod.get("initContainers"@) matches Some(JsonView::Array(list))
                &&& list.len() == old.len() + 1
                &&& list.drop_last() == old
                &&& is_uploader(list.last(), address, namespace)
            }
        }),
{
    let url = address + Seq::new(slashes, |i: int| '/');
    let pod = pod_spec_spec(template, over, url);
    let old = match template.spec.spec.get("initContainers"@) {
        Some(JsonView::Array(list)) => list,
        _ => Seq::empty(),
    };
    lemma_pod_members(template, over, url);
    let trimmed = text::trim_end_matches_spec(url, '/');
    text::law_trim_end_matches(url, '/');
    assert(trimmed == address) by {
        if trimmed.len() < address.len() {
            assert(url[address.len() - 1] == '/');
            assert(address.last() == url[address.len() - 1]);
        }
        if trimmed.len() > address.len() {
            assert(trimmed.last() == url[trimmed.len() - 1]);
        }
        assert(trimmed =~= address);
    }
    if address.len() > 0 {
        let sidecar = sidecar_spec(address, template.namespace());
        lemma_uploader(address, template.namespace());
        assert(seq![sidecar].drop_last() =~= Seq::empty());
        assert(old.push(sidecar).drop_last() =~= old);
    }
}

/// Whether a container is one that uploads the output of a job to an address.
pub open spec fn is_uploader(c: JsonView, address: Seq<char>, namespace: Seq<char>) -> bool {
    &&& c.get("name"@) == Some(JsonView::Text("job-output-sidecar"@))
    &&& c.get("image"@) == Some(JsonView::Text("curlimages/curl:latest"@))
    &&& c.get("restartPolicy"@) == Some(JsonView::Text("Always"@))
    &&& c.get("command"@) matches Some(JsonView::Array(command))
    &&& command.len() == 3
    &&& command[0] == JsonView::Text("sh"@)
    &&& command[1] == JsonView::Text("-c"@)
    &&& c.get("env"@) matches Some(JsonView::Array(env))
    &&& env.len() == 3
    &&& env[0].get("name"@) == Some(JsonView::Text("JOBFATHER_URL"@))
    &&& env[0].get("value"@) == Some(JsonView::Text(address))
    &&& env[1].get("name"@) == Some(JsonView::Text("JOBFATHER_NAMESPACE"@))
    &&& env[1].get("value"@) == Some(JsonView::Text(namespace))
    &&& env[2].get("name"@) == Some(JsonView::Text("JOBFATHER_JOB_NAME"@))
    &&& env[2].get("value"@) is None
    &&& env[2].get("valueFrom"@) matches Some(from)
    &&& from.get("fieldRef"@) matches Some(field)
    &&& field.get("fieldPath"@) == Some(JsonView::Text("metadata.labels['job-name']"@))
    &&& c.get("volumeMounts"@) matches Some(JsonView::Array(mounts))
    &&& mounts.len() == 1
    &&& mounts[0].get("name"@) == Some(JsonView::Text("job-output"@))
    &&& mounts[0].get("mountPath"@) == Some(JsonView::Text("/job-output"@))
}

proof fn lemma_uploader(address: Seq<char>, namespace: Seq<char>)
    ensures
        is_uploader(sidecar_spec(address, namespace), address, namespace),
{
    lemma_keys_differ();
    reveal_strlit("name");
    reveal_strlit("image");
    reveal_strlit("restartPolicy");
    reveal_strlit("command");
    reveal_strlit("env");
    reveal_strlit("volumeMounts");
    reveal_strlit("value");
    reveal_strlit("valueFrom");
    reveal_strlit("mountPath");
    assert("name"@.len() == 4 && "image"@.len() == 5 && "restartPolicy"@.len() == 13
        && "command"@.len() == 7 && "env"@.len() == 3 && "volumeMounts"@.len() == 12
        && "value"@.len() == 5 && "valueFrom"@.len() == 9 && "mountPath"@.len() == 9);
}

/// A job that is made belongs to its template: it lists it as its one owner, by kind, name and
/// identifier, lives in its namespace, and its name is that of the template, a dash, and the
/// moment. It has the pod spec that was made, is not tried again, and of the template's
/// annotations it has the two that say what was built.
pub proof fn law_made_jobs_belong_to_their_template(
    template: JobTemplateView,
    pod: JsonView,
    now: Timestamp,
)
    requires
        calendar::in_four_digits(now.secs()),
    ensures
        ({
            let name = match template.metadata.name {
                Some(n) => n,
                None => "unknown"@,
            };
            &&& build_result_spec(template, pod, None, now) matches Ok(job)
            &&& job.metadata.name == Some(
                name + seq!['-'] + calendar::stamp_spec(now.secs(), now.nanos()),
            )
            &&& job.metadata.generate_name is None
            &&& job.metadata.namespace == Some(
                match template.metadata.namespace {
                    Some(n) => n,
                    None => "default"@,
                },
            )
            &&& job.metadata.owner_references matches Some(owners)
            &&& owners.len() == 1
            &&& owners[0].kind == "JobTemplate"@
            &&& owners[0].api_version == "jobfather.coolkev.com/v1"@
            &&& owners[0].name == name
            &&& owners[0].uid == (match template.metadata.uid {
                Some(u) => u,
                None => Seq::empty(),
            })
            &&& owners[0].controller == Some(true)
            &&& owners[0].block_owner_deletion == Some(true)
            &&& job.template_owner() == Some(owners[0])
            &&& job.spec matches Some(spec)
            &&& spec.pod_spec == pod
            &&& spec.backoff_limit == Some(0i32)
            &&& job.status is None
        }),
{
    reveal_strlit("-");
    assert("-"@ =~= seq!['-']);
}

/// Of the annotations of its template a job has just the two that say what was built, with
/// their values; and no annotations at all where the template has neither.
pub proof fn law_annotations_inherited(
    template: JobTemplateView,
    pod: JsonView,
    now: Timestamp,
    key: Seq<char>,
)
    ensures
        ({
            let job = job_spec(template, pod, now);
            let wanted = key == "artifactSha"@ || key == "configSha"@;
            &&& job.metadata.annotation(key) == (if wanted {
                template.metadata.annotation(key)
            } else {
                None
            })
            &&& job.metadata.annotations is None <==> template.metadata.annotation(
                "artifactSha"@,
            ) is None && template.metadata.annotation("configSha"@) is None
        }),
{
}

/// A pod spec with something wrong makes no job but an error that says what.
pub proof fn law_bad_pod_specs_make_no_job(
    template: JobTemplateView,
    pod: JsonView,
    error: Seq<char>,
    now: Timestamp,
)
    ensures
        build_result_spec(template, pod, Some(error), now) matches Err(message) && message
            == "Invalid pod spec: "@ + error,
        build_result_spec(template, pod, None, now) is Ok,
{
}

/// The jobs of a template are those whose name is the name of the template, a dash, eight
/// digits, a dash and six digits.
pub proof fn law_run_names(template: Seq<char>, day: Seq<char>, clock: Seq<char>, name: Seq<char>)
    ensures
        day.len() == 8 && clock.len() == 6 && crate::decimal::all_digits(day) && crate::decimal::all_digits(clock)
            ==> is_run_of(template + seq!['-'] + day + seq!['-'] + clock, template),
        is_run_of(name, template) ==> {
            let n = template.len() as int;
            &&& name == template + seq!['-'] + name.subrange(n + 1, n + 9) + seq!['-']
                + name.subrange(n + 10, n + 16)
            &&& name.len() == n + 16
            &&& crate::decimal::all_digits(name.subrange(n + 1, n + 9))
            &&& crate::decimal::all_digits(name.subrange(n + 10, n + 16))
        },
{
    let made = template + seq!['-'] + day + seq!['-'] + clock;
    let n = template.len() as int;
    if day.len() == 8 && clock.len() == 6 && crate::decimal::all_digits(day) && crate::decimal::all_digits(
        clock,
    ) {
        assert(made.take(n) =~= template);
        let stamp = made.skip(n + 1);
        assert(stamp =~= day + seq!['-'] + clock);
        assert forall|i: int| 0 <= i < 15 && i != 8 implies crate::decimal::is_digit_spec(
            #[trigger] stamp[i],
        ) by {
            if i < 8 {
                assert(stamp[i] == day[i]);
            } else {
                assert(stamp[i] == clock[i - 9]);
            }
        }
    }
    if is_run_of(name, template) {
        let stamp = name.skip(n + 1);
        assert(name.take(n) =~= template);
        assert forall|i: int| 0 <= i < n implies name[i] == #[trigger] template[i] by {
            assert(name.take(n)[i] == name[i]);
        }
        assert(stamp[8] == name[n + 9]);
        assert(name =~= template + seq!['-'] + name.subrange(n + 1, n + 9) + seq!['-']
            + name.subrange(n + 10, n + 16));
        assert forall|i: int| 0 <= i < 8 implies crate::decimal::is_digit_spec(
            #[trigger] name.subrange(n + 1, n + 9)[i],
        ) by {
            assert(crate::decimal::is_digit_spec(stamp[i]));
        }
        assert forall|i: int| 0 <= i < 6 implies crate::decimal::is_digit_spec(
            #[trigger] name.subrange(n + 10, n + 16)[i],
        ) by {
            assert(crate::decimal::is_digit_spec(stamp[i + 9]));
        }
    }
}

} // verus!

//! The dialog that runs a job from a template, and what is sent from it.

use vstd::prelude::*;

use crate::decimal;
use crate::dup::Dup;
use crate::json::{Json, JsonView};
use crate::kubernetes::job_create::{JobOverrides, JobOverridesView};
use crate::kubernetes::job_template::{JobTemplate, JobTemplateView};
use crate::order::{self, Ordered};
use crate::sorted_map::{self, SortedMap};
use crate::text;

verus! {

/// Everything that the dialog shows.
#[derive(Debug)]
pub struct RunModalData {
    pub namespace: String,
    pub name: String,
    pub image: String,
    /// The command as a line with shell quoting; none where the template leaves it to the image.
    pub command_line: Option<String>,
    /// Variables with a plain value that can be edited. Their names come from the template.
    pub editable: Vec<(String, String)>,
    /// Variables that are injected by the build: shown and sent, but not editable.
    pub locked: Vec<(String, String)>,
    /// Variables that take their value from elsewhere: shown only.
    pub refs: Vec<(String, String)>,
    /// Variables that were added in the dialog.
    pub extra: Vec<(String, String)>,
    /// The arguments as a line with shell quoting.
    pub args_line: String,
    pub command_error: Option<String>,
    pub args_error: Option<String>,
}

/// What a [`RunModalData`] holds.
#[verifier::ext_equal]
pub struct RunModalDataView {
    pub namespace: Seq<char>,
    pub name: Seq<char>,
    pub image: Seq<char>,
    pub command_line: Option<Seq<char>>,
    pub editable: Seq<(Seq<char>, Seq<char>)>,
    pub locked: Seq<(Seq<char>, Seq<char>)>,
    pub refs: Seq<(Seq<char>, Seq<char>)>,
    pub extra: Seq<(Seq<char>, Seq<char>)>,
    pub args_line: Seq<char>,
    pub command_error: Option<Seq<char>>,
    pub args_error: Option<Seq<char>>,
}

impl DeepView for RunModalData {
    type V = RunModalDataView;

    open spec fn deep_view(&self) -> RunModalDataView {
        RunModalDataView {
            namespace: self.namespace.deep_view(),
            name: self.name.deep_view(),
            image: self.image.deep_view(),
            command_line: self.command_line.deep_view(),
            editable: self.editable.deep_view(),
            locked: self.locked.deep_view(),
            refs: self.refs.deep_view(),
            extra: self.extra.deep_view(),
            args_line: self.args_line.deep_view(),
            command_error: self.command_error.deep_view(),
            args_error: self.args_error.deep_view(),
        }
    }
}

/// The line that `shell_words::join` makes of words.
pub uninterp spec fn shell_join_spec(words: Seq<Seq<char>>) -> Seq<char>;

/// The words that `shell_words::split` finds in a line, where its quotes are balanced.
pub uninterp spec fn shell_split_spec(line: Seq<char>) -> Option<Seq<Seq<char>>>;

/// `shell_words::join` quotes each word where it has to and puts a blank between
/// each two. The line depends on the words alone, and splitting it gives the words
/// back: what is not quoted holds none of the characters that splitting acts on,
/// what is quoted is taken as it stands, and an empty word is written as a pair of
/// quotes.
#[verifier::external_body]
fn shell_join(words: &Vec<String>) -> (r: String)
    ensures
        r@ == shell_join_spec(words.deep_view()),
        shell_split_spec(r@) == Some(words.deep_view()),
{
    shell_words::join(words)
}

/// `shell_words::split` finds the words of a line; it fails only where a quote is
/// not closed. What it finds depends on the line alone.
#[verifier::external_body]
fn shell_split(line: &str) -> (r: Option<Vec<String>>)
    ensures
        r.deep_view() == shell_split_spec(line@),
{
    shell_words::split(line).ok()
}

/// The first container of a pod spec.
pub open spec fn first_container_of(pod: JsonView) -> Option<JsonView> {
    match pod.get_array("containers"@) {
        Some(containers) => if containers.len() > 0 {
            Some(containers[0])
        } else {
            None
        },
        None => None,
    }
}

/// Those of the values that are texts.
pub open spec fn texts_among(items: Seq<JsonView>) -> Seq<Seq<char>>
    decreases items.len(),
{
    if items.len() == 0 {
        Seq::empty()
    } else {
        let front = texts_among(items.drop_last());
        match items.last() {
            JsonView::Text(t) => front.push(t),
            _ => front,
        }
    }
}

/// The texts in the list under `key` of a container.
pub open spec fn string_list_spec(container: Option<JsonView>, key: Seq<char>) -> Seq<Seq<char>> {
    match container {
        Some(c) => match c.get_array(key) {
            Some(items) => texts_among(items),
            None => Seq::empty(),
        },
        None => Seq::empty(),
    }
}

/// The text under `key`, or a question mark.
pub open spec fn text_or_mark(value: JsonView, key: Seq<char>) -> Seq<char> {
    match value.get_text(key) {
        Some(t) => t,
        None => "?"@,
    }
}

/// Where a variable takes its value from, in words.
pub open spec fn describe_value_from_spec(value_from: JsonView) -> Seq<char> {
    match value_from.get("secretKeyRef"@) {
        Some(secret) => "secret: "@ + text_or_mark(secret, "name"@) + "/"@ + text_or_mark(
            secret,
            "key"@,
        ),
        None => match value_from.get("configMapKeyRef"@) {
            Some(cm) => "configmap: "@ + text_or_mark(cm, "name"@) + "/"@ + text_or_mark(
                cm,
                "key"@,
            ),
            None => match value_from.get("fieldRef"@) {
                Some(field) => "field: "@ + text_or_mark(field, "fieldPath"@),
                None => if value_from.get("resourceFieldRef"@) is Some {
                    "resourceField"@
                } else {
                    "ref"@
                },
            },
        },
    }
}

fn mark_text(value: &Json, key: &str) -> (r: String)
    ensures
        r@ == text_or_mark(value.deep_view(), key@),
{
    match value.get_text(key) {
        Some(t) => t.clone(),
        None => "?".to_owned(),
    }
}

fn key_ref(prefix: &str, value: &Json) -> (r: String)
    ensures
        r@ == prefix@ + text_or_mark(value.deep_view(), "name"@) + "/"@ + text_or_mark(
            value.deep_view(),
            "key"@,
        ),
{
    let mut r = prefix.to_owned();
    r.append(mark_text(value, "name").as_str());
    r.append("/");
    r.append(mark_text(value, "key").as_str());
    r
}

/// Where a variable takes its value from, in words.
pub fn describe_value_from(value_from: &Json) -> (r: String)
    ensures
        r@ == describe_value_from_spec(value_from.deep_view()),
{
    if let Some(secret) = value_from.get("secretKeyRef") {
        return key_ref("secret: ", secret);
    }
    if let Some(cm) = value_from.get("configMapKeyRef") {
        return key_ref("configmap: ", cm);
    }
    if let Some(field) = value_from.get("fieldRef") {
        return text::concat("field: ", mark_text(field, "fieldPath").as_str());
    }
    if value_from.has("resourceFieldRef") {
        return "resourceField".to_owned();
    }
    "ref".to_owned()
}

/// Whether a variable is one that the build injects.
pub open spec fn is_locked_name(name: Seq<char>) -> bool {
    "CICD_"@.is_prefix_of(name)
}

/// The variables of a container, by what can be done with them.
#[verifier::ext_equal]
pub struct EnvLists {
    pub editable: Seq<(Seq<char>, Seq<char>)>,
    pub locked: Seq<(Seq<char>, Seq<char>)>,
    pub refs: Seq<(Seq<char>, Seq<char>)>,
}

/// The plain value of a variable: empty where it has none.
pub open spec fn plain_value(entry: JsonView) -> Seq<char> {
    match entry.get_text("value"@) {
        Some(v) => v,
        None => Seq::empty(),
    }
}

/// The variables of a container, by what can be done with them; those without a
/// name are passed over.
pub open spec fn env_lists_spec(entries: Seq<JsonView>) -> EnvLists
    decreases entries.len(),
{
    if entries.len() == 0 {
        EnvLists { editable: Seq::empty(), locked: Seq::empty(), refs: Seq::empty() }
    } else {
        let front = env_lists_spec(entries.drop_last());
        let entry = entries.last();
        match entry.get_text("name"@) {
            None => front,
            Some(name) => match entry.get("valueFrom"@) {
                Some(v) => EnvLists {
                    refs: front.refs.push((name, describe_value_from_spec(v))),
                    ..front
                },
                None => if is_locked_name(name) {
                    EnvLists { locked: front.locked.push((name, plain_value(entry))), ..front }
                } else {
                    EnvLists { editable: front.editable.push((name, plain_value(entry))), ..front }
                },
            },
        }
    }
}

/// The variables of the first container.
pub open spec fn env_of(container: Option<JsonView>) -> EnvLists {
    env_lists_spec(
        match container {
            Some(c) => match c.get_array("env"@) {
                Some(entries) => entries,
                None => Seq::empty(),
            },
            None => Seq::empty(),
        },
    )
}

/// What the dialog shows of a template.
pub open spec fn modal_spec(
    template: JobTemplateView,
    namespace: Seq<char>,
    name: Seq<char>,
) -> RunModalDataView {
    let container = first_container_of(template.spec.spec);
    let command = string_list_spec(container, "command"@);
    let env = env_of(container);
    RunModalDataView {
        namespace,
        name,
        image: match container {
            Some(c) => match c.get_text("image"@) {
                Some(i) => i,
                None => "unknown"@,
            },
            None => "unknown"@,
        },
        command_line: if command.len() == 0 {
            None
        } else {
            Some(shell_join_spec(command))
        },
        editable: env.editable,
        locked: env.locked,
        refs: env.refs,
        extra: Seq::empty(),
        args_line: shell_join_spec(string_list_spec(container, "args"@)),
        command_error: None,
        args_error: None,
    }
}

fn string_list(container: Option<&Json>, key: &str) -> (r: Vec<String>)
    ensures
        r.deep_view() == string_list_spec(
            match container {
                Some(c) => Some(c.deep_view()),
                None => None,
            },
            key@,
        ),
{
    let mut list: Vec<String> = Vec::new();
    assert(list.deep_view() =~= Seq::empty());
    if let Some(c) = container {
        if let Some(items) = c.get_array(key) {
            let ghost all = items.deep_view();
            for i in 0..items.len()
                invariant
                    all == items.deep_view(),
                    list.deep_view() == texts_among(all.take(i as int)),
            {
                let ghost before = list.deep_view();
                assert(all.take(i + 1).drop_last() =~= all.take(i as int));
                assert(all.take(i + 1).last() == items@[i as int].deep_view());
                if let Json::Text(t) = &items[i] {
                    list.push(t.clone());
                    assert(list.deep_view() =~= before.push(t@));
                }
            }
            assert(all.take(all.len() as int) =~= all);
        }
    }
    list
}

/// A list of pairs with one more.
fn push_pair(list: Vec<(String, String)>, name: String, value: String) -> (r: Vec<(String, String)>)
    ensures
        r.deep_view() == list.deep_view().push((name@, value@)),
{
    let mut list = list;
    let ghost before = list.deep_view();
    list.push((name, value));
    assert(list.deep_view() =~= before.push((name@, value@)));
    list
}

fn env_lists(entries: &Vec<Json>) -> (r: (
    Vec<(String, String)>,
    Vec<(String, String)>,
    Vec<(String, String)>,
))
    ensures
        env_lists_spec(entries.deep_view()) == (EnvLists {
            editable: r.0.deep_view(),
            locked: r.1.deep_view(),
            refs: r.2.deep_view(),
        }),
{
    let ghost all = entries.deep_view();
    let mut editable: Vec<(String, String)> = Vec::new();
    let mut locked: Vec<(String, String)> = Vec::new();
    let mut refs: Vec<(String, String)> = Vec::new();
    assert(editable.deep_view() =~= Seq::empty());
    assert(locked.deep_view() =~= Seq::empty());
    assert(refs.deep_view() =~= Seq::empty());
    for i in 0..entries.len()
        invariant
            all == entries.deep_view(),
            env_lists_spec(all.take(i as int)) == (EnvLists {
                editable: editable.deep_view(),
                locked: locked.deep_view(),
                refs: refs.deep_view(),
            }),
    {
        let entry = &entries[i];
        assert(all.take(i + 1).drop_last() =~= all.take(i as int));
        assert(all.take(i + 1).last() == entry.deep_view());
        if let Some(name) = entry.get_text("name") {
            if let Some(v) = entry.get("valueFrom") {
                refs = push_pair(refs, name.clone(), describe_value_from(v));
            } else {
                let value = match entry.get_text("value") {
                    Some(v) => v.clone(),
                    None => String::new(),
                };
                if text::starts_with(name.as_str(), "CICD_") {
                    locked = push_pair(locked, name.clone(), value);
                } else {
                    editable = push_pair(editable, name.clone(), value);
                }
            }
        }
    }
    assert(all.take(all.len() as int) =~= all);
    (editable, locked, refs)
}

/// The editable variables after some were sent: the first of that name takes the
/// value that was sent.
pub open spec fn edited(
    editable: Seq<(Seq<char>, Seq<char>)>,
    name: Seq<char>,
    value: Seq<char>,
) -> Seq<(Seq<char>, Seq<char>)>
    decreases editable.len(),
{
    if editable.len() == 0 {
        editable
    } else if editable[0].0 == name {
        editable.update(0, (editable[0].0, value))
    } else {
        seq![editable[0]] + edited(editable.drop_first(), name, value)
    }
}

/// Whether one of the variables has that name.
pub open spec fn has_name(list: Seq<(Seq<char>, Seq<char>)>, name: Seq<char>) -> bool {
    exists|i: int| 0 <= i < list.len() && (#[trigger] list[i]).0 == name
}

/// The editable and the added variables after those that were sent have been laid
/// over them: a locked one is passed over, one of the template takes its new value,
/// and any other is added.
pub open spec fn submitted_spec(
    editable: Seq<(Seq<char>, Seq<char>)>,
    extra: Seq<(Seq<char>, Seq<char>)>,
    submitted: Seq<(Seq<char>, Seq<char>)>,
) -> (Seq<(Seq<char>, Seq<char>)>, Seq<(Seq<char>, Seq<char>)>)
    decreases submitted.len(),
{
    if submitted.len() == 0 {
        (editable, extra)
    } else {
        let (e, x) = submitted_spec(editable, extra, submitted.drop_last());
        let (name, value) = submitted.last();
        if is_locked_name(name) {
            (e, x)
        } else if has_name(e, name) {
            (edited(e, name, value), x)
        } else {
            (e, x.push((name, value)))
        }
    }
}

proof fn lemma_edited_at(
    editable: Seq<(Seq<char>, Seq<char>)>,
    k: int,
    name: Seq<char>,
    value: Seq<char>,
)
    requires
        0 <= k < editable.len(),
        editable[k].0 == name,
        forall|i: int| 0 <= i < k ==> (#[trigger] editable[i]).0 != name,
    ensures
        edited(editable, name, value) == editable.update(k, (name, value)),
    decreases editable.len(),
{
    if k > 0 {
        let rest = editable.drop_first();
        assert(editable[0].0 != name);
        assert forall|i: int| 0 <= i < k - 1 implies (#[trigger] rest[i]).0 != name by {
            assert(editable[i + 1].0 != name);
        }
        lemma_edited_at(rest, k - 1, name, value);
        assert(edited(editable, name, value) =~= editable.update(k, (name, value)));
    }
}

impl RunModalData {
    /// What the dialog shows of a template at first. The lines for the command and
    /// the arguments split into the words of the template.
    pub fn from_template(template: &JobTemplate, namespace: &str, name: &str) -> (r: RunModalData)
        ensures
            r.deep_view() == modal_spec(template.deep_view(), namespace@, name@),
            shell_split_spec(r.args_line@) == Some(
                string_list_spec(
                    first_container_of(template.deep_view().spec.spec),
                    "args"@,
                ),
            ),
            r.command_line matches Some(line) ==> shell_split_spec(line@) == Some(
                string_list_spec(
                    first_container_of(template.deep_view().spec.spec),
                    "command"@,
                ),
            ),
    {
        let pod = &template.spec.spec;
        let container: Option<&Json> = match pod.get_array("containers") {
            Some(containers) => if containers.len() > 0 {
                assert(containers.deep_view()[0] == containers@[0].deep_view());
                Some(&containers[0])
            } else {
                None
            },
            None => None,
        };
        let command = string_list(container, "command");
        let args = string_list(container, "args");
        assert(command.deep_view().len() == command@.len());
        let none: Vec<Json> = Vec::new();
        assert(none.deep_view() =~= Seq::empty());
        let (editable, locked, refs) = match container {
            Some(c) => match c.get_array("env") {
                Some(entries) => env_lists(entries),
                None => env_lists(&none),
            },
            None => env_lists(&none),
        };
        let image = match container {
            Some(c) => match c.get_text("image") {
                Some(i) => i.clone(),
                None => "unknown".to_owned(),
            },
            None => "unknown".to_owned(),
        };
        let extra: Vec<(String, String)> = Vec::new();
        assert(extra.deep_view() =~= Seq::empty());
        RunModalData {
            namespace: namespace.to_owned(),
            name: name.to_owned(),
            image,
            command_line: if command.len() == 0 {
                None
            } else {
                Some(shell_join(&command))
            },
            editable,
            locked,
            refs,
            extra,
            args_line: shell_join(&args),
            command_error: None,
            args_error: None,
        }
    }

    /// Lays what was sent over what the template says, so that a dialog that is shown
    /// again keeps what was typed. The command is kept only where the template has one.
    pub fn apply_submission(
        &mut self,
        command_line: Option<String>,
        args_line: String,
        submitted_env: Vec<(String, String)>,
    )
        ensures
            ({
                let before = old(self).deep_view();
                let (editable, extra) = submitted_spec(
                    before.editable,
                    before.extra,
                    submitted_env.deep_view(),
                );
                final(self).deep_view() == RunModalDataView {
                    command_line: if before.command_line is Some {
                        command_line.deep_view()
                    } else {
                        None
                    },
                    args_line: args_line@,
                    editable,
                    extra,
                    ..before
                }
            }),
    {
        if self.command_line.is_some() {
            self.command_line = command_line;
        }
        self.args_line = args_line;
        let ghost sent = submitted_env.deep_view();
        let ghost first = old(self).deep_view();
        let ghost now_command = self.command_line.deep_view();
        for i in 0..submitted_env.len()
            invariant
                sent == submitted_env.deep_view(),
                first == old(self).deep_view(),
                (self.editable.deep_view(), self.extra.deep_view()) == submitted_spec(
                    first.editable,
                    first.extra,
                    sent.take(i as int),
                ),
                self.deep_view() == (RunModalDataView {
                    command_line: now_command,
                    args_line: args_line@,
                    editable: self.editable.deep_view(),
                    extra: self.extra.deep_view(),
                    ..first
                }),
        {
            let name = &submitted_env[i].0;
            let value = &submitted_env[i].1;
            assert(sent.take(i + 1).drop_last() =~= sent.take(i as int));
            assert(sent.take(i + 1).last() == (name@, value@)) by {
                assert(sent[i as int] == submitted_env@[i as int].deep_view());
            }
            if !text::starts_with(name.as_str(), "CICD_") {
                let ghost before = self.editable.deep_view();
                match find_name(&self.editable, name.as_str()) {
                    Some(k) => {
                        proof {
                            lemma_edited_at(before, k as int, name@, value@);
                            assert(before[k as int].0 == name@);
                        }
                        self.editable.set(k, (name.clone(), value.clone()));
                        assert(self.editable.deep_view() =~= before.update(
                            k as int,
                            (name@, value@),
                        ));
                    },
                    None => {
                        let ghost added = self.extra.deep_view();
                        self.extra.push((name.clone(), value.clone()));
                        assert(self.extra.deep_view() =~= added.push((name@, value@)));
                    },
                }
            }
        }
        assert(sent.take(sent.len() as int) =~= sent);
    }

    /// How many variables the dialog shows.
    pub fn env_count(&self) -> (r: usize)
        requires
            self.deep_view().editable.len() + self.deep_view().locked.len()
                + self.deep_view().refs.len() + self.deep_view().extra.len() <= usize::MAX,
        ensures
            r == self.deep_view().editable.len() + self.deep_view().locked.len()
                + self.deep_view().refs.len() + self.deep_view().extra.len(),
    {
        self.editable.len() + self.locked.len() + self.refs.len() + self.extra.len()
    }
}

fn find_name(list: &Vec<(String, String)>, name: &str) -> (r: Option<usize>)
    ensures
        match r {
            Some(k) => k < list@.len() && list.deep_view()[k as int].0 == name@ && has_name(
                list.deep_view(),
                name@,
            ) && forall|i: int| 0 <= i < k ==> (#[trigger] list.deep_view()[i]).0 != name@,
            None => !has_name(list.deep_view(), name@),
        },
{
    let ghost all = list.deep_view();
    for k in 0..list.len()
        invariant
            all == list.deep_view(),
            forall|i: int| 0 <= i < k ==> (#[trigger] all[i]).0 != name@,
    {
        assert(all[k as int] == list@[k as int].deep_view());
        if text::eq(list[k].0.as_str(), name) {
            return Some(k);
        }
    }
    None
}

proof fn lemma_edited_names(
    editable: Seq<(Seq<char>, Seq<char>)>,
    name: Seq<char>,
    value: Seq<char>,
)
    ensures
        edited(editable, name, value).len() == editable.len(),
        forall|i: int|
            0 <= i < editable.len() ==> (#[trigger] edited(editable, name, value)[i]).0
                == editable[i].0,
    decreases editable.len(),
{
    if editable.len() > 0 && editable[0].0 != name {
        lemma_edited_names(editable.drop_first(), name, value);
        let after = edited(editable, name, value);
        assert forall|i: int| 0 <= i < editable.len() implies (#[trigger] after[i]).0
            == editable[i].0 by {
            if i > 0 {
                assert(after[i] == edited(editable.drop_first(), name, value)[i - 1]);
            }
        }
    }
}

/// What is sent changes the values of variables of the template, never their names
/// or their number.
pub proof fn law_template_names_stay(
    editable: Seq<(Seq<char>, Seq<char>)>,
    extra: Seq<(Seq<char>, Seq<char>)>,
    submitted: Seq<(Seq<char>, Seq<char>)>,
)
    ensures
        submitted_spec(editable, extra, submitted).0.len() == editable.len(),
        forall|i: int|
            0 <= i < editable.len() ==> (#[trigger] submitted_spec(editable, extra, submitted).0[i]).0
                == editable[i].0,
    decreases submitted.len(),
{
    if submitted.len() > 0 {
        law_template_names_stay(editable, extra, submitted.drop_last());
        let (e, x) = submitted_spec(editable, extra, submitted.drop_last());
        let (name, value) = submitted.last();
        lemma_edited_names(e, name, value);
    }
}

/// A variable that the build injects is never taken from what was sent.
pub proof fn law_locked_names_are_not_taken(
    editable: Seq<(Seq<char>, Seq<char>)>,
    extra: Seq<(Seq<char>, Seq<char>)>,
    submitted: Seq<(Seq<char>, Seq<char>)>,
    i: int,
)
    requires
        extra.len() <= i < submitted_spec(editable, extra, submitted).1.len(),
    ensures
        !is_locked_name(submitted_spec(editable, extra, submitted).1[i].0),
    decreases submitted.len(),
{
    if submitted.len() > 0 {
        let (e, x) = submitted_spec(editable, extra, submitted.drop_last());
        if i < x.len() {
            law_locked_names_are_not_taken(editable, extra, submitted.drop_last(), i);
        }
    }
}

proof fn lemma_edited_keeps_others(
    editable: Seq<(Seq<char>, Seq<char>)>,
    name: Seq<char>,
    value: Seq<char>,
    kept: (Seq<char>, Seq<char>),
)
    requires
        editable.contains(kept),
        kept.0 != name,
    ensures
        edited(editable, name, value).contains(kept),
    decreases editable.len(),
{
    let k = editable.index_of(kept);
    assert(editable[k] == kept);
    let after = edited(editable, name, value);
    if editable[0].0 == name {
        assert(after[k] == kept);
    } else if k == 0 {
        assert(after[0] == kept);
    } else {
        let rest = editable.drop_first();
        assert(rest[k - 1] == kept);
        lemma_edited_keeps_others(rest, name, value, kept);
        let j = edited(rest, name, value).index_of(kept);
        assert(edited(rest, name, value)[j] == kept);
        assert(after[j + 1] == kept);
    }
}

/// What was typed is not lost: a variable that was sent, unless it is locked or was sent
/// again under the same name, is among the editable or the added ones with its value.
pub proof fn law_typed_values_kept(
    editable: Seq<(Seq<char>, Seq<char>)>,
    extra: Seq<(Seq<char>, Seq<char>)>,
    submitted: Seq<(Seq<char>, Seq<char>)>,
    i: int,
)
    requires
        0 <= i < submitted.len(),
        !is_locked_name(submitted[i].0),
        forall|j: int| i < j < submitted.len() ==> (#[trigger] submitted[j]).0 != submitted[i].0,
    ensures
        ({
            let (e, x) = submitted_spec(editable, extra, submitted);
            e.contains(submitted[i]) || x.contains(submitted[i])
        }),
    decreases submitted.len(),
{
    let rest = submitted.drop_last();
    let (e, x) = submitted_spec(editable, extra, rest);
    let (name, value) = submitted.last();
    let kept = submitted[i];
    if i == submitted.len() - 1 {
        if has_name(e, name) {
            lemma_edited_holds(e, name, value);
        } else {
            assert(x.push(kept)[x.len() as int] == kept);
        }
    } else {
        assert(rest[i] == kept);
        assert forall|j: int| i < j < rest.len() implies (#[trigger] rest[j]).0 != rest[i].0 by {
            assert(submitted[j].0 != submitted[i].0);
        }
        law_typed_values_kept(editable, extra, rest, i);
        assert(submitted[submitted.len() - 1].0 != kept.0);
        if e.contains(kept) {
            lemma_edited_keeps_others(e, name, value, kept);
        } else {
            let k = x.index_of(kept);
            assert(x[k] == kept);
            assert(x.push((name, value))[k] == kept);
        }
    }
}

proof fn lemma_edited_holds(
    editable: Seq<(Seq<char>, Seq<char>)>,
    name: Seq<char>,
    value: Seq<char>,
)
    requires
        has_name(editable, name),
    ensures
        edited(editable, name, value).contains((name, value)),
    decreases editable.len(),
{
    let after = edited(editable, name, value);
    if editable[0].0 == name {
        assert(after[0] == (name, value));
    } else {
        let k = choose|k: int| 0 <= k < editable.len() && (#[trigger] editable[k]).0 == name;
        let rest = editable.drop_first();
        assert(rest[k - 1].0 == name);
        lemma_edited_holds(rest, name, value);
        let j = edited(rest, name, value).index_of((name, value));
        assert(edited(rest, name, value)[j] == (name, value));
        assert(after[j + 1] == (name, value));
    }
}

/// The names of the entries that have one.
pub open spec fn entry_names(entries: Seq<JsonView>) -> Seq<Seq<char>>
    decreases entries.len(),
{
    if entries.len() == 0 {
        Seq::empty()
    } else {
        let front = entry_names(entries.drop_last());
        match entries.last().get_text("name"@) {
            Some(name) => front.push(name),
            None => front,
        }
    }
}

/// The names of variables.
pub open spec fn names_of(variables: Seq<(Seq<char>, Seq<char>)>) -> Seq<Seq<char>> {
    variables.map_values(|v: (Seq<char>, Seq<char>)| v.0)
}

/// What the build injects is never among what can be edited, only that is locked, and every
/// entry of a container that has a name is shown once: in one of the three lists.
pub proof fn law_env_lists_partition(entries: Seq<JsonView>)
    ensures
        forall|i: int|
            0 <= i < env_lists_spec(entries).locked.len() ==> is_locked_name(
                (#[trigger] env_lists_spec(entries).locked[i]).0,
            ),
        forall|i: int|
            0 <= i < env_lists_spec(entries).editable.len() ==> !is_locked_name(
                (#[trigger] env_lists_spec(entries).editable[i]).0,
            ),
        env_lists_spec(entries).editable.len() + env_lists_spec(entries).locked.len()
            + env_lists_spec(entries).refs.len() == entry_names(entries).len(),
        names_of(env_lists_spec(entries).editable).to_multiset().add(
            names_of(env_lists_spec(entries).locked).to_multiset(),
        ).add(names_of(env_lists_spec(entries).refs).to_multiset()) == entry_names(
            entries,
        ).to_multiset(),
    decreases entries.len(),
{
    broadcast use vstd::seq_lib::group_to_multiset_ensures;

    if entries.len() > 0 {
        law_env_lists_partition(entries.drop_last());
        let front = env_lists_spec(entries.drop_last());
        if let Some(name) = entries.last().get_text("name"@) {
            let before = entry_names(entries.drop_last());
            match entries.last().get("valueFrom"@) {
                Some(v) => {
                    lemma_name_pushed(front.refs, (name, describe_value_from_spec(v)));
                },
                None => {
                    lemma_name_pushed(front.locked, (name, plain_value(entries.last())));
                    lemma_name_pushed(front.editable, (name, plain_value(entries.last())));
                },
            }
            let lists = env_lists_spec(entries);
            assert(names_of(lists.editable).to_multiset().add(
                names_of(lists.locked).to_multiset(),
            ).add(names_of(lists.refs).to_multiset()) =~= before.to_multiset().insert(name));
        }
    } else {
        let none = env_lists_spec(entries);
        assert(names_of(none.editable) =~= Seq::empty());
        assert(names_of(none.locked) =~= Seq::empty());
        assert(names_of(none.refs) =~= Seq::empty());
        assert(Seq::<Seq<char>>::empty().to_multiset() =~= vstd::multiset::Multiset::empty());
        assert(vstd::multiset::Multiset::<Seq<char>>::empty().add(
            vstd::multiset::Multiset::empty(),
        ) =~= vstd::multiset::Multiset::empty());
    }
}

proof fn lemma_name_pushed(variables: Seq<(Seq<char>, Seq<char>)>, v: (Seq<char>, Seq<char>))
    ensures
        names_of(variables.push(v)).to_multiset() == names_of(variables).to_multiset().insert(v.0),
{
    broadcast use vstd::seq_lib::group_to_multiset_ensures;

    assert(names_of(variables.push(v)) =~= names_of(variables).push(v.0));
}

/// The class of a field of the dialog.
pub fn field_class(has_error: bool) -> (r: &'static str)
    ensures
        r@ == (if has_error {
            "args-field args-field-error"@
        } else {
            "args-field"@
        }),
{
    if has_error {
        "args-field args-field-error"
    } else {
        "args-field"
    }
}

/// A variable in the form of the dialog: the names of its two fields, and what they hold.
#[derive(Debug)]
pub struct FormRow {
    pub name_field: String,
    pub value_field: String,
    pub name: String,
    pub value: String,
}

/// What a [`FormRow`] holds.
#[verifier::ext_equal]
pub struct FormRowView {
    pub name_field: Seq<char>,
    pub value_field: Seq<char>,
    pub name: Seq<char>,
    pub value: Seq<char>,
}

impl DeepView for FormRow {
    type V = FormRowView;

    open spec fn deep_view(&self) -> FormRowView {
        FormRowView {
            name_field: self.name_field.deep_view(),
            value_field: self.value_field.deep_view(),
            name: self.name.deep_view(),
            value: self.value.deep_view(),
        }
    }
}

/// The fields of the dialog.
#[derive(Debug)]
pub struct RunModal {
    /// Variables whose value can be edited.
    pub editable: Vec<FormRow>,
    /// Variables that were added.
    pub extra: Vec<FormRow>,
    /// Variables that are sent as they are.
    pub locked: Vec<FormRow>,
    /// Whether any variable is shown that cannot be edited.
    pub has_static: bool,
    /// The number that the fields of the next variable get.
    pub next_index: usize,
    /// How many variables there are, in words.
    pub count_text: String,
    pub command_class: String,
    pub args_class: String,
    pub post_link: String,
}

/// What a [`RunModal`] holds.
#[verifier::ext_equal]
pub struct RunModalView {
    pub editable: Seq<FormRowView>,
    pub extra: Seq<FormRowView>,
    pub locked: Seq<FormRowView>,
    pub has_static: bool,
    pub next_index: usize,
    pub count_text: Seq<char>,
    pub command_class: Seq<char>,
    pub args_class: Seq<char>,
    pub post_link: Seq<char>,
}

impl DeepView for RunModal {
    type V = RunModalView;

    open spec fn deep_view(&self) -> RunModalView {
        RunModalView {
            editable: self.editable.deep_view(),
            extra: self.extra.deep_view(),
            locked: self.locked.deep_view(),
            has_static: self.has_static.deep_view(),
            next_index: self.next_index.deep_view(),
            count_text: self.count_text.deep_view(),
            command_class: self.command_class.deep_view(),
            args_class: self.args_class.deep_view(),
            post_link: self.post_link.deep_view(),
        }
    }
}

/// The name of the field for the name of the variable with a number.
pub open spec fn name_field_spec(i: nat) -> Seq<char> {
    "env_name_"@ + decimal::digits_spec(i)
}

/// The name of the field for the value of the variable with a number.
pub open spec fn value_field_spec(i: nat) -> Seq<char> {
    "env_value_"@ + decimal::digits_spec(i)
}

/// The variables of a list in the form, numbered from `offset` on.
pub open spec fn form_rows_spec(list: Seq<(Seq<char>, Seq<char>)>, offset: nat) -> Seq<FormRowView> {
    Seq::new(
        list.len(),
        |i: int|
            FormRowView {
                name_field: name_field_spec((offset + i) as nat),
                value_field: value_field_spec((offset + i) as nat),
                name: list[i].0,
                value: list[i].1,
            },
    )
}

fn form_rows(list: &Vec<(String, String)>, offset: usize) -> (r: Vec<FormRow>)
    requires
        offset + list@.len() <= usize::MAX,
    ensures
        r.deep_view() == form_rows_spec(list.deep_view(), offset as nat),
{
    let ghost all = list.deep_view();
    let mut rows: Vec<FormRow> = Vec::new();
    for i in 0..list.len()
        invariant
            all == list.deep_view(),
            offset + list@.len() <= usize::MAX,
            rows@.len() == i,
            forall|j: int|
                0 <= j < i ==> (#[trigger] rows.deep_view()[j]) == form_rows_spec(
                    all,
                    offset as nat,
                )[j],
    {
        let ghost before = rows.deep_view();
        let number = decimal::of_u64((offset + i) as u64);
        let row = FormRow {
            name_field: text::concat("env_name_", number.as_str()),
            value_field: text::concat("env_value_", number.as_str()),
            name: list[i].0.clone(),
            value: list[i].1.clone(),
        };
        rows.push(row);
        assert(rows.deep_view() =~= before.push(row.deep_view()));
        assert(all[i as int] == list@[i as int].deep_view());
    }
    assert(rows.deep_view() =~= form_rows_spec(all, offset as nat));
    rows
}

/// The number of variables that a dialog shows.
pub open spec fn env_count_spec(data: RunModalDataView) -> nat {
    data.editable.len() + data.locked.len() + data.refs.len() + data.extra.len()
}

/// The fields of the dialog. The numbers of its variables run on from the editable over
/// the locked to the added ones.
pub open spec fn run_modal_spec(data: RunModalDataView) -> RunModalView {
    let locked_offset = data.editable.len();
    let extra_offset = locked_offset + data.locked.len();
    RunModalView {
        editable: form_rows_spec(data.editable, 0),
        extra: form_rows_spec(data.extra, extra_offset),
        locked: form_rows_spec(data.locked, locked_offset),
        has_static: data.locked.len() > 0 || data.refs.len() > 0,
        next_index: (extra_offset + data.extra.len()) as usize,
        count_text: decimal::digits_spec(env_count_spec(data)) + " variables from the template"@,
        command_class: if data.command_error is Some {
            "args-field args-field-error"@
        } else {
            "args-field"@
        },
        args_class: if data.args_error is Some {
            "args-field args-field-error"@
        } else {
            "args-field"@
        },
        post_link: "/job-templates/"@ + data.namespace + "/"@ + data.name + "/run"@,
    }
}

/// The fields of the dialog.
pub fn run_modal(data: &RunModalData) -> (r: RunModal)
    requires
        env_count_spec(data.deep_view()) <= usize::MAX,
    ensures
        r.deep_view() == run_modal_spec(data.deep_view()),
{
    assert(data.editable.deep_view().len() == data.editable@.len());
    assert(data.locked.deep_view().len() == data.locked@.len());
    assert(data.refs.deep_view().len() == data.refs@.len());
    assert(data.extra.deep_view().len() == data.extra@.len());
    let locked_offset: usize = data.editable.len();
    let extra_offset: usize = locked_offset + data.locked.len();
    let next_index: usize = extra_offset + data.extra.len();
    let count: usize = data.env_count();
    let has_static: bool = data.locked.len() > 0 || data.refs.len() > 0;
    let mut post_link = "/job-templates/".to_owned();
    post_link.append(data.namespace.as_str());
    post_link.append("/");
    post_link.append(data.name.as_str());
    post_link.append("/run");
    RunModal {
        editable: form_rows(&data.editable, 0),
        extra: form_rows(&data.extra, extra_offset),
        locked: form_rows(&data.locked, locked_offset),
        has_static,
        next_index,
        count_text: text::concat(
            decimal::of_u64(count as u64).as_str(),
            " variables from the template",
        ),
        command_class: field_class(data.command_error.is_some()).to_owned(),
        args_class: field_class(data.args_error.is_some()).to_owned(),
        post_link,
    }
}

/// What is sent from the dialog.
#[derive(Debug)]
pub struct RunJobForm {
    pub command: Option<String>,
    pub args: Option<String>,
    /// The other fields, by name.
    pub extra: SortedMap<String>,
}

/// What a [`RunJobForm`] holds.
#[verifier::ext_equal]
pub struct RunJobFormView {
    pub command: Option<Seq<char>>,
    pub args: Option<Seq<char>>,
    pub extra: Map<Seq<char>, Seq<char>>,
}

impl DeepView for RunJobForm {
    type V = RunJobFormView;

    open spec fn deep_view(&self) -> RunJobFormView {
        RunJobFormView {
            command: self.command.deep_view(),
            args: self.args.deep_view(),
            extra: self.extra.deep_view(),
        }
    }
}

/// A variable that was sent, with its number.
#[derive(Debug)]
pub struct IndexedEnv {
    pub index: usize,
    pub name: String,
    pub value: String,
}

/// What a [`IndexedEnv`] holds.
#[verifier::ext_equal]
pub struct IndexedEnvView {
    pub index: usize,
    pub name: Seq<char>,
    pub value: Seq<char>,
}

impl DeepView for IndexedEnv {
    type V = IndexedEnvView;

    open spec fn deep_view(&self) -> IndexedEnvView {
        IndexedEnvView {
            index: self.index.deep_view(),
            name: self.name.deep_view(),
            value: self.value.deep_view(),
        }
    }
}

impl Ordered for IndexedEnv {
    open spec fn before(a: IndexedEnvView, b: IndexedEnvView) -> bool {
        a.index <= b.index
    }

    proof fn lemma_total(a: IndexedEnvView, b: IndexedEnvView) {
    }

    proof fn lemma_transitive(a: IndexedEnvView, b: IndexedEnvView, c: IndexedEnvView) {
    }

    fn is_before(&self, other: &IndexedEnv) -> (r: bool) {
        self.index <= other.index
    }
}

/// The number in the name of a field for the name of a variable.
pub open spec fn field_index(key: Seq<char>) -> Option<nat> {
    if "env_name_"@.is_prefix_of(key) {
        decimal::parse_unsigned_spec(key.skip("env_name_"@.len() as int), usize::MAX as nat)
    } else {
        None
    }
}

/// The variable that a field names, where it is such a field and names one.
pub open spec fn sent_variable(fields: Map<Seq<char>, Seq<char>>, key: Seq<char>) -> Option<
    IndexedEnvView,
> {
    match field_index(key) {
        Some(i) => if fields[key].len() == 0 {
            None
        } else {
            Some(
                IndexedEnvView {
                    index: i as usize,
                    name: fields[key],
                    value: if fields.dom().contains(value_field_spec(i)) {
                        fields[value_field_spec(i)]
                    } else {
                        Seq::empty()
                    },
                },
            )
        },
        None => None,
    }
}

/// The variables that the fields with the given keys name.
pub open spec fn sent_variables(fields: Map<Seq<char>, Seq<char>>, keys: Seq<Seq<char>>) -> Seq<
    IndexedEnvView,
>
    decreases keys.len(),
{
    if keys.len() == 0 {
        Seq::empty()
    } else {
        let front = sent_variables(fields, keys.drop_last());
        match sent_variable(fields, keys.last()) {
            Some(v) => front.push(v),
            None => front,
        }
    }
}

/// The variables that were sent, in the order of their numbers.
pub open spec fn form_env_spec(fields: Map<Seq<char>, Seq<char>>, keys: Seq<Seq<char>>) -> Seq<
    (Seq<char>, Seq<char>),
> {
    order::sorted_spec::<IndexedEnv>(sent_variables(fields, keys)).map_values(
        |v: IndexedEnvView| (v.name, v.value),
    )
}

fn variable_at(form: &RunJobForm, i: usize) -> (r: Option<IndexedEnv>)
    requires
        i < form.extra.keys().len(),
    ensures
        r.deep_view() == sent_variable(form.extra@, form.extra.keys()[i as int]),
{
    let key = form.extra.key(i);
    if !text::starts_with(key.as_str(), "env_name_") {
        return None;
    }
    let rest = text::without_prefix(key.as_str(), "env_name_");
    match decimal::parse_usize(rest.as_str()) {
        Some(index) => {
            let name = form.extra.value(i);
            if name.as_str().is_empty() {
                None
            } else {
                let number = decimal::of_u64(index as u64);
                let field = text::concat("env_value_", number.as_str());
                let value = match form.extra.get(field.as_str()) {
                    Some(v) => v.clone(),
                    None => String::new(),
                };
                Some(IndexedEnv { index, name: name.clone(), value })
            }
        },
        None => None,
    }
}

/// Collects the variables that were sent, in the order of their numbers.
pub fn parse_form_env(form: &RunJobForm) -> (r: Vec<(String, String)>)
    ensures
        r.deep_view() == form_env_spec(form.extra@, form.extra.keys()),
{
    let ghost keys = form.extra.keys();
    let n: usize = form.extra.len();
    let mut found: Vec<IndexedEnv> = Vec::new();
    assert(found.deep_view() =~= Seq::empty());
    for i in 0..n
        invariant
            n == form.extra.keys().len(),
            keys == form.extra.keys(),
            found.deep_view() == sent_variables(form.extra@, keys.take(i as int)),
    {
        let ghost before = found.deep_view();
        assert(keys.take(i + 1).drop_last() =~= keys.take(i as int));
        assert(keys.take(i + 1).last() == keys[i as int]);
        if let Some(v) = variable_at(form, i) {
            found.push(v);
            assert(found.deep_view() =~= before.push(v.deep_view()));
        }
    }
    assert(keys.take(keys.len() as int) =~= keys);
    let sorted = order::sort(found);
    let ghost all = sorted.deep_view();
    let ghost f = |v: IndexedEnvView| (v.name, v.value);
    let mut env: Vec<(String, String)> = Vec::new();
    for i in 0..sorted.len()
        invariant
            all == sorted.deep_view(),
            f == (|v: IndexedEnvView| (v.name, v.value)),
            env.deep_view() == all.take(i as int).map_values(f),
    {
        let ghost before = env.deep_view();
        let pair = (sorted[i].name.clone(), sorted[i].value.clone());
        env.push(pair);
        assert(env.deep_view() =~= before.push(pair.deep_view()));
        assert(all[i as int] == sorted@[i as int].deep_view());
        assert(all.take(i + 1).map_values(f) =~= all.take(i as int).map_values(f).push(
            pair.deep_view(),
        ));
    }
    assert(all.take(all.len() as int) =~= all);
    env
}

/// Whether the fields are those of a form with the given variables, numbered from zero
/// on: of the fields that name variables there are no others.
pub open spec fn is_form_of(
    fields: Map<Seq<char>, Seq<char>>,
    env: Seq<(Seq<char>, Seq<char>)>,
) -> bool {
    &&& forall|i: int|
        0 <= i < env.len() ==> fields.dom().contains(#[trigger] name_field_spec(i as nat))
            && fields[name_field_spec(i as nat)] == env[i].0 && fields.dom().contains(
            value_field_spec(i as nat),
        ) && fields[value_field_spec(i as nat)] == env[i].1
    &&& forall|k: Seq<char>| #[trigger]
        fields.dom().contains(k) && field_index(k) is Some ==> exists|i: int|
            0 <= i < env.len() && k == #[trigger] name_field_spec(i as nat)
}

proof fn lemma_field_index(i: nat)
    requires
        i <= usize::MAX,
    ensures
        field_index(name_field_spec(i)) == Some(i),
{
    let key = name_field_spec(i);
    assert("env_name_"@.is_prefix_of(key));
    assert(key.skip("env_name_"@.len() as int) =~= decimal::digits_spec(i));
    decimal::law_unsigned_round_trip(i, usize::MAX as nat);
}

/// The fields of a form hold at least as many keys as the form has variables.
proof fn lemma_form_len(
    fields: Map<Seq<char>, Seq<char>>,
    keys: Seq<Seq<char>>,
    env: Seq<(Seq<char>, Seq<char>)>,
)
    requires
        is_form_of(fields, env),
        keys.no_duplicates(),
        forall|k: Seq<char>| #[trigger] keys.contains(k) <==> fields.dom().contains(k),
    ensures
        env.len() <= keys.len(),
{
    let names = Seq::new(env.len(), |i: int| name_field_spec(i as nat));
    assert forall|i: int, j: int|
        0 <= i < names.len() && 0 <= j < names.len() && i != j implies names[i] != names[j] by {
        let max = (i + j) as nat;
        let start = "env_name_"@.len() as int;
        decimal::law_unsigned_round_trip(i as nat, max);
        decimal::law_unsigned_round_trip(j as nat, max);
        assert(names[i].skip(start) =~= decimal::digits_spec(i as nat));
        assert(names[j].skip(start) =~= decimal::digits_spec(j as nat));
    }
    names.unique_seq_to_set();
    keys.unique_seq_to_set();
    vstd::seq_lib::seq_to_set_is_finite(names);
    vstd::seq_lib::seq_to_set_is_finite(keys);
    assert forall|k: Seq<char>| names.to_set().contains(k) implies keys.to_set().contains(k) by {
        let i = names.index_of(k);
        assert(names[i] == k);
        assert(fields.dom().contains(name_field_spec(i as nat)));
        assert(keys.contains(k));
    }
    vstd::set_lib::lemma_len_subset(names.to_set(), keys.to_set());
}

/// The variable with number `i` of a form.
pub open spec fn numbered(env: Seq<(Seq<char>, Seq<char>)>, i: int) -> IndexedEnvView {
    IndexedEnvView { index: i as usize, name: env[i].0, value: env[i].1 }
}

proof fn lemma_sent_variable(
    fields: Map<Seq<char>, Seq<char>>,
    env: Seq<(Seq<char>, Seq<char>)>,
    i: int,
)
    requires
        is_form_of(fields, env),
        env.len() <= usize::MAX,
        0 <= i < env.len(),
        env[i].0.len() > 0,
    ensures
        sent_variable(fields, name_field_spec(i as nat)) == Some(numbered(env, i)),
{
    lemma_field_index(i as nat);
    assert(fields.dom().contains(name_field_spec(i as nat)));
}

proof fn lemma_sent_contains(
    fields: Map<Seq<char>, Seq<char>>,
    keys: Seq<Seq<char>>,
    v: IndexedEnvView,
)
    ensures
        sent_variables(fields, keys).contains(v) <==> exists|j: int|
            0 <= j < keys.len() && sent_variable(fields, #[trigger] keys[j]) == Some(v),
    decreases keys.len(),
{
    let list = sent_variables(fields, keys);
    if keys.len() > 0 {
        let rest = keys.drop_last();
        let front = sent_variables(fields, rest);
        lemma_sent_contains(fields, rest, v);
        if list.contains(v) {
            let k = list.index_of(v);
            assert(list[k] == v);
            if k < front.len() {
                assert(front[k] == v);
                let j = choose|j: int|
                    0 <= j < rest.len() && sent_variable(fields, #[trigger] rest[j]) == Some(v);
                assert(keys[j] == rest[j]);
            } else {
                assert(sent_variable(fields, keys[keys.len() - 1]) == Some(v));
            }
        }
        if exists|j: int|
            0 <= j < keys.len() && sent_variable(fields, #[trigger] keys[j]) == Some(v) {
            let j = choose|j: int|
                0 <= j < keys.len() && sent_variable(fields, #[trigger] keys[j]) == Some(v);
            if j < rest.len() {
                assert(rest[j] == keys[j]);
                let k = front.index_of(v);
                assert(front[k] == v);
                assert(list[k] == v);
            } else {
                assert(list == front.push(v));
                assert(list[front.len() as int] == v);
            }
        }
    }
}

proof fn lemma_sent_distinct(
    fields: Map<Seq<char>, Seq<char>>,
    keys: Seq<Seq<char>>,
    env: Seq<(Seq<char>, Seq<char>)>,
)
    requires
        is_form_of(fields, env),
        env.len() <= usize::MAX,
        keys.no_duplicates(),
        forall|j: int| 0 <= j < keys.len() ==> fields.dom().contains(#[trigger] keys[j]),
        forall|i: int| 0 <= i < env.len() ==> (#[trigger] env[i]).0.len() > 0,
    ensures
        sent_variables(fields, keys).no_duplicates(),
    decreases keys.len(),
{
    if keys.len() > 0 {
        let rest = keys.drop_last();
        assert forall|j: int| 0 <= j < rest.len() implies fields.dom().contains(
            #[trigger] rest[j],
        ) by {
            assert(rest[j] == keys[j]);
        }
        lemma_sent_distinct(fields, rest, env);
        let front = sent_variables(fields, rest);
        if let Some(v) = sent_variable(fields, keys.last()) {
            if front.contains(v) {
                lemma_sent_contains(fields, rest, v);
                let j = choose|j: int|
                    0 <= j < rest.len() && sent_variable(fields, #[trigger] rest[j]) == Some(v);
                let last = keys.len() - 1;
                assert(keys[j] == rest[j]);
                assert(fields.dom().contains(keys[j]) && fields.dom().contains(keys[last]));
                let a = choose|a: int|
                    0 <= a < env.len() && keys[j] == #[trigger] name_field_spec(a as nat);
                let b = choose|b: int|
                    0 <= b < env.len() && keys[last] == #[trigger] name_field_spec(b as nat);
                lemma_sent_variable(fields, env, a);
                lemma_sent_variable(fields, env, b);
                assert(a == b);
                assert(keys[j] == keys[last]);
            }
            let list = front.push(v);
            assert forall|i: int, j: int|
                0 <= i < list.len() && 0 <= j < list.len() && i != j implies list[i] != list[j] by {
                if i < front.len() && j < front.len() {
                    assert(front[i] != front[j]);
                } else if i < front.len() {
                    assert(front.contains(front[i]));
                } else {
                    assert(front.contains(front[j]));
                }
            }
        }
    }
}

/// What is sent from a form that nobody edited is what the form was made of: the
/// variables come back with their values, in their order.
pub proof fn law_form_round_trip(
    fields: Map<Seq<char>, Seq<char>>,
    keys: Seq<Seq<char>>,
    env: Seq<(Seq<char>, Seq<char>)>,
)
    requires
        is_form_of(fields, env),
        env.len() <= usize::MAX,
        keys.no_duplicates(),
        forall|k: Seq<char>| #[trigger] keys.contains(k) <==> fields.dom().contains(k),
        forall|i: int| 0 <= i < env.len() ==> (#[trigger] env[i]).0.len() > 0,
    ensures
        form_env_spec(fields, keys) == env,
{
    let sent = sent_variables(fields, keys);
    let sorted = order::sorted_spec::<IndexedEnv>(sent);
    let goal = Seq::new(env.len(), |i: int| numbered(env, i));
    assert forall|j: int| 0 <= j < keys.len() implies fields.dom().contains(#[trigger] keys[j]) by {
        assert(keys.contains(keys[j]));
    }
    lemma_sent_distinct(fields, keys, env);
    assert forall|v: IndexedEnvView| sent.contains(v) == goal.contains(v) by {
        lemma_sent_contains(fields, keys, v);
        if sent.contains(v) {
            let j = choose|j: int|
                0 <= j < keys.len() && sent_variable(fields, #[trigger] keys[j]) == Some(v);
            assert(fields.dom().contains(keys[j]));
            let a = choose|a: int|
                0 <= a < env.len() && keys[j] == #[trigger] name_field_spec(a as nat);
            lemma_sent_variable(fields, env, a);
            assert(goal[a] == v);
        }
        if goal.contains(v) {
            let a = goal.index_of(v);
            assert(goal[a] == v);
            lemma_sent_variable(fields, env, a);
            let key = name_field_spec(a as nat);
            assert(fields.dom().contains(key));
            assert(keys.contains(key));
            let j = keys.index_of(key);
            assert(keys[j] == key);
            assert(sent_variable(fields, keys[j]) == Some(v));
        }
    }
    order::law_sorted_in_order::<IndexedEnv>(sent);
    order::law_sorted_same_values::<IndexedEnv>(sent);
    sent.lemma_multiset_has_no_duplicates();
    sorted.lemma_multiset_has_no_duplicates_conv();
    broadcast use vstd::seq_lib::group_to_multiset_ensures;

    assert forall|v: IndexedEnvView| sorted.contains(v) == goal.contains(v) by {
        assert(sorted.contains(v) <==> sorted.to_multiset().count(v) > 0);
        assert(sent.contains(v) <==> sent.to_multiset().count(v) > 0);
    }
    assert forall|i: int, j: int| 0 <= i < j < sorted.len() implies (#[trigger] sorted[i]).index < (
    #[trigger] sorted[j]).index by {
        assert(IndexedEnv::before(sorted[i], sorted[j]));
        assert(sorted.contains(sorted[i]) && sorted.contains(sorted[j]));
        assert(goal.contains(sorted[i]) && goal.contains(sorted[j]));
        let a = goal.index_of(sorted[i]);
        let b = goal.index_of(sorted[j]);
        assert(goal[a] == sorted[i] && goal[b] == sorted[j]);
        if sorted[i].index == sorted[j].index {
            assert(a == b);
        }
    }
    lemma_same_ascending(sorted, goal);
    assert(form_env_spec(fields, keys) =~= env);
}

proof fn lemma_same_ascending(a: Seq<IndexedEnvView>, b: Seq<IndexedEnvView>)
    requires
        forall|i: int, j: int|
            0 <= i < j < a.len() ==> (#[trigger] a[i]).index < (#[trigger] a[j]).index,
        forall|i: int, j: int|
            0 <= i < j < b.len() ==> (#[trigger] b[i]).index < (#[trigger] b[j]).index,
        forall|v: IndexedEnvView| a.contains(v) == b.contains(v),
    ensures
        a == b,
    decreases a.len(),
{
    if a.len() == 0 {
        if b.len() > 0 {
            assert(b.contains(b[0]));
        }
        assert(a =~= b);
    } else {
        assert(a.contains(a[0]));
        assert(b.contains(a[0]));
        assert(b.contains(b[0]));
        assert(a.contains(b[0]));
        let k = b.index_of(a[0]);
        let l = a.index_of(b[0]);
        assert(b[k] == a[0] && a[l] == b[0]);
        assert(a[0] == b[0]);
        let x = a.drop_first();
        let y = b.drop_first();
        assert forall|v: IndexedEnvView| x.contains(v) == y.contains(v) by {
            if x.contains(v) {
                let i = x.index_of(v);
                assert(a[i + 1] == v);
                assert(a.contains(v));
                let j = b.index_of(v);
                assert(b[j] == v);
                assert(a[0].index < a[i + 1].index);
                assert(y[j - 1] == v);
            }
            if y.contains(v) {
                let i = y.index_of(v);
                assert(b[i + 1] == v);
                assert(b.contains(v));
                let j = a.index_of(v);
                assert(a[j] == v);
                assert(b[0].index < b[i + 1].index);
                assert(x[j - 1] == v);
            }
        }
        lemma_same_ascending(x, y);
        assert(a =~= seq![a[0]] + x);
        assert(b =~= seq![b[0]] + y);
    }
}

/// The variables that the dialog sends: the editable, the locked and the added ones.
pub open spec fn sent_env(data: RunModalDataView) -> Seq<(Seq<char>, Seq<char>)> {
    data.editable + data.locked + data.extra
}

/// The rows of the dialog are numbered as the variables that it sends.
pub proof fn law_rows_are_numbered(data: RunModalDataView, i: int)
    requires
        0 <= i < sent_env(data).len(),
    ensures
        ({
            let modal = run_modal_spec(data);
            let row = if i < data.editable.len() {
                modal.editable[i]
            } else if i < data.editable.len() + data.locked.len() {
                modal.locked[i - data.editable.len()]
            } else {
                modal.extra[i - data.editable.len() - data.locked.len()]
            };
            row == FormRowView {
                name_field: name_field_spec(i as nat),
                value_field: value_field_spec(i as nat),
                name: sent_env(data)[i].0,
                value: sent_env(data)[i].1,
            }
        }),
{
}

/// What comes of what was sent: a run, or the dialog again.
#[derive(Debug)]
pub enum RunDecision {
    Run(JobOverrides),
    ShowAgain(RunModalData),
}

/// What a [`RunDecision`] holds.
#[verifier::ext_equal]
pub enum RunDecisionView {
    Run(JobOverridesView),
    ShowAgain(RunModalDataView),
}

impl DeepView for RunDecision {
    type V = RunDecisionView;

    open spec fn deep_view(&self) -> RunDecisionView {
        match self {
            RunDecision::Run(over) => RunDecisionView::Run(over.deep_view()),
            RunDecision::ShowAgain(data) => RunDecisionView::ShowAgain(data.deep_view()),
        }
    }
}

/// The line of arguments that was sent: empty where none was.
pub open spec fn sent_args(args: Option<Seq<char>>) -> Seq<char> {
    match args {
        Some(a) => a,
        None => Seq::empty(),
    }
}

/// The dialog as it is shown again, given which lines could not be split.
pub open spec fn shown_again_spec(
    data: RunModalDataView,
    command: Option<Seq<char>>,
    args: Seq<char>,
    env: Seq<(Seq<char>, Seq<char>)>,
    command_ok: bool,
    args_ok: bool,
) -> RunModalDataView {
    let (editable, extra) = submitted_spec(data.editable, data.extra, env);
    RunModalDataView {
        command_line: if data.command_line is Some {
            command
        } else {
            None
        },
        args_line: args,
        editable,
        extra,
        command_error: if command_ok {
            None
        } else {
            Some("Unbalanced quote."@)
        },
        args_error: if args_ok {
            None
        } else {
            Some("Unbalanced quote."@)
        },
        ..data
    }
}

/// What comes of what was sent, given the words of the two lines where they could be
/// split: a run with these words and variables, or the dialog again.
pub open spec fn run_decision_spec(
    data: RunModalDataView,
    command: Option<Seq<char>>,
    args: Seq<char>,
    env: Seq<(Seq<char>, Seq<char>)>,
    command_words: Option<Option<Seq<Seq<char>>>>,
    arg_words: Option<Seq<Seq<char>>>,
) -> RunDecisionView {
    match (command_words, arg_words) {
        (Some(c), Some(a)) => RunDecisionView::Run(
            JobOverridesView { command: c, args: Some(a), env: Some(env) },
        ),
        _ => RunDecisionView::ShowAgain(
            shown_again_spec(data, command, args, env, command_words is Some, arg_words is Some),
        ),
    }
}

/// The words of the command that was sent, where they could be split; there are none
/// where no command was sent.
pub open spec fn command_words_spec(command: Option<Seq<char>>) -> Option<Option<Seq<Seq<char>>>> {
    match command {
        Some(line) => match shell_split_spec(line) {
            Some(words) => Some(Some(words)),
            None => None,
        },
        None => Some(None),
    }
}

/// Decides what comes of what was sent, given the words of the two lines.
pub fn decide_run(
    data: RunModalData,
    command: Option<String>,
    args: String,
    env: Vec<(String, String)>,
    command_words: Option<Option<Vec<String>>>,
    arg_words: Option<Vec<String>>,
) -> (r: RunDecision)
    ensures
        r.deep_view() == run_decision_spec(
            data.deep_view(),
            command.deep_view(),
            args@,
            env.deep_view(),
            command_words.deep_view(),
            arg_words.deep_view(),
        ),
{
    let command_ok: bool = command_words.is_some();
    let args_ok: bool = arg_words.is_some();
    match (command_words, arg_words) {
        (Some(c), Some(a)) => RunDecision::Run(
            JobOverrides { command: c, args: Some(a), env: Some(env) },
        ),
        _ => {
            let mut data = data;
            data.apply_submission(command, args, env);
            data.command_error = if command_ok {
                None
            } else {
                Some("Unbalanced quote.".to_owned())
            };
            data.args_error = if args_ok {
                None
            } else {
                Some("Unbalanced quote.".to_owned())
            };
            RunDecision::ShowAgain(data)
        },
    }
}

/// Whether a form was sent as the dialog showed it at first.
pub open spec fn is_unedited(form: RunJobForm, data: RunModalDataView) -> bool {
    &&& form.deep_view().command == data.command_line
    &&& form.deep_view().args == Some(data.args_line)
    &&& is_form_of(form.extra@, sent_env(data))
    &&& forall|i: int| 0 <= i < sent_env(data).len() ==> (#[trigger] sent_env(data)[i]).0.len() > 0
}

/// The run that a template asks for with its own words and plain variables.
pub open spec fn unedited_run_spec(template: JobTemplateView) -> RunDecisionView {
    let container = first_container_of(template.spec.spec);
    let command = string_list_spec(container, "command"@);
    RunDecisionView::Run(
        JobOverridesView {
            command: if command.len() == 0 {
                None
            } else {
                Some(command)
            },
            args: Some(string_list_spec(container, "args"@)),
            env: Some(env_of(container).editable + env_of(container).locked),
        },
    )
}

/// Decides what comes of the form of the dialog. A form that was sent as the dialog
/// showed it at first, with no name of a variable empty, runs the job with the words and
/// the plain variables of the template.
pub fn run_request(template: &JobTemplate, namespace: &str, name: &str, form: &RunJobForm) -> (r:
    RunDecision)
    ensures
        r.deep_view() == run_decision_spec(
            modal_spec(template.deep_view(), namespace@, name@),
            form.deep_view().command,
            sent_args(form.deep_view().args),
            form_env_spec(form.extra@, form.extra.keys()),
            command_words_spec(form.deep_view().command),
            shell_split_spec(sent_args(form.deep_view().args)),
        ),
        is_unedited(*form, modal_spec(template.deep_view(), namespace@, name@)) ==> r.deep_view()
            == unedited_run_spec(template.deep_view()),
{
    let data = RunModalData::from_template(template, namespace, name);
    let args = match &form.args {
        Some(a) => a.clone(),
        None => String::new(),
    };
    let env = parse_form_env(form);
    let command_words: Option<Option<Vec<String>>> = match &form.command {
        Some(line) => match shell_split(line.as_str()) {
            Some(words) => Some(Some(words)),
            None => None,
        },
        None => Some(None),
    };
    let arg_words = shell_split(args.as_str());
    let _count: usize = form.extra.len();
    proof {
        let shown = data.deep_view();
        if is_unedited(*form, shown) {
            sorted_map::lemma_ascending_distinct(form.extra.keys());
            lemma_form_len(form.extra@, form.extra.keys(), sent_env(shown));
            law_form_round_trip(form.extra@, form.extra.keys(), sent_env(shown));
            assert(sent_env(shown) =~= shown.editable + shown.locked);
        }
    }
    decide_run(data, form.command.dup(), args, env, command_words, arg_words)
}

/// A dialog that is shown again keeps what was typed: the line of arguments, and the
/// command where the template has one.
pub proof fn law_shown_again_keeps_lines(
    data: RunModalDataView,
    command: Option<Seq<char>>,
    args: Seq<char>,
    env: Seq<(Seq<char>, Seq<char>)>,
    command_words: Option<Option<Seq<Seq<char>>>>,
    arg_words: Option<Seq<Seq<char>>>,
)
    ensures
        run_decision_spec(
            data,
            command,
            args,
            env,
            command_words,
            arg_words,
        ) matches RunDecisionView::ShowAgain(again) ==> again.args_line == args && (
        data.command_line is Some ==> again.command_line == command) && again.locked == data.locked
            && again.refs == data.refs && (again.command_error is Some || again.args_error is Some),
{
}

/// The heading and the class of the message that tells what came of a run.
pub fn result_style(success: bool) -> (r: (&'static str, &'static str))
    ensures
        (r.0@, r.1@) == (if success {
            ("Job Created"@, "result-message result-success"@)
        } else {
            ("Error"@, "result-message result-error"@)
        }),
{
    if success {
        ("Job Created", "result-message result-success")
    } else {
        ("Error", "result-message result-error")
    }
}

/// A variable is locked exactly where its name begins with `CICD_`.
pub proof fn law_locked_names(rest: Seq<char>, name: Seq<char>)
    ensures
        is_locked_name("CICD_"@ + rest),
        is_locked_name(name) <==> name.len() >= 5 && name[0] == 'C' && name[1] == 'I' && name[2]
            == 'C' && name[3] == 'D' && name[4] == '_',
{
    reveal_strlit("CICD_");
    let full = "CICD_"@ + rest;
    assert(full.subrange(0, 5) =~= "CICD_"@);
    if name.len() >= 5 {
        let head = name.subrange(0, 5);
        assert(head[0] == name[0] && head[1] == name[1] && head[2] == name[2] && head[3] == name[3]
            && head[4] == name[4]);
        if name[0] == 'C' && name[1] == 'I' && name[2] == 'C' && name[3] == 'D' && name[4] == '_' {
            assert(head =~= "CICD_"@);
        }
    }
}

/// Each variable of the template with a name is in one of three lists, in order: one that takes
/// its value from elsewhere among the references, with a word for where, and of the others those
/// that are locked and those that can be edited, with their values. A variable without a name is
/// in none.
pub proof fn law_variable_lists(entries: Seq<JsonView>, entry: JsonView)
    ensures
        ({
            let none = env_lists_spec(Seq::empty());
            let before = env_lists_spec(entries);
            let after = env_lists_spec(entries.push(entry));
            let value = match entry.get("value"@) {
                Some(JsonView::Text(v)) => v,
                _ => Seq::empty(),
            };
            &&& none.editable.len() == 0 && none.locked.len() == 0 && none.refs.len() == 0
            &&& !(entry.get("name"@) matches Some(JsonView::Text(_))) ==> after == before
            &&& entry.get("name"@) matches Some(JsonView::Text(name)) ==> {
                &&& entry.get("valueFrom"@) matches Some(from) ==> after.refs == before.refs.push(
                    (name, describe_value_from_spec(from)),
                ) && after.editable == before.editable && after.locked == before.locked
                &&& entry.get("valueFrom"@) is None && is_locked_name(name) ==> after.locked
                    == before.locked.push((name, value)) && after.editable == before.editable
                    && after.refs == before.refs
                &&& entry.get("valueFrom"@) is None && !is_locked_name(name) ==> after.editable
                    == before.editable.push((name, value)) && after.locked == before.locked
                    && after.refs == before.refs
            }
        }),
{
    assert(entries.push(entry).drop_last() =~= entries);
}

/// A variable that takes its value from elsewhere is told of by where: a secret, a config map, a
/// field or a resource, in this order, with the names that are there; a name that is missing
/// shows as a question mark.
pub proof fn law_where_values_come_from(from: JsonView, name: Seq<char>, key: Seq<char>)
    ensures
        from.get("secretKeyRef"@) matches Some(s) ==> (s.get("name"@) == Some(JsonView::Text(name))
            && s.get("key"@) == Some(JsonView::Text(key)) ==> describe_value_from_spec(from)
            == "secret: "@ + name + "/"@ + key),
        from.get("secretKeyRef"@) is None ==> (from.get("configMapKeyRef"@) matches Some(s) ==> (
        s.get("name"@) == Some(JsonView::Text(name)) && s.get("key"@) == Some(JsonView::Text(key))
            ==> describe_value_from_spec(from) == "configmap: "@ + name + "/"@ + key)),
        from.get("secretKeyRef"@) matches Some(s) ==> (s.get("name"@) is None && s.get("key"@) is None
            ==> describe_value_from_spec(from) == "secret: "@ + "?"@ + "/"@ + "?"@),
        from.get("secretKeyRef"@) is None && from.get("configMapKeyRef"@) is None ==> {
            &&& from.get("fieldRef"@) matches Some(f) ==> (f.get("fieldPath"@) == Some(
                JsonView::Text(key),
            ) ==> describe_value_from_spec(from) == "field: "@ + key)
            &&& from.get("fieldRef"@) is None && from.get("resourceFieldRef"@) is Some
                ==> describe_value_from_spec(from) == "resourceField"@
            &&& from.get("fieldRef"@) is None && from.get("resourceFieldRef"@) is None
                ==> describe_value_from_spec(from) == "ref"@
        },
{
}

/// The words under a key of a container are the texts in its list, in order; what is no text is
/// passed over, and without such a list there are none.
pub proof fn law_words_of_a_container(items: Seq<JsonView>, item: JsonView, c: JsonView, key: Seq<char>)
    ensures
        texts_among(Seq::empty()).len() == 0,
        item matches JsonView::Text(t) ==> texts_among(items.push(item)) == texts_among(items).push(
            t,
        ),
        !(item is Text) ==> texts_among(items.push(item)) == texts_among(items),
        string_list_spec(None, key).len() == 0,
        c.get(key) == Some(JsonView::Array(items)) ==> string_list_spec(Some(c), key)
            == texts_among(items),
        !(c.get(key) matches Some(JsonView::Array(_))) ==> string_list_spec(Some(c), key).len() == 0,
{
    assert(items.push(item).drop_last() =~= items);
}

/// The dialog shows the first container of the template: its image, its command where it has
/// one, its arguments and its variables. Nothing has been added yet, and nothing is wrong.
pub proof fn law_dialog_shows_the_template(
    template: JobTemplateView,
    namespace: Seq<char>,
    name: Seq<char>,
    containers: Seq<JsonView>,
)
    requires
        template.spec.spec.get("containers"@) == Some(JsonView::Array(containers)),
        containers.len() > 0,
    ensures
        ({
            let data = modal_spec(template, namespace, name);
            let c = containers[0];
            let command = string_list_spec(Some(c), "command"@);
            let env = match c.get("env"@) {
                Some(JsonView::Array(entries)) => entries,
                _ => Seq::empty(),
            };
            &&& data.namespace == namespace && data.name == name
            &&& c.get("image"@) matches Some(JsonView::Text(image)) ==> data.image == image
            &&& c.get("image"@) is None ==> data.image == "unknown"@
            &&& command.len() == 0 ==> data.command_line is None
            &&& command.len() > 0 ==> data.command_line == Some(shell_join_spec(command))
            &&& data.args_line == shell_join_spec(string_list_spec(Some(c), "args"@))
            &&& data.editable == env_lists_spec(env).editable
            &&& data.locked == env_lists_spec(env).locked
            &&& data.refs == env_lists_spec(env).refs
            &&& data.extra.len() == 0
            &&& data.command_error is None && data.args_error is None
        }),
{
}

/// What was sent is laid over the variables one by one: a locked name is passed over; a name of
/// the template takes the value that was sent in its first place, and nothing else changes; any
/// other is added at the end.
pub proof fn law_sent_variables_laid_over(
    editable: Seq<(Seq<char>, Seq<char>)>,
    extra: Seq<(Seq<char>, Seq<char>)>,
    submitted: Seq<(Seq<char>, Seq<char>)>,
    name: Seq<char>,
    value: Seq<char>,
    i: int,
)
    ensures
        submitted_spec(editable, extra, Seq::empty()) == (editable, extra),
        ({
            let before = submitted_spec(editable, extra, submitted);
            let after = submitted_spec(editable, extra, submitted.push((name, value)));
            let there = exists|j: int|
                0 <= j < before.0.len() && (#[trigger] before.0[j]).0 == name;
            &&& is_locked_name(name) ==> after == before
            &&& !is_locked_name(name) && !there ==> after.0 == before.0 && after.1
                == before.1.push((name, value))
            &&& !is_locked_name(name) && there ==> after.1 == before.1 && after.0.len()
                == before.0.len()
            &&& !is_locked_name(name) && is_first_of(before.0, i, name) ==> after.0
                == before.0.update(i, (name, value))
        }),
{
    assert(submitted.push((name, value)).drop_last() =~= submitted);
    let before = submitted_spec(editable, extra, submitted);
    if is_first_of(before.0, i, name) {
        lemma_edited(before.0, i, name, value);
        assert(has_name(before.0, name));
    }
    if has_name(before.0, name) {
        lemma_some_first(before.0, name);
        let k = choose|k: int| #[trigger] is_first_of(before.0, k, name);
        lemma_edited(before.0, k, name, value);
    }
}

/// Whether a variable stands at that place and is the first of that name.
pub open spec fn is_first_of(
    list: Seq<(Seq<char>, Seq<char>)>,
    i: int,
    name: Seq<char>,
) -> bool {
    &&& 0 <= i < list.len()
    &&& list[i].0 == name
    &&& forall|j: int| 0 <= j < i ==> (#[trigger] list[j]).0 != name
}

proof fn lemma_some_first(list: Seq<(Seq<char>, Seq<char>)>, name: Seq<char>)
    requires
        has_name(list, name),
    ensures
        exists|k: int| #[trigger] is_first_of(list, k, name),
    decreases list.len(),
{
    let i = choose|i: int| 0 <= i < list.len() && (#[trigger] list[i]).0 == name;
    if list[0].0 == name {
        assert(is_first_of(list, 0, name));
    } else {
        let rest = list.drop_first();
        assert(rest[i - 1] == list[i]);
        lemma_some_first(rest, name);
        let k = choose|k: int| #[trigger] is_first_of(rest, k, name);
        assert(list[k + 1] == rest[k]);
        assert forall|j: int| 0 <= j < k + 1 implies (#[trigger] list[j]).0 != name by {
            if j > 0 {
                assert(rest[j - 1] == list[j]);
            }
        }
        assert(is_first_of(list, k + 1, name));
    }
}

proof fn lemma_edited(
    list: Seq<(Seq<char>, Seq<char>)>,
    i: int,
    name: Seq<char>,
    value: Seq<char>,
)
    requires
        is_first_of(list, i, name),
    ensures
        edited(list, name, value) == list.update(i, (name, value)),
    decreases list.len(),
{
    if i == 0 {
        assert(list[0].0 == name);
    } else {
        assert(list[0].0 != name);
        let rest = list.drop_first();
        assert(rest[i - 1] == list[i]);
        assert forall|j: int| 0 <= j < i - 1 implies (#[trigger] rest[j]).0 != name by {
            assert(rest[j] == list[j + 1]);
        }
        lemma_edited(rest, i - 1, name, value);
        assert(seq![list[0]] + rest.update(i - 1, (name, value)) =~= list.update(i, (name, value)));
    }
}

/// A field for the name of a variable stands for that variable, with its number, its name, and
/// the value in the field of the same number, which is empty where there is none. An empty name,
/// and a field of any other kind, stand for no variable.
pub proof fn law_fields_of_a_form(
    fields: Map<Seq<char>, Seq<char>>,
    n: nat,
    key: Seq<char>,
    keys: Seq<Seq<char>>,
)
    requires
        n <= usize::MAX,
    ensures
        ({
            let field = "env_name_"@ + decimal::digits_spec(n);
            let value = "env_value_"@ + decimal::digits_spec(n);
            &&& fields[field].len() > 0 ==> (sent_variable(fields, field) matches Some(v)
                && v.index == n && v.name == fields[field] && v.value == (
            if fields.dom().contains(value) {
                fields[value]
            } else {
                Seq::empty()
            }))
            &&& fields[field].len() == 0 ==> sent_variable(fields, field) is None
            &&& (forall|t: Seq<char>| key != #[trigger] ("env_name_"@ + t)) ==> sent_variable(
                fields,
                key,
            ) is None
            &&& sent_variables(fields, Seq::empty()).len() == 0
            &&& sent_variables(fields, keys.push(key)) == (match sent_variable(fields, key) {
                Some(v) => sent_variables(fields, keys).push(v),
                None => sent_variables(fields, keys),
            })
        }),
{
    reveal_strlit("env_name_");
    let field = "env_name_"@ + decimal::digits_spec(n);
    assert(field.subrange(0, 9) =~= "env_name_"@);
    assert(field.skip(9) =~= decimal::digits_spec(n));
    decimal::law_unsigned_round_trip(n, usize::MAX as nat);
    assert(keys.push(key).drop_last() =~= keys);
    if "env_name_"@.is_prefix_of(key) {
        assert(key =~= "env_name_"@ + key.skip(9)) by {
            assert(key.subrange(0, 9) =~= "env_name_"@);
            assert forall|i: int| 0 <= i < 9 implies key[i] == "env_name_"@[i] by {
                assert(key.subrange(0, 9)[i] == key[i]);
            }
        }
    }
}

/// The variables of a form come in the order of their numbers, each once.
pub proof fn law_form_in_order(fields: Map<Seq<char>, Seq<char>>, keys: Seq<Seq<char>>, i: int, j: int)
    ensures
        ({
            let sorted = order::sorted_spec::<IndexedEnv>(sent_variables(fields, keys));
            let env = form_env_spec(fields, keys);
            &&& env.len() == sent_variables(fields, keys).len()
            &&& sorted.to_multiset() == sent_variables(fields, keys).to_multiset()
            &&& 0 <= i < j < env.len() ==> sorted[i].index <= sorted[j].index
            &&& 0 <= i < env.len() ==> env[i] == (sorted[i].name, sorted[i].value)
        }),
{
    let sent = sent_variables(fields, keys);
    order::law_sorted_in_order::<IndexedEnv>(sent);
    order::law_sorted_same_values::<IndexedEnv>(sent);
    let sorted = order::sorted_spec::<IndexedEnv>(sent);
    if 0 <= i < j < sorted.len() {
        assert(IndexedEnv::before(sorted[i], sorted[j]));
    }
}

/// A job is run exactly where both lines could be split, with the words and the variables that
/// were sent. Otherwise the dialog is shown again, with an error at each line that could not be
/// split and at no other, and with what was sent.
pub proof fn law_run_or_show_again(
    data: RunModalDataView,
    command: Option<Seq<char>>,
    args: Seq<char>,
    env: Seq<(Seq<char>, Seq<char>)>,
    command_words: Option<Option<Seq<Seq<char>>>>,
    arg_words: Option<Seq<Seq<char>>>,
)
    ensures
        match run_decision_spec(data, command, args, env, command_words, arg_words) {
            RunDecisionView::Run(over) => command_words == Some(over.command) && arg_words is Some
                && over.args == arg_words && over.env == Some(env),
            RunDecisionView::ShowAgain(again) => {
                &&& command_words is None || arg_words is None
                &&& command_words is None ==> again.command_error == Some("Unbalanced quote."@)
                &&& command_words is Some ==> again.command_error is None
                &&& arg_words is None ==> again.args_error == Some("Unbalanced quote."@)
                &&& arg_words is Some ==> again.args_error is None
                &&& again.args_line == args
                &&& data.command_line is Some ==> again.command_line == command
                &&& data.command_line is None ==> again.command_line is None
                &&& (again.editable, again.extra) == submitted_spec(data.editable, data.extra, env)
                &&& again.locked == data.locked && again.refs == data.refs
                &&& again.namespace == data.namespace && again.name == data.name && again.image
                    == data.image
            },
        },
        command_words_spec(None) == Some(None::<Seq<Seq<char>>>),
        command matches Some(line) ==> (shell_split_spec(line) matches Some(words)
            ==> command_words_spec(command) == Some(Some(words))),
        command matches Some(line) ==> (shell_split_spec(line) is None ==> command_words_spec(
            command,
        ) is None),
        sent_args(None).len() == 0,
        sent_args(Some(args)) == args,
{
}

/// The dialog counts all variables that it shows, gives the next number to one that is added,
/// marks a line that is wrong, and sends what is in it to the template.
pub proof fn law_dialog_fields(data: RunModalDataView)
    requires
        data.editable.len() + data.locked.len() + data.extra.len() <= usize::MAX,
    ensures
        ({
            let modal = run_modal_spec(data);
            &&& modal.editable.len() == data.editable.len()
            &&& modal.locked.len() == data.locked.len()
            &&& modal.extra.len() == data.extra.len()
            &&& modal.next_index == data.editable.len() + data.locked.len() + data.extra.len()
            &&& modal.has_static <==> data.locked.len() > 0 || data.refs.len() > 0
            &&& modal.count_text == decimal::digits_spec(
                data.editable.len() + data.locked.len() + data.refs.len() + data.extra.len(),
            ) + " variables from the template"@
            &&& data.command_error is Some ==> modal.command_class
                == "args-field args-field-error"@
            &&& data.command_error is None ==> modal.command_class == "args-field"@
            &&& data.args_error is Some ==> modal.args_class == "args-field args-field-error"@
            &&& data.args_error is None ==> modal.args_class == "args-field"@
            &&& modal.post_link == "/job-templates/"@ + data.namespace + "/"@ + data.name + "/run"@
        }),
{
}

/// A template without a container shows an image that is not known, no command, and no
/// variables.
pub proof fn law_dialog_without_container(
    template: JobTemplateView,
    namespace: Seq<char>,
    name: Seq<char>,
)
    requires
        !(template.spec.spec.get("containers"@) matches Some(JsonView::Array(_))) || (
        template.spec.spec.get("containers"@) == Some(JsonView::Array(Seq::empty()))),
    ensures
        ({
            let data = modal_spec(template, namespace, name);
            &&& data.namespace == namespace && data.name == name
            &&& data.image == "unknown"@
            &&& data.command_line is None
            &&& data.args_line == shell_join_spec(Seq::empty())
            &&& data.editable.len() == 0 && data.locked.len() == 0 && data.refs.len() == 0
            &&& data.extra.len() == 0
        }),
{
}

} // verus!

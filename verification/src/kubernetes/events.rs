//! What happened to a job and its pods, as the cluster reports it.

use vstd::prelude::*;

use crate::dup::{text_or, text_or_empty};
use crate::order::{self, text_le, Ordered};
use crate::text;
use crate::time::{self, Timestamp};

verus! {

/// An event, as it is shown and archived.
#[derive(Clone, Debug)]
pub struct EventInfo {
    pub type_: String,
    pub reason: String,
    pub message: String,
    pub timestamp: String,
    pub source: String,
    pub count: Option<i32>,
}

/// What a [`EventInfo`] holds.
#[verifier::ext_equal]
pub struct EventInfoView {
    pub type_: Seq<char>,
    pub reason: Seq<char>,
    pub message: Seq<char>,
    pub timestamp: Seq<char>,
    pub source: Seq<char>,
    pub count: Option<i32>,
}

impl DeepView for EventInfo {
    type V = EventInfoView;

    open spec fn deep_view(&self) -> EventInfoView {
        EventInfoView {
            type_: self.type_.deep_view(),
            reason: self.reason.deep_view(),
            message: self.message.deep_view(),
            timestamp: self.timestamp.deep_view(),
            source: self.source.deep_view(),
            count: self.count.deep_view(),
        }
    }
}

/// An event, as the cluster reports it.
#[derive(Debug)]
pub struct ClusterEvent {
    pub type_: Option<String>,
    pub reason: Option<String>,
    pub message: Option<String>,
    pub last_timestamp: Option<Timestamp>,
    pub event_time: Option<Timestamp>,
    /// The component that reported the event.
    pub source: Option<String>,
    pub count: Option<i32>,
}

/// What a [`ClusterEvent`] holds.
#[verifier::ext_equal]
pub struct ClusterEventView {
    pub type_: Option<Seq<char>>,
    pub reason: Option<Seq<char>>,
    pub message: Option<Seq<char>>,
    pub last_timestamp: Option<Timestamp>,
    pub event_time: Option<Timestamp>,
    pub source: Option<Seq<char>>,
    pub count: Option<i32>,
}

impl DeepView for ClusterEvent {
    type V = ClusterEventView;

    open spec fn deep_view(&self) -> ClusterEventView {
        ClusterEventView {
            type_: self.type_.deep_view(),
            reason: self.reason.deep_view(),
            message: self.message.deep_view(),
            last_timestamp: self.last_timestamp.deep_view(),
            event_time: self.event_time.deep_view(),
            source: self.source.deep_view(),
            count: self.count.deep_view(),
        }
    }
}

pub open spec fn or_empty(t: Option<Seq<char>>) -> Seq<char> {
    match t {
        Some(x) => x,
        None => Seq::empty(),
    }
}

/// The moment of an event: when it was last seen, or else when it happened.
pub open spec fn event_moment(event: ClusterEventView) -> Option<Timestamp> {
    if event.last_timestamp is Some {
        event.last_timestamp
    } else {
        event.event_time
    }
}

/// An event in the form in which it is shown.
pub open spec fn event_info_spec(event: ClusterEventView) -> EventInfoView {
    EventInfoView {
        type_: or_empty(event.type_),
        reason: or_empty(event.reason),
        message: or_empty(event.message),
        timestamp: match event_moment(event) {
            Some(t) => time::date_time_spec(t),
            None => Seq::empty(),
        },
        source: match event.source {
            Some(component) => component,
            None => "unknown"@,
        },
        count: event.count,
    }
}

/// Puts an event into the form in which it is shown.
pub fn event_to_info(event: &ClusterEvent) -> (r: EventInfo)
    ensures
        r.deep_view() == event_info_spec(event.deep_view()),
{
    let moment: Option<Timestamp> = match event.last_timestamp {
        Some(t) => Some(t),
        None => event.event_time,
    };
    EventInfo {
        type_: text_or_empty(&event.type_),
        reason: text_or_empty(&event.reason),
        message: text_or_empty(&event.message),
        timestamp: match moment {
            Some(t) => time::to_date_time(&t),
            None => String::new(),
        },
        source: text_or(&event.source, "unknown"),
        count: event.count,
    }
}

impl Ordered for EventInfo {
    open spec fn before(a: EventInfoView, b: EventInfoView) -> bool {
        text_le(a.timestamp, b.timestamp)
    }

    proof fn lemma_total(a: EventInfoView, b: EventInfoView) {
        order::lemma_text_total(a.timestamp, b.timestamp);
    }

    proof fn lemma_transitive(a: EventInfoView, b: EventInfoView, c: EventInfoView) {
        order::lemma_text_transitive(a.timestamp, b.timestamp, c.timestamp);
    }

    fn is_before(&self, other: &EventInfo) -> (r: bool) {
        order::le(self.timestamp.as_str(), other.timestamp.as_str())
    }
}

/// The events of a job in the order of their time stamps, those with the same
/// one in the order in which the cluster listed them.
pub fn collect_events(events: &Vec<ClusterEvent>) -> (r: Vec<EventInfo>)
    ensures
        r.deep_view() == order::sorted_spec::<EventInfo>(
            events.deep_view().map_values(|e: ClusterEventView| event_info_spec(e)),
        ),
{
    let ghost f = |e: ClusterEventView| event_info_spec(e);
    let mut infos: Vec<EventInfo> = Vec::new();
    for i in 0..events.len()
        invariant
            f == (|e: ClusterEventView| event_info_spec(e)),
            infos.deep_view() == events.deep_view().take(i as int).map_values(f),
    {
        let ghost before = infos.deep_view();
        let info = event_to_info(&events[i]);
        infos.push(info);
        assert(infos.deep_view() =~= before.push(info.deep_view()));
        assert(events.deep_view()[i as int] == events@[i as int].deep_view());
        assert(events.deep_view().take(i + 1).map_values(f) =~= events.deep_view().take(
            i as int,
        ).map_values(f).push(info.deep_view()));
    }
    assert(events.deep_view().take(events@.len() as int) =~= events.deep_view());
    order::sort(infos)
}

/// The events of a job are listed by their time stamps, the earliest first, and none is
/// left out.
pub proof fn law_events_in_order(events: Seq<EventInfoView>)
    ensures
        forall|i: int, j: int|
            0 <= i < j < events.len() ==> text_le(
                (#[trigger] order::sorted_spec::<EventInfo>(events)[i]).timestamp,
                (#[trigger] order::sorted_spec::<EventInfo>(events)[j]).timestamp,
            ),
        order::sorted_spec::<EventInfo>(events).to_multiset() == events.to_multiset(),
{
    order::law_sorted_in_order::<EventInfo>(events);
    order::law_sorted_same_values::<EventInfo>(events);
    let sorted = order::sorted_spec::<EventInfo>(events);
    assert forall|i: int, j: int| 0 <= i < j < events.len() implies text_le(
        (#[trigger] sorted[i]).timestamp,
        (#[trigger] sorted[j]).timestamp,
    ) by {
        assert(EventInfo::before(sorted[i], sorted[j]));
    }
}

/// The field selector for the events of a job itself.
pub fn job_event_selector(job_name: &str, job_uid: &str) -> (r: String)
    ensures
        r@ == "involvedObject.kind=Job,involvedObject.name="@ + job_name@
            + ",involvedObject.uid="@ + job_uid@,
{
    let mut r = "involvedObject.kind=Job,involvedObject.name=".to_owned();
    r.append(job_name);
    r.append(",involvedObject.uid=");
    r.append(job_uid);
    r
}

/// The field selector for the events of a pod.
pub fn pod_event_selector(pod_name: &str) -> (r: String)
    ensures
        r@ == "involvedObject.kind=Pod,involvedObject.name="@ + pod_name@,
{
    text::concat("involvedObject.kind=Pod,involvedObject.name=", pod_name)
}

/// The label selector for the pods of a job.
pub fn pod_selector(job_name: &str) -> (r: String)
    ensures
        r@ == "job-name="@ + job_name@,
{
    text::concat("job-name=", job_name)
}

/// The logs of one pod, under a heading where the job has several.
pub open spec fn pod_log_spec(name: Seq<char>, log: Seq<char>, several: bool) -> Seq<char> {
    if several {
        "=== Pod: "@ + name + " ===\n"@ + log
    } else {
        log
    }
}

/// The logs of those pods whose logs could be had.
pub open spec fn pod_logs_spec(
    pods: Seq<(Seq<char>, Option<Seq<char>>)>,
    several: bool,
) -> Seq<Seq<char>>
    decreases pods.len(),
{
    if pods.len() == 0 {
        Seq::empty()
    } else {
        let front = pod_logs_spec(pods.drop_last(), several);
        match pods.last().1 {
            Some(log) => front.push(pod_log_spec(pods.last().0, log, several)),
            None => front,
        }
    }
}

/// The logs of a job: those of its pods, one after the other; none where none
/// could be had.
pub open spec fn job_logs_spec(pods: Seq<(Seq<char>, Option<Seq<char>>)>) -> Option<Seq<char>> {
    let logs = pod_logs_spec(pods, pods.len() > 1);
    if logs.len() == 0 {
        None
    } else {
        Some(text::join_spec(logs, "\n"@))
    }
}

/// Puts the logs of the pods of a job together. Each pod comes with its name
/// and its logs, where these could be had.
pub fn join_logs(pods: &Vec<(String, Option<String>)>) -> (r: Option<String>)
    ensures
        r.deep_view() == job_logs_spec(pods.deep_view()),
{
    let several: bool = pods.len() > 1;
    let ghost all = pods.deep_view();
    let mut logs: Vec<String> = Vec::new();
    assert(logs.deep_view() =~= Seq::empty());
    for i in 0..pods.len()
        invariant
            all == pods.deep_view(),
            logs.deep_view() == pod_logs_spec(all.take(i as int), several),
    {
        let ghost before = logs.deep_view();
        assert(all.take(i + 1).drop_last() =~= all.take(i as int));
        assert(all.take(i + 1).last() == pods@[i as int].deep_view());
        if let Some(log) = &pods[i].1 {
            let text = if several {
                let mut t = "=== Pod: ".to_owned();
                t.append(pods[i].0.as_str());
                t.append(" ===\n");
                t.append(log.as_str());
                t
            } else {
                log.clone()
            };
            logs.push(text);
            assert(logs.deep_view() =~= before.push(text@));
        }
    }
    assert(all.take(all.len() as int) =~= all);
    if logs.len() == 0 {
        None
    } else {
        Some(text::join(&logs, "\n"))
    }
}

/// An event is shown with what the cluster says of it: the moment at which it was last seen,
/// or else at which it happened, as a text; what is missing is empty, but for the source, which
/// is then unknown.
pub proof fn law_event_shown(event: ClusterEventView)
    ensures
        ({
            let info = event_info_spec(event);
            &&& info.type_ == (match event.type_ {
                Some(t) => t,
                None => Seq::empty(),
            })
            &&& info.reason == (match event.reason {
                Some(t) => t,
                None => Seq::empty(),
            })
            &&& info.message == (match event.message {
                Some(t) => t,
                None => Seq::empty(),
            })
            &&& info.source == (match event.source {
                Some(t) => t,
                None => "unknown"@,
            })
            &&& info.count == event.count
            &&& event.last_timestamp matches Some(t) ==> info.timestamp == time::date_time_spec(t)
            &&& event.last_timestamp is None ==> (event.event_time matches Some(t)
                ==> info.timestamp == time::date_time_spec(t))
            &&& event.last_timestamp is None && event.event_time is None ==> info.timestamp.len()
                == 0
        }),
{
}

/// The logs of a job with one pod are that pod's logs as they are. Where there are several,
/// the logs of every pod that gave some come in the order of the pods, each behind a line with
/// its name; there are none only where no pod gave any.
pub proof fn law_logs(pods: Seq<(Seq<char>, Option<Seq<char>>)>, pod: (Seq<char>, Option<Seq<char>>))
    ensures
        job_logs_spec(Seq::empty()) is None,
        job_logs_spec(seq![pod]) == pod.1,
        job_logs_spec(pods) is None <==> forall|i: int|
            0 <= i < pods.len() ==> (#[trigger] pods[i]).1 is None,
        pods.len() > 1 ==> ({
            let more = job_logs_spec(pods.push(pod));
            match (job_logs_spec(pods), pod.1) {
                (Some(before), Some(log)) => more == Some(
                    before + seq!['\n'] + "=== Pod: "@ + pod.0 + " ===\n"@ + log,
                ),
                (None, Some(log)) => more == Some("=== Pod: "@ + pod.0 + " ===\n"@ + log),
                (before, None) => more == before,
            }
        }),
{
    reveal_strlit("\n");
    assert("\n"@ =~= seq!['\n']);
    assert(seq![pod].drop_last() =~= Seq::empty());
    lemma_some_logs(pods, pods.len() > 1);
    if pods.len() > 1 {
        let logs = pod_logs_spec(pods, true);
        assert(pods.push(pod).drop_last() =~= pods);
        if let Some(log) = pod.1 {
            let part = pod_log_spec(pod.0, log, true);
            text::law_join(logs, part, "\n"@);
            assert(logs.len() == 0 ==> logs.push(part) =~= seq![part]);
            if job_logs_spec(pods) is Some {
                let before = job_logs_spec(pods)->0;
                assert(before + "\n"@ + part =~= before + seq!['\n'] + "=== Pod: "@ + pod.0
                    + " ===\n"@ + log);
            }
        }
    } else {
        assert(pods.len() == 1 ==> pods =~= seq![pods[0]]);
    }
    reveal_with_fuel(pod_logs_spec, 2);
    if let Some(log) = pod.1 {
        assert(pod_logs_spec(seq![pod], false) =~= seq![log]);
        text::law_join(seq![], log, "\n"@);
    }
}

proof fn lemma_some_logs(pods: Seq<(Seq<char>, Option<Seq<char>>)>, several: bool)
    ensures
        pod_logs_spec(pods, several).len() == 0 <==> forall|i: int|
            0 <= i < pods.len() ==> (#[trigger] pods[i]).1 is None,
    decreases pods.len(),
{
    if pods.len() > 0 {
        let front = pods.drop_last();
        lemma_some_logs(front, several);
        assert(pods[pods.len() - 1] == pods.last());
        if forall|i: int| 0 <= i < pods.len() ==> (#[trigger] pods[i]).1 is None {
            assert forall|i: int| 0 <= i < front.len() implies (#[trigger] front[i]).1 is None by {
                assert(front[i] == pods[i]);
            }
        }
        if forall|i: int| 0 <= i < front.len() ==> (#[trigger] front[i]).1 is None {
            if pods.last().1 is None {
                assert forall|i: int| 0 <= i < pods.len() implies (#[trigger] pods[i]).1 is None by {
                    if i < front.len() {
                        assert(front[i] == pods[i]);
                    }
                }
            }
        }
    }
}

} // verus!

//! Following jobs to their end: when a job is archived and leaves the cluster.

use vstd::prelude::*;

use crate::db::archived_job::{ArchivedJobEgg, ArchivedJobEggView};
use crate::decimal;
use crate::dup::{text_or_empty, Dup};
use crate::kubernetes::job::{self, Job, JobView, Verdict};
use crate::kubernetes::job_output::{JobOutput, JobOutputView};
use crate::text;
use crate::time::{self, Timestamp};

verus! {

/// How long a finished job stays where its template gives no usable time, in seconds.
pub const DEFAULT_CLEANUP_SECS: i64 = 1800;

/// The longest time that a job can be told to stay, in seconds.
pub const MAX_CLEANUP_SECS: i64 = 9_223_372_036_854_775;

/// The seconds that a unit stands for.
pub open spec fn unit_secs(unit: char) -> nat {
    if unit == 'd' {
        86400
    } else if unit == 'h' {
        3600
    } else if unit == 'm' {
        60
    } else if unit == 's' {
        1
    } else {
        0
    }
}

/// The number in front of a unit: zero where there is none, or it does not fit
/// 64 bits.
pub open spec fn number_spec(digits: Seq<char>) -> nat {
    match decimal::parse_i64_spec(digits) {
        Some(n) => if n > 0 {
            n as nat
        } else {
            0
        },
        None => 0,
    }
}

/// The sum of the parts of a duration, each a number and its unit, where
/// `digits` have been read of the number that comes next.
pub open spec fn duration_total(s: Seq<char>, digits: Seq<char>) -> nat
    decreases s.len(),
{
    if s.len() == 0 {
        0
    } else if decimal::is_digit_spec(s[0]) {
        duration_total(s.drop_first(), digits.push(s[0]))
    } else {
        number_spec(digits) * unit_secs(s[0]) + duration_total(s.drop_first(), Seq::empty())
    }
}

/// The duration that a text such as `1h30m` stands for, in seconds: the sum of
/// its parts, or half an hour where that is zero.
pub open spec fn duration_spec(s: Seq<char>) -> nat {
    let total = duration_total(s, Seq::empty());
    if total == 0 {
        DEFAULT_CLEANUP_SECS as nat
    } else {
        total
    }
}

/// Reads a duration such as `1d`, `5h`, `30m`, `1h30m` or `2d12h`, in seconds;
/// nothing where it is longer than can be counted.
pub fn checked_parse_duration(s: &str) -> (r: Option<i64>)
    ensures
        r is Some <==> duration_spec(s@) <= MAX_CLEANUP_SECS,
        r matches Some(secs) ==> secs == duration_spec(s@),
{
    let x = text::chars_of(s);
    let mut total: i64 = 0;
    let mut digits = String::new();
    let ghost whole = duration_total(s@, Seq::empty());
    assert(x@.skip(0) =~= s@);
    for i in 0..x.len()
        invariant
            x@ == s@,
            whole == duration_total(s@, Seq::empty()),
            0 <= total <= MAX_CLEANUP_SECS,
            whole == total + duration_total(x@.skip(i as int), digits@),
    {
        let c = x[i];
        assert(x@.skip(i as int).drop_first() =~= x@.skip(i + 1));
        assert(x@.skip(i as int)[0] == c);
        if decimal::is_digit(c) {
            digits.push(c);
        } else {
            let n: i64 = match decimal::parse_i64(digits.as_str()) {
                Some(n) => if n > 0 {
                    n
                } else {
                    0
                },
                None => 0,
            };
            assert(n == number_spec(digits@));
            let unit: i64 = if c == 'd' {
                86400
            } else if c == 'h' {
                3600
            } else if c == 'm' {
                60
            } else if c == 's' {
                1
            } else {
                0
            };
            assert(0 <= (n as int) * (unit as int) <= 0x7fff_ffff_ffff_ffff * 86400)
                by (nonlinear_arith)
                requires
                    0 <= n <= 0x7fff_ffff_ffff_ffff,
                    0 <= unit <= 86400,
            ;
            let part: i128 = (n as i128) * (unit as i128);
            let sum: i128 = total as i128 + part;
            if sum > MAX_CLEANUP_SECS as i128 {
                return None;
            }
            total = sum as i64;
            digits = String::new();
        }
    }
    if total == 0 {
        Some(DEFAULT_CLEANUP_SECS)
    } else {
        Some(total)
    }
}

/// Reads a duration such as `1d`, `5h`, `30m`, `1h30m` or `2d12h`, in seconds.
pub fn parse_duration(s: &str) -> (r: i64)
    requires
        duration_spec(s@) <= MAX_CLEANUP_SECS,
    ensures
        r == duration_spec(s@),
{
    match checked_parse_duration(s) {
        Some(secs) => secs,
        None => DEFAULT_CLEANUP_SECS,
    }
}

/// A duration is never zero: a text that names no time stands for half an hour.
pub proof fn law_duration_positive(s: Seq<char>)
    ensures
        duration_spec(s) > 0,
        duration_total(s, Seq::empty()) == 0 ==> duration_spec(s) == 1800,
{
}

/// A number with its unit stands for that many units.
pub proof fn law_duration_of_one_part(digits: Seq<char>, unit: char)
    requires
        decimal::all_digits(digits),
        !decimal::is_digit_spec(unit),
        number_spec(digits) * unit_secs(unit) > 0,
    ensures
        duration_spec(digits.push(unit)) == number_spec(digits) * unit_secs(unit),
{
    lemma_digits_read(digits, unit, Seq::empty());
    assert(Seq::<char>::empty() + digits =~= digits);
}

proof fn lemma_digits_read(digits: Seq<char>, unit: char, read: Seq<char>)
    requires
        decimal::all_digits(digits),
        !decimal::is_digit_spec(unit),
    ensures
        duration_total(digits.push(unit), read) == number_spec(read + digits) * unit_secs(unit),
    decreases digits.len(),
{
    let s = digits.push(unit);
    if digits.len() == 0 {
        assert(s.drop_first() =~= Seq::empty());
        assert(read + digits =~= read);
        assert(duration_total(s.drop_first(), Seq::empty()) == 0);
    } else {
        assert(decimal::is_digit_spec(digits[0]));
        assert(s.drop_first() =~= digits.drop_first().push(unit));
        lemma_digits_read(digits.drop_first(), unit, read.push(digits[0]));
        assert(read.push(digits[0]) + digits.drop_first() =~= read + digits);
    }
}

proof fn lemma_total_splits(a: Seq<char>, b: Seq<char>, read: Seq<char>)
    requires
        a.len() > 0,
        !decimal::is_digit_spec(a.last()),
    ensures
        duration_total(a + b, read) == duration_total(a, read) + duration_total(b, Seq::empty()),
    decreases a.len(),
{
    let s = a + b;
    assert(s.drop_first() =~= a.drop_first() + b);
    assert(s[0] == a[0]);
    if a.len() == 1 {
        assert(a.drop_first() =~= Seq::empty());
        assert(s.drop_first() =~= b);
        assert(duration_total(a.drop_first(), Seq::empty()) == 0);
    } else {
        assert(a.drop_first().last() == a.last());
        if decimal::is_digit_spec(a[0]) {
            lemma_total_splits(a.drop_first(), b, read.push(a[0]));
        } else {
            lemma_total_splits(a.drop_first(), b, Seq::empty());
        }
    }
}

/// Durations that are written one behind the other, as in `1h30m`, add up.
pub proof fn law_durations_add_up(a: Seq<char>, b: Seq<char>)
    requires
        a.len() > 0,
        !decimal::is_digit_spec(a.last()),
        duration_total(a, Seq::empty()) > 0,
        duration_total(b, Seq::empty()) > 0,
    ensures
        duration_spec(a + b) == duration_spec(a) + duration_spec(b),
{
    lemma_total_splits(a, b, Seq::empty());
}

/// The status under which a job is recorded and archived.
pub open spec fn status_string_spec(verdict: Option<Verdict>) -> Seq<char> {
    match verdict {
        Some(Verdict::Succeeded) => "Succeeded"@,
        Some(Verdict::Failed) => "Failed"@,
        None => "Unknown"@,
    }
}

/// The status under which a job is recorded and archived.
pub fn job_status_string(job: &Job) -> (r: String)
    ensures
        r@ == status_string_spec(job.deep_view().verdict()),
{
    match job.verdict() {
        Some(Verdict::Succeeded) => "Succeeded".to_owned(),
        Some(Verdict::Failed) => "Failed".to_owned(),
        None => "Unknown".to_owned(),
    }
}

/// What becomes of a job until it is looked at again.
#[derive(Clone, Copy, Debug, PartialEq, Eq, Structural)]
pub enum Action {
    /// It is left until it changes.
    AwaitChange,
    /// It is looked at again after that time.
    Requeue { secs: u64, nanos: u32 },
}

/// A job of a template that has ended.
#[derive(Debug)]
pub struct EndedJob {
    pub namespace: String,
    pub name: String,
    pub uid: String,
    pub template_name: String,
    pub status: String,
    pub start_time: Option<Timestamp>,
    pub completion_time: Timestamp,
    pub duration_seconds: Option<i64>,
}

/// What a [`EndedJob`] holds.
#[verifier::ext_equal]
pub struct EndedJobView {
    pub namespace: Seq<char>,
    pub name: Seq<char>,
    pub uid: Seq<char>,
    pub template_name: Seq<char>,
    pub status: Seq<char>,
    pub start_time: Option<Timestamp>,
    pub completion_time: Timestamp,
    pub duration_seconds: Option<i64>,
}

impl DeepView for EndedJob {
    type V = EndedJobView;

    open spec fn deep_view(&self) -> EndedJobView {
        EndedJobView {
            namespace: self.namespace.deep_view(),
            name: self.name.deep_view(),
            uid: self.uid.deep_view(),
            template_name: self.template_name.deep_view(),
            status: self.status.deep_view(),
            start_time: self.start_time.deep_view(),
            completion_time: self.completion_time.deep_view(),
            duration_seconds: self.duration_seconds.deep_view(),
        }
    }
}

/// What a first look at a job shows.
#[derive(Debug)]
pub enum Inspection {
    /// Nothing is to be done with it now.
    Leave(Action),
    /// It has ended.
    Ended(EndedJob),
}

/// What a first look at a job shows: a job without a template is left alone, and
/// one that has not ended is looked at again after half a minute.
pub open spec fn inspect_spec(job: JobView) -> Result<EndedJobView, Action> {
    match job.template_owner() {
        None => Err(Action::AwaitChange),
        Some(owner) => match job.terminal_time() {
            None => Err(Action::Requeue { secs: 30, nanos: 0 }),
            Some(end) => Ok(
                EndedJobView {
                    namespace: job.metadata.namespace_or_empty(),
                    name: job.metadata.name_any(),
                    uid: job.metadata.uid_or_empty(),
                    template_name: owner.name,
                    status: status_string_spec(job.verdict()),
                    start_time: job.start_time(),
                    completion_time: end,
                    duration_seconds: duration_between(job.start_time(), end),
                },
            ),
        },
    }
}

/// The whole seconds from a start that may be missing to an end.
pub open spec fn duration_between(start: Option<Timestamp>, end: Timestamp) -> Option<i64> {
    match start {
        Some(s) => Some(end.seconds_since_spec(s) as i64),
        None => None,
    }
}

/// Looks at a job.
pub fn inspect(job: &Job) -> (r: Inspection)
    ensures
        inspect_spec(job.deep_view()) == (match r {
            Inspection::Leave(action) => Err(action),
            Inspection::Ended(ended) => Ok(ended.deep_view()),
        }),
{
    match job.template_owner() {
        None => Inspection::Leave(Action::AwaitChange),
        Some(owner) => match job.terminal_time() {
            None => Inspection::Leave(Action::Requeue { secs: 30, nanos: 0 }),
            Some(end) => {
                let start_time: Option<Timestamp> = job.start_time();
                let duration_seconds: Option<i64> = match start_time {
                    Some(s) => Some(end.seconds_since(&s)),
                    None => None,
                };
                Inspection::Ended(
                    EndedJob {
                        namespace: text_or_empty(&job.metadata.namespace),
                        name: job.metadata.name_any(),
                        uid: text_or_empty(&job.metadata.uid),
                        template_name: owner.name.clone(),
                        status: job_status_string(job),
                        start_time,
                        completion_time: end,
                        duration_seconds,
                    },
                )
            },
        },
    }
}

/// The jobs whose end has been recorded in the metrics.
pub struct RecordedJobs {
    uids: Vec<String>,
}

impl View for RecordedJobs {
    type V = Set<Seq<char>>;

    closed spec fn view(&self) -> Set<Seq<char>> {
        self.uids.deep_view().to_set()
    }
}

impl RecordedJobs {
    #[verifier::type_invariant]
    spec fn inv(self) -> bool {
        self.uids.deep_view().no_duplicates()
    }

    /// None recorded yet.
    pub fn new() -> (r: RecordedJobs)
        ensures
            r@ == Set::<Seq<char>>::empty(),
    {
        let r = RecordedJobs { uids: Vec::new() };
        assert(r.uids.deep_view() =~= Seq::empty());
        assert(r@ =~= Set::<Seq<char>>::empty());
        r
    }

    fn position(&self, uid: &str) -> (r: Option<usize>)
        ensures
            match r {
                Some(i) => i < self.uids@.len() && self.uids@[i as int]@ == uid@,
                None => !self@.contains(uid@),
            },
    {
        let ghost all = self.uids.deep_view();
        for i in 0..self.uids.len()
            invariant
                all == self.uids.deep_view(),
                forall|j: int| 0 <= j < i ==> #[trigger] all[j] != uid@,
        {
            assert(all[i as int] == self.uids@[i as int]@);
            if text::eq(self.uids[i].as_str(), uid) {
                return Some(i);
            }
        }
        None
    }

    /// How many are recorded.
    pub fn len(&self) -> (r: usize)
        ensures
            r == self@.len(),
            self@.finite(),
    {
        proof {
            use_type_invariant(&*self);
            self.uids.deep_view().unique_seq_to_set();
            vstd::seq_lib::seq_to_set_is_finite(self.uids.deep_view());
        }
        self.uids.len()
    }

    /// Whether the job is recorded.
    pub fn contains(&self, uid: &str) -> (r: bool)
        ensures
            r == self@.contains(uid@),
    {
        match self.position(uid) {
            Some(i) => {
                assert(self.uids.deep_view()[i as int] == uid@);
                true
            },
            None => false,
        }
    }

    /// Records the job.
    pub fn insert(self, uid: String) -> (r: RecordedJobs)
        ensures
            r@ == self@.insert(uid@),
    {
        proof {
            use_type_invariant(&self);
        }
        let ghost before = self.uids.deep_view();
        if self.contains(uid.as_str()) {
            assert(self@ =~= self@.insert(uid@));
            self
        } else {
            let mut uids = self.uids;
            uids.push(uid);
            assert(uids.deep_view() =~= before.push(uid@));
            let r = RecordedJobs { uids };
            proof {
                let after = r.uids.deep_view();
                assert forall|x: Seq<char>| #[trigger] r@.contains(x) <==> before.to_set().insert(
                    uid@,
                ).contains(x) by {
                    if r@.contains(x) {
                        let i = after.index_of(x);
                        assert(after[i] == x);
                        if i < before.len() {
                            assert(before[i] == x);
                        }
                    }
                    if before.contains(x) {
                        let i = before.index_of(x);
                        assert(before[i] == x);
                        assert(after[i] == x);
                    }
                    assert(after[before.len() as int] == uid@);
                }
                assert(r@ =~= before.to_set().insert(uid@));
            }
            r
        }
    }

    /// Forgets the job.
    pub fn remove(self, uid: &str) -> (r: RecordedJobs)
        ensures
            r@ == self@.remove(uid@),
    {
        proof {
            use_type_invariant(&self);
        }
        let ghost before = self.uids.deep_view();
        match self.position(uid) {
            Some(i) => {
                assert(before[i as int] == uid@);
                let ghost old_uids = self.uids@;
                let mut uids = self.uids;
                let gone = uids.remove(i);
                let ghost after = uids.deep_view();
                assert(after =~= before.remove(i as int)) by {
                    assert forall|k: int| 0 <= k < after.len() implies #[trigger] after[k]
                        == before.remove(i as int)[k] by {
                        if k < i {
                            assert(uids@[k] == old_uids[k]);
                        } else {
                            assert(uids@[k] == old_uids[k + 1]);
                        }
                    }
                }
                assert(after.no_duplicates());
                let r = RecordedJobs { uids };
                proof {
                    assert forall|x: Seq<char>| #[trigger] r@.contains(x) <==> before.to_set().remove(
                        uid@,
                    ).contains(x) by {
                        if r@.contains(x) {
                            let k = after.index_of(x);
                            assert(after[k] == x);
                            if k < i {
                                assert(before[k] == x);
                            } else {
                                assert(before[k + 1] == x);
                            }
                        }
                        if before.contains(x) && x != uid@ {
                            let k = before.index_of(x);
                            assert(before[k] == x);
                            if k < i {
                                assert(after[k] == x);
                            } else {
                                assert(after[k - 1] == x);
                            }
                        }
                    }
                    assert(r@ =~= before.to_set().remove(uid@));
                }
                r
            },
            None => {
                assert(self@ =~= self@.remove(uid@));
                self
            },
        }
    }
}

/// The jobs that are recorded once the end of one more has been seen, and whether it is to
/// be counted: not where it was recorded before.
pub open spec fn record_once_spec(recorded: Set<Seq<char>>, uid: Seq<char>) -> (
    Set<Seq<char>>,
    bool,
) {
    (recorded.insert(uid), !recorded.contains(uid))
}

/// Records the end of a job, and tells whether it is to be counted.
pub fn record_once(recorded: RecordedJobs, uid: String) -> (r: (RecordedJobs, bool))
    ensures
        (r.0@, r.1) == record_once_spec(recorded@, uid@),
{
    let is_new: bool = !recorded.contains(uid.as_str());
    (recorded.insert(uid), is_new)
}

/// The identifiers that have been recorded when the ends of the given jobs were seen one
/// after another, with how many of them were counted.
pub open spec fn record_all_spec(recorded: Set<Seq<char>>, uids: Seq<Seq<char>>) -> (
    Set<Seq<char>>,
    nat,
)
    decreases uids.len(),
{
    if uids.len() == 0 {
        (recorded, 0)
    } else {
        let before = record_all_spec(recorded, uids.drop_last());
        let (after, counted) = record_once_spec(before.0, uids.last());
        (
            after,
            if counted {
                before.1 + 1
            } else {
                before.1
            },
        )
    }
}

/// The end of a job is counted once: however often the same job is seen, a second time
/// changes nothing and is not counted, and no other job is touched by it.
pub proof fn law_recorded_once(recorded: Set<Seq<char>>, uid: Seq<char>, other: Seq<char>)
    ensures
        ({
            let (after, counted) = record_once_spec(recorded, uid);
            &&& record_once_spec(after, uid) == (after, false)
            &&& counted <==> !recorded.contains(uid)
            &&& other != uid ==> record_once_spec(after, other).1 == record_once_spec(
                recorded,
                other,
            ).1
        }),
{
    assert(recorded.insert(uid).insert(uid) =~= recorded.insert(uid));
}

/// As many ends are counted as there are different jobs among those that were seen, where
/// none had been recorded before.
pub proof fn law_each_job_counted_once(uids: Seq<Seq<char>>)
    ensures
        record_all_spec(Set::empty(), uids) == (uids.to_set(), uids.to_set().len()),
    decreases uids.len(),
{
    if uids.len() == 0 {
        assert(uids.to_set() =~= Set::empty());
    } else {
        let front = uids.drop_last();
        law_each_job_counted_once(front);
        vstd::seq_lib::seq_to_set_is_finite(front);
        assert forall|x: Seq<char>| #[trigger]
            uids.to_set().contains(x) <==> front.to_set().insert(uids.last()).contains(x) by {
            if uids.contains(x) {
                let i = uids.index_of(x);
                if i < front.len() {
                    assert(front[i] == x);
                }
            }
            if front.contains(x) {
                let i = front.index_of(x);
                assert(uids[i] == x);
            }
            assert(uids[uids.len() - 1] == uids.last());
        }
        assert(uids.to_set() =~= front.to_set().insert(uids.last()));
    }
}

/// Where the archiving of an ended job stands.
#[derive(Clone, Copy, Debug, PartialEq, Eq, Structural)]
pub enum State {
    /// Its template is to be fetched.
    AwaitTemplate,
    /// It is to be written to the archive.
    AwaitArchive,
    /// It is to be deleted from the cluster.
    AwaitDelete,
    /// All is done for now.
    Finished(Action),
}

/// What came of the outside work that a state waits for.
#[derive(Clone, Copy, Debug)]
pub enum Outcome {
    /// The template is there: how long it keeps its jobs, and what time it is.
    TemplateFound { cleanup_secs: i64, now: Timestamp },
    /// There is no such template.
    TemplateGone,
    /// The template could not be fetched.
    TemplateUnavailable,
    /// Whether the job was written to the archive.
    Archived(bool),
    /// Whether the job was deleted from the cluster.
    Deleted(bool),
}

/// The nanoseconds that an ended job has still to stay.
pub open spec fn nanos_left(cleanup_secs: i64, now: Timestamp, completion_time: Timestamp) -> int {
    cleanup_secs * 1_000_000_000 - now.nanos_since_spec(completion_time)
}

/// The state after an event. An event that the state does not wait for changes
/// nothing.
pub open spec fn step_spec(state: State, event: Outcome, completion_time: Timestamp) -> State {
    match (state, event) {
        (State::AwaitTemplate, Outcome::TemplateFound { cleanup_secs, now }) => {
            let left = nanos_left(cleanup_secs, now, completion_time);
            if left > 0 {
                State::Finished(
                    Action::Requeue {
                        secs: (left / 1_000_000_000) as u64,
                        nanos: (left % 1_000_000_000) as u32,
                    },
                )
            } else {
                State::AwaitArchive
            }
        },
        (State::AwaitTemplate, Outcome::TemplateGone) => State::Finished(
            Action::Requeue { secs: 60, nanos: 0 },
        ),
        (State::AwaitTemplate, Outcome::TemplateUnavailable) => State::Finished(
            Action::Requeue { secs: 30, nanos: 0 },
        ),
        (State::AwaitArchive, Outcome::Archived(done)) => if done {
            State::AwaitDelete
        } else {
            State::Finished(Action::Requeue { secs: 30, nanos: 0 })
        },
        (State::AwaitDelete, Outcome::Deleted(done)) => if done {
            State::Finished(Action::AwaitChange)
        } else {
            State::Finished(Action::Requeue { secs: 30, nanos: 0 })
        },
        _ => state,
    }
}

/// The state after what came of the outside work for a job that ended at
/// `completion_time`.
pub fn step(state: State, event: Outcome, completion_time: &Timestamp) -> (r: State)
    ensures
        r == step_spec(state, event, *completion_time),
{
    match (state, event) {
        (State::AwaitTemplate, Outcome::TemplateFound { cleanup_secs, now }) => {
            let left: i128 = (cleanup_secs as i128) * 1_000_000_000 - now.nanos_since(
                completion_time,
            );
            if left > 0 {
                State::Finished(
                    Action::Requeue {
                        secs: (left / 1_000_000_000) as u64,
                        nanos: (left % 1_000_000_000) as u32,
                    },
                )
            } else {
                State::AwaitArchive
            }
        },
        (State::AwaitTemplate, Outcome::TemplateGone) => State::Finished(
            Action::Requeue { secs: 60, nanos: 0 },
        ),
        (State::AwaitTemplate, Outcome::TemplateUnavailable) => State::Finished(
            Action::Requeue { secs: 30, nanos: 0 },
        ),
        (State::AwaitArchive, Outcome::Archived(done)) => if done {
            State::AwaitDelete
        } else {
            State::Finished(Action::Requeue { secs: 30, nanos: 0 })
        },
        (State::AwaitDelete, Outcome::Deleted(done)) => if done {
            State::Finished(Action::AwaitChange)
        } else {
            State::Finished(Action::Requeue { secs: 30, nanos: 0 })
        },
        _ => state,
    }
}

/// The state after a run of events.
pub open spec fn run_spec(events: Seq<Outcome>, completion_time: Timestamp) -> State
    decreases events.len(),
{
    if events.len() == 0 {
        State::AwaitTemplate
    } else {
        step_spec(run_spec(events.drop_last(), completion_time), events.last(), completion_time)
    }
}

/// A job is deleted from the cluster only once it is in the archive.
pub proof fn law_archived_before_deleted(events: Seq<Outcome>, completion_time: Timestamp)
    ensures
        (run_spec(events, completion_time) is AwaitDelete || run_spec(events, completion_time)
            == State::Finished(Action::AwaitChange)) ==> events.contains(Outcome::Archived(true)),
    decreases events.len(),
{
    if events.len() > 0 {
        law_archived_before_deleted(events.drop_last(), completion_time);
        let front = events.drop_last();
        if front.contains(Outcome::Archived(true)) {
            let i = front.index_of(Outcome::Archived(true));
            assert(events[i] == front[i]);
        }
        assert(events[events.len() - 1] == events.last());
    }
}

/// A job is archived only once it has stayed for as long as its template says.
pub proof fn law_archived_when_due(events: Seq<Outcome>, completion_time: Timestamp)
    ensures
        (run_spec(events, completion_time) is AwaitArchive || run_spec(events, completion_time) is
            AwaitDelete) ==> exists|i: int|
            0 <= i < events.len() && (#[trigger] events[i] matches Outcome::TemplateFound {
                cleanup_secs,
                now,
            } && nanos_left(cleanup_secs, now, completion_time) <= 0),
    decreases events.len(),
{
    if events.len() > 0 {
        let front = events.drop_last();
        law_archived_when_due(front, completion_time);
        let before = run_spec(front, completion_time);
        if before is AwaitArchive || before is AwaitDelete {
            let i = choose|i: int|
                0 <= i < front.len() && (#[trigger] front[i] matches Outcome::TemplateFound {
                    cleanup_secs,
                    now,
                } && nanos_left(cleanup_secs, now, completion_time) <= 0);
            assert(events[i] == front[i]);
        }
        assert(events[events.len() - 1] == events.last());
    }
}

/// A job that is not yet due is looked at again exactly when it is.
pub proof fn law_requeued_until_due(cleanup_secs: i64, now: Timestamp, completion_time: Timestamp)
    requires
        time::valid_parts(now.secs(), now.nanos()),
        time::valid_parts(completion_time.secs(), completion_time.nanos()),
        nanos_left(cleanup_secs, now, completion_time) > 0,
    ensures
        step_spec(
            State::AwaitTemplate,
            Outcome::TemplateFound { cleanup_secs, now },
            completion_time,
        ) matches State::Finished(Action::Requeue { secs, nanos }) && secs * 1_000_000_000 + nanos
            == nanos_left(cleanup_secs, now, completion_time),
{
}

/// What was recorded of the snapshots of a job when they were uploaded.
#[derive(Debug)]
pub struct SnapshotRecord {
    pub status: Option<String>,
    pub diff_json: Option<String>,
    pub baseline_id: Option<String>,
}

/// What a [`SnapshotRecord`] holds.
#[verifier::ext_equal]
pub struct SnapshotRecordView {
    pub status: Option<Seq<char>>,
    pub diff_json: Option<Seq<char>>,
    pub baseline_id: Option<Seq<char>>,
}

impl DeepView for SnapshotRecord {
    type V = SnapshotRecordView;

    open spec fn deep_view(&self) -> SnapshotRecordView {
        SnapshotRecordView {
            status: self.status.deep_view(),
            diff_json: self.diff_json.deep_view(),
            baseline_id: self.baseline_id.deep_view(),
        }
    }
}

/// What is kept of an ended job.
pub open spec fn egg_spec(
    job: JobView,
    ended: EndedJobView,
    logs: Option<Seq<char>>,
    events_json: Option<Seq<char>>,
    output: JobOutputView,
    snapshots: SnapshotRecordView,
) -> ArchivedJobEggView {
    ArchivedJobEggView {
        name: ended.name,
        namespace: ended.namespace,
        job_template_name: ended.template_name,
        job_template_namespace: ended.namespace,
        uid: ended.uid,
        status: ended.status,
        start_time: match ended.start_time {
            Some(t) => Some(time::rfc3339_spec(t.secs(), t.nanos())),
            None => None,
        },
        completion_time: Some(
            time::rfc3339_spec(ended.completion_time.secs(), ended.completion_time.nanos()),
        ),
        duration_seconds: ended.duration_seconds,
        logs,
        output_result_json: output.result_json,
        output_report_md: output.report_md,
        output_test_results_xml: output.test_results_xml,
        output_archive: output.archive,
        output_test_snapshots: output.test_snapshots,
        events_json,
        snapshot_status: snapshots.status,
        snapshot_diff_json: snapshots.diff_json,
        artifact_sha: job.metadata.annotation("artifactSha"@),
        config_sha: job.metadata.annotation("configSha"@),
        snapshot_baseline_id: baseline_id_spec(snapshots.baseline_id),
    }
}

/// The number of a baseline set, from its text.
pub open spec fn baseline_id_spec(text: Option<Seq<char>>) -> Option<i64> {
    match text {
        Some(t) => match decimal::parse_i64_spec(t) {
            Some(n) => Some(n as i64),
            None => None,
        },
        None => None,
    }
}

/// The number of a baseline set, from its text.
pub fn baseline_id(text: &Option<String>) -> (r: Option<i64>)
    ensures
        r == baseline_id_spec(text.deep_view()),
{
    match text {
        Some(t) => decimal::parse_i64(t.as_str()),
        None => None,
    }
}

/// Puts together what is kept of an ended job.
pub fn archived_egg(
    job: &Job,
    ended: &EndedJob,
    logs: Option<String>,
    events_json: Option<String>,
    output: JobOutput,
    snapshots: SnapshotRecord,
) -> (r: ArchivedJobEgg)
    ensures
        r.deep_view() == egg_spec(
            job.deep_view(),
            ended.deep_view(),
            logs.deep_view(),
            events_json.deep_view(),
            output.deep_view(),
            snapshots.deep_view(),
        ),
{
    let snapshot_baseline_id: Option<i64> = baseline_id(&snapshots.baseline_id);
    ArchivedJobEgg {
        name: ended.name.clone(),
        namespace: ended.namespace.clone(),
        job_template_name: ended.template_name.clone(),
        job_template_namespace: ended.namespace.clone(),
        uid: ended.uid.clone(),
        status: ended.status.clone(),
        start_time: match &ended.start_time {
            Some(t) => Some(time::to_rfc3339(t)),
            None => None,
        },
        completion_time: Some(time::to_rfc3339(&ended.completion_time)),
        duration_seconds: ended.duration_seconds,
        logs,
        output_result_json: output.result_json,
        output_report_md: output.report_md,
        output_test_results_xml: output.test_results_xml,
        output_archive: output.archive,
        output_test_snapshots: output.test_snapshots,
        events_json,
        snapshot_status: snapshots.status,
        snapshot_diff_json: snapshots.diff_json,
        artifact_sha: job.metadata.annotation("artifactSha"),
        config_sha: job.metadata.annotation("configSha"),
        snapshot_baseline_id,
    }
}

/// The number of a baseline set that was recorded at upload is the number that
/// is archived.
pub proof fn law_baseline_id_kept(id: i64)
    ensures
        baseline_id_spec(Some(decimal::decimal_spec(id as int))) == Some(id),
{
    decimal::law_decimal_round_trip(id);
}

/// A job that a template owns is found to have ended exactly where it has an end: it completed,
/// or a true `Failed` condition says when it failed. It is then known by that end, by its own
/// name, namespace and identifier and by the name of its template. One that has no end yet is
/// looked at again after half a minute, and one that no template owns is left alone.
pub proof fn law_inspect(job: JobView)
    ensures
        match inspect_spec(job) {
            Ok(ended) => {
                &&& job::ended_at(job, ended.completion_time)
                &&& exists|i: int| #[trigger]
                    job::is_first_template(job::owners_of(job), i) && ended.template_name
                        == job::owners_of(job)[i].name
                &&& ended.uid == (match job.metadata.uid {
                    Some(u) => u,
                    None => Seq::empty(),
                })
                &&& ended.namespace == (match job.metadata.namespace {
                    Some(n) => n,
                    None => Seq::empty(),
                })
                &&& job.metadata.name matches Some(n) ==> ended.name == n
                &&& ended.start_time == (match job.status {
                    Some(status) => status.start_time,
                    None => None,
                })
            },
            Err(Action::AwaitChange) => forall|i: int|
                0 <= i < job::owners_of(job).len() ==> (#[trigger] job::owners_of(job)[i]).kind
                    != "JobTemplate"@,
            Err(Action::Requeue { secs, nanos }) => {
                &&& secs == 30 && nanos == 0
                &&& exists|i: int| #[trigger] job::is_first_template(job::owners_of(job), i)
                &&& forall|t: Timestamp| !job::ended_at(job, t)
            },
        },
        (exists|i: int| #[trigger] job::is_first_template(job::owners_of(job), i)) && (exists|
            t: Timestamp,
        | #[trigger]
            job::ended_at(job, t)) ==> inspect_spec(job) is Ok,
{
    job::law_terminal_time(job);
    job::law_template_owner(job);
}

/// An ended job is recorded as succeeded or failed by its conditions, and with the whole
/// seconds that it ran, where its start is known; they are negative where it began behind its
/// end.
pub proof fn law_how_a_job_ended(job: JobView)
    ensures
        inspect_spec(job) matches Ok(ended) ==> {
            &&& (ended.status == "Succeeded"@) == (job.verdict() == Some(Verdict::Succeeded))
            &&& (ended.status == "Failed"@) == (job.verdict() == Some(Verdict::Failed))
            &&& (ended.status == "Unknown"@) == (job.verdict() is None)
            &&& ended.duration_seconds is Some <==> ended.start_time is Some
            &&& ended.start_time matches Some(start) ==> {
                let end = ended.completion_time;
                time::valid_parts(start.secs(), start.nanos()) && time::valid_parts(
                    end.secs(),
                    end.nanos(),
                ) && start.nanos() < 1_000_000_000 && end.nanos() < 1_000_000_000 ==> {
                    let secs = ended.duration_seconds->0 as int;
                    let nanos = (end.secs() - start.secs()) * 1_000_000_000 + end.nanos()
                        - start.nanos();
                    &&& nanos >= 0 ==> secs * 1_000_000_000 <= nanos < (secs + 1) * 1_000_000_000
                    &&& nanos <= 0 ==> (secs - 1) * 1_000_000_000 < nanos <= secs * 1_000_000_000
                }
            }
        },
{
    reveal_strlit("Succeeded");
    reveal_strlit("Failed");
    reveal_strlit("Unknown");
    assert("Succeeded"@.len() == 9 && "Failed"@.len() == 6 && "Unknown"@.len() == 7);
    if let Ok(ended) = inspect_spec(job) {
        if let Some(start) = ended.start_time {
            let end = ended.completion_time;
            if time::valid_parts(start.secs(), start.nanos()) && time::valid_parts(
                end.secs(),
                end.nanos(),
            ) && start.nanos() < 1_000_000_000 && end.nanos() < 1_000_000_000 {
                time::law_time_between(end, start);
                time::lemma_seconds_between(end, start);
            }
        }
    }
}

/// A number of days, hours, minutes or seconds stands for that many of them.
pub proof fn law_units(n: nat)
    requires
        0 < n <= i64::MAX,
    ensures
        duration_spec(decimal::digits_spec(n).push('d')) == n * 86400,
        duration_spec(decimal::digits_spec(n).push('h')) == n * 3600,
        duration_spec(decimal::digits_spec(n).push('m')) == n * 60,
        duration_spec(decimal::digits_spec(n).push('s')) == n,
{
    let digits = decimal::digits_spec(n);
    decimal::law_decimal_digits(n);
    decimal::law_decimal_round_trip(n as i64);
    assert(number_spec(digits) == n);
    law_duration_of_one_part(digits, 'd');
    law_duration_of_one_part(digits, 'h');
    law_duration_of_one_part(digits, 'm');
    law_duration_of_one_part(digits, 's');
}

/// A text that names no unit of time stands for half an hour.
pub proof fn law_no_unit_is_half_an_hour(s: Seq<char>)
    requires
        forall|i: int|
            0 <= i < s.len() ==> #[trigger] s[i] != 'd' && s[i] != 'h' && s[i] != 'm' && s[i] != 's',
    ensures
        duration_spec(s) == 1800,
{
    lemma_no_unit(s, Seq::empty());
}

proof fn lemma_no_unit(s: Seq<char>, digits: Seq<char>)
    requires
        forall|i: int|
            0 <= i < s.len() ==> #[trigger] s[i] != 'd' && s[i] != 'h' && s[i] != 'm' && s[i] != 's',
    ensures
        duration_total(s, digits) == 0,
    decreases s.len(),
{
    if s.len() > 0 {
        let rest = s.drop_first();
        assert(s[0] != 'd' && s[0] != 'h' && s[0] != 'm' && s[0] != 's');
        assert forall|i: int| 0 <= i < rest.len() implies #[trigger] rest[i] != 'd' && rest[i]
            != 'h' && rest[i] != 'm' && rest[i] != 's' by {
            assert(rest[i] == s[i + 1]);
        }
        lemma_no_unit(rest, digits.push(s[0]));
        lemma_no_unit(rest, Seq::empty());
        assert(number_spec(digits) * 0 == 0);
    }
}

/// An ended job whose template was found stays for as long as the template says, counted from
/// its end: before that it is looked at again when the rest of the time has gone by, and from
/// then on it is archived.
pub proof fn law_jobs_stay_for_their_time(
    cleanup_secs: i64,
    now: Timestamp,
    completion_time: Timestamp,
)
    requires
        time::valid_parts(now.secs(), now.nanos()),
        time::valid_parts(completion_time.secs(), completion_time.nanos()),
        now.nanos() < 1_000_000_000,
        completion_time.nanos() < 1_000_000_000,
        0 <= cleanup_secs,
    ensures
        ({
            let gone = (now.secs() - completion_time.secs()) * 1_000_000_000 + now.nanos()
                - completion_time.nanos();
            let after = step_spec(
                State::AwaitTemplate,
                Outcome::TemplateFound { cleanup_secs, now },
                completion_time,
            );
            if gone >= cleanup_secs * 1_000_000_000 {
                after == State::AwaitArchive
            } else {
                after matches State::Finished(Action::Requeue { secs, nanos }) && nanos
                    < 1_000_000_000 && secs * 1_000_000_000 + nanos == cleanup_secs * 1_000_000_000
                    - gone
            }
        }),
{
    time::law_time_between(now, completion_time);
}

/// An ended job goes on only one step at a time, each when what it waits for is done: it is
/// deleted only where it was archived, and done only where it was deleted. What fails is tried
/// again later, with the job still there.
pub proof fn law_steps(completion_time: Timestamp, state: State, event: Outcome)
    ensures
        step_spec(State::AwaitArchive, Outcome::Archived(true), completion_time)
            == State::AwaitDelete,
        step_spec(State::AwaitDelete, Outcome::Deleted(true), completion_time) == State::Finished(
            Action::AwaitChange,
        ),
        step_spec(State::AwaitArchive, Outcome::Archived(false), completion_time)
            == State::Finished(Action::Requeue { secs: 30, nanos: 0 }),
        step_spec(State::AwaitDelete, Outcome::Deleted(false), completion_time)
            == State::Finished(Action::Requeue { secs: 30, nanos: 0 }),
        step_spec(State::AwaitTemplate, Outcome::TemplateGone, completion_time)
            == State::Finished(Action::Requeue { secs: 60, nanos: 0 }),
        step_spec(State::AwaitTemplate, Outcome::TemplateUnavailable, completion_time)
            == State::Finished(Action::Requeue { secs: 30, nanos: 0 }),
        state is Finished ==> step_spec(state, event, completion_time) == state,
        state is AwaitArchive && !(event is Archived) ==> step_spec(state, event, completion_time)
            == state,
        state is AwaitDelete && !(event is Deleted) ==> step_spec(state, event, completion_time)
            == state,
        state is AwaitTemplate && (event is Archived || event is Deleted) ==> step_spec(
            state,
            event,
            completion_time,
        ) == state,
{
}

/// What is archived of a job is what was known of it when it ended: who it was, how and when it
/// ended, its logs, events and output, what was built, and what its snapshots came to. The row
/// gives all of it back.
pub proof fn law_archive_keeps_what_was_known(
    job: JobView,
    logs: Option<Seq<char>>,
    events_json: Option<Seq<char>>,
    output: JobOutputView,
    snapshots: SnapshotRecordView,
    id: i64,
    archived_at: Seq<char>,
)
    requires
        inspect_spec(job) is Ok,
    ensures
        ({
            let ended = inspect_spec(job)->Ok_0;
            let row = crate::db::archived_job::inserted_spec(
                egg_spec(job, ended, logs, events_json, output, snapshots),
                id,
                archived_at,
            );
            let end = job.terminal_time()->0;
            &&& row.id == id
            &&& row.archived_at == archived_at
            &&& row.name == job.metadata.name_any()
            &&& row.namespace == job.metadata.namespace_or_empty()
            &&& row.uid == job.metadata.uid_or_empty()
            &&& row.job_template_name == job.template_owner()->0.name
            &&& row.job_template_namespace == row.namespace
            &&& row.status == ended.status
            &&& row.completion_time == Some(time::rfc3339_spec(end.secs(), end.nanos()))
            &&& row.start_time is Some <==> job.start_time() is Some
            &&& job.start_time() matches Some(t) ==> row.start_time == Some(
                time::rfc3339_spec(t.secs(), t.nanos()),
            )
            &&& row.duration_seconds == ended.duration_seconds
            &&& row.logs == logs
            &&& row.events_json == events_json
            &&& row.output_result_json == output.result_json
            &&& row.output_report_md == output.report_md
            &&& row.output_test_results_xml == output.test_results_xml
            &&& row.output_archive == output.archive
            &&& row.output_test_snapshots == output.test_snapshots
            &&& row.snapshot_status == snapshots.status
            &&& row.snapshot_diff_json == snapshots.diff_json
            &&& row.artifact_sha == job.metadata.annotation("artifactSha"@)
            &&& row.config_sha == job.metadata.annotation("configSha"@)
            &&& snapshots.baseline_id is None ==> row.snapshot_baseline_id is None
            &&& forall|n: i64|
                snapshots.baseline_id == Some(#[trigger] decimal::decimal_spec(n as int))
                    ==> row.snapshot_baseline_id == Some(n)
        }),
{
    assert forall|n: i64|
        snapshots.baseline_id == Some(#[trigger] decimal::decimal_spec(n as int)) implies
    baseline_id_spec(snapshots.baseline_id) == Some(n) by {
        law_baseline_id_kept(n);
    }
}

/// A number that is too large to be told is passed over, and so is a unit without a number.
pub proof fn law_no_number_is_half_an_hour(n: nat, unit: char)
    requires
        n > i64::MAX,
        !decimal::is_digit_spec(unit),
    ensures
        duration_spec(decimal::digits_spec(n).push(unit)) == 1800,
        duration_spec(seq![unit]) == 1800,
        duration_spec(Seq::empty()) == 1800,
{
    let digits = decimal::digits_spec(n);
    decimal::law_decimal_digits(n);
    assert(decimal::is_digit_spec(digits[0]));
    assert(digits[0] != '-' && digits[0] != '+');
    decimal::law_not_a_number(digits, i64::MAX as nat, 0);
    assert(number_spec(digits) == 0);
    lemma_digits_read(digits, unit, Seq::empty());
    assert(Seq::empty() + digits =~= digits);
    assert(number_spec(digits) * unit_secs(unit) == 0);
    reveal_with_fuel(duration_total, 2);
    assert(seq![unit].drop_first() =~= Seq::empty());
    decimal::law_not_a_number(Seq::empty(), i64::MAX as nat, 0);
    assert(number_spec(Seq::empty()) == 0);
    assert(number_spec(Seq::empty()) * unit_secs(unit) == 0);
}

} // verus!

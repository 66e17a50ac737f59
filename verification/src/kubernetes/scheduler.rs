//! Making jobs on a schedule.

use vstd::prelude::*;

use crate::decimal;
use crate::kubernetes::job::{Job, JobView};
use crate::kubernetes::job_template::{JobTemplate, JobTemplateView};
use crate::dup::{text_or, text_or_empty};
use crate::text;
use crate::time::{self, Timestamp};

verus! {

/// The text in lower case, as `str::to_lowercase` gives it.
pub uninterp spec fn lowercase_spec(s: Seq<char>) -> Seq<char>;

/// An ASCII letter in lower case; any other character as it is.
pub open spec fn ascii_lower(c: char) -> char {
    if 'A' <= c <= 'Z' {
        (c as u32 + 32) as char
    } else {
        c
    }
}

/// `str::to_lowercase` gives the text in lower case, which depends on the text
/// alone; of an ASCII text it lowers each letter and keeps the rest.
#[verifier::external_body]
fn lowercase(s: &str) -> (r: String)
    ensures
        r@ == lowercase_spec(s@),
        vstd::utf8::is_ascii_chars(s@) ==> r@ == s@.map_values(|c: char| ascii_lower(c)),
{
    s.to_lowercase()
}

/// The MD5 digest of some bytes.
pub uninterp spec fn md5_spec(bytes: Seq<u8>) -> Seq<u8>;

/// `md5::compute` gives the digest, which has sixteen bytes and depends on the
/// input alone.
#[verifier::external_body]
fn md5_digest(bytes: &[u8]) -> (r: Vec<u8>)
    ensures
        r@ == md5_spec(bytes@),
        r@.len() == 16,
{
    md5::compute(bytes).0.to_vec()
}

/// The number that the first four bytes make up, the lowest byte first.
pub open spec fn le_u32(bytes: Seq<u8>) -> int {
    bytes[0] + 256 * bytes[1] + 65536 * bytes[2] + 16777216 * bytes[3]
}

/// The words that stand for a schedule.
pub open spec fn is_keyword(word: Seq<char>) -> bool {
    word == "hourly"@ || word == "daily"@ || word == "weekly"@ || word == "monthly"@
}

/// The cron expression of a keyword: `hash` picks the minute, the hour and the
/// day, so that the jobs of different templates spread out.
pub open spec fn keyword_cron_spec(word: Seq<char>, hash: int) -> Seq<char> {
    let minute = decimal::decimal_spec(hash % 60);
    let hour = decimal::decimal_spec((hash / 256) % 24);
    if word == "hourly"@ {
        minute + " * * * *"@
    } else if word == "daily"@ {
        minute + " "@ + hour + " * * *"@
    } else if word == "weekly"@ {
        minute + " "@ + hour + " * * "@ + decimal::decimal_spec((hash / 65536) % 7)
    } else {
        minute + " "@ + hour + " "@ + decimal::decimal_spec((hash / 65536) % 28 + 1) + " * *"@
    }
}

/// The cron expression that a schedule stands for, given its lower case and the
/// hash of the template: that of the keyword, or the schedule itself.
pub open spec fn cron_expression_spec(
    schedule: Seq<char>,
    lowered: Seq<char>,
    hash: int,
) -> Seq<char> {
    if is_keyword(lowered) {
        keyword_cron_spec(lowered, hash)
    } else {
        text::trim_spec(schedule)
    }
}

/// The hash of a template: it depends on its namespace and name.
pub open spec fn template_hash_spec(namespace: Seq<char>, name: Seq<char>) -> int {
    le_u32(md5_spec(vstd::utf8::encode_utf8(namespace + "/"@ + name)))
}

fn keyword_cron(word: &str, hash: u32) -> (r: String)
    requires
        is_keyword(word@),
    ensures
        r@ == keyword_cron_spec(word@, hash as int),
{
    let minute = decimal::of_u64((hash % 60) as u64);
    let hour = decimal::of_u64(((hash / 256) % 24) as u64);
    let mut r = minute;
    if text::eq(word, "hourly") {
        r.append(" * * * *");
    } else if text::eq(word, "daily") {
        r.append(" ");
        r.append(hour.as_str());
        r.append(" * * *");
    } else if text::eq(word, "weekly") {
        r.append(" ");
        r.append(hour.as_str());
        r.append(" * * ");
        r.append(decimal::of_u64(((hash / 65536) % 7) as u64).as_str());
    } else {
        r.append(" ");
        r.append(hour.as_str());
        r.append(" ");
        r.append(decimal::of_u64(((hash / 65536) % 28 + 1) as u64).as_str());
        r.append(" * *");
    }
    r
}

/// The cron expression that a schedule stands for, given the trimmed schedule in
/// lower case and the hash of the template.
pub fn cron_expression(schedule: &str, lowered: &str, hash: u32) -> (r: String)
    ensures
        r@ == cron_expression_spec(schedule@, lowered@, hash as int),
{
    if text::eq(lowered, "hourly") || text::eq(lowered, "daily") || text::eq(lowered, "weekly")
        || text::eq(lowered, "monthly") {
        keyword_cron(lowered, hash)
    } else {
        text::trim(schedule)
    }
}

/// The hash of a template.
pub fn template_hash(namespace: &str, name: &str) -> (r: u32)
    ensures
        r == template_hash_spec(namespace@, name@),
{
    let input = text::concat3(namespace, "/", name);
    let digest = md5_digest(input.as_str().as_bytes());
    let sum: u64 = digest[0] as u64 + 256 * (digest[1] as u64) + 65536 * (digest[2] as u64)
        + 16777216 * (digest[3] as u64);
    sum as u32
}

#[verifier::external_type_specification]
#[verifier::external_body]
pub struct ExCron(croner::Cron);

/// What a parsed schedule holds, as a text: its pattern, in which aliases have been
/// replaced, and the options that it was parsed with.
pub uninterp spec fn pattern_spec(cron: croner::Cron) -> Seq<char>;

/// The pattern that `croner` makes of a cron expression, where it can parse it.
pub uninterp spec fn parsed_cron_spec(expression: Seq<char>) -> Option<Seq<char>>;

/// `croner::Cron::new` and `parse`: whether they succeed, and the pattern that comes of it,
/// depend on the expression alone.
#[verifier::external_body]
fn parse_cron(expression: &str) -> (r: Option<croner::Cron>)
    ensures
        parsed_cron_spec(expression@) == (match r {
            Some(cron) => Some(pattern_spec(cron)),
            None => None,
        }),
{
    croner::Cron::new(expression).parse().ok()
}

/// The seconds and nanoseconds of the first moment after the given one at which
/// `croner` finds a pattern to be due, where it finds one.
pub uninterp spec fn next_occurrence_spec(pattern: Seq<char>, secs: int, nanos: int) -> Option<
    (int, int),
>;

/// Moments from which the next occurrence can be asked for: those before the last month of
/// the calendar and after its first day.
pub open spec fn well_inside(secs: int) -> bool {
    FIRST_START <= secs <= LAST_START
}

/// The first moment from which the next occurrence can be asked for: the calendar's second day.
pub const FIRST_START: i64 = -8_334_601_142_400;

/// The last moment from which the next occurrence can be asked for: the end of the calendar's
/// last month but one, less a second.
pub const LAST_START: i64 = 8_210_264_198_398;

/// The start of the year 4600, which is as far as schedules are searched for their last
/// occurrence in full: four hundred years, after which the calendar repeats itself, before
/// the year in which `croner` gives up.
pub const SEARCH_END: i64 = 82_994_803_200;

/// The time at which a schedule comes up: the next one as seen from the second before.
pub open spec fn occurs(pattern: Seq<char>, t: int) -> bool {
    well_inside(t - 1) && next_occurrence_spec(pattern, t - 1, 0) == Some((t, 0int))
}

/// `croner::Cron::find_next_occurrence`, the start not counted. It looks from the
/// second after the start on, at whole seconds, so that what it finds is later
/// than the start and has no fraction. It finds the first one, so that it finds the same
/// from every moment in between. It gives up in the year 5000; a pattern has no year and the
/// calendar repeats itself every four hundred years, so that a pattern that is not found by
/// then from a start before the year 4600 is found from none. On the first day of the calendar
/// and in its last month it can step over the end, which `requires` leaves out.
#[verifier::external_body]
fn next_occurrence(cron: &croner::Cron, secs: i64, nanos: u32) -> (r: Option<(i64, u32)>)
    requires
        well_inside(secs as int),
        time::valid_parts(secs as int, nanos as int),
    ensures
        next_occurrence_spec(pattern_spec(*cron), secs as int, nanos as int) == (match r {
            Some((s, n)) => Some((s as int, n as int)),
            None => None,
        }),
        r matches Some((s, n)) ==> secs < s <= time::MAX_SECS && n == 0 && forall|b: int, m: int|
            secs <= b < s && well_inside(b) && time::valid_parts(b, m)
                ==> #[trigger] next_occurrence_spec(pattern_spec(*cron), b, m) == Some(
                (s as int, 0int),
            ),
        r is None && secs < SEARCH_END ==> forall|b: int, m: int|
            well_inside(b) && time::valid_parts(b, m) ==> #[trigger] next_occurrence_spec(
                pattern_spec(*cron),
                b,
                m,
            ) is None,
{
    let start = chrono::DateTime::from_timestamp(secs, nanos)?;
    cron.find_next_occurrence(&start, false).ok().map(
        |t| (t.timestamp(), t.timestamp_subsec_nanos()),
    )
}

/// The cron expression that the schedule of a template stands for, where it is a
/// valid one.
pub open spec fn resolve_schedule_spec(
    schedule: Seq<char>,
    namespace: Seq<char>,
    name: Seq<char>,
) -> Option<Seq<char>> {
    let expression = cron_expression_spec(
        schedule,
        lowercase_spec(text::trim_spec(schedule)),
        template_hash_spec(namespace, name),
    );
    if parsed_cron_spec(expression) is Some {
        Some(expression)
    } else {
        None
    }
}

/// Resolves a schedule, which is a keyword or a cron expression, into a valid
/// cron expression.
pub fn resolve_schedule(schedule: &str, namespace: &str, name: &str) -> (r: Option<String>)
    ensures
        r.deep_view() == resolve_schedule_spec(schedule@, namespace@, name@),
{
    let trimmed = text::trim(schedule);
    let lowered = lowercase(trimmed.as_str());
    let hash: u32 = template_hash(namespace, name);
    let expression = cron_expression(schedule, lowered.as_str(), hash);
    match parse_cron(expression.as_str()) {
        Some(_) => Some(expression),
        None => None,
    }
}

/// The minute of a keyword's schedule is a minute, its hour an hour, and its day
/// one that every week or month has.
pub proof fn law_keyword_fields_in_range(hash: int)
    requires
        0 <= hash <= u32::MAX,
    ensures
        0 <= hash % 60 < 60,
        0 <= (hash / 256) % 24 < 24,
        0 <= (hash / 65536) % 7 < 7,
        1 <= (hash / 65536) % 28 + 1 <= 28,
{
}

/// Whether `t` is the most recent occurrence of a schedule at or before `now`.
pub open spec fn is_most_recent(pattern: Seq<char>, t: int, now: int) -> bool {
    &&& t <= now
    &&& occurs(pattern, t)
    &&& forall|u: int| t < u <= now ==> !#[trigger] occurs(pattern, u)
}

/// The most recent occurrence of a schedule at or before `now`.
pub open spec fn most_recent_spec(pattern: Seq<char>, now: int) -> Option<(int, int)> {
    if exists|t: int| #[trigger] is_most_recent(pattern, t, now) {
        Some((choose|t: int| #[trigger] is_most_recent(pattern, t, now), 0))
    } else {
        None
    }
}

/// The last of the moments that come from asking for the next occurrence again
/// and again, each time from the one before, for as long as they are no later than `now`.
pub open spec fn last_occurrence_spec(
    pattern: Seq<char>,
    secs: int,
    nanos: int,
    now: int,
) -> Option<(int, int)>
    decreases now - secs,
{
    match next_occurrence_spec(pattern, secs, nanos) {
        Some((s, n)) => if secs < s <= now {
            match last_occurrence_spec(pattern, s, n, now) {
                Some(later) => Some(later),
                None => Some((s, n)),
            }
        } else {
            None
        },
        None => None,
    }
}

/// How far back the last occurrence is looked for at first, in seconds: 32 days.
pub const SEARCH_SECS: i64 = 2_764_800;

/// The last occurrence of a schedule at or before `now`. From the year 4600 on, only the 32
/// days before `now` are searched, as far as `croner` finds anything in them.
pub open spec fn prev_occurrence_spec(pattern: Seq<char>, now: Timestamp) -> Option<(int, int)> {
    if now.secs() < SEARCH_END {
        most_recent_spec(pattern, now.secs())
    } else {
        last_occurrence_spec(pattern, now.secs() - SEARCH_SECS, now.nanos(), now.secs())
    }
}

proof fn lemma_most_recent(pattern: Seq<char>, t: int, now: int)
    requires
        is_most_recent(pattern, t, now),
    ensures
        most_recent_spec(pattern, now) == Some((t, 0int)),
{
    let u = choose|u: int| #[trigger] is_most_recent(pattern, u, now);
    if t < u {
        assert(!occurs(pattern, u));
    } else if u < t {
        assert(!occurs(pattern, t));
    }
}

/// Where a schedule has no most recent occurrence, it has none at or before `now`: no start
/// inside the calendar leads to one.
pub proof fn law_no_earlier_occurrence(pattern: Seq<char>, now: int, t: int)
    requires
        most_recent_spec(pattern, now) is None,
        t <= now,
    ensures
        !occurs(pattern, t),
    decreases now - t,
{
    if occurs(pattern, t) {
        assert forall|u: int| t < u <= now implies !#[trigger] occurs(pattern, u) by {
            law_no_earlier_occurrence(pattern, now, u);
        }
        assert(is_most_recent(pattern, t, now));
    }
}

/// The most recent occurrence is an occurrence, is no later than `now`, and none comes
/// between it and `now`.
pub proof fn law_most_recent_occurrence(pattern: Seq<char>, now: int)
    requires
        most_recent_spec(pattern, now) is Some,
    ensures
        most_recent_spec(pattern, now) matches Some((t, n)) && n == 0 && t <= now && occurs(
            pattern,
            t,
        ) && forall|u: int| t < u <= now ==> !#[trigger] occurs(pattern, u),
{
    let t = choose|t: int| #[trigger] is_most_recent(pattern, t, now);
    assert(is_most_recent(pattern, t, now));
}

/// Moments at which schedules can be looked at.
pub open spec fn can_look(now: Timestamp) -> bool {
    well_inside(now.secs())
}

/// Whether schedules can be looked at at that moment.
pub fn can_look_at(now: &Timestamp) -> (r: bool)
    ensures
        r == can_look(*now),
{
    let secs: i64 = now.seconds();
    FIRST_START <= secs && secs <= LAST_START
}

/// What is known of the occurrences after `start` up to `now`, once `last` has been found to
/// be the last of them.
spec fn is_last_after(pattern: Seq<char>, start: int, last: Option<int>, now: int) -> bool {
    match last {
        Some(t) => start < t <= now && is_most_recent(pattern, t, now),
        None => forall|u: int| start < u <= now ==> !#[trigger] occurs(pattern, u),
    }
}

/// The last occurrence after a moment, at or before `now`.
fn last_after(cron: &croner::Cron, start: i64, start_nanos: u32, now: i64) -> (r: Option<i64>)
    requires
        well_inside(start as int),
        well_inside(now as int),
        time::valid_parts(start as int, start_nanos as int),
    ensures
        last_occurrence_spec(
            pattern_spec(*cron),
            start as int,
            start_nanos as int,
            now as int,
        ) == (match r {
            Some(t) => Some((t as int, 0int)),
            None => None,
        }),
        r matches Some(t) ==> start < t <= now,
        now < SEARCH_END ==> is_last_after(
            pattern_spec(*cron),
            start as int,
            match r {
                Some(t) => Some(t as int),
                None => None,
            },
            now as int,
        ),
{
    let ghost pattern = pattern_spec(*cron);
    let ghost whole = last_occurrence_spec(
        pattern,
        start as int,
        start_nanos as int,
        now as int,
    );
    let mut secs: i64 = start;
    let mut nanos: u32 = start_nanos;
    let mut last: Option<i64> = None;
    loop
        invariant
            pattern == pattern_spec(*cron),
            well_inside(start as int),
            well_inside(now as int),
            time::valid_parts(secs as int, nanos as int),
            match last {
                Some(t) => t == secs && start < t <= now && occurs(pattern, t as int) && nanos == 0,
                None => secs == start && nanos == start_nanos,
            },
            whole == (match last_occurrence_spec(pattern, secs as int, nanos as int, now as int) {
                Some(later) => Some(later),
                None => match last {
                    Some(t) => Some((t as int, 0int)),
                    None => None,
                },
            }),
        ensures
            whole == (match last {
                Some(t) => Some((t as int, 0int)),
                None => None,
            }),
            last matches Some(t) ==> start < t <= now,
            now < SEARCH_END ==> is_last_after(
                pattern,
                start as int,
                match last {
                    Some(t) => Some(t as int),
                    None => None,
                },
                now as int,
            ),
        decreases now - secs,
    {
        let found = next_occurrence(cron, secs, nanos);
        proof {
            assert forall|u: int|
                secs < u <= now && (found matches Some((s, _)) ==> u < s) && (found is None ==> now
                    < SEARCH_END) implies !#[trigger] occurs(pattern, u) by {
                assert(well_inside(u - 1));
                let seen = next_occurrence_spec(pattern, u - 1, 0);
                assert(time::valid_parts(u - 1, 0));
            }
        }
        match found {
            Some((s, n)) => {
                if s > now {
                    break;
                }
                proof {
                    let seen = next_occurrence_spec(pattern, s - 1, 0);
                    assert(time::valid_parts(s - 1, 0));
                    assert(occurs(pattern, s as int));
                }
                last = Some(s);
                secs = s;
                nanos = 0;
            },
            None => {
                break;
            },
        }
    }
    last
}

fn find_prev_occurrence(cron: &croner::Cron, now: &Timestamp) -> (r: Option<Timestamp>)
    requires
        can_look(*now),
    ensures
        prev_occurrence_spec(pattern_spec(*cron), *now) == (match r {
            Some(t) => Some((t.secs(), t.nanos())),
            None => None,
        }),
{
    let ghost pattern = pattern_spec(*cron);
    let now_secs: i64 = now.seconds();
    if now_secs >= SEARCH_END {
        let start: i64 = now_secs - SEARCH_SECS;
        return match last_after(cron, start, now.subsec_nanos(), now_secs) {
            Some(t) => Timestamp::new(t, 0),
            None => None,
        };
    }
    let mut span: i64 = SEARCH_SECS;
    loop
        invariant
            pattern == pattern_spec(*cron),
            now_secs == now.secs(),
            well_inside(now_secs as int),
            now_secs < SEARCH_END,
            SEARCH_SECS <= span <= 40_000_000_000_000,
        decreases 40_000_000_000_000 - span,
    {
        let start: i64 = if now_secs - span < FIRST_START {
            FIRST_START
        } else {
            now_secs - span
        };
        match last_after(cron, start, 0, now_secs) {
            Some(t) => {
                proof {
                    lemma_most_recent(pattern, t as int, now_secs as int);
                }
                return Timestamp::new(t, 0);
            },
            None => {},
        }
        let ends: bool = start == FIRST_START || next_occurrence(cron, start, 0).is_none();
        if ends {
            proof {
                assert forall|t: int| !#[trigger] is_most_recent(pattern, t, now_secs as int) by {
                    if is_most_recent(pattern, t, now_secs as int) {
                        assert(occurs(pattern, t));
                        assert(well_inside(t - 1) && time::valid_parts(t - 1, 0));
                    }
                }
            }
            return None;
        }
        span = span * 2;
    }
}

/// Whether a schedule is due: it came up since the last run, or at all where
/// there was no run.
pub open spec fn due_spec(
    prev: Option<(int, int)>,
    last_run: Option<Timestamp>,
) -> bool {
    match prev {
        None => false,
        Some((secs, nanos)) => match last_run {
            None => true,
            Some(last) => last.rank() < time::rank_of(secs, nanos),
        },
    }
}

/// Whether a schedule whose last occurrence was `prev` is due.
pub fn is_due(prev: Option<Timestamp>, last_run: Option<Timestamp>) -> (r: bool)
    ensures
        r == due_spec(
            match prev {
                Some(t) => Some((t.secs(), t.nanos())),
                None => None,
            },
            last_run,
        ),
{
    match prev {
        None => false,
        Some(tick) => match last_run {
            None => true,
            Some(last) => !tick.le(&last),
        },
    }
}

/// Whether a cron expression is due at the moment `now`, given the last run.
pub fn is_schedule_due(expression: &str, last_run: Option<Timestamp>, now: &Timestamp) -> (r: bool)
    requires
        can_look(*now),
    ensures
        r == (match parsed_cron_spec(expression@) {
            Some(pattern) => due_spec(prev_occurrence_spec(pattern, *now), last_run),
            None => false,
        }),
{
    match parse_cron(expression) {
        None => false,
        Some(cron) => {
            let prev = find_prev_occurrence(&cron, now);
            is_due(prev, last_run)
        },
    }
}

/// A schedule is due exactly where its most recent occurrence at or before `now` is later than
/// the last run, or where there is such an occurrence and no run.
pub proof fn law_due_after_most_recent(
    pattern: Seq<char>,
    last_run: Option<Timestamp>,
    now: Timestamp,
)
    requires
        now.secs() < SEARCH_END,
    ensures
        due_spec(prev_occurrence_spec(pattern, now), last_run) <==> exists|t: int| #[trigger]
            is_most_recent(pattern, t, now.secs()) && (last_run matches Some(last) ==> last.rank()
                < time::rank_of(t, 0)),
{
    if exists|t: int| #[trigger] is_most_recent(pattern, t, now.secs()) {
        let t = choose|t: int| #[trigger] is_most_recent(pattern, t, now.secs());
        assert forall|u: int| #[trigger] is_most_recent(pattern, u, now.secs()) implies u == t by {
            lemma_most_recent(pattern, u, now.secs());
        }
        assert(is_most_recent(pattern, t, now.secs()));
    }
}

/// A schedule is never due twice for the same occurrence: once a run began at or
/// after the last occurrence, it is not due.
pub proof fn law_not_due_after_run(prev: Option<(int, int)>, last: Timestamp)
    requires
        prev matches Some((secs, nanos)) ==> time::rank_of(secs, nanos) <= last.rank(),
    ensures
        !due_spec(prev, Some(last)),
{
}

/// The latest moment at which one of the template's live jobs began.
pub open spec fn latest_start_spec(jobs: Seq<JobView>, uid: Seq<char>) -> Option<Timestamp>
    decreases jobs.len(),
{
    if jobs.len() == 0 {
        None
    } else {
        let before = latest_start_spec(jobs.drop_last(), uid);
        if jobs.last().metadata.owned_by(uid) {
            time::later_spec(before, jobs.last().start_time())
        } else {
            before
        }
    }
}

/// Of the live jobs of the namespace, the latest start of one that the template
/// with identifier `uid` owns.
pub fn latest_start(jobs: &Vec<Job>, uid: &str) -> (r: Option<Timestamp>)
    ensures
        r == latest_start_spec(jobs.deep_view(), uid@),
{
    let ghost all = jobs.deep_view();
    let mut best: Option<Timestamp> = None;
    for i in 0..jobs.len()
        invariant
            all == jobs.deep_view(),
            best == latest_start_spec(all.take(i as int), uid@),
    {
        assert(all.take(i + 1).drop_last() =~= all.take(i as int));
        assert(all.take(i + 1).last() == jobs@[i as int].deep_view());
        if jobs[i].metadata.owned_by(uid) {
            best = time::later(best, jobs[i].start_time());
        }
    }
    assert(all.take(all.len() as int) =~= all);
    best
}

/// Every live job of the template began no later than the latest start.
pub proof fn law_latest_start(jobs: Seq<JobView>, uid: Seq<char>, i: int)
    requires
        0 <= i < jobs.len(),
        jobs[i].metadata.owned_by(uid),
        jobs[i].start_time() is Some,
    ensures
        latest_start_spec(jobs, uid) matches Some(t) && jobs[i].start_time()->0.rank()
            <= t.rank(),
    decreases jobs.len(),
{
    if i < jobs.len() - 1 {
        law_latest_start(jobs.drop_last(), uid, i);
    }
}

/// When the jobs of a template last began, from its live jobs and from the
/// latest start time among its archived ones, given as a text.
pub open spec fn last_run_time_spec(
    jobs: Seq<JobView>,
    uid: Seq<char>,
    archived_start: Option<Seq<char>>,
) -> Option<Timestamp> {
    time::later_spec(
        latest_start_spec(jobs, uid),
        match archived_start {
            Some(s) => time::moment_spec(time::parsed_utc_spec(s)),
            None => None,
        },
    )
}

/// When the jobs of a template last began.
pub fn get_last_run_time(jobs: &Vec<Job>, uid: &str, archived_start: &Option<String>) -> (r: Option<
    Timestamp,
>)
    ensures
        r == last_run_time_spec(jobs.deep_view(), uid@, archived_start.deep_view()),
{
    let archived: Option<Timestamp> = match archived_start {
        Some(s) => time::parse_utc(s.as_str()),
        None => None,
    };
    time::later(latest_start(jobs, uid), archived)
}

/// The cron expression by which jobs are made from a template, where it has a
/// schedule and a valid one.
pub open spec fn template_expression_spec(template: JobTemplateView) -> Option<Seq<char>> {
    match template.spec.schedule {
        Some(schedule) => if schedule.len() == 0 {
            None
        } else {
            resolve_schedule_spec(schedule, template.namespace(), template.name())
        },
        None => None,
    }
}

/// The cron expression by which jobs are made from a template.
pub fn template_expression(template: &JobTemplate) -> (r: Option<String>)
    ensures
        r.deep_view() == template_expression_spec(template.deep_view()),
{
    match &template.spec.schedule {
        Some(schedule) => {
            if schedule.as_str().is_empty() {
                None
            } else {
                let namespace = text_or(&template.metadata.namespace, "default");
                let name = text_or(&template.metadata.name, "unknown");
                resolve_schedule(schedule.as_str(), namespace.as_str(), name.as_str())
            }
        },
        None => None,
    }
}

/// Whether a job is to be made from a template at the moment `now`: its schedule is a valid
/// one and is due. `jobs` are the live jobs of its namespace, `archived_start` is the
/// latest start among its archived ones.
pub fn is_template_due(
    template: &JobTemplate,
    jobs: &Vec<Job>,
    archived_start: &Option<String>,
    now: &Timestamp,
) -> (r: bool)
    requires
        can_look(*now),
    ensures
        r == (template_expression_spec(template.deep_view()) matches Some(expression)
            && parsed_cron_spec(expression) matches Some(pattern) && due_spec(
            prev_occurrence_spec(pattern, *now),
            last_run_time_spec(
                jobs.deep_view(),
                template.deep_view().metadata.uid_or_empty(),
                archived_start.deep_view(),
            ),
        )),
{
    match template_expression(template) {
        Some(expression) => {
            let uid = text_or_empty(&template.metadata.uid);
            let last_run = get_last_run_time(jobs, uid.as_str(), archived_start);
            is_schedule_due(expression.as_str(), last_run, now)
        },
        None => false,
    }
}

/// Whether a text is a number in decimal, from `low` up to but not `high`, without zeros in
/// front.
pub open spec fn is_number_between(s: Seq<char>, low: int, high: int) -> bool {
    &&& s.len() > 0
    &&& decimal::all_digits(s)
    &&& low <= decimal::value_spec(s) < high
    &&& s.len() > 1 ==> s[0] != '0'
}

/// Whether a text is the five fields of a cron expression, with a space between each two:
/// minute, hour, day of the month, month, day of the week.
pub open spec fn has_fields(
    s: Seq<char>,
    minute: Seq<char>,
    hour: Seq<char>,
    day: Seq<char>,
    month: Seq<char>,
    weekday: Seq<char>,
) -> bool {
    s == minute + seq![' '] + hour + seq![' '] + day + seq![' '] + month + seq![' '] + weekday
}

/// The expression of a keyword has five fields that are all in range, whatever the hash: so
/// that every template with a keyword gets one. The minute is below 60; `daily`, `weekly` and
/// `monthly` have an hour below 24; `weekly` has a day of the week below 7, and `monthly` a day
/// of the month from 1 to 28. All other fields are open. Which minute, hour and day they are,
/// different parts of the hash decide.
pub proof fn law_keyword_expression(schedule: Seq<char>, word: Seq<char>, hash: int)
    requires
        0 <= hash <= u32::MAX,
        word == "hourly"@ || word == "daily"@ || word == "weekly"@ || word == "monthly"@,
    ensures
        exists|minute: Seq<char>, hour: Seq<char>, day: Seq<char>, weekday: Seq<char>|
            {
                let any = seq!['*'];
                &&& #[trigger] has_fields(
                    cron_expression_spec(schedule, word, hash),
                    minute,
                    hour,
                    day,
                    seq!['*'],
                    weekday,
                )
                &&& is_number_between(minute, 0, 60)
                &&& decimal::value_spec(minute) == hash % 60
                &&& if word == "hourly"@ {
                    hour == any
                } else {
                    is_number_between(hour, 0, 24) && decimal::value_spec(hour) == (hash / 256) % 24
                }
                &&& if word == "monthly"@ {
                    is_number_between(day, 1, 29) && decimal::value_spec(day) == (hash / 65536) % 28
                        + 1
                } else {
                    day == any
                }
                &&& if word == "weekly"@ {
                    is_number_between(weekday, 0, 7) && decimal::value_spec(weekday) == (hash
                        / 65536) % 7
                } else {
                    weekday == any
                }
            },
{
    reveal_strlit("hourly");
    reveal_strlit("daily");
    reveal_strlit("weekly");
    reveal_strlit("monthly");
    reveal_strlit(" ");
    reveal_strlit(" * *");
    reveal_strlit(" * * ");
    reveal_strlit(" * * *");
    reveal_strlit(" * * * *");
    assert("daily"@.len() == 5 && "hourly"@.len() == 6 && "weekly"@.len() == 6 && "monthly"@.len()
        == 7 && "hourly"@[0] == 'h' && "weekly"@[0] == 'w');
    let any = seq!['*'];
    let minute = decimal::digits_spec((hash % 60) as nat);
    let hour = decimal::digits_spec(((hash / 256) % 24) as nat);
    let day = decimal::digits_spec(((hash / 65536) % 28 + 1) as nat);
    let weekday = decimal::digits_spec(((hash / 65536) % 7) as nat);
    decimal::law_decimal_digits((hash % 60) as nat);
    decimal::law_decimal_digits(((hash / 256) % 24) as nat);
    decimal::law_decimal_digits(((hash / 65536) % 28 + 1) as nat);
    decimal::law_decimal_digits(((hash / 65536) % 7) as nat);
    let s = cron_expression_spec(schedule, word, hash);
    if word == "hourly"@ {
        assert(s =~= minute + seq![' '] + any + seq![' '] + any + seq![' '] + any + seq![' '] + any);
        assert(has_fields(s, minute, any, any, any, any));
    } else if word == "daily"@ {
        assert(s =~= minute + seq![' '] + hour + seq![' '] + any + seq![' '] + any + seq![' ']
            + any);
        assert(has_fields(s, minute, hour, any, any, any));
    } else if word == "weekly"@ {
        assert(s =~= minute + seq![' '] + hour + seq![' '] + any + seq![' '] + any + seq![' ']
            + weekday);
        assert(has_fields(s, minute, hour, any, any, weekday));
    } else {
        assert(s =~= minute + seq![' '] + hour + seq![' '] + day + seq![' '] + any + seq![' ']
            + any);
        assert(has_fields(s, minute, hour, day, any, any));
    }
}

/// A schedule that is no keyword stands for itself, without the white space around it.
pub proof fn law_expressions_stand_for_themselves(
    schedule: Seq<char>,
    lowered: Seq<char>,
    hash: int,
)
    requires
        lowered != "hourly"@,
        lowered != "daily"@,
        lowered != "weekly"@,
        lowered != "monthly"@,
    ensures
        exists|a: int, b: int|
            0 <= a <= b <= schedule.len() && cron_expression_spec(schedule, lowered, hash)
                == #[trigger] schedule.subrange(a, b) && (forall|i: int|
                (0 <= i < a || b <= i < schedule.len()) ==> text::is_white_space(
                    #[trigger] schedule[i],
                )),
        schedule.len() > 0 && !text::is_white_space(schedule[0]) && !text::is_white_space(
            schedule.last(),
        ) ==> cron_expression_spec(schedule, lowered, hash) == schedule,
{
    text::law_trim(schedule);
    if schedule.len() > 0 && !text::is_white_space(schedule[0]) && !text::is_white_space(
        schedule.last(),
    ) {
        assert(schedule.drop_first().len() < schedule.len());
        assert(text::trim_start_spec(schedule) == schedule);
    }
}

/// The hash of a template takes its four lowest bytes, lowest first, from the digest of its
/// namespace and name; so a template keeps its place, and another namespace or name has
/// another digest to go by.
pub proof fn law_hash_of_digest(namespace: Seq<char>, name: Seq<char>)
    requires
        md5_spec(vstd::utf8::encode_utf8(namespace + seq!['/'] + name)).len() == 16,
    ensures
        ({
            let digest = md5_spec(vstd::utf8::encode_utf8(namespace + seq!['/'] + name));
            let hash = template_hash_spec(namespace, name);
            &&& 0 <= hash <= u32::MAX
            &&& hash % 256 == digest[0]
            &&& (hash / 256) % 256 == digest[1]
            &&& (hash / 65536) % 256 == digest[2]
            &&& hash / 16777216 == digest[3]
        }),
{
    reveal_strlit("/");
    assert("/"@ =~= seq!['/']);
}

/// The latest start is the start of one of the jobs that the template owns, and there is none
/// only where none of these has begun.
pub proof fn law_latest_start_is_one(jobs: Seq<JobView>, uid: Seq<char>)
    ensures
        match latest_start_spec(jobs, uid) {
            Some(t) => exists|i: int|
                0 <= i < jobs.len() && is_owner_of(uid, #[trigger] jobs[i]) && (
                jobs[i].status matches Some(status) && status.start_time == Some(t)),
            None => forall|i: int|
                0 <= i < jobs.len() && is_owner_of(uid, #[trigger] jobs[i]) ==> (
                jobs[i].status matches Some(status) ==> status.start_time is None),
        },
    decreases jobs.len(),
{
    if jobs.len() > 0 {
        let front = jobs.drop_last();
        law_latest_start_is_one(front, uid);
        let last = jobs.last();
        assert(jobs[jobs.len() - 1] == last);
        assert(last.metadata.owned_by(uid) == is_owner_of(uid, last));
        let before = latest_start_spec(front, uid);
        match latest_start_spec(jobs, uid) {
            Some(t) => {
                if before == Some(t) {
                    let i = choose|i: int|
                        0 <= i < front.len() && is_owner_of(uid, #[trigger] front[i]) && (
                        front[i].status matches Some(status) && status.start_time == Some(t));
                    assert(jobs[i] == front[i]);
                } else {
                    assert(is_owner_of(uid, jobs[jobs.len() - 1]));
                }
            },
            None => {
                assert forall|i: int|
                    0 <= i < jobs.len() && is_owner_of(uid, #[trigger] jobs[i]) implies (
                jobs[i].status matches Some(status) ==> status.start_time is None) by {
                    if i < front.len() {
                        assert(front[i] == jobs[i]);
                    }
                }
            },
        }
    }
}

/// Whether one of the owners that a job lists has the identifier.
pub open spec fn is_owner_of(uid: Seq<char>, job: JobView) -> bool {
    job.metadata.owner_references matches Some(refs) && exists|i: int|
        0 <= i < refs.len() && (#[trigger] refs[i]).uid == uid
}

/// The last run of a template is the latest of what its live jobs and its archive show: none
/// of its live jobs began later, nor did the archived one; and it is the start of one of these.
pub proof fn law_last_run(
    jobs: Seq<JobView>,
    uid: Seq<char>,
    archived_start: Option<Seq<char>>,
    i: int,
)
    ensures
        ({
            let old = match archived_start {
                Some(s) => time::moment_spec(time::parsed_utc_spec(s)),
                None => None,
            };
            let last = last_run_time_spec(jobs, uid, archived_start);
            &&& old matches Some(t) ==> last matches Some(l) && t.rank() <= l.rank()
            &&& 0 <= i < jobs.len() && is_owner_of(uid, jobs[i]) ==> (
            jobs[i].status matches Some(status) ==> (status.start_time matches Some(t)
                ==> last matches Some(l) && t.rank() <= l.rank()))
            &&& last matches Some(l) ==> old == Some(l) || exists|j: int|
                0 <= j < jobs.len() && is_owner_of(uid, #[trigger] jobs[j]) && (
                jobs[j].status matches Some(status) && status.start_time == Some(l))
        }),
{
    law_latest_start_is_one(jobs, uid);
    if 0 <= i < jobs.len() && is_owner_of(uid, jobs[i]) && jobs[i].start_time() is Some {
        law_latest_start(jobs, uid, i);
    }
}

/// A job is due from a schedule only where it came up after the last run; one that ran at the
/// very moment or later does not make it due, one that ran before does.
pub proof fn law_due(secs: int, nanos: int, last: Timestamp)
    requires
        time::valid_parts(secs, nanos),
        time::valid_parts(last.secs(), last.nanos()),
    ensures
        due_spec(Some((secs, nanos)), None),
        due_spec(Some((secs, nanos)), Some(last)) <==> last.secs() < secs || (last.secs() == secs
            && last.nanos() < nanos),
        !due_spec(None, None),
        !due_spec(None, Some(last)),
{
}

/// A template without a schedule, or with an empty one, has no expression; any other has that
/// of its schedule, where it is a valid one, by its namespace and name.
pub proof fn law_template_expression(template: JobTemplateView)
    ensures
        template.spec.schedule is None ==> template_expression_spec(template) is None,
        template.spec.schedule matches Some(s) ==> {
            if s.len() == 0 {
                template_expression_spec(template) is None
            } else {
                let namespace = match template.metadata.namespace {
                    Some(n) => n,
                    None => "default"@,
                };
                let name = match template.metadata.name {
                    Some(n) => n,
                    None => "unknown"@,
                };
                template_expression_spec(template) == resolve_schedule_spec(s, namespace, name)
            }
        },
        template_expression_spec(template) matches Some(e) ==> parsed_cron_spec(e) is Some,
{
}

/// Schedules can be looked at at every moment of a year of four digits.
pub proof fn law_can_look(now: Timestamp)
    requires
        crate::calendar::in_four_digits(now.secs()),
    ensures
        can_look(now),
{
}

/// A schedule stands for the expression that its text without the white space around it gives,
/// keywords in any case, with the hash of the template; it is taken only where it can be parsed.
pub proof fn law_resolved_schedule(schedule: Seq<char>, namespace: Seq<char>, name: Seq<char>)
    ensures
        ({
            let expression = cron_expression_spec(
                schedule,
                lowercase_spec(text::trim_spec(schedule)),
                template_hash_spec(namespace, name),
            );
            &&& resolve_schedule_spec(schedule, namespace, name) is Some <==> parsed_cron_spec(
                expression,
            ) is Some
            &&& resolve_schedule_spec(schedule, namespace, name) matches Some(e) ==> e == expression
        }),
{
}

/// Within the years that are searched in full, the last occurrence of a schedule is one at which
/// it comes up, no later than now, and it does not come up between that and now.
pub proof fn law_last_occurrence(pattern: Seq<char>, now: Timestamp)
    requires
        crate::calendar::in_four_digits(now.secs()),
        now.secs() < 82_994_803_200,
    ensures
        match prev_occurrence_spec(pattern, now) {
            Some((t, nanos)) => t <= now.secs() && nanos == 0 && occurs(pattern, t) && forall|u: int|
                t < u <= now.secs() ==> !#[trigger] occurs(pattern, u),
            None => forall|t: int| !#[trigger] is_most_recent(pattern, t, now.secs()),
        },
{
    if exists|t: int| #[trigger] is_most_recent(pattern, t, now.secs()) {
        let t = choose|t: int| #[trigger] is_most_recent(pattern, t, now.secs());
        assert(is_most_recent(pattern, t, now.secs()));
    }
}

/// Behind the years that are searched in full, the last occurrence is looked for from 32 days
/// ago on, from one occurrence to the next, up to the last that is no later than now.
pub proof fn law_later_years(
    pattern: Seq<char>,
    secs: int,
    nanos: int,
    s: int,
    n: int,
    now: int,
    at: Timestamp,
)
    requires
        next_occurrence_spec(pattern, secs, nanos) == Some((s, n)),
        secs < s,
    ensures
        s > now ==> last_occurrence_spec(pattern, secs, nanos, now) is None,
        s <= now ==> last_occurrence_spec(pattern, secs, nanos, now) is Some,
        s <= now && next_occurrence_spec(pattern, s, n) is None ==> last_occurrence_spec(
            pattern,
            secs,
            nanos,
            now,
        ) == Some((s, n)),
        s <= now ==> (next_occurrence_spec(pattern, s, n) matches Some((t, _)) ==> (t > now
            ==> last_occurrence_spec(pattern, secs, nanos, now) == Some((s, n))) && (s < t <= now
            ==> last_occurrence_spec(pattern, secs, nanos, now) == last_occurrence_spec(
            pattern,
            s,
            n,
            now,
        ))),
        at.secs() >= 82_994_803_200 ==> prev_occurrence_spec(pattern, at) == last_occurrence_spec(
            pattern,
            at.secs() - 32 * 86_400,
            at.nanos(),
            at.secs(),
        ),
{
    reveal_with_fuel(last_occurrence_spec, 3);
}

} // verus!

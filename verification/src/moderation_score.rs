//! Moderation scorer: a bounded suspicion score for one attempt, derived
//! from focus/blur events and submission timing.
//!
//! The score is held in millionths, so `1_000_000` stands for 1.0. Three
//! weighted parts contribute: finishing quickly (up to 0.25), total time
//! spent blurred (up to 0.25), and time spent blurred before the last
//! answer (up to 0.5, double weight). The weighting anticipates four equal
//! parts of 0.25; one slot is left at zero. The parts never sum beyond
//! 1.0.
//!
//! Events are sorted by timestamp, and each adjacent blur-to-focus pair
//! accumulates its span; unpaired blurs are ignored. An attempt without a
//! single submitted answer scores 0.

use vstd::prelude::*;

use crate::attempt_view::{Attempt, AttemptQuestionSet, AttemptQuestionSetQuestion};
use crate::records::{Event, EventKind};

verus! {

/// A timestamp with its event kind; all the scorer reads of an event.
pub type EventMark = (i64, EventKind);

/// The timestamp-and-kind projection of an event list, in given order.
pub open spec fn project_events(events: Seq<Event>) -> Seq<EventMark> {
    events.map_values(|e: Event| (e.timestamp_ms, e.kind))
}

/// Stable insertion of `e` into a list sorted by timestamp: `e` goes after
/// every element that does not exceed it.
pub open spec fn spec_insert_mark(s: Seq<EventMark>, e: EventMark) -> Seq<EventMark>
    decreases s.len(),
{
    if s.len() == 0 {
        seq![e]
    } else if s.last().0 <= e.0 {
        s.push(e)
    } else {
        spec_insert_mark(s.drop_last(), e).push(s.last())
    }
}

/// Stable sort by timestamp: the order equal timestamps had is kept.
pub open spec fn spec_sort_marks(s: Seq<EventMark>) -> Seq<EventMark>
    decreases s.len(),
{
    if s.len() == 0 {
        Seq::empty()
    } else {
        spec_insert_mark(spec_sort_marks(s.drop_last()), s.last())
    }
}

/// Sorted by timestamp, non-strictly.
pub open spec fn marks_sorted(s: Seq<EventMark>) -> bool {
    forall|i: int, j: int| 0 <= i < j < s.len() ==> s[i].0 <= s[j].0
}

/// State of the blur-pairing scan: the open blur instant, the accumulated
/// blur span, and the part of it that fell before the last submission.
pub struct BlurAcc {
    pub prev_blur: Option<i64>,
    pub total: int,
    pub before_last: int,
}

/// Scans the events in order: a blur opens a span, the next focus closes
/// it and accumulates it (also into `before_last` when the focus precedes
/// the last submission); other events leave the span open.
pub open spec fn blur_fold(s: Seq<EventMark>, last_sub: i64) -> BlurAcc
    decreases s.len(),
{
    if s.len() == 0 {
        BlurAcc { prev_blur: None, total: 0, before_last: 0 }
    } else {
        let acc = blur_fold(s.drop_last(), last_sub);
        let ts = s.last().0;
        match s.last().1 {
            EventKind::Blur => BlurAcc { prev_blur: Some(ts), ..acc },
            EventKind::Focus => match acc.prev_blur {
                Some(pb) => BlurAcc {
                    prev_blur: None,
                    total: acc.total + (ts - pb),
                    before_last: acc.before_last + if ts < last_sub {
                        ts - pb
                    } else {
                        0
                    },
                },
                None => acc,
            },
            _ => acc,
        }
    }
}

/// The latest submission instant among one question list, if any.
pub open spec fn last_sub_in(qs: Seq<AttemptQuestionSetQuestion>) -> Option<i64>
    decreases qs.len(),
{
    if qs.len() == 0 {
        None
    } else {
        let rest = last_sub_in(qs.drop_last());
        match qs.last().submission_time_ms {
            None => rest,
            Some(v) => match rest {
                None => Some(v),
                Some(m) => if v > m {
                    Some(v)
                } else {
                    Some(m)
                },
            },
        }
    }
}

/// The latest submission instant across the attempt, if any.
pub open spec fn spec_last_submission(sets: Seq<AttemptQuestionSet>) -> Option<i64>
    decreases sets.len(),
{
    if sets.len() == 0 {
        None
    } else {
        let rest = spec_last_submission(sets.drop_last());
        match last_sub_in(sets.last().questions@) {
            None => rest,
            Some(v) => match rest {
                None => Some(v),
                Some(m) => if v > m {
                    Some(v)
                } else {
                    Some(m)
                },
            },
        }
    }
}

/// Time from attempt start to the last submission, in milliseconds,
/// clamped below at zero.
pub open spec fn spec_time_taken(attempt: Attempt, last_sub: i64) -> int {
    if last_sub >= attempt.start_time_ms {
        last_sub - attempt.start_time_ms
    } else {
        0
    }
}

/// The moderation score in millionths, for a given attempt view and event
/// list. Zero when no answer was submitted.
pub open spec fn spec_moderation_score(attempt: Attempt, events: Seq<Event>) -> int {
    match spec_last_submission(attempt.question_sets@) {
        None => 0,
        Some(ls) => {
            let t_ms = spec_time_taken(attempt, ls);
            let cap_ms = attempt.config.total_time_in_s * 1000;
            let acc = blur_fold(spec_sort_marks(project_events(events)), ls);
            let time_weight = (cap_ms - t_ms) * 250000 / cap_ms;
            let blur_weight = acc.total * 250000 / cap_ms;
            let blur_before_weight = if t_ms == 0 {
                0int
            } else {
                acc.before_last * 500000 / t_ms
            };
            time_weight + blur_weight + blur_before_weight
        },
    }
}

/// The data constraints the scorer relies on; a violation would mean the
/// upstream records are corrupt, and the reference behaviour is to abort.
pub open spec fn score_inputs_ok(attempt: Attempt, events: Seq<Event>) -> bool {
    &&& attempt.config.total_time_in_s >= 1
    &&& match spec_last_submission(attempt.question_sets@) {
        None => true,
        Some(ls) => {
            let t_ms = spec_time_taken(attempt, ls);
            let cap_ms = attempt.config.total_time_in_s * 1000;
            let acc = blur_fold(spec_sort_marks(project_events(events)), ls);
            &&& t_ms <= cap_ms
            &&& acc.total <= cap_ms
            &&& acc.before_last <= t_ms
        },
    }
}

/// The latest submission instant among a raw attempt's questions, if any;
/// every recorded question carries one.
pub open spec fn raw_last_sub_in(qs: Seq<crate::records::QuestionAttempt>) -> Option<i64>
    decreases qs.len(),
{
    if qs.len() == 0 {
        None
    } else {
        let rest = raw_last_sub_in(qs.drop_last());
        let v = qs.last().submission_time_ms;
        match rest {
            None => Some(v),
            Some(m) => if v > m {
                Some(v)
            } else {
                Some(m)
            },
        }
    }
}

/// The latest submission instant across a raw attempt, if any.
pub open spec fn raw_last_submission(sets: Seq<crate::records::QuestionSetAttempt>) -> Option<i64>
    decreases sets.len(),
{
    if sets.len() == 0 {
        None
    } else {
        let rest = raw_last_submission(sets.drop_last());
        match raw_last_sub_in(sets.last().questions@) {
            None => rest,
            Some(v) => match rest {
                None => Some(v),
                Some(m) => if v > m {
                    Some(v)
                } else {
                    Some(m)
                },
            },
        }
    }
}

/// Time from attempt start to the last submission, in milliseconds,
/// clamped below at zero.
pub open spec fn spec_raw_time_taken(start_time_ms: i64, last_sub: i64) -> int {
    if last_sub >= start_time_ms {
        last_sub - start_time_ms
    } else {
        0
    }
}

/// The moderation score in millionths, computed from the raw persisted
/// records the pipeline reads, without building the attempt view first.
pub open spec fn spec_raw_moderation_score(
    total_time_in_s: u32,
    start_time_ms: i64,
    att_sets: Seq<crate::records::QuestionSetAttempt>,
    events: Seq<Event>,
) -> int {
    match raw_last_submission(att_sets) {
        None => 0,
        Some(ls) => {
            let t_ms = spec_raw_time_taken(start_time_ms, ls);
            let cap_ms = total_time_in_s * 1000;
            let acc = blur_fold(spec_sort_marks(project_events(events)), ls);
            let time_weight = (cap_ms - t_ms) * 250000 / cap_ms;
            let blur_weight = acc.total * 250000 / cap_ms;
            let blur_before_weight = if t_ms == 0 {
                0int
            } else {
                acc.before_last * 500000 / t_ms
            };
            time_weight + blur_weight + blur_before_weight
        },
    }
}

/// The data constraints the raw scorer relies on.
pub open spec fn raw_score_inputs_ok(
    total_time_in_s: u32,
    start_time_ms: i64,
    att_sets: Seq<crate::records::QuestionSetAttempt>,
    events: Seq<Event>,
) -> bool {
    &&& total_time_in_s >= 1
    &&& match raw_last_submission(att_sets) {
        None => true,
        Some(ls) => {
            let t_ms = spec_raw_time_taken(start_time_ms, ls);
            let cap_ms = total_time_in_s * 1000;
            let acc = blur_fold(spec_sort_marks(project_events(events)), ls);
            &&& t_ms <= cap_ms
            &&& acc.total <= cap_ms
            &&& acc.before_last <= t_ms
        },
    }
}

/// Inserting keeps sortedness.
proof fn lemma_insert_mark_sorted(s: Seq<EventMark>, e: EventMark)
    requires
        marks_sorted(s),
    ensures
        marks_sorted(spec_insert_mark(s, e)),
        spec_insert_mark(s, e).len() == s.len() + 1,
        forall|i: int|
            0 <= i < spec_insert_mark(s, e).len() ==> (#[trigger] spec_insert_mark(s, e)[i] == e
                || s.contains(spec_insert_mark(s, e)[i])),
    decreases s.len(),
{
    let r = spec_insert_mark(s, e);
    if s.len() == 0 {
    } else if s.last().0 <= e.0 {
        assert(forall|i: int| 0 <= i < s.len() ==> s[i].0 <= s.last().0);
        assert(forall|i: int| 0 <= i < s.len() ==> r[i] == s[i] && s.contains(s[i]));
    } else {
        assert(marks_sorted(s.drop_last())) by {
            assert(forall|i: int|
                0 <= i < s.drop_last().len() ==> s.drop_last()[i] == s[i]);
        }
        lemma_insert_mark_sorted(s.drop_last(), e);
        let r0 = spec_insert_mark(s.drop_last(), e);
        assert(r == r0.push(s.last()));
        // Every element of r0 is either e (below s.last) or an element of
        // the prefix (at most s.last by sortedness).
        assert(forall|i: int| 0 <= i < r0.len() ==> r0[i].0 <= s.last().0) by {
            assert(forall|i: int|
                0 <= i < s.drop_last().len() ==> s.drop_last()[i] == s[i]
                    && s.drop_last()[i].0 <= s.last().0);
            assert(forall|i: int|
                0 <= i < r0.len() && s.drop_last().contains(#[trigger] r0[i]) ==> r0[i].0
                    <= s.last().0);
        }
        assert(forall|i: int|
            0 <= i < r.len() ==> r[i] == e || s.contains(#[trigger] r[i])) by {
            assert(forall|i: int|
                0 <= i < s.drop_last().len() ==> s.contains(#[trigger] s.drop_last()[i]));
            assert(s.contains(s.last()));
        }
    }
}

/// A stable sort is sorted.
pub proof fn lemma_sort_marks_sorted(s: Seq<EventMark>)
    ensures
        marks_sorted(spec_sort_marks(s)),
    decreases s.len(),
{
    if s.len() > 0 {
        lemma_sort_marks_sorted(s.drop_last());
        lemma_insert_mark_sorted(spec_sort_marks(s.drop_last()), s.last());
    }
}

/// The open blur instant is always one of the scanned timestamps.
proof fn lemma_blur_fold_prev_member(s: Seq<EventMark>, last_sub: i64)
    ensures
        match blur_fold(s, last_sub).prev_blur {
            Some(pb) => exists|i: int| 0 <= i < s.len() && #[trigger] s[i].0 == pb,
            None => true,
        },
    decreases s.len(),
{
    if s.len() > 0 {
        lemma_blur_fold_prev_member(s.drop_last(), last_sub);
        if blur_fold(s, last_sub).prev_blur is Some {
            let pb = blur_fold(s, last_sub).prev_blur->0;
            if s.last().1 is Blur {
                assert(s[s.len() - 1].0 == pb);
            } else {
                let prev = blur_fold(s.drop_last(), last_sub).prev_blur;
                if prev is Some && prev->0 == pb {
                    let i = choose|i: int|
                        0 <= i < s.drop_last().len() && #[trigger] s.drop_last()[i].0 == pb;
                    assert(s[i].0 == pb);
                }
            }
        }
    }
}

/// Over a sorted scan the accumulators only grow, and the span before the
/// last answer never exceeds the whole span.
proof fn lemma_blur_fold_step(s: Seq<EventMark>, last_sub: i64)
    requires
        marks_sorted(s),
        s.len() > 0,
    ensures
        blur_fold(s.drop_last(), last_sub).total <= blur_fold(s, last_sub).total,
        blur_fold(s.drop_last(), last_sub).before_last <= blur_fold(s, last_sub).before_last,
        blur_fold(s, last_sub).total - blur_fold(s.drop_last(), last_sub).total >= blur_fold(
            s,
            last_sub,
        ).before_last - blur_fold(s.drop_last(), last_sub).before_last,
{
    let acc = blur_fold(s.drop_last(), last_sub);
    if s.last().1 is Focus && acc.prev_blur is Some {
        let pb = acc.prev_blur->0;
        lemma_blur_fold_prev_member(s.drop_last(), last_sub);
        let i = choose|i: int| 0 <= i < s.drop_last().len() && #[trigger] s.drop_last()[i].0 == pb;
        assert(s[i] == s.drop_last()[i]);
        assert(s[i].0 <= s[s.len() - 1].0);
    }
}

/// The accumulated spans of a prefix never exceed those of the whole scan.
proof fn lemma_blur_fold_prefix(s: Seq<EventMark>, last_sub: i64, i: int)
    requires
        marks_sorted(s),
        0 <= i <= s.len(),
    ensures
        blur_fold(s.take(i), last_sub).total <= blur_fold(s, last_sub).total,
        blur_fold(s.take(i), last_sub).before_last <= blur_fold(s, last_sub).before_last,
    decreases s.len() - i,
{
    if i == s.len() {
        assert(s.take(i) =~= s);
    } else {
        assert(marks_sorted(s.take(i + 1))) by {
            assert(forall|k: int| 0 <= k < i + 1 ==> s.take(i + 1)[k] == s[k]);
        }
        assert(s.take(i + 1).drop_last() =~= s.take(i));
        lemma_blur_fold_step(s.take(i + 1), last_sub);
        lemma_blur_fold_prefix(s, last_sub, i + 1);
    }
}

/// Where a stable insertion lands: after every element not exceeding it.
proof fn lemma_insert_mark_at(s: Seq<EventMark>, e: EventMark, k: int)
    requires
        0 <= k <= s.len(),
        forall|i: int| k <= i < s.len() ==> s[i].0 > e.0,
        k > 0 ==> s[k - 1].0 <= e.0,
    ensures
        spec_insert_mark(s, e) == s.take(k) + seq![e] + s.skip(k),
    decreases s.len(),
{
    if k == s.len() {
        if s.len() == 0 {
            assert(spec_insert_mark(s, e) =~= s.take(k) + seq![e] + s.skip(k));
        } else {
            assert(s.last().0 <= e.0);
            assert(s.push(e) =~= s.take(k) + seq![e] + s.skip(k));
        }
    } else {
        assert(s[s.len() - 1].0 > e.0);
        assert(forall|i: int| k <= i < s.drop_last().len() ==> s.drop_last()[i] == s[i]);
        if k > 0 {
            assert(s.drop_last()[k - 1] == s[k - 1]);
        }
        lemma_insert_mark_at(s.drop_last(), e, k);
        assert((s.drop_last().take(k) + seq![e] + s.drop_last().skip(k)).push(s.last()) =~= s.take(
            k,
        ) + seq![e] + s.skip(k));
    }
}

/// Inserts a mark into a list sorted by timestamp, after every element
/// not exceeding it.
fn insert_mark(v: &mut Vec<EventMark>, e: EventMark)
    ensures
        final(v)@ == spec_insert_mark(old(v)@, e),
{
    let ghost s = v@;
    let mut k = v.len();
    while k > 0 && v[k - 1].0 > e.0
        invariant
            v@ == s,
            k <= v@.len(),
            forall|i: int| k <= i < v@.len() ==> v@[i].0 > e.0,
        decreases k,
    {
        k = k - 1;
    }
    v.insert(k, e);
    proof {
        lemma_insert_mark_at(s, e, k as int);
        assert(s.insert(k as int, e) =~= s.take(k as int) + seq![e] + s.skip(k as int));
    }
}

/// Sorts the timestamp-and-kind projection of the events, stably.
fn sort_marks(events: &Vec<Event>) -> (r: Vec<EventMark>)
    ensures
        r@ == spec_sort_marks(project_events(events@)),
        marks_sorted(r@),
{
    let n = events.len();
    let mut marks: Vec<EventMark> = Vec::new();
    for i in 0..n
        invariant
            n == events@.len(),
            marks@ == project_events(events@.take(i as int)),
    {
        marks.push((events[i].timestamp_ms, events[i].kind));
        proof {
            assert(marks@ =~= project_events(events@.take(i as int + 1)));
        }
    }
    proof {
        assert(events@.take(n as int) =~= events@);
    }

    let mut sorted: Vec<EventMark> = Vec::new();
    let nm = marks.len();
    proof {
        assert(marks@.take(0) =~= Seq::<EventMark>::empty());
    }
    for i in 0..nm
        invariant
            nm == marks@.len(),
            marks@ == project_events(events@),
            sorted@ == spec_sort_marks(marks@.take(i as int)),
    {
        insert_mark(&mut sorted, marks[i]);
        proof {
            assert(marks@.take(i as int + 1).drop_last() =~= marks@.take(i as int));
            assert(marks@.take(i as int + 1).last() == marks@[i as int]);
        }
    }
    proof {
        assert(marks@.take(nm as int) =~= marks@);
        lemma_sort_marks_sorted(marks@);
    }
    sorted
}

/// The latest submission instant among one question list, if any.
fn last_sub_in_exec(qs: &Vec<AttemptQuestionSetQuestion>) -> (r: Option<i64>)
    ensures
        r == last_sub_in(qs@),
{
    let mut best: Option<i64> = None;
    let n = qs.len();
    proof {
        assert(qs@.take(0) =~= Seq::<AttemptQuestionSetQuestion>::empty());
    }
    for j in 0..n
        invariant
            n == qs@.len(),
            best == last_sub_in(qs@.take(j as int)),
    {
        proof {
            assert(qs@.take(j as int + 1).drop_last() =~= qs@.take(j as int));
            assert(qs@.take(j as int + 1).last() == qs@[j as int]);
        }
        if let Some(v) = qs[j].submission_time_ms {
            best = match best {
                None => Some(v),
                Some(m) => if v > m {
                    Some(v)
                } else {
                    Some(m)
                },
            };
        }
    }
    proof {
        assert(qs@.take(n as int) =~= qs@);
    }
    best
}

/// The latest submission instant across the attempt, if any.
fn last_submission_exec(sets: &Vec<AttemptQuestionSet>) -> (r: Option<i64>)
    ensures
        r == spec_last_submission(sets@),
{
    let mut best: Option<i64> = None;
    let n = sets.len();
    proof {
        assert(sets@.take(0) =~= Seq::<AttemptQuestionSet>::empty());
    }
    for i in 0..n
        invariant
            n == sets@.len(),
            best == spec_last_submission(sets@.take(i as int)),
    {
        proof {
            assert(sets@.take(i as int + 1).drop_last() =~= sets@.take(i as int));
            assert(sets@.take(i as int + 1).last() == sets@[i as int]);
        }
        if let Some(v) = last_sub_in_exec(&sets[i].questions) {
            best = match best {
                None => Some(v),
                Some(m) => if v > m {
                    Some(v)
                } else {
                    Some(m)
                },
            };
        }
    }
    proof {
        assert(sets@.take(n as int) =~= sets@);
    }
    best
}

/// Scans the sorted marks and accumulates the blur spans.
fn blur_totals_exec(sorted: &Vec<EventMark>, last_sub: i64) -> (r: (u64, u64))
    requires
        marks_sorted(sorted@),
        blur_fold(sorted@, last_sub).total <= 0x7fff_ffff_ffff_ffff,
    ensures
        r.0 == blur_fold(sorted@, last_sub).total,
        r.1 == blur_fold(sorted@, last_sub).before_last,
{
    let mut prev: Option<i64> = None;
    let mut total: u64 = 0;
    let mut before: u64 = 0;
    let n = sorted.len();
    proof {
        assert(sorted@.take(0) =~= Seq::<EventMark>::empty());
        lemma_blur_before_le_total(sorted@, last_sub);
    }
    for i in 0..n
        invariant
            n == sorted@.len(),
            marks_sorted(sorted@),
            blur_fold(sorted@, last_sub).total <= 0x7fff_ffff_ffff_ffff,
            prev == blur_fold(sorted@.take(i as int), last_sub).prev_blur,
            total == blur_fold(sorted@.take(i as int), last_sub).total,
            before == blur_fold(sorted@.take(i as int), last_sub).before_last,
    {
        proof {
            assert(sorted@.take(i as int + 1).drop_last() =~= sorted@.take(i as int));
            assert(sorted@.take(i as int + 1).last() == sorted@[i as int]);
            assert(marks_sorted(sorted@.take(i as int + 1))) by {
                assert(forall|k: int|
                    0 <= k < i + 1 ==> sorted@.take(i as int + 1)[k] == sorted@[k]);
            }
            lemma_blur_fold_prefix(sorted@, last_sub, i as int + 1);
            lemma_blur_before_le_total(sorted@.take(i as int + 1), last_sub);
            lemma_blur_before_le_total(sorted@.take(i as int), last_sub);
        }
        let (ts, kind) = sorted[i];
        match kind {
            EventKind::Blur => {
                prev = Some(ts);
            },
            EventKind::Focus => {
                if let Some(pb) = prev {
                    proof {
                        lemma_blur_fold_prev_member(sorted@.take(i as int), last_sub);
                        let j = choose|j: int|
                            0 <= j < sorted@.take(i as int).len() && #[trigger] sorted@.take(
                                i as int,
                            )[j].0 == pb;
                        assert(sorted@[j].0 == pb);
                        assert(sorted@[j].0 <= sorted@[i as int].0);
                    }
                    let delta_wide = (ts as i128) - (pb as i128);
                    let delta = delta_wide as u64;
                    total = total + delta;
                    if ts < last_sub {
                        before = before + delta;
                    }
                    prev = None;
                }
            },
            _ => {},
        }
    }
    proof {
        assert(sorted@.take(n as int) =~= sorted@);
    }
    (total, before)
}

/// Scans the sorted marks and accumulates the blur spans, without any
/// precondition: closed spans of a sorted scan always telescope into the
/// scanned timestamp range, so wide accumulators cannot overflow.
fn blur_totals_wide(sorted: &Vec<EventMark>, last_sub: i64) -> (r: (i128, i128))
    requires
        marks_sorted(sorted@),
    ensures
        r.0 == blur_fold(sorted@, last_sub).total,
        r.1 == blur_fold(sorted@, last_sub).before_last,
{
    let mut prev: Option<i64> = None;
    let mut total: i128 = 0;
    let mut before: i128 = 0;
    let n = sorted.len();
    proof {
        assert(sorted@.take(0) =~= Seq::<EventMark>::empty());
    }
    for i in 0..n
        invariant
            n == sorted@.len(),
            marks_sorted(sorted@),
            prev == blur_fold(sorted@.take(i as int), last_sub).prev_blur,
            total == blur_fold(sorted@.take(i as int), last_sub).total,
            before == blur_fold(sorted@.take(i as int), last_sub).before_last,
            0 <= before <= total,
            match prev {
                None => (i == 0 ==> total == 0) && (i > 0 ==> total <= sorted@[i - 1].0
                    - sorted@[0].0),
                Some(pb) => total <= pb - sorted@[0].0 && exists|j: int|
                    0 <= j < i && #[trigger] sorted@[j].0 == pb,
            },
    {
        proof {
            assert(sorted@.take(i as int + 1).drop_last() =~= sorted@.take(i as int));
            assert(sorted@.take(i as int + 1).last() == sorted@[i as int]);
            assert(marks_sorted(sorted@.take(i as int + 1))) by {
                assert(forall|k: int|
                    0 <= k < i + 1 ==> sorted@.take(i as int + 1)[k] == sorted@[k]);
            }
            lemma_blur_before_le_total(sorted@.take(i as int + 1), last_sub);
        }
        let (ts, kind) = sorted[i];
        match kind {
            EventKind::Blur => {
                prev = Some(ts);
            },
            EventKind::Focus => {
                if let Some(pb) = prev {
                    let delta = (ts as i128) - (pb as i128);
                    total = total + delta;
                    if ts < last_sub {
                        before = before + delta;
                    }
                    prev = None;
                }
            },
            _ => {},
        }
    }
    proof {
        assert(sorted@.take(n as int) =~= sorted@);
    }
    (total, before)
}

/// Combines the three bounded contributions into the score in millionths.
fn combine_weights(cap_ms: u64, t_ms: u64, total_blur: u64, before_blur: u64) -> (r: u64)
    requires
        1 <= cap_ms <= 4_294_967_295_000,
        t_ms <= cap_ms,
        total_blur <= cap_ms,
        before_blur <= t_ms,
    ensures
        r == (cap_ms - t_ms) * 250000 / (cap_ms as int) + total_blur * 250000 / (cap_ms as int) + (
        if t_ms == 0 {
            0int
        } else {
            before_blur * 500000 / (t_ms as int)
        }),
        r <= 1_000_000,
{
    let tw = (((cap_ms - t_ms) as u128) * 250000 / (cap_ms as u128)) as u64;
    proof {
        assert((cap_ms - t_ms) * 250000 <= (cap_ms as int) * 250000) by (nonlinear_arith)
            requires
                0 <= cap_ms - t_ms <= cap_ms as int,
        ;
        vstd::arithmetic::div_mod::lemma_multiply_divide_le(
            (cap_ms - t_ms) as int * 250000,
            cap_ms as int,
            250000,
        );
        assert((cap_ms as int) * 250000 == 250000 * (cap_ms as int)) by (nonlinear_arith);
    }
    let bw = ((total_blur as u128) * 250000 / (cap_ms as u128)) as u64;
    proof {
        assert((total_blur as int) * 250000 <= (cap_ms as int) * 250000) by (nonlinear_arith)
            requires
                0 <= total_blur as int <= cap_ms as int,
        ;
        vstd::arithmetic::div_mod::lemma_multiply_divide_le(
            (total_blur as int) * 250000,
            cap_ms as int,
            250000,
        );
    }
    let bbw = if t_ms == 0 {
        0u64
    } else {
        let w = ((before_blur as u128) * 500000 / (t_ms as u128)) as u64;
        proof {
            assert((before_blur as int) * 500000 <= (t_ms as int) * 500000) by (nonlinear_arith)
                requires
                    0 <= before_blur as int <= t_ms as int,
            ;
            vstd::arithmetic::div_mod::lemma_multiply_divide_le(
                (before_blur as int) * 500000,
                t_ms as int,
                500000,
            );
            assert((t_ms as int) * 500000 == 500000 * (t_ms as int)) by (nonlinear_arith);
        }
        w
    };
    tw + bw + bbw
}

/// The latest submission instant among one raw question list, if any.
fn raw_last_sub_in_exec(qs: &Vec<crate::records::QuestionAttempt>) -> (r: Option<i64>)
    ensures
        r == raw_last_sub_in(qs@),
{
    let mut best: Option<i64> = None;
    let n = qs.len();
    proof {
        assert(qs@.take(0) =~= Seq::<crate::records::QuestionAttempt>::empty());
    }
    for j in 0..n
        invariant
            n == qs@.len(),
            best == raw_last_sub_in(qs@.take(j as int)),
    {
        proof {
            assert(qs@.take(j as int + 1).drop_last() =~= qs@.take(j as int));
            assert(qs@.take(j as int + 1).last() == qs@[j as int]);
        }
        let v = qs[j].submission_time_ms;
        best = match best {
            None => Some(v),
            Some(m) => if v > m {
                Some(v)
            } else {
                Some(m)
            },
        };
    }
    proof {
        assert(qs@.take(n as int) =~= qs@);
    }
    best
}

/// The latest submission instant across a raw attempt, if any.
pub fn raw_last_submission_exec(sets: &Vec<crate::records::QuestionSetAttempt>) -> (r: Option<i64>)
    ensures
        r == raw_last_submission(sets@),
{
    let mut best: Option<i64> = None;
    let n = sets.len();
    proof {
        assert(sets@.take(0) =~= Seq::<crate::records::QuestionSetAttempt>::empty());
    }
    for i in 0..n
        invariant
            n == sets@.len(),
            best == raw_last_submission(sets@.take(i as int)),
    {
        proof {
            assert(sets@.take(i as int + 1).drop_last() =~= sets@.take(i as int));
            assert(sets@.take(i as int + 1).last() == sets@[i as int]);
        }
        if let Some(v) = raw_last_sub_in_exec(&sets[i].questions) {
            best = match best {
                None => Some(v),
                Some(m) => if v > m {
                    Some(v)
                } else {
                    Some(m)
                },
            };
        }
    }
    proof {
        assert(sets@.take(n as int) =~= sets@);
    }
    best
}

/// Computes the raw suspicion score after testing the scorer's data
/// constraints; `None` says the constraints do not hold of this data.
pub fn try_raw_moderation_score(
    total_time_in_s: u32,
    start_time_ms: i64,
    attempt_sets: &Vec<crate::records::QuestionSetAttempt>,
    events: &Vec<Event>,
) -> (r: Option<u64>)
    ensures
        match r {
            Some(v) => raw_score_inputs_ok(total_time_in_s, start_time_ms, attempt_sets@, events@)
                && v == spec_raw_moderation_score(
                total_time_in_s,
                start_time_ms,
                attempt_sets@,
                events@,
            ) && v <= 1_000_000,
            None => !raw_score_inputs_ok(total_time_in_s, start_time_ms, attempt_sets@, events@),
        },
{
    if total_time_in_s < 1 {
        return None;
    }
    let ls = match raw_last_submission_exec(attempt_sets) {
        None => {
            return Some(0);
        },
        Some(v) => v,
    };
    let sorted = sort_marks(events);
    let (tot, bef) = blur_totals_wide(&sorted, ls);
    let cap_ms: u64 = (total_time_in_s as u64) * 1000;
    let t_wide = (ls as i128) - (start_time_ms as i128);
    let t_clamped: i128 = if t_wide > 0 {
        t_wide
    } else {
        0
    };
    if t_clamped > cap_ms as i128 || tot > cap_ms as i128 || bef > t_clamped {
        return None;
    }
    proof {
        lemma_blur_before_le_total(sorted@, ls);
    }
    let t_ms = t_clamped as u64;
    Some(combine_weights(cap_ms, t_ms, tot as u64, bef as u64))
}

/// Computes the suspicion score for an attempt view after testing the
/// scorer's data constraints; `None` says the constraints do not hold.
pub fn try_get_moderation_score(attempt: &Attempt, events: &Vec<Event>) -> (r: Option<u64>)
    ensures
        match r {
            Some(v) => score_inputs_ok(*attempt, events@) && v == spec_moderation_score(
                *attempt,
                events@,
            ) && v <= 1_000_000,
            None => !score_inputs_ok(*attempt, events@),
        },
{
    if attempt.config.total_time_in_s < 1 {
        return None;
    }
    let ls = match last_submission_exec(&attempt.question_sets) {
        None => {
            return Some(0);
        },
        Some(v) => v,
    };
    let sorted = sort_marks(events);
    let (tot, bef) = blur_totals_wide(&sorted, ls);
    let cap_ms: u64 = (attempt.config.total_time_in_s as u64) * 1000;
    let t_wide = (ls as i128) - (attempt.start_time_ms as i128);
    let t_clamped: i128 = if t_wide > 0 {
        t_wide
    } else {
        0
    };
    if t_clamped > cap_ms as i128 || tot > cap_ms as i128 || bef > t_clamped {
        return None;
    }
    proof {
        lemma_blur_before_le_total(sorted@, ls);
    }
    let t_ms = t_clamped as u64;
    Some(combine_weights(cap_ms, t_ms, tot as u64, bef as u64))
}

/// Calculates the suspicion score in millionths: 0 means no concern,
/// `1_000_000` means the attempt certainly needs moderation. An attempt
/// without any submitted answer scores 0.
pub fn get_moderation_score(attempt: &Attempt, events: &Vec<Event>) -> (r: u64)
    requires
        score_inputs_ok(*attempt, events@),
    ensures
        r == spec_moderation_score(*attempt, events@),
        r <= 1_000_000,
{
    let last = last_submission_exec(&attempt.question_sets);
    let ls = match last {
        Some(v) => v,
        None => {
            return 0;
        },
    };

    let sorted = sort_marks(events);
    let cap_ms: u64 = (attempt.config.total_time_in_s as u64) * 1000;
    let (total_blur, before_blur) = blur_totals_exec(&sorted, ls);

    let t_wide = (ls as i128) - (attempt.start_time_ms as i128);
    let t_ms: u64 = if t_wide > 0 {
        t_wide as u64
    } else {
        0
    };
    proof {
        assert(t_ms == spec_time_taken(*attempt, ls));
    }

    let tw = (((cap_ms - t_ms) as u128) * 250000 / (cap_ms as u128)) as u64;
    proof {
        assert((cap_ms - t_ms) * 250000 <= (cap_ms as int) * 250000) by (nonlinear_arith)
            requires
                0 <= cap_ms - t_ms <= cap_ms as int,
        ;
        vstd::arithmetic::div_mod::lemma_multiply_divide_le(
            (cap_ms - t_ms) as int * 250000,
            cap_ms as int,
            250000,
        );
        assert((cap_ms as int) * 250000 == 250000 * (cap_ms as int)) by (nonlinear_arith);
    }
    let bw = ((total_blur as u128) * 250000 / (cap_ms as u128)) as u64;
    proof {
        assert((total_blur as int) * 250000 <= (cap_ms as int) * 250000) by (nonlinear_arith)
            requires
                0 <= total_blur as int <= cap_ms as int,
        ;
        vstd::arithmetic::div_mod::lemma_multiply_divide_le(
            (total_blur as int) * 250000,
            cap_ms as int,
            250000,
        );
    }
    let bbw = if t_ms == 0 {
        0u64
    } else {
        let w = ((before_blur as u128) * 500000 / (t_ms as u128)) as u64;
        proof {
            assert((before_blur as int) * 500000 <= (t_ms as int) * 500000) by (nonlinear_arith)
                requires
                    0 <= before_blur as int <= t_ms as int,
            ;
            vstd::arithmetic::div_mod::lemma_multiply_divide_le(
                (before_blur as int) * 500000,
                t_ms as int,
                500000,
            );
            assert((t_ms as int) * 500000 == 500000 * (t_ms as int)) by (nonlinear_arith);
        }
        w
    };

    tw + bw + bbw
}

/// The span before the last answer never exceeds the whole span.
pub proof fn lemma_blur_before_le_total(s: Seq<EventMark>, last_sub: i64)
    requires
        marks_sorted(s),
    ensures
        0 <= blur_fold(s, last_sub).before_last,
        blur_fold(s, last_sub).before_last <= blur_fold(s, last_sub).total,
    decreases s.len(),
{
    if s.len() > 0 {
        assert(marks_sorted(s.drop_last())) by {
            assert(forall|k: int| 0 <= k < s.len() - 1 ==> s.drop_last()[k] == s[k]);
        }
        lemma_blur_before_le_total(s.drop_last(), last_sub);
        lemma_blur_fold_step(s, last_sub);
    }
}

} // verus!

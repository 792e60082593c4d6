//! Moderation reconciliation pipeline: the decisions of the periodic batch,
//! as pure functions over plain record collections.
//!
//! The embedding program streams the persistent collections, hands them to
//! these functions, and writes the results back; every decision — which
//! attempts to drop, which moderation rows to create and with which
//! disposition, which pending rows to age into approval, which challenges
//! to award — is taken here and verified. Each task is idempotent: running
//! it again on its own output changes nothing.

use vstd::prelude::*;

use crate::lookup::spec_find;
use crate::moderation_score::{raw_score_inputs_ok, spec_raw_moderation_score};
use crate::records::{
    Challenge, CompletedChallenge, Event, Exam, ExamAttempt, GeneratedExam, Id, Moderation,
    ModerationFeedback, ModerationStatus, User,
};
use crate::scorer::{attempt_wf, spec_check_attempt_pass, spec_total_generated};

verus! {

/// How long a practice attempt is shielded from deletion, in milliseconds:
/// the time guard avoids deleting an in-progress session.
pub const PRACTICE_GUARD_MS: i64 = 1_000_000;

/// How long events are retained, in milliseconds: 30 days.
pub const EVENT_RETENTION_MS: i64 = 2_592_000_000;

/// An attempt survives the practice sweep unless it belongs to the practice
/// exam and started more than the guard interval ago.
pub open spec fn keep_attempt(a: ExamAttempt, practice: Id, now: int) -> bool {
    !(a.exam_id == practice && a.start_time_ms + PRACTICE_GUARD_MS < now)
}

/// The attempts that survive the practice sweep, in order.
pub open spec fn spec_surviving_attempts(
    atts: Seq<ExamAttempt>,
    practice: Id,
    now: int,
) -> Seq<ExamAttempt>
    decreases atts.len(),
{
    if atts.len() == 0 {
        Seq::empty()
    } else {
        (if keep_attempt(atts[0], practice, now) {
            seq![atts[0]]
        } else {
            Seq::empty()
        }) + spec_surviving_attempts(atts.drop_first(), practice, now)
    }
}

/// Deletes every attempt of the practice exam that started more than the
/// guard interval ago, returning the attempts that remain.
pub fn delete_practice_exam_attempts(
    attempts: Vec<ExamAttempt>,
    practice_exam_id: Id,
    now_ms: i64,
) -> (r: Vec<ExamAttempt>)
    ensures
        r@ == spec_surviving_attempts(attempts@, practice_exam_id, now_ms as int),
{
    let ghost orig = attempts@;
    let mut rest = attempts;
    let mut out: Vec<ExamAttempt> = Vec::new();
    proof {
        assert(orig.skip(0) =~= orig);
    }
    while rest.len() > 0
        invariant
            exists|k: int|
                #![auto]
                0 <= k <= orig.len() && rest@ == orig.skip(k) && spec_surviving_attempts(
                    orig,
                    practice_exam_id,
                    now_ms as int,
                ) == out@ + spec_surviving_attempts(orig.skip(k), practice_exam_id, now_ms as int),
        decreases rest@.len(),
    {
        let ghost k = choose|k: int|
            #![auto]
            0 <= k <= orig.len() && rest@ == orig.skip(k) && spec_surviving_attempts(
                orig,
                practice_exam_id,
                now_ms as int,
            ) == out@ + spec_surviving_attempts(orig.skip(k), practice_exam_id, now_ms as int);
        proof {
            assert(orig.skip(k)[0] == orig[k]);
            assert(orig.skip(k).drop_first() =~= orig.skip(k + 1));
        }
        let a = rest.remove(0);
        let started_long_ago = (a.start_time_ms as i128) + (PRACTICE_GUARD_MS as i128) < (
        now_ms as i128);
        if !(a.exam_id == practice_exam_id && started_long_ago) {
            out.push(a);
        }
        proof {
            assert(rest@ == orig.skip(k + 1));
            assert(spec_surviving_attempts(orig, practice_exam_id, now_ms as int) == out@
                + spec_surviving_attempts(orig.skip(k + 1), practice_exam_id, now_ms as int));
        }
    }
    proof {
        let k = choose|k: int|
            #![auto]
            0 <= k <= orig.len() && rest@ == orig.skip(k) && spec_surviving_attempts(
                orig,
                practice_exam_id,
                now_ms as int,
            ) == out@ + spec_surviving_attempts(orig.skip(k), practice_exam_id, now_ms as int);
        assert(orig.skip(k) =~= Seq::<ExamAttempt>::empty());
    }
    out
}

/// An event survives the retention sweep when it is at most the retention
/// interval old.
pub open spec fn keep_event(e: Event, now: int) -> bool {
    e.timestamp_ms + EVENT_RETENTION_MS >= now
}

/// The events that survive the retention sweep, in order.
pub open spec fn spec_surviving_events(events: Seq<Event>, now: int) -> Seq<Event>
    decreases events.len(),
{
    if events.len() == 0 {
        Seq::empty()
    } else {
        (if keep_event(events[0], now) {
            seq![events[0]]
        } else {
            Seq::empty()
        }) + spec_surviving_events(events.drop_first(), now)
    }
}

/// Deletes every event older than the retention interval, returning the
/// events that remain.
pub fn delete_old_events(events: Vec<Event>, now_ms: i64) -> (r: Vec<Event>)
    ensures
        r@ == spec_surviving_events(events@, now_ms as int),
{
    let ghost orig = events@;
    let mut rest = events;
    let mut out: Vec<Event> = Vec::new();
    proof {
        assert(orig.skip(0) =~= orig);
    }
    while rest.len() > 0
        invariant
            exists|k: int|
                #![auto]
                0 <= k <= orig.len() && rest@ == orig.skip(k) && spec_surviving_events(
                    orig,
                    now_ms as int,
                ) == out@ + spec_surviving_events(orig.skip(k), now_ms as int),
        decreases rest@.len(),
    {
        let ghost k = choose|k: int|
            #![auto]
            0 <= k <= orig.len() && rest@ == orig.skip(k) && spec_surviving_events(
                orig,
                now_ms as int,
            ) == out@ + spec_surviving_events(orig.skip(k), now_ms as int);
        proof {
            assert(orig.skip(k)[0] == orig[k]);
            assert(orig.skip(k).drop_first() =~= orig.skip(k + 1));
        }
        let e = rest.remove(0);
        let fresh_enough = (e.timestamp_ms as i128) + (EVENT_RETENTION_MS as i128) >= (
        now_ms as i128);
        if fresh_enough {
            out.push(e);
        }
        proof {
            assert(rest@ == orig.skip(k + 1));
            assert(spec_surviving_events(orig, now_ms as int) == out@ + spec_surviving_events(
                orig.skip(k + 1),
                now_ms as int,
            ));
        }
    }
    proof {
        let k = choose|k: int|
            #![auto]
            0 <= k <= orig.len() && rest@ == orig.skip(k) && spec_surviving_events(
                orig,
                now_ms as int,
            ) == out@ + spec_surviving_events(orig.skip(k), now_ms as int);
        assert(orig.skip(k) =~= Seq::<Event>::empty());
    }
    out
}

/// What the aging pass does to one moderation: a pending record whose
/// grace window has elapsed becomes approved, with the fixed feedback note
/// and the approval instant; everything else is untouched.
pub open spec fn spec_auto_approve_one(m: Moderation, now: int, length_s: u64) -> Moderation {
    if m.status is Pending && now > m.submission_date_ms + length_s * 1000 {
        Moderation {
            status: ModerationStatus::Approved,
            moderation_date_ms: Some(now as i64),
            feedback: Some(ModerationFeedback::AutoApprovedTimeExceeded),
            ..m
        }
    } else {
        m
    }
}

/// Approves every pending moderation older than the grace window.
pub fn auto_approve_moderation_records(
    moderations: &Vec<Moderation>,
    now_ms: i64,
    moderation_length_in_s: u64,
) -> (r: Vec<Moderation>)
    ensures
        r@.len() == moderations@.len(),
        forall|i: int|
            0 <= i < moderations@.len() ==> r@[i] == spec_auto_approve_one(
                #[trigger] moderations@[i],
                now_ms as int,
                moderation_length_in_s,
            ),
{
    let mut out: Vec<Moderation> = Vec::new();
    let n = moderations.len();
    for i in 0..n
        invariant
            n == moderations@.len(),
            out@.len() == i,
            forall|k: int|
                0 <= k < i ==> out@[k] == spec_auto_approve_one(
                    #[trigger] moderations@[k],
                    now_ms as int,
                    moderation_length_in_s,
                ),
    {
        let m = moderations[i];
        let expired = (now_ms as i128) > (m.submission_date_ms as i128) + (
        moderation_length_in_s as i128) * 1000;
        let updated = if matches!(m.status, ModerationStatus::Pending) && expired {
            Moderation {
                status: ModerationStatus::Approved,
                moderation_date_ms: Some(now_ms),
                feedback: Some(ModerationFeedback::AutoApprovedTimeExceeded),
                ..m
            }
        } else {
            m
        };
        out.push(updated);
    }
    out
}

/// How many moderations reference this attempt.
pub open spec fn count_with_attempt(mods: Seq<Moderation>, aid: Id) -> nat
    decreases mods.len(),
{
    if mods.len() == 0 {
        0
    } else {
        (if mods[0].exam_attempt_id == aid {
            1nat
        } else {
            0nat
        }) + count_with_attempt(mods.drop_first(), aid)
    }
}

/// The oldest submission date among the moderations of this attempt.
pub open spec fn min_submission_for(mods: Seq<Moderation>, aid: Id) -> Option<i64>
    decreases mods.len(),
{
    if mods.len() == 0 {
        None
    } else {
        let rest = min_submission_for(mods.drop_first(), aid);
        if mods[0].exam_attempt_id == aid {
            match rest {
                None => Some(mods[0].submission_date_ms),
                Some(m) => if mods[0].submission_date_ms < m {
                    Some(mods[0].submission_date_ms)
                } else {
                    Some(m)
                },
            }
        } else {
            rest
        }
    }
}

/// Whether an earlier moderation references the same attempt.
pub open spec fn seen_before(mods: Seq<Moderation>, j: int) -> bool {
    exists|k: int| 0 <= k < j && #[trigger] mods[k].exam_attempt_id == mods[j].exam_attempt_id
}

/// The denied record that replaces a duplicated group.
pub open spec fn spec_replacement(aid: Id, fresh: Id, oldest_submission: i64, now: int) -> Moderation {
    Moderation {
        id: fresh,
        exam_attempt_id: aid,
        status: ModerationStatus::Denied,
        moderator_id: None,
        feedback: Some(ModerationFeedback::AutoModeratedInvalidSubmission),
        moderation_date_ms: Some(now as i64),
        submission_date_ms: oldest_submission,
        challenges_awarded: true,
        version: 2,
    }
}

/// The remediated moderation list, built from position `j` on: the first
/// occurrence of each attempt id stands for its group — itself when alone,
/// a denied replacement when duplicated — and later occurrences are
/// dropped.
pub open spec fn spec_remediate_at(
    mods: Seq<Moderation>,
    now: int,
    fresh: Seq<Id>,
    j: int,
) -> Seq<Moderation>
    decreases mods.len() - j when 0 <= j <= mods.len()
{
    if j >= mods.len() {
        Seq::empty()
    } else if seen_before(mods, j) {
        spec_remediate_at(mods, now, fresh, j + 1)
    } else if count_with_attempt(mods, mods[j].exam_attempt_id) == 1 {
        seq![mods[j]] + spec_remediate_at(mods, now, fresh, j + 1)
    } else {
        seq![
            spec_replacement(
                mods[j].exam_attempt_id,
                fresh[j],
                min_submission_for(mods, mods[j].exam_attempt_id)->0,
                now,
            ),
        ] + spec_remediate_at(mods, now, fresh, j + 1)
    }
}

/// An attempt id with a moderation has an oldest submission date.
proof fn lemma_min_submission_exists(mods: Seq<Moderation>, aid: Id)
    requires
        count_with_attempt(mods, aid) >= 1,
    ensures
        min_submission_for(mods, aid) is Some,
    decreases mods.len(),
{
    if mods.len() > 0 && mods[0].exam_attempt_id != aid {
        lemma_min_submission_exists(mods.drop_first(), aid);
    }
}

/// Counts the moderations of this attempt.
fn count_with_attempt_exec(mods: &Vec<Moderation>, aid: Id) -> (r: usize)
    ensures
        r == count_with_attempt(mods@, aid),
{
    let n = mods.len();
    let mut c: usize = 0;
    proof {
        assert(mods@.skip(0) =~= mods@);
    }
    for i in 0..n
        invariant
            n == mods@.len(),
            c <= i,
            count_with_attempt(mods@, aid) == c + count_with_attempt(mods@.skip(i as int), aid),
    {
        proof {
            assert(mods@.skip(i as int)[0] == mods@[i as int]);
            assert(mods@.skip(i as int).drop_first() =~= mods@.skip(i as int + 1));
        }
        if mods[i].exam_attempt_id == aid {
            c = c + 1;
        }
    }
    proof {
        assert(mods@.skip(n as int) =~= Seq::<Moderation>::empty());
    }
    c
}

/// Finds the oldest submission date among the moderations of this attempt.
fn min_submission_for_exec(mods: &Vec<Moderation>, aid: Id) -> (r: Option<i64>)
    ensures
        r == min_submission_for(mods@, aid),
{
    let n = mods.len();
    let mut best: Option<i64> = None;
    proof {
        assert(mods@.skip(n as int) =~= Seq::<Moderation>::empty());
    }
    let mut i = n;
    while i > 0
        invariant
            i <= n,
            n == mods@.len(),
            best == min_submission_for(mods@.skip(i as int), aid),
        decreases i,
    {
        i = i - 1;
        proof {
            assert(mods@.skip(i as int)[0] == mods@[i as int]);
            assert(mods@.skip(i as int).drop_first() =~= mods@.skip(i as int + 1));
        }
        if mods[i].exam_attempt_id == aid {
            best = match best {
                None => Some(mods[i].submission_date_ms),
                Some(m) => if mods[i].submission_date_ms < m {
                    Some(mods[i].submission_date_ms)
                } else {
                    Some(m)
                },
            };
        }
    }
    proof {
        assert(mods@.skip(0) =~= mods@);
    }
    best
}

/// Whether an earlier moderation references the same attempt.
fn seen_before_exec(mods: &Vec<Moderation>, j: usize) -> (r: bool)
    requires
        j < mods@.len(),
    ensures
        r == seen_before(mods@, j as int),
{
    for k in 0..j
        invariant
            j < mods@.len(),
            forall|b: int| 0 <= b < k ==> mods@[b].exam_attempt_id != mods@[j as int].exam_attempt_id,
    {
        if mods[k].exam_attempt_id == mods[j].exam_attempt_id {
            proof {
                assert(mods@[k as int].exam_attempt_id == mods@[j as int].exam_attempt_id);
            }
            return true;
        }
    }
    proof {
        if seen_before(mods@, j as int) {
            let k = choose|k: int|
                0 <= k < j && #[trigger] mods@[k].exam_attempt_id == mods@[j as int].exam_attempt_id;
            assert(mods@[k].exam_attempt_id != mods@[j as int].exam_attempt_id);
        }
    }
    false
}

/// Collapses duplicated moderations: for every attempt referenced by more
/// than one moderation, the whole group is replaced by a single denied
/// record carrying the group's oldest submission date; unique records are
/// kept as they are.
pub fn remediate_duplicate_moderations(
    moderations: &Vec<Moderation>,
    now_ms: i64,
    fresh_ids: &Vec<Id>,
) -> (r: Vec<Moderation>)
    requires
        fresh_ids@.len() >= moderations@.len(),
    ensures
        r@ == spec_remediate_at(moderations@, now_ms as int, fresh_ids@, 0),
{
    let n = moderations.len();
    let mut out: Vec<Moderation> = Vec::new();
    for j in 0..n
        invariant
            n == moderations@.len(),
            fresh_ids@.len() >= n,
            spec_remediate_at(moderations@, now_ms as int, fresh_ids@, 0) == out@
                + spec_remediate_at(moderations@, now_ms as int, fresh_ids@, j as int),
    {
        if !seen_before_exec(moderations, j) {
            let aid = moderations[j].exam_attempt_id;
            let cnt = count_with_attempt_exec(moderations, aid);
            if cnt == 1 {
                out.push(moderations[j]);
            } else {
                proof {
                    assert(count_with_attempt(moderations@, aid) >= 1) by {
                        lemma_count_with_attempt_present(moderations@, aid, j as int);
                    }
                    lemma_min_submission_exists(moderations@, aid);
                }
                let oldest = match min_submission_for_exec(moderations, aid) {
                    Some(v) => v,
                    None => vstd::pervasive::unreached(),
                };
                out.push(spec_replacement_exec(aid, fresh_ids[j], oldest, now_ms));
            }
        }
    }
    out
}

/// Builds the denied replacement record.
fn spec_replacement_exec(aid: Id, fresh: Id, oldest_submission: i64, now_ms: i64) -> (r: Moderation)
    ensures
        r == spec_replacement(aid, fresh, oldest_submission, now_ms as int),
{
    Moderation {
        id: fresh,
        exam_attempt_id: aid,
        status: ModerationStatus::Denied,
        moderator_id: None,
        feedback: Some(ModerationFeedback::AutoModeratedInvalidSubmission),
        moderation_date_ms: Some(now_ms),
        submission_date_ms: oldest_submission,
        challenges_awarded: true,
        version: 2,
    }
}

/// A moderation at a position makes the count positive.
proof fn lemma_count_with_attempt_present(mods: Seq<Moderation>, aid: Id, j: int)
    requires
        0 <= j < mods.len(),
        mods[j].exam_attempt_id == aid,
    ensures
        count_with_attempt(mods, aid) >= 1,
    decreases mods.len(),
{
    if mods.len() > 0 && j > 0 {
        assert(mods.drop_first()[j - 1] == mods[j]);
        lemma_count_with_attempt_present(mods.drop_first(), aid, j - 1);
    }
}

/// After remediation there is exactly one moderation per attempt among the
/// treated records: every entry keeps a distinct attempt id.
pub proof fn lemma_remediation_unique(mods: Seq<Moderation>, now: int, fresh: Seq<Id>, j: int)
    requires
        0 <= j <= mods.len(),
    ensures
        ({
            let out = spec_remediate_at(mods, now, fresh, j);
            &&& forall|a: int, b: int|
                0 <= a < b < out.len() ==> out[a].exam_attempt_id != out[b].exam_attempt_id
            &&& forall|a: int|
                0 <= a < out.len() ==> exists|k: int|
                    j <= k < mods.len() && !seen_before(mods, k) && (#[trigger] out[a]).exam_attempt_id
                        == mods[k].exam_attempt_id
        }),
    decreases mods.len() - j,
{
    if j >= mods.len() {
    } else {
        lemma_remediation_unique(mods, now, fresh, j + 1);
        let out = spec_remediate_at(mods, now, fresh, j);
        let rest = spec_remediate_at(mods, now, fresh, j + 1);
        if !seen_before(mods, j) {
            assert(out[0].exam_attempt_id == mods[j].exam_attempt_id);
            assert(forall|a: int| 0 <= a < rest.len() ==> out[a + 1] == rest[a]);
            // No later first occurrence shares this id: it would have seen
            // position j before it.
            assert(forall|b: int|
                0 <= b < rest.len() ==> rest[b].exam_attempt_id != mods[j].exam_attempt_id) by {
                assert(forall|k: int|
                    j < k < mods.len() && #[trigger] mods[k].exam_attempt_id
                        == mods[j].exam_attempt_id ==> seen_before(mods, k)) by {
                    assert(forall|k: int|
                        j < k < mods.len() && mods[k].exam_attempt_id == mods[j].exam_attempt_id
                            ==> (#[trigger] mods[j].exam_attempt_id) == mods[k].exam_attempt_id);
                }
            }
        }
    }
}

/// The challenge ids a user already holds, in order.
pub open spec fn cc_ids(ccs: Seq<CompletedChallenge>) -> Seq<Id> {
    ccs.map_values(|c: CompletedChallenge| c.id)
}

/// The award the challenge pass makes for one moderation, if any: the
/// moderation must be approved with its awards outstanding, the attempt,
/// exam and generation must exist, the attempt must still pass, and a
/// challenge must be mapped to the exam. The completed challenge carries
/// the attempt's start instant and the fixed certification type.
pub open spec fn spec_award_action(
    m: Moderation,
    atts: Seq<ExamAttempt>,
    exams: Seq<Exam>,
    gens: Seq<GeneratedExam>,
    chals: Seq<Challenge>,
) -> Option<(Id, CompletedChallenge)> {
    if !(m.status is Approved && !m.challenges_awarded) {
        None
    } else {
        match spec_find(atts, m.exam_attempt_id) {
            None => None,
            Some(a) => match spec_find(exams, a.exam_id) {
                None => None,
                Some(e) => match spec_find(gens, a.generated_exam_id) {
                    None => None,
                    Some(g) => if attempt_wf(a.question_sets@) && spec_total_generated(
                        g.question_sets@,
                    ) <= usize::MAX && spec_check_attempt_pass(e, g, a) {
                        match spec_find(chals, a.exam_id) {
                            None => None,
                            Some(ch) => Some(
                                (
                                    a.user_id,
                                    CompletedChallenge {
                                        id: ch.challenge_id,
                                        completed_date_ms: a.start_time_ms,
                                        challenge_type: 30,
                                    },
                                ),
                            ),
                        }
                    } else {
                        None
                    },
                },
            },
        }
    }
}

/// The awards the challenge pass makes, one at most per moderation, in
/// moderation order.
pub open spec fn spec_award_pairs(
    mods: Seq<Moderation>,
    atts: Seq<ExamAttempt>,
    exams: Seq<Exam>,
    gens: Seq<GeneratedExam>,
    chals: Seq<Challenge>,
) -> Seq<(Id, CompletedChallenge)>
    decreases mods.len(),
{
    if mods.len() == 0 {
        Seq::empty()
    } else {
        (match spec_award_action(mods[0], atts, exams, gens, chals) {
            None => Seq::empty(),
            Some(p) => seq![p],
        }) + spec_award_pairs(mods.drop_first(), atts, exams, gens, chals)
    }
}

/// The completed challenges one user gains from the award pairs, in order:
/// a pair for this user lands exactly when its challenge id is not held
/// yet, counting the ids gained earlier in the same pass.
pub open spec fn spec_user_award_list(
    pairs: Seq<(Id, CompletedChallenge)>,
    uid: Id,
    have: Seq<Id>,
) -> Seq<CompletedChallenge>
    decreases pairs.len(),
{
    if pairs.len() == 0 {
        Seq::empty()
    } else {
        let p = pairs[0];
        if p.0 == uid && !have.contains(p.1.id) {
            seq![p.1] + spec_user_award_list(pairs.drop_first(), uid, have.push(p.1.id))
        } else {
            spec_user_award_list(pairs.drop_first(), uid, have)
        }
    }
}

/// Whether the user already holds this challenge id.
fn has_challenge(u: &User, cid: Id) -> (r: bool)
    ensures
        r == cc_ids(u.completed_challenges@).contains(cid),
{
    let n = u.completed_challenges.len();
    for i in 0..n
        invariant
            n == u.completed_challenges@.len(),
            forall|k: int| 0 <= k < i ==> u.completed_challenges@[k].id != cid,
    {
        if u.completed_challenges[i].id == cid {
            proof {
                assert(cc_ids(u.completed_challenges@)[i as int] == cid);
            }
            return true;
        }
    }
    proof {
        if cc_ids(u.completed_challenges@).contains(cid) {
            let i = choose|i: int|
                0 <= i < cc_ids(u.completed_challenges@).len() && cc_ids(u.completed_challenges@)[i]
                    == cid;
            assert(u.completed_challenges@[i].id == cid);
        }
    }
    false
}

/// Applies the award pairs to every user: a pair lands on the users with
/// its user id, pushing the completed challenge unless its id is already
/// held, counting ids gained earlier in the same pass.
pub fn apply_awards(users: Vec<User>, pairs: &Vec<(Id, CompletedChallenge)>) -> (r: Vec<User>)
    ensures
        r@.len() == users@.len(),
        forall|k: int|
            0 <= k < users@.len() ==> (#[trigger] r@[k]).id == users@[k].id
                && r@[k].completed_challenges@ == users@[k].completed_challenges@
                + spec_user_award_list(
                pairs@,
                users@[k].id,
                cc_ids(users@[k].completed_challenges@),
            ),
{
    let ghost orig = users@;
    let mut rest = users;
    let mut out: Vec<User> = Vec::new();
    while rest.len() > 0
        invariant
            out@.len() + rest@.len() == orig.len(),
            rest@ == orig.skip(out@.len() as int),
            forall|k: int|
                0 <= k < out@.len() ==> (#[trigger] out@[k]).id == orig[k].id
                    && out@[k].completed_challenges@ == orig[k].completed_challenges@
                    + spec_user_award_list(pairs@, orig[k].id, cc_ids(orig[k].completed_challenges@)),
        decreases rest@.len(),
    {
        let ghost k0 = out@.len() as int;
        proof {
            assert(orig.skip(k0)[0] == orig[k0]);
            assert(orig.skip(k0).drop_first() =~= orig.skip(k0 + 1));
        }
        let mut u = rest.remove(0);
        let uid = u.id;
        let ghost orig_cc = u.completed_challenges@;
        let np = pairs.len();
        proof {
            assert(pairs@.skip(0) =~= pairs@);
            assert(orig_cc + Seq::<CompletedChallenge>::empty() =~= orig_cc);
        }
        for p in 0..np
            invariant
                np == pairs@.len(),
                u.id == uid,
                spec_user_award_list(pairs@, uid, cc_ids(orig_cc)) == (
                u.completed_challenges@.skip(orig_cc.len() as int)) + spec_user_award_list(
                    pairs@.skip(p as int),
                    uid,
                    cc_ids(u.completed_challenges@),
                ),
                orig_cc.len() <= u.completed_challenges@.len(),
                u.completed_challenges@.take(orig_cc.len() as int) == orig_cc,
        {
            proof {
                assert(pairs@.skip(p as int)[0] == pairs@[p as int]);
                assert(pairs@.skip(p as int).drop_first() =~= pairs@.skip(p as int + 1));
            }
            let pair = &pairs[p];
            if pair.0 == uid && !has_challenge(&u, pair.1.id) {
                let ghost before_cc = u.completed_challenges@;
                u.completed_challenges.push(pair.1);
                proof {
                    assert(cc_ids(before_cc.push(pairs@[p as int].1)) =~= cc_ids(before_cc).push(
                        pairs@[p as int].1.id,
                    ));
                    assert(u.completed_challenges@.skip(orig_cc.len() as int) =~= before_cc.skip(
                        orig_cc.len() as int,
                    ).push(pairs@[p as int].1));
                    assert(u.completed_challenges@.take(orig_cc.len() as int) =~= orig_cc);
                    assert((before_cc.skip(orig_cc.len() as int).push(pairs@[p as int].1))
                        + spec_user_award_list(
                        pairs@.skip(p as int + 1),
                        uid,
                        cc_ids(u.completed_challenges@),
                    ) =~= before_cc.skip(orig_cc.len() as int) + (seq![pairs@[p as int].1]
                        + spec_user_award_list(
                        pairs@.skip(p as int + 1),
                        uid,
                        cc_ids(u.completed_challenges@),
                    )));
                }
            }
        }
        proof {
            assert(pairs@.skip(np as int) =~= Seq::<(Id, CompletedChallenge)>::empty());
            assert(u.completed_challenges@ =~= orig_cc + u.completed_challenges@.skip(
                orig_cc.len() as int,
            ));
        }
        out.push(u);
    }
    proof {
        assert(out@.len() == orig.len());
    }
    out
}

/// What the challenge pass does to one moderation after the awards: every
/// approved record with outstanding awards is marked done, even when no
/// challenge was mapped, so it is not reconsidered.
pub open spec fn spec_flip_awarded(m: Moderation) -> Moderation {
    if m.status is Approved && !m.challenges_awarded {
        Moderation { challenges_awarded: true, ..m }
    } else {
        m
    }
}

/// Finds the award each eligible moderation makes, in moderation order.
fn collect_award_pairs(
    mods: &Vec<Moderation>,
    attempts: &Vec<ExamAttempt>,
    exams: &Vec<Exam>,
    generations: &Vec<GeneratedExam>,
    challenges: &Vec<Challenge>,
) -> (r: Vec<(Id, CompletedChallenge)>)
    ensures
        r@ == spec_award_pairs(mods@, attempts@, exams@, generations@, challenges@),
{
    let n = mods.len();
    let mut out: Vec<(Id, CompletedChallenge)> = Vec::new();
    proof {
        assert(mods@.skip(0) =~= mods@);
    }
    for i in 0..n
        invariant
            n == mods@.len(),
            spec_award_pairs(mods@, attempts@, exams@, generations@, challenges@) == out@
                + spec_award_pairs(
                mods@.skip(i as int),
                attempts@,
                exams@,
                generations@,
                challenges@,
            ),
    {
        proof {
            assert(mods@.skip(i as int)[0] == mods@[i as int]);
            assert(mods@.skip(i as int).drop_first() =~= mods@.skip(i as int + 1));
        }
        let m = mods[i];
        if matches!(m.status, ModerationStatus::Approved) && !m.challenges_awarded {
            if let Some(a) = crate::lookup::find_by_key(attempts, m.exam_attempt_id) {
                if let Some(e) = crate::lookup::find_by_key(exams, a.exam_id) {
                    if let Some(g) = crate::lookup::find_by_key(generations, a.generated_exam_id) {
                        match crate::scorer::try_check_attempt_pass(e, g, a) {
                            Some(true) => {
                                if let Some(ch) = crate::lookup::find_by_key(challenges, a.exam_id) {
                                    out.push(
                                        (
                                            a.user_id,
                                            CompletedChallenge {
                                                id: ch.challenge_id,
                                                completed_date_ms: a.start_time_ms,
                                                challenge_type: 30,
                                            },
                                        ),
                                    );
                                }
                            },
                            _ => {},
                        }
                    }
                }
            }
        }
    }
    proof {
        assert(mods@.skip(n as int) =~= Seq::<Moderation>::empty());
    }
    out
}

/// Awards certification challenges: every approved moderation with
/// outstanding awards is joined with its attempt, exam, generation and
/// challenge mapping; the passing ones push the challenge onto their user
/// unless already held; and every such moderation is then marked done.
pub fn award_challenge_ids(
    moderations: &Vec<Moderation>,
    attempts: &Vec<ExamAttempt>,
    exams: &Vec<Exam>,
    generations: &Vec<GeneratedExam>,
    challenges: &Vec<Challenge>,
    users: Vec<User>,
) -> (r: (Vec<Moderation>, Vec<User>))
    ensures
        r.0@.len() == moderations@.len(),
        forall|j: int|
            0 <= j < moderations@.len() ==> r.0@[j] == spec_flip_awarded(
                #[trigger] moderations@[j],
            ),
        r.1@.len() == users@.len(),
        forall|k: int|
            0 <= k < users@.len() ==> (#[trigger] r.1@[k]).id == users@[k].id
                && r.1@[k].completed_challenges@ == users@[k].completed_challenges@
                + spec_user_award_list(
                spec_award_pairs(moderations@, attempts@, exams@, generations@, challenges@),
                users@[k].id,
                cc_ids(users@[k].completed_challenges@),
            ),
{
    let pairs = collect_award_pairs(moderations, attempts, exams, generations, challenges);
    let new_users = apply_awards(users, &pairs);

    let n = moderations.len();
    let mut out_mods: Vec<Moderation> = Vec::new();
    for j in 0..n
        invariant
            n == moderations@.len(),
            out_mods@.len() == j,
            forall|k: int|
                0 <= k < j ==> out_mods@[k] == spec_flip_awarded(#[trigger] moderations@[k]),
    {
        let m = moderations[j];
        let flipped = if matches!(m.status, ModerationStatus::Approved) && !m.challenges_awarded {
            Moderation { challenges_awarded: true, ..m }
        } else {
            m
        };
        out_mods.push(flipped);
    }
    (out_mods, new_users)
}

/// The challenge ids gained in one pass are fresh and pairwise distinct.
proof fn lemma_award_list_fresh(pairs: Seq<(Id, CompletedChallenge)>, uid: Id, have: Seq<Id>)
    ensures
        ({
            let gained = spec_user_award_list(pairs, uid, have);
            &&& forall|i: int| 0 <= i < gained.len() ==> !have.contains((#[trigger] gained[i]).id)
            &&& forall|i: int, j: int| 0 <= i < j < gained.len() ==> gained[i].id != gained[j].id
        }),
    decreases pairs.len(),
{
    if pairs.len() > 0 {
        let p = pairs[0];
        if p.0 == uid && !have.contains(p.1.id) {
            lemma_award_list_fresh(pairs.drop_first(), uid, have.push(p.1.id));
            let rest = spec_user_award_list(pairs.drop_first(), uid, have.push(p.1.id));
            let gained = spec_user_award_list(pairs, uid, have);
            assert(gained == seq![p.1] + rest);
            assert(gained[0] == p.1);
            assert(gained.len() == rest.len() + 1);
            assert(forall|i: int| 0 <= i < rest.len() ==> gained[i + 1] == rest[i]);
            assert(forall|i: int|
                0 <= i < rest.len() ==> !have.push(p.1.id).contains((#[trigger] rest[i]).id));
            assert(forall|x: Id| have.contains(x) ==> have.push(p.1.id).contains(x)) by {
                assert(forall|x: Id|
                    #![auto]
                    have.contains(x) ==> exists|i: int| 0 <= i < have.len() && have[i] == x);
                assert(forall|i: int|
                    0 <= i < have.len() ==> have.push(p.1.id)[i] == have[i]);
            }
            assert(have.push(p.1.id)[have.len() as int] == p.1.id);
            assert(have.push(p.1.id).contains(p.1.id));
            let g2 = spec_user_award_list(pairs, uid, have);
            assert(forall|i: int| 0 <= i < g2.len() ==> !have.contains((#[trigger] g2[i]).id)) by {
                assert(forall|i: int|
                    1 <= i < g2.len() ==> !have.push(p.1.id).contains((#[trigger] g2[i]).id));
            }
            assert(forall|i: int, j: int|
                0 <= i < j < g2.len() ==> g2[i].id != g2[j].id) by {
                assert(forall|j: int|
                    1 <= j < g2.len() ==> !have.push(p.1.id).contains((#[trigger] g2[j]).id));
                assert(forall|j: int| 1 <= j < g2.len() ==> (#[trigger] g2[j]).id != p.1.id);
            }
        } else {
            lemma_award_list_fresh(pairs.drop_first(), uid, have);
            let rest = spec_user_award_list(pairs.drop_first(), uid, have);
            let gained = spec_user_award_list(pairs, uid, have);
            assert(gained == rest);
        }
    }
}

/// Award uniqueness: a user holding each challenge id at most once still
/// does after any award pass, however many times the pass runs — new ids
/// are only pushed when absent.
pub proof fn lemma_award_preserves_uniqueness(
    pairs: Seq<(Id, CompletedChallenge)>,
    uid: Id,
    ccs: Seq<CompletedChallenge>,
)
    requires
        forall|i: int, j: int| 0 <= i < j < ccs.len() ==> ccs[i].id != ccs[j].id,
    ensures
        ({
            let merged = ccs + spec_user_award_list(pairs, uid, cc_ids(ccs));
            forall|i: int, j: int| 0 <= i < j < merged.len() ==> merged[i].id != merged[j].id
        }),
{
    lemma_award_list_fresh(pairs, uid, cc_ids(ccs));
    let gained = spec_user_award_list(pairs, uid, cc_ids(ccs));
    let merged = ccs + gained;
    assert(forall|i: int| 0 <= i < ccs.len() ==> merged[i] == ccs[i]);
    assert(forall|i: int| 0 <= i < gained.len() ==> merged[ccs.len() + i] == gained[i]);
    assert(forall|i: int, j: int|
        0 <= i < ccs.len() && ccs.len() <= j < merged.len() ==> merged[i].id != merged[j].id) by {
        assert(forall|i: int|
            0 <= i < ccs.len() ==> cc_ids(ccs)[i] == (#[trigger] ccs[i]).id);
        assert(forall|j: int|
            0 <= j < gained.len() ==> !cc_ids(ccs).contains((#[trigger] gained[j]).id));
    }
}

/// Award delivery: when some pair offers this user a challenge id, the
/// user holds it after the pass — either it was already held, or the pass
/// pushes it.
pub proof fn lemma_award_delivers(
    pairs: Seq<(Id, CompletedChallenge)>,
    uid: Id,
    have: Seq<Id>,
    p: int,
)
    requires
        0 <= p < pairs.len(),
        pairs[p].0 == uid,
    ensures
        have.contains(pairs[p].1.id) || exists|i: int|
            0 <= i < spec_user_award_list(pairs, uid, have).len() && (#[trigger] spec_user_award_list(
                pairs,
                uid,
                have,
            )[i]).id == pairs[p].1.id,
    decreases pairs.len(),
{
    let cid = pairs[p].1.id;
    let head = pairs[0];
    let gained = spec_user_award_list(pairs, uid, have);
    if p == 0 {
        if !have.contains(cid) {
            assert(gained[0] == head.1);
        }
    } else {
        assert(pairs.drop_first()[p - 1] == pairs[p]);
        if head.0 == uid && !have.contains(head.1.id) {
            lemma_award_delivers(pairs.drop_first(), uid, have.push(head.1.id), p - 1);
            let rest = spec_user_award_list(pairs.drop_first(), uid, have.push(head.1.id));
            assert(forall|i: int| 0 <= i < rest.len() ==> gained[i + 1] == rest[i]);
            if have.push(head.1.id).contains(cid) {
                let i = choose|i: int|
                    0 <= i < have.push(head.1.id).len() && have.push(head.1.id)[i] == cid;
                if i < have.len() {
                    assert(have[i] == cid);
                } else {
                    assert(gained[0].id == cid);
                }
            }
        } else {
            lemma_award_delivers(pairs.drop_first(), uid, have, p - 1);
        }
    }
}

/// After the challenge pass, no moderation has outstanding awards, so a
/// second pass finds nothing to do: it makes no award pair and changes no
/// user.
pub proof fn lemma_award_pass_idempotent(
    mods: Seq<Moderation>,
    atts: Seq<ExamAttempt>,
    exams: Seq<Exam>,
    gens: Seq<GeneratedExam>,
    chals: Seq<Challenge>,
)
    requires
        forall|j: int|
            0 <= j < mods.len() ==> !((#[trigger] mods[j]).status is Approved
                && !mods[j].challenges_awarded),
    ensures
        spec_award_pairs(mods, atts, exams, gens, chals) =~= Seq::empty(),
        forall|uid: Id, have: Seq<Id>|
            #![auto]
            spec_user_award_list(spec_award_pairs(mods, atts, exams, gens, chals), uid, have)
                =~= Seq::empty(),
    decreases mods.len(),
{
    if mods.len() > 0 {
        assert(forall|j: int|
            0 <= j < mods.drop_first().len() ==> mods.drop_first()[j] == mods[j + 1]);
        lemma_award_pass_idempotent(mods.drop_first(), atts, exams, gens, chals);
        assert(spec_award_action(mods[0], atts, exams, gens, chals) is None);
    }
}

/// One award pair per challenge mapped to this exam, in mapping order.
pub open spec fn pairs_for_exam(chals: Seq<Challenge>, eid: Id, uid: Id, start_ms: i64) -> Seq<
    (Id, CompletedChallenge),
>
    decreases chals.len(),
{
    if chals.len() == 0 {
        Seq::empty()
    } else {
        (if chals[0].exam_id == eid {
            seq![
                (
                    uid,
                    CompletedChallenge {
                        id: chals[0].challenge_id,
                        completed_date_ms: start_ms,
                        challenge_type: 30,
                    },
                ),
            ]
        } else {
            Seq::empty()
        }) + pairs_for_exam(chals.drop_first(), eid, uid, start_ms)
    }
}

/// The awards the recovery pass makes for one moderation: a record already
/// marked done whose attempt still passes re-offers every challenge mapped
/// to its exam; missing joins are skipped.
pub open spec fn spec_recovery_pairs_for(
    m: Moderation,
    atts: Seq<ExamAttempt>,
    exams: Seq<Exam>,
    gens: Seq<GeneratedExam>,
    chals: Seq<Challenge>,
) -> Seq<(Id, CompletedChallenge)> {
    if !(m.status is Approved && m.challenges_awarded) {
        Seq::empty()
    } else {
        match spec_find(atts, m.exam_attempt_id) {
            None => Seq::empty(),
            Some(a) => match spec_find(exams, a.exam_id) {
                None => Seq::empty(),
                Some(e) => match spec_find(gens, a.generated_exam_id) {
                    None => Seq::empty(),
                    Some(g) => if attempt_wf(a.question_sets@) && spec_total_generated(
                        g.question_sets@,
                    ) <= usize::MAX && spec_check_attempt_pass(e, g, a) {
                        pairs_for_exam(chals, a.exam_id, a.user_id, a.start_time_ms)
                    } else {
                        Seq::empty()
                    },
                },
            },
        }
    }
}

/// The awards the recovery pass makes, in moderation order.
pub open spec fn spec_recovery_pairs(
    mods: Seq<Moderation>,
    atts: Seq<ExamAttempt>,
    exams: Seq<Exam>,
    gens: Seq<GeneratedExam>,
    chals: Seq<Challenge>,
) -> Seq<(Id, CompletedChallenge)>
    decreases mods.len(),
{
    if mods.len() == 0 {
        Seq::empty()
    } else {
        spec_recovery_pairs_for(mods[0], atts, exams, gens, chals) + spec_recovery_pairs(
            mods.drop_first(),
            atts,
            exams,
            gens,
            chals,
        )
    }
}

/// Collects one award pair per challenge mapped to this exam.
fn pairs_for_exam_exec(chals: &Vec<Challenge>, eid: Id, uid: Id, start_ms: i64) -> (r: Vec<
    (Id, CompletedChallenge),
>)
    ensures
        r@ == pairs_for_exam(chals@, eid, uid, start_ms),
{
    let n = chals.len();
    let mut out: Vec<(Id, CompletedChallenge)> = Vec::new();
    proof {
        assert(chals@.skip(0) =~= chals@);
    }
    for i in 0..n
        invariant
            n == chals@.len(),
            pairs_for_exam(chals@, eid, uid, start_ms) == out@ + pairs_for_exam(
                chals@.skip(i as int),
                eid,
                uid,
                start_ms,
            ),
    {
        proof {
            assert(chals@.skip(i as int)[0] == chals@[i as int]);
            assert(chals@.skip(i as int).drop_first() =~= chals@.skip(i as int + 1));
        }
        if chals[i].exam_id == eid {
            out.push(
                (
                    uid,
                    CompletedChallenge {
                        id: chals[i].challenge_id,
                        completed_date_ms: start_ms,
                        challenge_type: 30,
                    },
                ),
            );
        }
    }
    proof {
        assert(chals@.skip(n as int) =~= Seq::<Challenge>::empty());
    }
    out
}

/// Collects the award pairs the recovery pass makes.
fn collect_recovery_pairs(
    mods: &Vec<Moderation>,
    attempts: &Vec<ExamAttempt>,
    exams: &Vec<Exam>,
    generations: &Vec<GeneratedExam>,
    challenges: &Vec<Challenge>,
) -> (r: Vec<(Id, CompletedChallenge)>)
    ensures
        r@ == spec_recovery_pairs(mods@, attempts@, exams@, generations@, challenges@),
{
    let n = mods.len();
    let mut out: Vec<(Id, CompletedChallenge)> = Vec::new();
    proof {
        assert(mods@.skip(0) =~= mods@);
    }
    for i in 0..n
        invariant
            n == mods@.len(),
            spec_recovery_pairs(mods@, attempts@, exams@, generations@, challenges@) == out@
                + spec_recovery_pairs(
                mods@.skip(i as int),
                attempts@,
                exams@,
                generations@,
                challenges@,
            ),
    {
        proof {
            assert(mods@.skip(i as int)[0] == mods@[i as int]);
            assert(mods@.skip(i as int).drop_first() =~= mods@.skip(i as int + 1));
        }
        let m = mods[i];
        let ghost before = out@;
        if matches!(m.status, ModerationStatus::Approved) && m.challenges_awarded {
            if let Some(a) = crate::lookup::find_by_key(attempts, m.exam_attempt_id) {
                if let Some(e) = crate::lookup::find_by_key(exams, a.exam_id) {
                    if let Some(g) = crate::lookup::find_by_key(generations, a.generated_exam_id) {
                        match crate::scorer::try_check_attempt_pass(e, g, a) {
                            Some(true) => {
                                let mut block = pairs_for_exam_exec(
                                    challenges,
                                    a.exam_id,
                                    a.user_id,
                                    a.start_time_ms,
                                );
                                out.append(&mut block);
                            },
                            _ => {},
                        }
                    }
                }
            }
        }
        proof {
            assert(out@ =~= before + spec_recovery_pairs_for(
                mods@[i as int],
                attempts@,
                exams@,
                generations@,
                challenges@,
            ));
        }
    }
    proof {
        assert(mods@.skip(n as int) =~= Seq::<Moderation>::empty());
    }
    out
}

/// Challenge-award recovery: re-checks every moderation already marked
/// done and pushes any challenge its user is still missing, never awarding
/// one twice.
pub fn ensure_awarded_challenges(
    moderations: &Vec<Moderation>,
    attempts: &Vec<ExamAttempt>,
    exams: &Vec<Exam>,
    generations: &Vec<GeneratedExam>,
    challenges: &Vec<Challenge>,
    users: Vec<User>,
) -> (r: Vec<User>)
    ensures
        r@.len() == users@.len(),
        forall|k: int|
            0 <= k < users@.len() ==> (#[trigger] r@[k]).id == users@[k].id
                && r@[k].completed_challenges@ == users@[k].completed_challenges@
                + spec_user_award_list(
                spec_recovery_pairs(moderations@, attempts@, exams@, generations@, challenges@),
                users@[k].id,
                cc_ids(users@[k].completed_challenges@),
            ),
{
    let pairs = collect_recovery_pairs(moderations, attempts, exams, generations, challenges);
    apply_awards(users, &pairs)
}

/// The events recorded for one attempt, in given order.
pub open spec fn spec_events_for(events: Seq<Event>, aid: Id) -> Seq<Event>
    decreases events.len(),
{
    if events.len() == 0 {
        Seq::empty()
    } else {
        (if events[0].attempt_id == aid {
            seq![events[0]]
        } else {
            Seq::empty()
        }) + spec_events_for(events.drop_first(), aid)
    }
}

/// Collects the events recorded for one attempt.
fn events_for_exec(events: &Vec<Event>, aid: Id) -> (r: Vec<Event>)
    ensures
        r@ == spec_events_for(events@, aid),
{
    let n = events.len();
    let mut out: Vec<Event> = Vec::new();
    proof {
        assert(events@.skip(0) =~= events@);
    }
    for i in 0..n
        invariant
            n == events@.len(),
            spec_events_for(events@, aid) == out@ + spec_events_for(events@.skip(i as int), aid),
    {
        proof {
            assert(events@.skip(i as int)[0] == events@[i as int]);
            assert(events@.skip(i as int).drop_first() =~= events@.skip(i as int + 1));
        }
        let e = &events[i];
        if e.attempt_id == aid {
            let copy = Event {
                id: e.id.clone(),
                timestamp_ms: e.timestamp_ms,
                kind: e.kind,
                attempt_id: e.attempt_id,
            };
            proof {
                assert(copy == events@[i as int]);
            }
            out.push(copy);
        }
    }
    proof {
        assert(events@.skip(n as int) =~= Seq::<Event>::empty());
    }
    out
}

/// Whether the moderation pass owes this attempt a record: it has none
/// yet, it is not a practice attempt, its exam exists and its time has
/// expired, its generation exists, the attempt's references are well
/// formed, and — when it passes — the scorer's data constraints hold.
pub open spec fn spec_t2_eligible(
    exams: Seq<Exam>,
    gens: Seq<GeneratedExam>,
    events: Seq<Event>,
    a: ExamAttempt,
    practice: Id,
    now: int,
) -> bool {
    &&& a.exam_moderation_id is None
    &&& a.exam_id != practice
    &&& spec_find(exams, a.exam_id) is Some
    &&& {
        let e = spec_find(exams, a.exam_id)->Some_0;
        &&& a.start_time_ms + e.config.total_time_in_s * 1000 < now
        &&& spec_find(gens, a.generated_exam_id) is Some
        &&& {
            let g = spec_find(gens, a.generated_exam_id)->Some_0;
            &&& attempt_wf(a.question_sets@)
            &&& spec_total_generated(g.question_sets@) <= usize::MAX
            &&& (spec_check_attempt_pass(e, g, a) ==> raw_score_inputs_ok(
                e.config.total_time_in_s,
                a.start_time_ms,
                a.question_sets@,
                spec_events_for(events, a.id),
            ))
        }
    }
}

/// The moderation record the pass creates for an eligible attempt: its
/// submission date is the attempt's expiry instant, and its disposition is
/// auto-approval on a failed attempt, auto-approval below the suspicion
/// threshold, else pending review.
pub open spec fn spec_new_moderation(
    exams: Seq<Exam>,
    gens: Seq<GeneratedExam>,
    events: Seq<Event>,
    a: ExamAttempt,
    now: int,
    threshold_millionths: u64,
    mid: Id,
) -> Moderation {
    let e = spec_find(exams, a.exam_id)->Some_0;
    let g = spec_find(gens, a.generated_exam_id)->Some_0;
    let expiry = (a.start_time_ms + e.config.total_time_in_s * 1000) as i64;
    if !spec_check_attempt_pass(e, g, a) {
        Moderation {
            id: mid,
            exam_attempt_id: a.id,
            status: ModerationStatus::Approved,
            moderator_id: None,
            feedback: Some(ModerationFeedback::AutoApprovedFailedAttempt),
            moderation_date_ms: Some(now as i64),
            submission_date_ms: expiry,
            challenges_awarded: true,
            version: 2,
        }
    } else {
        let score = spec_raw_moderation_score(
            e.config.total_time_in_s,
            a.start_time_ms,
            a.question_sets@,
            spec_events_for(events, a.id),
        ) as u64;
        if score < threshold_millionths {
            Moderation {
                id: mid,
                exam_attempt_id: a.id,
                status: ModerationStatus::Approved,
                moderator_id: None,
                feedback: Some(ModerationFeedback::AutoApprovedScore(score)),
                moderation_date_ms: Some(now as i64),
                submission_date_ms: expiry,
                challenges_awarded: false,
                version: 2,
            }
        } else {
            Moderation {
                id: mid,
                exam_attempt_id: a.id,
                status: ModerationStatus::Pending,
                moderator_id: None,
                feedback: Some(ModerationFeedback::ScoreReport(score)),
                moderation_date_ms: None,
                submission_date_ms: expiry,
                challenges_awarded: false,
                version: 2,
            }
        }
    }
}

/// What the moderation pass produces: the attempts, each stamped with its
/// new moderation id when one was created, and the created records.
pub struct ModerationPass {
    pub attempts: Seq<ExamAttempt>,
    pub new_moderations: Seq<Moderation>,
}

/// The moderation pass over the attempts, in order: each eligible attempt
/// consumes the next fresh id, gains a moderation record with its
/// disposition, and is stamped; every other attempt is left alone.
pub open spec fn spec_t2(
    exams: Seq<Exam>,
    gens: Seq<GeneratedExam>,
    events: Seq<Event>,
    atts: Seq<ExamAttempt>,
    practice: Id,
    now: int,
    threshold_millionths: u64,
    fresh: Seq<Id>,
) -> ModerationPass
    decreases atts.len(),
{
    if atts.len() == 0 {
        ModerationPass { attempts: Seq::empty(), new_moderations: Seq::empty() }
    } else {
        let a = atts[0];
        if spec_t2_eligible(exams, gens, events, a, practice, now) {
            let m = spec_new_moderation(exams, gens, events, a, now, threshold_millionths, fresh[0]);
            let stamped = ExamAttempt { exam_moderation_id: Some(fresh[0]), ..a };
            let rest = spec_t2(
                exams,
                gens,
                events,
                atts.drop_first(),
                practice,
                now,
                threshold_millionths,
                fresh.drop_first(),
            );
            ModerationPass {
                attempts: seq![stamped] + rest.attempts,
                new_moderations: seq![m] + rest.new_moderations,
            }
        } else {
            let rest = spec_t2(
                exams,
                gens,
                events,
                atts.drop_first(),
                practice,
                now,
                threshold_millionths,
                fresh,
            );
            ModerationPass {
                attempts: seq![a] + rest.attempts,
                new_moderations: rest.new_moderations,
            }
        }
    }
}

/// Creates a moderation record for every expired, unmoderated attempt of a
/// real exam: auto-approved when the attempt failed or its suspicion score
/// is below the threshold, else pending; and stamps the attempt with the
/// new record's id. Attempts whose joins are missing or whose data breaks
/// the scorer's constraints are skipped untouched.
pub fn update_moderation_collection(
    exams: &Vec<Exam>,
    generations: &Vec<GeneratedExam>,
    events: &Vec<Event>,
    attempts: Vec<ExamAttempt>,
    practice_exam_id: Id,
    now_ms: i64,
    threshold_millionths: u64,
    fresh_ids: &Vec<Id>,
) -> (r: (Vec<ExamAttempt>, Vec<Moderation>))
    requires
        fresh_ids@.len() >= attempts@.len(),
    ensures
        r.0@ == spec_t2(
            exams@,
            generations@,
            events@,
            attempts@,
            practice_exam_id,
            now_ms as int,
            threshold_millionths,
            fresh_ids@,
        ).attempts,
        r.1@ == spec_t2(
            exams@,
            generations@,
            events@,
            attempts@,
            practice_exam_id,
            now_ms as int,
            threshold_millionths,
            fresh_ids@,
        ).new_moderations,
{
    let ghost orig = attempts@;
    proof {
        vstd::std_specs::vec::axiom_spec_len(&attempts);
    }
    let mut rest = attempts;
    let mut out_atts: Vec<ExamAttempt> = Vec::new();
    let mut out_mods: Vec<Moderation> = Vec::new();
    let mut fi: usize = 0;
    proof {
        assert(orig.skip(0) =~= orig);
        assert(fresh_ids@.skip(0) =~= fresh_ids@);
    }
    while rest.len() > 0
        invariant
            fresh_ids@.len() >= orig.len(),
            orig.len() <= usize::MAX,
            exists|k: int|
                #![auto]
                0 <= k <= orig.len() && fi <= k && rest@ == orig.skip(k) && {
                    let full = spec_t2(
                        exams@,
                        generations@,
                        events@,
                        orig,
                        practice_exam_id,
                        now_ms as int,
                        threshold_millionths,
                        fresh_ids@,
                    );
                    let suffix = spec_t2(
                        exams@,
                        generations@,
                        events@,
                        orig.skip(k),
                        practice_exam_id,
                        now_ms as int,
                        threshold_millionths,
                        fresh_ids@.skip(fi as int),
                    );
                    full.attempts == out_atts@ + suffix.attempts && full.new_moderations == out_mods@
                        + suffix.new_moderations
                },
        decreases rest@.len(),
    {
        let ghost k = choose|k: int|
            #![auto]
            0 <= k <= orig.len() && fi <= k && rest@ == orig.skip(k) && {
                let full = spec_t2(
                    exams@,
                    generations@,
                    events@,
                    orig,
                    practice_exam_id,
                    now_ms as int,
                    threshold_millionths,
                    fresh_ids@,
                );
                let suffix = spec_t2(
                    exams@,
                    generations@,
                    events@,
                    orig.skip(k),
                    practice_exam_id,
                    now_ms as int,
                    threshold_millionths,
                    fresh_ids@.skip(fi as int),
                );
                full.attempts == out_atts@ + suffix.attempts && full.new_moderations == out_mods@
                    + suffix.new_moderations
            };
        proof {
            assert(orig.skip(k).len() > 0);
            assert(k < orig.len());
            assert(orig.skip(k)[0] == orig[k]);
            assert(orig.skip(k).drop_first() =~= orig.skip(k + 1));
            assert(fresh_ids@.skip(fi as int).drop_first() =~= fresh_ids@.skip(fi as int + 1));
            assert(fresh_ids@.skip(fi as int)[0] == fresh_ids@[fi as int]);
        }
        let mut a = rest.remove(0);
        let ghost a0 = a;

        // Decide eligibility exactly as the specification does.
        let mut created: Option<Moderation> = None;
        if a.exam_moderation_id.is_none() && a.exam_id != practice_exam_id {
            if let Some(e) = crate::lookup::find_by_key(exams, a.exam_id) {
                let expiry_wide = (a.start_time_ms as i128) + (e.config.total_time_in_s as i128)
                    * 1000;
                if expiry_wide < now_ms as i128 {
                    if let Some(g) = crate::lookup::find_by_key(generations, a.generated_exam_id) {
                        match crate::scorer::try_check_attempt_pass(e, g, &a) {
                            None => {},
                            Some(pass) => {
                                let mid = fresh_ids[fi];
                                let expiry = expiry_wide as i64;
                                if !pass {
                                    created = Some(
                                        Moderation {
                                            id: mid,
                                            exam_attempt_id: a.id,
                                            status: ModerationStatus::Approved,
                                            moderator_id: None,
                                            feedback: Some(
                                                ModerationFeedback::AutoApprovedFailedAttempt,
                                            ),
                                            moderation_date_ms: Some(now_ms),
                                            submission_date_ms: expiry,
                                            challenges_awarded: true,
                                            version: 2,
                                        },
                                    );
                                } else {
                                    let evs = events_for_exec(events, a.id);
                                    match crate::moderation_score::try_raw_moderation_score(
                                        e.config.total_time_in_s,
                                        a.start_time_ms,
                                        &a.question_sets,
                                        &evs,
                                    ) {
                                        None => {},
                                        Some(score) => {
                                            if score < threshold_millionths {
                                                created = Some(
                                                    Moderation {
                                                        id: mid,
                                                        exam_attempt_id: a.id,
                                                        status: ModerationStatus::Approved,
                                                        moderator_id: None,
                                                        feedback: Some(
                                                            ModerationFeedback::AutoApprovedScore(
                                                                score,
                                                            ),
                                                        ),
                                                        moderation_date_ms: Some(now_ms),
                                                        submission_date_ms: expiry,
                                                        challenges_awarded: false,
                                                        version: 2,
                                                    },
                                                );
                                            } else {
                                                created = Some(
                                                    Moderation {
                                                        id: mid,
                                                        exam_attempt_id: a.id,
                                                        status: ModerationStatus::Pending,
                                                        moderator_id: None,
                                                        feedback: Some(
                                                            ModerationFeedback::ScoreReport(score),
                                                        ),
                                                        moderation_date_ms: None,
                                                        submission_date_ms: expiry,
                                                        challenges_awarded: false,
                                                        version: 2,
                                                    },
                                                );
                                            }
                                        },
                                    }
                                }
                            },
                        }
                    }
                }
            }
        }

        match created {
            Some(m) => {
                proof {
                    assert(spec_t2_eligible(
                        exams@,
                        generations@,
                        events@,
                        a0,
                        practice_exam_id,
                        now_ms as int,
                    ));
                    assert(m == spec_new_moderation(
                        exams@,
                        generations@,
                        events@,
                        a0,
                        now_ms as int,
                        threshold_millionths,
                        fresh_ids@[fi as int],
                    ));
                }
                out_mods.push(m);
                a.exam_moderation_id = Some(fresh_ids[fi]);
                proof {
                    assert(a == ExamAttempt {
                        exam_moderation_id: Some(fresh_ids@[fi as int]),
                        ..a0
                    });
                }
                out_atts.push(a);
                proof {
                    assert(orig.skip(k).len() == orig.len() - k);
                    assert(fi < orig.len());
                }
                fi = fi + 1;
            },
            None => {
                proof {
                    assert(!spec_t2_eligible(
                        exams@,
                        generations@,
                        events@,
                        a0,
                        practice_exam_id,
                        now_ms as int,
                    ));
                }
                out_atts.push(a);
            },
        }
        proof {
            assert(rest@ == orig.skip(k + 1));
            assert(fi <= k + 1);
        }
    }
    proof {
        let k = choose|k: int|
            #![auto]
            0 <= k <= orig.len() && fi <= k && rest@ == orig.skip(k) && {
                let full = spec_t2(
                    exams@,
                    generations@,
                    events@,
                    orig,
                    practice_exam_id,
                    now_ms as int,
                    threshold_millionths,
                    fresh_ids@,
                );
                let suffix = spec_t2(
                    exams@,
                    generations@,
                    events@,
                    orig.skip(k),
                    practice_exam_id,
                    now_ms as int,
                    threshold_millionths,
                    fresh_ids@.skip(fi as int),
                );
                full.attempts == out_atts@ + suffix.attempts && full.new_moderations == out_mods@
                    + suffix.new_moderations
            };
        assert(orig.skip(k) =~= Seq::<ExamAttempt>::empty());
    }
    (out_atts, out_mods)
}

/// Pipeline idempotence: a second moderation pass over the stamped
/// attempts, with the same clock and stores, creates no new record and
/// changes no attempt — so the count of moderation rows stays the same.
pub proof fn lemma_t2_idempotent(
    exams: Seq<Exam>,
    gens: Seq<GeneratedExam>,
    events: Seq<Event>,
    atts: Seq<ExamAttempt>,
    practice: Id,
    now: int,
    threshold_millionths: u64,
    fresh1: Seq<Id>,
    fresh2: Seq<Id>,
)
    ensures
        ({
            let first = spec_t2(exams, gens, events, atts, practice, now, threshold_millionths, fresh1);
            let second = spec_t2(
                exams,
                gens,
                events,
                first.attempts,
                practice,
                now,
                threshold_millionths,
                fresh2,
            );
            &&& second.attempts == first.attempts
            &&& second.new_moderations =~= Seq::<Moderation>::empty()
        }),
    decreases atts.len(),
{
    let first = spec_t2(exams, gens, events, atts, practice, now, threshold_millionths, fresh1);
    if atts.len() > 0 {
        let a = atts[0];
        if spec_t2_eligible(exams, gens, events, a, practice, now) {
            let stamped = ExamAttempt { exam_moderation_id: Some(fresh1[0]), ..a };
            assert(!spec_t2_eligible(exams, gens, events, stamped, practice, now));
            lemma_t2_idempotent(
                exams,
                gens,
                events,
                atts.drop_first(),
                practice,
                now,
                threshold_millionths,
                fresh1.drop_first(),
                fresh2,
            );
            let rest_first = spec_t2(
                exams,
                gens,
                events,
                atts.drop_first(),
                practice,
                now,
                threshold_millionths,
                fresh1.drop_first(),
            );
            assert(first.attempts.drop_first() =~= rest_first.attempts);
            assert(first.attempts[0] == stamped);
            assert(seq![stamped] + rest_first.attempts =~= first.attempts);
        } else {
            lemma_t2_idempotent(
                exams,
                gens,
                events,
                atts.drop_first(),
                practice,
                now,
                threshold_millionths,
                fresh1,
                fresh2,
            );
            let rest_first = spec_t2(
                exams,
                gens,
                events,
                atts.drop_first(),
                practice,
                now,
                threshold_millionths,
                fresh1,
            );
            assert(first.attempts.drop_first() =~= rest_first.attempts);
            assert(first.attempts[0] == a);
            assert(seq![a] + rest_first.attempts =~= first.attempts);
        }
    }
}

} // verus!

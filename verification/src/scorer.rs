//! Scoring: percent-correct and pass/fail for one attempt.
//!
//! A question counts as correct when the answers the user selected are
//! exactly the correct ones among the answers the generation offered. The
//! score is the share of correct questions among all generated questions,
//! held in hundredths of a percent so that no floating point is needed:
//! `10_000` stands for 100%.

use vstd::prelude::*;

use crate::lookup::{contains_id, find_by_key, spec_find};
use crate::records::{
    Answer, Exam, ExamAttempt, GeneratedExam, GeneratedQuestion, GeneratedQuestionSet, Id,
    Question, QuestionAttempt, QuestionSet, QuestionSetAttempt,
};

verus! {

/// Why a score could not be computed: the attempt referenced a record the
/// exam or the generation does not hold, or the generation is empty.
#[derive(Clone, Copy, Debug, PartialEq, Eq, Structural)]
pub enum ScoreError {
    QuestionSetNotInExam(Id),
    QuestionSetNotInGeneration(Id),
    QuestionNotInExam(Id),
    QuestionNotInGeneration(Id),
    NoGeneratedQuestions,
}

/// Whether the exam's answer list marks `id` as a correct answer.
pub open spec fn answer_id_correct(exam_answers: Seq<Answer>, id: Id) -> bool {
    exists|i: int|
        0 <= i < exam_answers.len() && exam_answers[i].is_correct && exam_answers[i].id == id
}

/// How many of the offered answer ids are correct answers of the exam.
pub open spec fn count_correct_generated(exam_answers: Seq<Answer>, generated: Seq<Id>) -> nat
    decreases generated.len(),
{
    if generated.len() == 0 {
        0
    } else {
        count_correct_generated(exam_answers, generated.drop_last()) + if answer_id_correct(
            exam_answers,
            generated.last(),
        ) {
            1nat
        } else {
            0nat
        }
    }
}

/// A question is answered correctly when the selected answers are exactly
/// the correct ones among the offered answers: every offered correct answer
/// was selected, and nothing else was.
pub open spec fn spec_compare_answers(
    exam_answers: Seq<Answer>,
    generated: Seq<Id>,
    attempt: Seq<Id>,
) -> bool {
    &&& forall|j: int|
        0 <= j < generated.len() && answer_id_correct(exam_answers, #[trigger] generated[j])
            ==> attempt.contains(generated[j])
    &&& count_correct_generated(exam_answers, generated) == attempt.len()
}

/// Whether the exam's answer list marks `id` as correct.
fn is_correct_answer_id(exam_answers: &Vec<Answer>, id: Id) -> (r: bool)
    ensures
        r == answer_id_correct(exam_answers@, id),
{
    let n = exam_answers.len();
    for i in 0..n
        invariant
            n == exam_answers@.len(),
            forall|j: int|
                0 <= j < i ==> !(exam_answers@[j].is_correct && exam_answers@[j].id == id),
    {
        if exam_answers[i].is_correct && exam_answers[i].id == id {
            return true;
        }
    }
    false
}

/// Decides whether one question was answered correctly.
pub fn compare_answers(
    exam_answers: &Vec<Answer>,
    generated_answers: &Vec<Id>,
    attempt_answers: &Vec<Id>,
) -> (r: bool)
    ensures
        r == spec_compare_answers(exam_answers@, generated_answers@, attempt_answers@),
{
    let n = generated_answers.len();
    let mut count: usize = 0;
    let mut all_selected = true;
    for i in 0..n
        invariant
            n == generated_answers@.len(),
            count == count_correct_generated(exam_answers@, generated_answers@.take(i as int)),
            count <= i,
            all_selected == (forall|j: int|
                0 <= j < i && answer_id_correct(exam_answers@, #[trigger] generated_answers@[j])
                    ==> attempt_answers@.contains(generated_answers@[j])),
    {
        let g = generated_answers[i];
        if is_correct_answer_id(exam_answers, g) {
            count = count + 1;
            if !contains_id(attempt_answers, g) {
                all_selected = false;
            }
        }
        proof {
            assert(generated_answers@.take(i as int + 1).drop_last() =~= generated_answers@.take(
                i as int,
            ));
            assert(generated_answers@.take(i as int + 1).last() == generated_answers@[i as int]);
        }
    }
    proof {
        assert(generated_answers@.take(n as int) =~= generated_answers@);
    }
    all_selected && count == attempt_answers.len()
}

/// Total number of questions the generation offers.
pub open spec fn spec_total_generated(gen_sets: Seq<GeneratedQuestionSet>) -> nat
    decreases gen_sets.len(),
{
    if gen_sets.len() == 0 {
        0
    } else {
        gen_sets[0].questions@.len() + spec_total_generated(gen_sets.drop_first())
    }
}

/// Lifts `Ok(x) -> Ok(x + c)`, passing an error through.
pub open spec fn add_count(r: Result<nat, ScoreError>, c: nat) -> Result<nat, ScoreError> {
    match r {
        Ok(x) => Ok((x + c) as nat),
        Err(e) => Err(e),
    }
}

/// Number of correctly answered questions among one attempt question set,
/// joined against the exam's and the generation's question lists; or the
/// first join failure, in attempt order.
pub open spec fn spec_correct_in_set(
    exam_questions: Seq<Question>,
    gen_questions: Seq<GeneratedQuestion>,
    attempt_questions: Seq<QuestionAttempt>,
) -> Result<nat, ScoreError>
    decreases attempt_questions.len(),
{
    if attempt_questions.len() == 0 {
        Ok(0)
    } else {
        let aq = attempt_questions[0];
        match spec_find(exam_questions, aq.id) {
            None => Err(ScoreError::QuestionNotInExam(aq.id)),
            Some(eq) => match spec_find(gen_questions, aq.id) {
                None => Err(ScoreError::QuestionNotInGeneration(aq.id)),
                Some(gq) => add_count(
                    spec_correct_in_set(
                        exam_questions,
                        gen_questions,
                        attempt_questions.drop_first(),
                    ),
                    if spec_compare_answers(eq.answers@, gq.answers@, aq.answers@) {
                        1nat
                    } else {
                        0nat
                    },
                ),
            },
        }
    }
}

/// Number of correctly answered questions across the whole attempt, or the
/// first join failure, in attempt order.
pub open spec fn spec_score_counts(
    exam_sets: Seq<QuestionSet>,
    gen_sets: Seq<GeneratedQuestionSet>,
    attempt_sets: Seq<QuestionSetAttempt>,
) -> Result<nat, ScoreError>
    decreases attempt_sets.len(),
{
    if attempt_sets.len() == 0 {
        Ok(0)
    } else {
        let aset = attempt_sets[0];
        match spec_find(exam_sets, aset.id) {
            None => Err(ScoreError::QuestionSetNotInExam(aset.id)),
            Some(eset) => match spec_find(gen_sets, aset.id) {
                None => Err(ScoreError::QuestionSetNotInGeneration(aset.id)),
                Some(gset) => match spec_correct_in_set(
                    eset.questions@,
                    gset.questions@,
                    aset.questions@,
                ) {
                    Err(e) => Err(e),
                    Ok(c0) => add_count(
                        spec_score_counts(exam_sets, gen_sets, attempt_sets.drop_first()),
                        c0,
                    ),
                },
            },
        }
    }
}

/// The score in hundredths of a percent: `10_000` is 100%.
pub open spec fn spec_score_value(correct: nat, total: nat) -> nat
    recommends
        total > 0,
{
    ((correct * 10000) as int / (total as int)) as nat
}

/// An attempt references each question set once and, within a set, each
/// question once. Attempts built by the platform are append-only per
/// question, so well-formed attempts have this shape.
pub open spec fn attempt_questions_wf(qs: Seq<QuestionAttempt>) -> bool {
    forall|i: int, j: int| 0 <= i < j < qs.len() ==> qs[i].id != qs[j].id
}

/// Well-formedness of the attempt's references; see `attempt_questions_wf`.
pub open spec fn attempt_wf(sets: Seq<QuestionSetAttempt>) -> bool {
    &&& forall|i: int, j: int| 0 <= i < j < sets.len() ==> sets[i].id != sets[j].id
    &&& forall|k: int| 0 <= k < sets.len() ==> attempt_questions_wf(#[trigger] sets[k].questions@)
}

/// How many generated questions carry an id outside `used`.
pub open spec fn count_questions_excluding(gq: Seq<GeneratedQuestion>, used: Set<Id>) -> nat
    decreases gq.len(),
{
    if gq.len() == 0 {
        0
    } else {
        (if used.contains(gq[0].id) {
            0nat
        } else {
            1nat
        }) + count_questions_excluding(gq.drop_first(), used)
    }
}

/// How many questions the generated sets with an id outside `used` hold.
pub open spec fn total_excluding(gs: Seq<GeneratedQuestionSet>, used: Set<Id>) -> nat
    decreases gs.len(),
{
    if gs.len() == 0 {
        0
    } else {
        (if used.contains(gs[0].id) {
            0nat
        } else {
            gs[0].questions@.len()
        }) + total_excluding(gs.drop_first(), used)
    }
}

proof fn lemma_count_questions_excluding_le(gq: Seq<GeneratedQuestion>, used: Set<Id>)
    ensures
        count_questions_excluding(gq, used) <= gq.len(),
    decreases gq.len(),
{
    if gq.len() > 0 {
        lemma_count_questions_excluding_le(gq.drop_first(), used);
    }
}

proof fn lemma_count_questions_excluding_none(gq: Seq<GeneratedQuestion>)
    ensures
        count_questions_excluding(gq, Set::empty()) == gq.len(),
    decreases gq.len(),
{
    if gq.len() > 0 {
        lemma_count_questions_excluding_none(gq.drop_first());
    }
}

/// Excluding one more id whose question is present frees at least one count.
proof fn lemma_count_questions_excluding_insert(gq: Seq<GeneratedQuestion>, used: Set<Id>, x: Id)
    requires
        !used.contains(x),
    ensures
        count_questions_excluding(gq, used) >= count_questions_excluding(gq, used.insert(x)) + (
        if spec_find(gq, x) is Some {
            1nat
        } else {
            0nat
        }),
    decreases gq.len(),
{
    if gq.len() > 0 {
        lemma_count_questions_excluding_insert(gq.drop_first(), used, x);
    }
}

proof fn lemma_total_excluding_le(gs: Seq<GeneratedQuestionSet>, used: Set<Id>)
    ensures
        total_excluding(gs, used) <= spec_total_generated(gs),
    decreases gs.len(),
{
    if gs.len() > 0 {
        lemma_total_excluding_le(gs.drop_first(), used);
    }
}

/// Excluding one more id whose set is present frees at least that set's
/// question count.
proof fn lemma_total_excluding_insert(gs: Seq<GeneratedQuestionSet>, used: Set<Id>, x: Id)
    requires
        !used.contains(x),
        spec_find(gs, x) is Some,
    ensures
        total_excluding(gs, used) >= total_excluding(gs, used.insert(x)) + spec_find(
            gs,
            x,
        )->Some_0.questions@.len(),
    decreases gs.len(),
{
    if gs.len() > 0 {
        if gs[0].id == x {
            lemma_total_excluding_mono(gs.drop_first(), used, x);
        } else {
            lemma_total_excluding_insert(gs.drop_first(), used, x);
        }
    }
}

/// Excluding one more id never raises the remaining question count.
proof fn lemma_total_excluding_mono(gs: Seq<GeneratedQuestionSet>, used: Set<Id>, x: Id)
    ensures
        total_excluding(gs, used.insert(x)) <= total_excluding(gs, used),
    decreases gs.len(),
{
    if gs.len() > 0 {
        lemma_total_excluding_mono(gs.drop_first(), used, x);
    }
}

/// Within one question set, distinct attempt questions are matched against
/// distinct generated questions, so the correct count is bounded by the
/// number of generated questions whose id was still unused.
proof fn lemma_correct_in_set_bound(
    eq: Seq<Question>,
    gq: Seq<GeneratedQuestion>,
    aq: Seq<QuestionAttempt>,
    used: Set<Id>,
)
    requires
        attempt_questions_wf(aq),
        forall|i: int| 0 <= i < aq.len() ==> !used.contains(#[trigger] aq[i].id),
        spec_correct_in_set(eq, gq, aq) is Ok,
    ensures
        spec_correct_in_set(eq, gq, aq)->Ok_0 <= count_questions_excluding(gq, used),
    decreases aq.len(),
{
    if aq.len() > 0 {
        let aq0 = aq[0];
        let rest = aq.drop_first();
        assert(forall|i: int| 0 <= i < rest.len() ==> rest[i] == aq[i + 1]);
        let used1 = used.insert(aq0.id);
        lemma_correct_in_set_bound(eq, gq, rest, used1);
        lemma_count_questions_excluding_insert(gq, used, aq0.id);
    }
}

/// Distinct attempt question sets are matched against distinct generated
/// sets, so the overall correct count is bounded by the questions the
/// still-unused generated sets hold.
proof fn lemma_score_counts_bound_excluding(
    es: Seq<QuestionSet>,
    gs: Seq<GeneratedQuestionSet>,
    att: Seq<QuestionSetAttempt>,
    used: Set<Id>,
)
    requires
        attempt_wf(att),
        forall|i: int| 0 <= i < att.len() ==> !used.contains(#[trigger] att[i].id),
        spec_score_counts(es, gs, att) is Ok,
    ensures
        spec_score_counts(es, gs, att)->Ok_0 <= total_excluding(gs, used),
    decreases att.len(),
{
    if att.len() > 0 {
        let aset = att[0];
        let rest = att.drop_first();
        assert(forall|i: int| 0 <= i < rest.len() ==> rest[i] == att[i + 1]);
        let gset = spec_find(gs, aset.id)->Some_0;
        let c0 = spec_correct_in_set(
            spec_find(es, aset.id)->Some_0.questions@,
            gset.questions@,
            aset.questions@,
        )->Ok_0;
        assert(attempt_questions_wf(aset.questions@));
        lemma_correct_in_set_bound(
            spec_find(es, aset.id)->Some_0.questions@,
            gset.questions@,
            aset.questions@,
            Set::empty(),
        );
        lemma_count_questions_excluding_none(gset.questions@);
        let used1 = used.insert(aset.id);
        lemma_score_counts_bound_excluding(es, gs, rest, used1);
        lemma_total_excluding_insert(gs, used, aset.id);
    }
}

/// For a well-formed attempt, the correct count never exceeds the number of
/// generated questions.
pub proof fn lemma_score_counts_bound(
    es: Seq<QuestionSet>,
    gs: Seq<GeneratedQuestionSet>,
    att: Seq<QuestionSetAttempt>,
)
    requires
        attempt_wf(att),
        spec_score_counts(es, gs, att) is Ok,
    ensures
        spec_score_counts(es, gs, att)->Ok_0 <= spec_total_generated(gs),
{
    lemma_score_counts_bound_excluding(es, gs, att, Set::empty());
    lemma_total_excluding_le(gs, Set::empty());
}

/// Counts the correctly answered questions of one attempt question set, or
/// reports the first join failure.
fn count_correct_in_set(
    exam_questions: &Vec<Question>,
    gen_questions: &Vec<GeneratedQuestion>,
    attempt_questions: &Vec<QuestionAttempt>,
) -> (r: Result<usize, ScoreError>)
    ensures
        match r {
            Ok(c) => spec_correct_in_set(exam_questions@, gen_questions@, attempt_questions@)
                == Ok::<nat, ScoreError>(c as nat),
            Err(e) => spec_correct_in_set(exam_questions@, gen_questions@, attempt_questions@)
                == Err::<nat, ScoreError>(e),
        },
{
    let nq = attempt_questions.len();
    let mut c: usize = 0;
    proof {
        assert(attempt_questions@.skip(0) =~= attempt_questions@);
    }
    for j in 0..nq
        invariant
            nq == attempt_questions@.len(),
            c <= j,
            spec_correct_in_set(exam_questions@, gen_questions@, attempt_questions@) == add_count(
                spec_correct_in_set(
                    exam_questions@,
                    gen_questions@,
                    attempt_questions@.skip(j as int),
                ),
                c as nat,
            ),
    {
        proof {
            assert(attempt_questions@.skip(j as int)[0] == attempt_questions@[j as int]);
            assert(attempt_questions@.skip(j as int).drop_first() =~= attempt_questions@.skip(
                j as int + 1,
            ));
        }
        let aq = &attempt_questions[j];
        let eq = match find_by_key(exam_questions, aq.id) {
            Some(q) => q,
            None => {
                return Err(ScoreError::QuestionNotInExam(aq.id));
            },
        };
        let gq = match find_by_key(gen_questions, aq.id) {
            Some(q) => q,
            None => {
                return Err(ScoreError::QuestionNotInGeneration(aq.id));
            },
        };
        if compare_answers(&eq.answers, &gq.answers, &aq.answers) {
            c = c + 1;
        }
    }
    proof {
        assert(attempt_questions@.skip(nq as int) =~= Seq::<QuestionAttempt>::empty());
    }
    Ok(c)
}

/// Computes the attempt's score in hundredths of a percent: the share of
/// generated questions that were answered correctly, or the first join
/// failure in attempt order, or `NoGeneratedQuestions` when the generation
/// offers no question at all.
pub fn calculate_score(
    exam: &Exam,
    generated_exam: &GeneratedExam,
    attempt: &ExamAttempt,
) -> (r: Result<u64, ScoreError>)
    requires
        attempt_wf(attempt.question_sets@),
        spec_total_generated(generated_exam.question_sets@) <= usize::MAX,
    ensures
        ({
            let counts = spec_score_counts(
                exam.question_sets@,
                generated_exam.question_sets@,
                attempt.question_sets@,
            );
            let total = spec_total_generated(generated_exam.question_sets@);
            match counts {
                Err(e) => r == Err::<u64, ScoreError>(e),
                Ok(c) => if total == 0 {
                    r == Err::<u64, ScoreError>(ScoreError::NoGeneratedQuestions)
                } else {
                    r == Ok::<u64, ScoreError>(spec_score_value(c, total) as u64)
                        && spec_score_value(c, total) <= 10000
                },
            }
        }),
{
    let ghost es = exam.question_sets@;
    let ghost gs = generated_exam.question_sets@;
    let ghost att = attempt.question_sets@;

    // Total number of generated questions.
    let ngen = generated_exam.question_sets.len();
    let mut total: u64 = 0;
    proof {
        assert(gs.skip(0) =~= gs);
    }
    for i in 0..ngen
        invariant
            ngen == gs.len(),
            gs == generated_exam.question_sets@,
            spec_total_generated(gs) <= usize::MAX,
            spec_total_generated(gs) == total + spec_total_generated(gs.skip(i as int)),
    {
        proof {
            assert(gs.skip(i as int)[0] == gs[i as int]);
            assert(gs.skip(i as int).drop_first() =~= gs.skip(i as int + 1));
        }
        total = total + generated_exam.question_sets[i].questions.len() as u64;
    }
    proof {
        assert(gs.skip(ngen as int) =~= Seq::<GeneratedQuestionSet>::empty());
    }

    // Correct answers across the attempt.
    let natt = attempt.question_sets.len();
    let mut correct: u64 = 0;
    proof {
        assert(att.skip(0) =~= att);
        assert(att.take(0) =~= Seq::<QuestionSetAttempt>::empty());
    }
    for i in 0..natt
        invariant
            natt == att.len(),
            es == exam.question_sets@,
            gs == generated_exam.question_sets@,
            att == attempt.question_sets@,
            attempt_wf(att),
            spec_total_generated(gs) <= usize::MAX,
            total == spec_total_generated(gs),
            spec_score_counts(es, gs, att) == add_count(
                spec_score_counts(es, gs, att.skip(i as int)),
                correct as nat,
            ),
            spec_score_counts(es, gs, att.take(i as int)) == Ok::<nat, ScoreError>(correct as nat),
    {
        proof {
            assert(att.skip(i as int)[0] == att[i as int]);
            assert(att.skip(i as int).drop_first() =~= att.skip(i as int + 1));
        }
        let aset = &attempt.question_sets[i];
        let eset = match find_by_key(&exam.question_sets, aset.id) {
            Some(s) => s,
            None => {
                return Err(ScoreError::QuestionSetNotInExam(aset.id));
            },
        };
        let gset = match find_by_key(&generated_exam.question_sets, aset.id) {
            Some(s) => s,
            None => {
                return Err(ScoreError::QuestionSetNotInGeneration(aset.id));
            },
        };
        let c0 = match count_correct_in_set(&eset.questions, &gset.questions, &aset.questions) {
            Ok(c) => c,
            Err(e) => {
                return Err(e);
            },
        };
        proof {
            let prefix = att.take(i as int);
            let next = att.take(i as int + 1);
            assert(next =~= prefix + seq![att[i as int]]);
            lemma_score_counts_concat(es, gs, prefix, seq![att[i as int]]);
            let one = seq![att[i as int]];
            assert(one.drop_first() =~= Seq::<QuestionSetAttempt>::empty());
            assert(one[0] == att[i as int]);
            assert(att[i as int] == attempt.question_sets@[i as int]);
            assert(spec_find(es, one[0].id) == Some(*eset));
            assert(spec_find(gs, one[0].id) == Some(*gset));
            assert(spec_correct_in_set(eset.questions@, gset.questions@, one[0].questions@)
                == Ok::<nat, ScoreError>(c0 as nat));
            assert(spec_score_counts(es, gs, one.drop_first()) == Ok::<nat, ScoreError>(0nat));
            assert(spec_score_counts(es, gs, one) == Ok::<nat, ScoreError>(c0 as nat));
            assert(spec_score_counts(es, gs, next) == Ok::<nat, ScoreError>(
                (correct + c0) as nat,
            ));
            // The prefix is well formed, so its count is bounded by the
            // generated total; this keeps the running sum in range.
            assert(attempt_wf(next)) by {
                assert(forall|k: int| 0 <= k < next.len() ==> next[k] == att[k]);
                assert(forall|a: int, b: int|
                    0 <= a < b < next.len() ==> next[a].id != next[b].id);
                assert(forall|k: int|
                    0 <= k < next.len() ==> attempt_questions_wf(#[trigger] next[k].questions@));
            }
            lemma_score_counts_bound(es, gs, next);
        }
        correct = correct + c0 as u64;
    }
    proof {
        assert(att.skip(natt as int) =~= Seq::<QuestionSetAttempt>::empty());
    }

    if total == 0 {
        return Err(ScoreError::NoGeneratedQuestions);
    }
    proof {
        lemma_score_counts_bound(es, gs, att);
        assert(correct * 10000 <= total * 10000) by (nonlinear_arith)
            requires
                correct <= total,
        ;
        vstd::arithmetic::div_mod::lemma_multiply_divide_le(
            correct as int * 10000,
            total as int,
            10000,
        );
        assert(total as int * 10000 == 10000 * total as int) by (nonlinear_arith);
    }
    let score = ((correct as u128) * 10000 / (total as u128)) as u64;
    Ok(score)
}

/// Whether the attempt's score reaches the exam's passing threshold. A score
/// that cannot be computed counts as a fail.
pub open spec fn spec_check_attempt_pass(
    exam: Exam,
    generated_exam: GeneratedExam,
    attempt: ExamAttempt,
) -> bool {
    let counts = spec_score_counts(
        exam.question_sets@,
        generated_exam.question_sets@,
        attempt.question_sets@,
    );
    let total = spec_total_generated(generated_exam.question_sets@);
    &&& counts is Ok
    &&& total > 0
    &&& spec_score_value(counts->Ok_0, total) >= exam.config.passing_percent_hundredths
}

/// Calculates the attempt score and compares it against the exam's passing
/// threshold; any scoring error counts as a fail.
pub fn check_attempt_pass(
    exam: &Exam,
    generated_exam: &GeneratedExam,
    attempt: &ExamAttempt,
) -> (r: bool)
    requires
        attempt_wf(attempt.question_sets@),
        spec_total_generated(generated_exam.question_sets@) <= usize::MAX,
    ensures
        r == spec_check_attempt_pass(*exam, *generated_exam, *attempt),
{
    match calculate_score(exam, generated_exam, attempt) {
        Ok(score) => score >= exam.config.passing_percent_hundredths as u64,
        Err(_) => false,
    }
}

/// Whether the attempt references each question set once and, within a
/// set, each question once.
pub fn attempt_references_unique(attempt: &ExamAttempt) -> (r: bool)
    ensures
        r == attempt_wf(attempt.question_sets@),
{
    let sets = &attempt.question_sets;
    let n = sets.len();
    for i in 0..n
        invariant
            n == sets@.len(),
            sets@ == attempt.question_sets@,
            forall|a: int, b: int| 0 <= a < b < i ==> sets@[a].id != sets@[b].id,
            forall|k: int| 0 <= k < i ==> attempt_questions_wf(#[trigger] sets@[k].questions@),
    {
        for j in 0..i
            invariant
                n == sets@.len(),
                sets@ == attempt.question_sets@,
                i < n,
                forall|b: int| 0 <= b < j ==> sets@[b].id != sets@[i as int].id,
        {
            if sets[j].id == sets[i].id {
                proof {
                    let ss = attempt.question_sets@;
                    assert(ss[j as int].id == ss[i as int].id);
                    if attempt_wf(ss) {
                        assert(ss[j as int].id != ss[i as int].id);
                    }
                }
                return false;
            }
        }
        let qs = &sets[i].questions;
        let nq = qs.len();
        for a in 0..nq
            invariant
                n == sets@.len(),
                sets@ == attempt.question_sets@,
                i < n,
                nq == qs@.len(),
                qs == sets@[i as int].questions,
                forall|x: int, y: int| 0 <= x < y < a ==> qs@[x].id != qs@[y].id,
        {
            for b in 0..a
                invariant
                    n == sets@.len(),
                    sets@ == attempt.question_sets@,
                    i < n,
                    nq == qs@.len(),
                    a < nq,
                    qs == sets@[i as int].questions,
                    forall|y: int| 0 <= y < b ==> qs@[y].id != qs@[a as int].id,
            {
                if qs[b].id == qs[a].id {
                    proof {
                        let ss = attempt.question_sets@;
                        let qq = ss[i as int].questions@;
                        assert(qq[b as int].id == qq[a as int].id);
                        if attempt_wf(ss) {
                            assert(attempt_questions_wf(qq));
                            assert(qq[b as int].id != qq[a as int].id);
                        }
                    }
                    return false;
                }
            }
        }
        proof {
            assert(attempt_questions_wf(sets@[i as int].questions@));
        }
    }
    true
}

/// Whether the generation's question count fits the machine's index range,
/// the bound the scorer relies on.
pub fn generated_total_in_bounds(generated_exam: &GeneratedExam) -> (r: bool)
    ensures
        r == (spec_total_generated(generated_exam.question_sets@) <= usize::MAX),
{
    let gs = &generated_exam.question_sets;
    let n = gs.len();
    let mut total: u128 = 0;
    proof {
        assert(gs@.skip(0) =~= gs@);
    }
    for i in 0..n
        invariant
            n == gs@.len(),
            total <= (i as u128) * (usize::MAX as u128),
            spec_total_generated(gs@) == total + spec_total_generated(gs@.skip(i as int)),
    {
        proof {
            assert(gs@.skip(i as int)[0] == gs@[i as int]);
            assert(gs@.skip(i as int).drop_first() =~= gs@.skip(i as int + 1));
            assert((i as u128 + 1) * (usize::MAX as u128) == (i as u128) * (usize::MAX as u128) + (
            usize::MAX as u128)) by (nonlinear_arith);
            assert((i as u128 + 1) * (usize::MAX as u128) <= (usize::MAX as u128) * (
            usize::MAX as u128)) by (nonlinear_arith)
                requires
                    i as u128 + 1 <= usize::MAX as u128,
            ;
        }
        total = total + gs[i].questions.len() as u128;
    }
    proof {
        assert(gs@.skip(n as int) =~= Seq::<GeneratedQuestionSet>::empty());
    }
    total <= usize::MAX as u128
}

/// Computes the score after testing the scorer's own conditions: a
/// well-formed attempt and an indexable generation. `None` says the data
/// failed those gates, never a scoring verdict.
pub fn try_calculate_score(
    exam: &Exam,
    generated_exam: &GeneratedExam,
    attempt: &ExamAttempt,
) -> (r: Option<Result<u64, ScoreError>>)
    ensures
        match r {
            Some(score) => attempt_wf(attempt.question_sets@) && (match spec_score_counts(
                exam.question_sets@,
                generated_exam.question_sets@,
                attempt.question_sets@,
            ) {
                Err(e) => score == Err::<u64, ScoreError>(e),
                Ok(c) => {
                    let total = spec_total_generated(generated_exam.question_sets@);
                    if total == 0 {
                        score == Err::<u64, ScoreError>(ScoreError::NoGeneratedQuestions)
                    } else {
                        score == Ok::<u64, ScoreError>(spec_score_value(c, total) as u64)
                    }
                },
            }),
            None => !(attempt_wf(attempt.question_sets@) && spec_total_generated(
                generated_exam.question_sets@,
            ) <= usize::MAX),
        },
{
    if !attempt_references_unique(attempt) {
        return None;
    }
    if !generated_total_in_bounds(generated_exam) {
        return None;
    }
    Some(calculate_score(exam, generated_exam, attempt))
}

/// Checks the pass decision after testing the scorer's own conditions: a
/// well-formed attempt and an indexable generation. `None` says which gate
/// failed the caller's data, never a scoring verdict.
pub fn try_check_attempt_pass(
    exam: &Exam,
    generated_exam: &GeneratedExam,
    attempt: &ExamAttempt,
) -> (r: Option<bool>)
    ensures
        match r {
            Some(b) => attempt_wf(attempt.question_sets@) && spec_total_generated(
                generated_exam.question_sets@,
            ) <= usize::MAX && b == spec_check_attempt_pass(*exam, *generated_exam, *attempt),
            None => !(attempt_wf(attempt.question_sets@) && spec_total_generated(
                generated_exam.question_sets@,
            ) <= usize::MAX),
        },
{
    if !attempt_references_unique(attempt) {
        return None;
    }
    if !generated_total_in_bounds(generated_exam) {
        return None;
    }
    Some(check_attempt_pass(exam, generated_exam, attempt))
}

/// The score of a well-formed attempt lies between 0 and 100 percent, and it
/// is exactly 100 percent precisely when every generated question was
/// answered correctly (the correct count equals the generated total).
pub proof fn lemma_score_range_and_perfection(
    es: Seq<QuestionSet>,
    gs: Seq<GeneratedQuestionSet>,
    att: Seq<QuestionSetAttempt>,
)
    requires
        attempt_wf(att),
        spec_score_counts(es, gs, att) is Ok,
        spec_total_generated(gs) > 0,
    ensures
        spec_score_value(spec_score_counts(es, gs, att)->Ok_0, spec_total_generated(gs)) <= 10000,
        spec_score_value(spec_score_counts(es, gs, att)->Ok_0, spec_total_generated(gs)) == 10000
            <==> spec_score_counts(es, gs, att)->Ok_0 == spec_total_generated(gs),
{
    let c = spec_score_counts(es, gs, att)->Ok_0;
    let total = spec_total_generated(gs);
    lemma_score_counts_bound(es, gs, att);
    assert(c * 10000 <= total * 10000) by (nonlinear_arith)
        requires
            c <= total,
    ;
    vstd::arithmetic::div_mod::lemma_multiply_divide_le(c as int * 10000, total as int, 10000);
    if c == total {
        vstd::arithmetic::div_mod::lemma_div_by_multiple(10000, total as int);
        assert(c * 10000 == 10000 * total as int) by (nonlinear_arith)
            requires
                c == total,
        ;
    }
    if c < total {
        assert(c * 10000 < total as int * 10000) by (nonlinear_arith)
            requires
                c < total,
        ;
        vstd::arithmetic::div_mod::lemma_multiply_divide_lt(c as int * 10000, total as int, 10000);
    }
}

/// Splitting the attempt sets splits the count; an early error wins.
proof fn lemma_score_counts_concat(
    es: Seq<QuestionSet>,
    gs: Seq<GeneratedQuestionSet>,
    a: Seq<QuestionSetAttempt>,
    b: Seq<QuestionSetAttempt>,
)
    ensures
        spec_score_counts(es, gs, a + b) == (match spec_score_counts(es, gs, a) {
            Err(e) => Err::<nat, ScoreError>(e),
            Ok(ca) => add_count(spec_score_counts(es, gs, b), ca),
        }),
    decreases a.len(),
{
    if a.len() == 0 {
        assert(a + b =~= b);
    } else {
        assert((a + b).drop_first() =~= a.drop_first() + b);
        lemma_score_counts_concat(es, gs, a.drop_first(), b);
    }
}

} // verus!


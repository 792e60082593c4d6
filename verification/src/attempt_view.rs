//! Attempt assembler: joins an exam template, a generation and a raw
//! attempt into one denormalised view used by scoring and by the
//! moderation scorer.
//!
//! The view carries, per template question: all template answers, the
//! answer ids the generation offered, the answer ids the user selected,
//! and the submission instant. A question set or question the attempt or
//! the generation does not hold yields empty projections — the user may
//! simply not have answered it.

use vstd::prelude::*;

use crate::lookup::spec_find;
use crate::records::{
    clone_answers, clone_config, clone_id_vec, clone_opt_audio, clone_opt_string,
    clone_string_vec, config_like, Answer, Audio, Config, Exam, ExamAttempt, GeneratedExam, Id,
    QuestionType,
};

verus! {

/// The denormalised join of attempt, exam template and generation.
#[derive(Clone, Debug)]
pub struct Attempt {
    pub id: Id,
    pub exam_id: Id,
    pub user_id: Id,
    pub prerequisites: Vec<Id>,
    pub deprecated: bool,
    pub question_sets: Vec<AttemptQuestionSet>,
    pub config: Config,
    pub start_time_ms: i64,
}

/// One question set of the attempt view.
#[derive(Clone, Debug)]
pub struct AttemptQuestionSet {
    pub id: Id,
    pub set_type: QuestionType,
    pub context: Option<String>,
    pub questions: Vec<AttemptQuestionSetQuestion>,
}

/// One question of the attempt view, with all three projections filled.
#[derive(Clone, Debug)]
pub struct AttemptQuestionSetQuestion {
    pub id: Id,
    pub text: String,
    pub tags: Vec<String>,
    pub deprecated: bool,
    pub audio: Option<Audio>,
    /// All answers available in the exam template.
    pub answers: Vec<Answer>,
    /// Only the answers submitted in the attempt.
    pub selected: Vec<Id>,
    /// Only the answers shown from the generation.
    pub generated: Vec<Id>,
    /// When the question was submitted, if it was.
    pub submission_time_ms: Option<i64>,
}

/// The answer ids the user selected for question `qid` of set `sid`, or
/// empty if the attempt does not hold them.
pub open spec fn spec_selected(attempt: ExamAttempt, sid: Id, qid: Id) -> Seq<Id> {
    match spec_find(attempt.question_sets@, sid) {
        None => Seq::empty(),
        Some(aset) => match spec_find(aset.questions@, qid) {
            None => Seq::empty(),
            Some(aq) => aq.answers@,
        },
    }
}

/// The submission instant of question `qid` of set `sid`, if the attempt
/// holds it.
pub open spec fn spec_submission(attempt: ExamAttempt, sid: Id, qid: Id) -> Option<i64> {
    match spec_find(attempt.question_sets@, sid) {
        None => None,
        Some(aset) => match spec_find(aset.questions@, qid) {
            None => None,
            Some(aq) => Some(aq.submission_time_ms),
        },
    }
}

/// The answer ids the generation offered for question `qid` of set `sid`,
/// or empty if the generation does not hold them.
pub open spec fn spec_generated(generation: GeneratedExam, sid: Id, qid: Id) -> Seq<Id> {
    match spec_find(generation.question_sets@, sid) {
        None => Seq::empty(),
        Some(gset) => match spec_find(gset.questions@, qid) {
            None => Seq::empty(),
            Some(gq) => gq.answers@,
        },
    }
}

/// What one view question must hold for template question `q` of set `sid`.
pub open spec fn view_question_ok(
    exam: Exam,
    generation: GeneratedExam,
    attempt: ExamAttempt,
    sid: Id,
    q: crate::records::Question,
    vq: AttemptQuestionSetQuestion,
) -> bool {
    &&& vq.id == q.id
    &&& vq.text == q.text
    &&& vq.tags@ == q.tags@
    &&& vq.deprecated == q.deprecated
    &&& vq.audio == q.audio
    &&& vq.answers@ == q.answers@
    &&& vq.selected@ == spec_selected(attempt, sid, q.id)
    &&& vq.generated@ == spec_generated(generation, sid, q.id)
    &&& vq.submission_time_ms == spec_submission(attempt, sid, q.id)
}

/// What the whole view must hold, relative to its three sources.
pub open spec fn view_ok(
    exam: Exam,
    generation: GeneratedExam,
    attempt: ExamAttempt,
    r: Attempt,
) -> bool {
    &&& r.id == attempt.id
    &&& r.exam_id == attempt.exam_id
    &&& r.user_id == attempt.user_id
    &&& r.prerequisites@ == exam.prerequisites@
    &&& r.deprecated == exam.deprecated
    &&& r.start_time_ms == attempt.start_time_ms
    &&& config_like(r.config, exam.config)
    &&& r.question_sets@.len() == exam.question_sets@.len()
    &&& forall|i: int|
        0 <= i < exam.question_sets@.len() ==> {
            let es = exam.question_sets@[i];
            let rs = #[trigger] r.question_sets@[i];
            &&& rs.id == es.id
            &&& rs.set_type == es.set_type
            &&& rs.context == es.context
            &&& rs.questions@.len() == es.questions@.len()
            &&& forall|j: int|
                0 <= j < es.questions@.len() ==> view_question_ok(
                    exam,
                    generation,
                    attempt,
                    es.id,
                    es.questions@[j],
                    #[trigger] rs.questions@[j],
                )
        }
}

/// Builds the attempt view: every template question set and question, with
/// the user's selection, the generation's offer and the submission instant
/// joined in; missing attempt or generation rows yield empty projections.
pub fn construct_attempt(
    exam: &Exam,
    generation: &GeneratedExam,
    exam_attempt: &ExamAttempt,
) -> (r: Attempt)
    ensures
        view_ok(*exam, *generation, *exam_attempt, r),
{
    let mut view_sets: Vec<AttemptQuestionSet> = Vec::new();
    let nsets = exam.question_sets.len();
    for i in 0..nsets
        invariant
            nsets == exam.question_sets@.len(),
            view_sets@.len() == i,
            forall|k: int|
                0 <= k < i ==> {
                    let es = exam.question_sets@[k];
                    let rs = #[trigger] view_sets@[k];
                    &&& rs.id == es.id
                    &&& rs.set_type == es.set_type
                    &&& rs.context == es.context
                    &&& rs.questions@.len() == es.questions@.len()
                    &&& forall|j: int|
                        0 <= j < es.questions@.len() ==> view_question_ok(
                            *exam,
                            *generation,
                            *exam_attempt,
                            es.id,
                            es.questions@[j],
                            #[trigger] rs.questions@[j],
                        )
                },
    {
        let question_set = &exam.question_sets[i];
        let set_id = question_set.id;

        let attempt_set = crate::lookup::find_by_key(&exam_attempt.question_sets, set_id);
        let generation_set = crate::lookup::find_by_key(&generation.question_sets, set_id);

        let mut view_questions: Vec<AttemptQuestionSetQuestion> = Vec::new();
        let nq = question_set.questions.len();
        for j in 0..nq
            invariant
                nsets == exam.question_sets@.len(),
                i < nsets,
                nq == exam.question_sets@[i as int].questions@.len(),
                question_set == exam.question_sets@[i as int],
                set_id == exam.question_sets@[i as int].id,
                match attempt_set {
                    Some(s) => spec_find(exam_attempt.question_sets@, set_id) == Some(*s),
                    None => spec_find(exam_attempt.question_sets@, set_id) is None,
                },
                match generation_set {
                    Some(s) => spec_find(generation.question_sets@, set_id) == Some(*s),
                    None => spec_find(generation.question_sets@, set_id) is None,
                },
                view_questions@.len() == j,
                forall|k: int|
                    0 <= k < j ==> view_question_ok(
                        *exam,
                        *generation,
                        *exam_attempt,
                        set_id,
                        exam.question_sets@[i as int].questions@[k],
                        #[trigger] view_questions@[k],
                    ),
        {
            let question = &question_set.questions[j];
            let qid = question.id;

            let mut selected: Vec<Id> = Vec::new();
            let mut submission_time_ms: Option<i64> = None;
            if let Some(aset) = attempt_set {
                if let Some(aq) = crate::lookup::find_by_key(&aset.questions, qid) {
                    selected = clone_id_vec(&aq.answers);
                    submission_time_ms = Some(aq.submission_time_ms);
                }
            }

            let mut generated: Vec<Id> = Vec::new();
            if let Some(gset) = generation_set {
                if let Some(gq) = crate::lookup::find_by_key(&gset.questions, qid) {
                    generated = clone_id_vec(&gq.answers);
                }
            }

            let vq = AttemptQuestionSetQuestion {
                id: qid,
                text: question.text.clone(),
                tags: clone_string_vec(&question.tags),
                deprecated: question.deprecated,
                audio: clone_opt_audio(&question.audio),
                answers: clone_answers(&question.answers),
                selected,
                generated,
                submission_time_ms,
            };
            proof {
                assert(view_question_ok(
                    *exam,
                    *generation,
                    *exam_attempt,
                    set_id,
                    exam.question_sets@[i as int].questions@[j as int],
                    vq,
                ));
            }
            view_questions.push(vq);
        }

        let vs = AttemptQuestionSet {
            id: set_id,
            set_type: question_set.set_type,
            context: clone_opt_string(&question_set.context),
            questions: view_questions,
        };
        view_sets.push(vs);
    }

    Attempt {
        id: exam_attempt.id,
        exam_id: exam_attempt.exam_id,
        user_id: exam_attempt.user_id,
        prerequisites: clone_id_vec(&exam.prerequisites),
        deprecated: exam.deprecated,
        question_sets: view_sets,
        config: clone_config(&exam.config),
        start_time_ms: exam_attempt.start_time_ms,
    }
}

} // verus!

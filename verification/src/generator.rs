//! Exam generator: from a template, a seed and a fresh id, produce a
//! concrete per-user exam instance that satisfies every question-set quota
//! and every tag quota, without duplicating content.
//!
//! The inputs are first normalised: deprecated questions are dropped, and
//! the order of answers, questions, sets and same-type set configs is
//! shuffled under the seed, so a fixed seed drives a fixed outcome. The
//! allocation then runs in two phases per set config — a tag-driven pass
//! that prefers questions carrying still-needed tag groups, and a fill
//! pass that completes the remaining capacity — and ends with a
//! reconciliation pass that recounts every tag quota over the chosen
//! questions and rejects the result if one is unsatisfied.
//!
//! A successful generation is guaranteed, by verified final checks, to
//! carry exactly the configured number of sets, questions and answer ids,
//! to satisfy every tag quota against the template, and to be free of
//! identifier collisions.

use vstd::prelude::*;

use vstd::multiset::Multiset;

use crate::config_validator::{
    count_correct_exec, count_incorrect_exec, has_all_tags, question_has_tags,
};
use crate::error::{Error, GenerationError};
use crate::generation_validator::{
    collect_gen_ids, find_first_duplicate, gen_ids_unique, lemma_first_dup_none_iff,
};
use crate::lookup::spec_find;
use crate::records::{
    clone_answers, clone_opt_audio, clone_opt_string, clone_string_vec, clone_tag_configs,
    Answer, ExamInput, GeneratedExam, GeneratedQuestion, GeneratedQuestionSet, Id, Question,
    QuestionSet, QuestionSetConfig, TagConfig,
};
use crate::rng::{rng_from_seed, shuffle_vec};

verus! {

broadcast use vstd::seq_lib::group_to_multiset_ensures;

/// A question offer is sound for its source set: the set holds a
/// non-deprecated question with this id, and the offered answer ids are
/// that question's answers with the configured incorrect ones first, then
/// the configured correct ones — correctness judged by the source
/// question's own answer list.
pub open spec fn question_source_ok(
    ts: QuestionSet,
    qid: Id,
    ids: Seq<Id>,
    c: QuestionSetConfig,
) -> bool {
    match spec_find(ts.questions@, qid) {
        Some(tq) => {
            &&& !tq.deprecated
            &&& ids.len() == c.number_of_correct_answers + c.number_of_incorrect_answers
            &&& forall|k: int|
                0 <= k < ids.len() ==> (match spec_find(tq.answers@, #[trigger] ids[k]) {
                    Some(a) => a.is_correct == (k >= c.number_of_incorrect_answers),
                    None => false,
                })
        },
        None => false,
    }
}

/// The generated set was drawn from the template set with its id: that set
/// exists, has the config's type, and holds every offered question.
pub open spec fn set_source_ok(
    template: Seq<QuestionSet>,
    c: QuestionSetConfig,
    s: GeneratedQuestionSet,
) -> bool {
    match spec_find(template, s.id) {
        Some(ts) => ts.set_type == c.set_type && forall|j: int|
            0 <= j < s.questions@.len() ==> question_source_ok(
                ts,
                (#[trigger] s.questions@[j]).id,
                s.questions@[j].answers@,
                c,
            ),
        None => false,
    }
}

/// One generated set fills the config exactly: the configured number of
/// questions, drawn from the template set carrying its id, each question
/// non-deprecated and offering the configured answer ids, incorrect block
/// first.
pub open spec fn set_fills(
    template: Seq<QuestionSet>,
    c: QuestionSetConfig,
    s: GeneratedQuestionSet,
) -> bool {
    &&& s.questions@.len() == c.number_of_questions
    &&& set_source_ok(template, c, s)
}

/// The generated sets are exactly one block per config, in config order:
/// each block holds the config's number of sets, each filled exactly.
pub open spec fn sets_match(
    template: Seq<QuestionSet>,
    cfgs: Seq<QuestionSetConfig>,
    sets: Seq<GeneratedQuestionSet>,
) -> bool
    decreases cfgs.len(),
{
    if cfgs.len() == 0 {
        sets.len() == 0
    } else {
        let k = cfgs[0].number_of_set as int;
        &&& sets.len() >= k
        &&& forall|i: int| 0 <= i < k ==> set_fills(template, cfgs[0], #[trigger] sets[i])
        &&& sets_match(template, cfgs.drop_first(), sets.skip(k))
    }
}

/// Blocks compose: matching halves concatenate to a matching whole.
proof fn lemma_sets_match_concat(
    template: Seq<QuestionSet>,
    a: Seq<QuestionSetConfig>,
    b: Seq<QuestionSetConfig>,
    s: Seq<GeneratedQuestionSet>,
    t: Seq<GeneratedQuestionSet>,
)
    requires
        sets_match(template, a, s),
        sets_match(template, b, t),
    ensures
        sets_match(template, a + b, s + t),
    decreases a.len(),
{
    if a.len() == 0 {
        assert(a + b =~= b);
        assert(s + t =~= t);
    } else {
        let k = a[0].number_of_set as int;
        assert((a + b).drop_first() =~= a.drop_first() + b);
        assert((a + b)[0] == a[0]);
        assert(s.skip(k) + t =~= (s + t).skip(k));
        assert(forall|i: int| 0 <= i < k ==> (s + t)[i] == s[i]);
        lemma_sets_match_concat(template, a.drop_first(), b, s.skip(k), t);
    }
}

/// The first template question with this id, scanning sets in order.
pub open spec fn spec_find_template_question(sets: Seq<QuestionSet>, qid: Id) -> Option<Question>
    decreases sets.len(),
{
    if sets.len() == 0 {
        None
    } else {
        match spec_find(sets[0].questions@, qid) {
            Some(q) => Some(q),
            None => spec_find_template_question(sets.drop_first(), qid),
        }
    }
}

/// Whether a generated question counts toward a tag group: its template
/// question carries every tag of the group.
pub open spec fn gen_question_tagged(
    template: Seq<QuestionSet>,
    gq: GeneratedQuestion,
    group: Seq<String>,
) -> bool {
    match spec_find_template_question(template, gq.id) {
        Some(tq) => question_has_tags(tq, group),
        None => false,
    }
}

/// How many questions of one generated set count toward the group.
pub open spec fn count_gen_tagged_in(
    template: Seq<QuestionSet>,
    qs: Seq<GeneratedQuestion>,
    group: Seq<String>,
) -> nat
    decreases qs.len(),
{
    if qs.len() == 0 {
        0
    } else {
        (if gen_question_tagged(template, qs[0], group) {
            1nat
        } else {
            0nat
        }) + count_gen_tagged_in(template, qs.drop_first(), group)
    }
}

/// How many questions of the generation count toward the group.
pub open spec fn count_gen_tagged(
    template: Seq<QuestionSet>,
    gsets: Seq<GeneratedQuestionSet>,
    group: Seq<String>,
) -> nat
    decreases gsets.len(),
{
    if gsets.len() == 0 {
        0
    } else {
        count_gen_tagged_in(template, gsets[0].questions@, group) + count_gen_tagged(
            template,
            gsets.drop_first(),
            group,
        )
    }
}

/// Every tag quota of the template is satisfied by the generation.
pub open spec fn tags_satisfied(exam: ExamInput, gsets: Seq<GeneratedQuestionSet>) -> bool {
    forall|k: int|
        0 <= k < exam.config.tags@.len() ==> count_gen_tagged(
            exam.question_sets@,
            gsets,
            #[trigger] exam.config.tags@[k].group@,
        ) >= exam.config.tags@[k].number_of_questions
}

/// Finds the first template question with this id.
fn find_template_question<'a>(sets: &'a Vec<QuestionSet>, qid: Id) -> (r: Option<&'a Question>)
    ensures
        match r {
            Some(q) => spec_find_template_question(sets@, qid) == Some(*q),
            None => spec_find_template_question(sets@, qid) is None,
        },
{
    let n = sets.len();
    proof {
        assert(sets@.skip(0) =~= sets@);
    }
    for i in 0..n
        invariant
            n == sets@.len(),
            spec_find_template_question(sets@, qid) == spec_find_template_question(
                sets@.skip(i as int),
                qid,
            ),
    {
        proof {
            assert(sets@.skip(i as int)[0] == sets@[i as int]);
            assert(sets@.skip(i as int).drop_first() =~= sets@.skip(i as int + 1));
        }
        if let Some(q) = crate::lookup::find_by_key(&sets[i].questions, qid) {
            return Some(q);
        }
    }
    proof {
        assert(sets@.skip(n as int) =~= Seq::<QuestionSet>::empty());
    }
    None
}

/// Counts the questions of one generated set that count toward the group.
fn count_gen_tagged_in_exec(
    template: &Vec<QuestionSet>,
    qs: &Vec<GeneratedQuestion>,
    group: &Vec<String>,
) -> (r: usize)
    ensures
        r == count_gen_tagged_in(template@, qs@, group@),
        r <= qs@.len(),
{
    let n = qs.len();
    let mut c: usize = 0;
    proof {
        assert(qs@.skip(0) =~= qs@);
    }
    for i in 0..n
        invariant
            n == qs@.len(),
            c <= i,
            count_gen_tagged_in(template@, qs@, group@) == c + count_gen_tagged_in(
                template@,
                qs@.skip(i as int),
                group@,
            ),
    {
        proof {
            assert(qs@.skip(i as int)[0] == qs@[i as int]);
            assert(qs@.skip(i as int).drop_first() =~= qs@.skip(i as int + 1));
        }
        let counted = match find_template_question(template, qs[i].id) {
            Some(tq) => has_all_tags(tq, group),
            None => false,
        };
        if counted {
            c = c + 1;
        }
    }
    proof {
        assert(qs@.skip(n as int) =~= Seq::<GeneratedQuestion>::empty());
    }
    c
}

/// Counts the questions of the generation that count toward the group.
fn count_gen_tagged_exec(
    template: &Vec<QuestionSet>,
    gsets: &Vec<GeneratedQuestionSet>,
    group: &Vec<String>,
) -> (r: u128)
    ensures
        r == count_gen_tagged(template@, gsets@, group@),
{
    let n = gsets.len();
    let mut c: u128 = 0;
    proof {
        assert(gsets@.skip(0) =~= gsets@);
    }
    for i in 0..n
        invariant
            n == gsets@.len(),
            c <= (i as u128) * (usize::MAX as u128),
            count_gen_tagged(template@, gsets@, group@) == c + count_gen_tagged(
                template@,
                gsets@.skip(i as int),
                group@,
            ),
    {
        proof {
            assert(gsets@.skip(i as int)[0] == gsets@[i as int]);
            assert(gsets@.skip(i as int).drop_first() =~= gsets@.skip(i as int + 1));
            assert((i as u128 + 1) * (usize::MAX as u128) == (i as u128) * (usize::MAX as u128) + (
            usize::MAX as u128)) by (nonlinear_arith);
            assert((i as u128 + 1) * (usize::MAX as u128) <= (usize::MAX as u128) * (
            usize::MAX as u128)) by (nonlinear_arith)
                requires
                    i as u128 + 1 <= usize::MAX as u128,
            ;
        }
        let dc = count_gen_tagged_in_exec(template, &gsets[i].questions, group);
        c = c + dc as u128;
    }
    proof {
        assert(gsets@.skip(n as int) =~= Seq::<GeneratedQuestionSet>::empty());
    }
    c
}

/// Reorders the set configs so entries of one type stand together, in
/// first-seen type order, lightly shuffled within each group; the multiset
/// of configs is unchanged.
fn group_and_shuffle_configs(
    cfgs: &Vec<QuestionSetConfig>,
    rng: &mut rand::rngs::StdRng,
) -> (r: Vec<QuestionSetConfig>)
    ensures
        r@.to_multiset() == cfgs@.to_multiset(),
{
    let mut remaining = crate::records::clone_set_configs(cfgs);
    let mut sorted: Vec<QuestionSetConfig> = Vec::new();
    proof {
        assert(sorted@.to_multiset().add(remaining@.to_multiset()) =~= cfgs@.to_multiset());
    }
    while remaining.len() > 0
        invariant
            sorted@.to_multiset().add(remaining@.to_multiset()) == cfgs@.to_multiset(),
        decreases remaining@.len(),
    {
        let t = remaining[0].set_type;
        let mut group: Vec<QuestionSetConfig> = Vec::new();
        let mut rest: Vec<QuestionSetConfig> = Vec::new();
        let n = remaining.len();
        for i in 0..n
            invariant
                n == remaining@.len(),
                0 < n,
                remaining@[0].set_type == t,
                group@.len() + rest@.len() == i,
                group@.to_multiset().add(rest@.to_multiset()) == remaining@.take(
                    i as int,
                ).to_multiset(),
                i > 0 ==> group@.len() >= 1,
        {
            proof {
                assert(remaining@.take(i as int).push(remaining@[i as int]) =~= remaining@.take(
                    i as int + 1,
                ));
            }
            if remaining[i].set_type == t {
                group.push(remaining[i]);
            } else {
                rest.push(remaining[i]);
            }
            proof {
                assert(group@.to_multiset().add(rest@.to_multiset()) =~= remaining@.take(
                    i as int + 1,
                ).to_multiset());
            }
        }
        proof {
            assert(remaining@.take(n as int) =~= remaining@);
        }
        let ghost rest_len = rest@.len();
        shuffle_vec(&mut group, rng);
        proof {
            assert(group@.skip(0) =~= group@);
            assert(sorted@.to_multiset().add(group@.skip(0).to_multiset()).add(rest@.to_multiset())
                =~= cfgs@.to_multiset());
        }
        // Move the group onto the result, one element at a time.
        let ng = group.len();
        let ghost rest_view = rest@;
        for j in 0..ng
            invariant
                ng == group@.len(),
                ng >= 1,
                ng + rest@.len() == n,
                n == remaining@.len(),
                rest@ == rest_view,
                sorted@.to_multiset().add(group@.skip(j as int).to_multiset()).add(
                    rest@.to_multiset(),
                ) == cfgs@.to_multiset(),
        {
            proof {
                assert(group@.skip(j as int)[0] == group@[j as int]);
                assert(group@.skip(j as int).remove(0) =~= group@.skip(j as int + 1));
                assert(group@.skip(j as int).contains(group@[j as int]));
            }
            sorted.push(group[j]);
            proof {
                assert(sorted@.to_multiset().add(group@.skip(j as int + 1).to_multiset()).add(
                    rest@.to_multiset(),
                ) =~= cfgs@.to_multiset());
            }
        }
        proof {
            assert(group@.skip(ng as int) =~= Seq::<QuestionSetConfig>::empty());
            assert(group@.skip(ng as int).to_multiset() =~= Multiset::<QuestionSetConfig>::empty());
            assert(sorted@.to_multiset().add(rest@.to_multiset()) =~= cfgs@.to_multiset());
        }
        remaining = rest;
    }
    proof {
        assert(remaining@.to_multiset().len() == 0);
        assert(sorted@.to_multiset() =~= cfgs@.to_multiset());
    }
    sorted
}

/// Sorts tag configs by group size, largest (most restrictive) first,
/// keeping the order of equal sizes.
fn sort_tags_desc(tags: Vec<TagConfig>) -> Vec<TagConfig> {
    let mut rest = tags;
    let mut sorted: Vec<TagConfig> = Vec::new();
    while rest.len() > 0
        decreases rest@.len(),
    {
        let tc = rest.remove(0);
        let mut j: usize = 0;
        while j < sorted.len() && sorted[j].group.len() >= tc.group.len()
            invariant
                j <= sorted@.len(),
            decreases sorted@.len() - j,
        {
            j = j + 1;
        }
        sorted.insert(j, tc);
    }
    sorted
}

/// A config is fulfilled when it holds exactly its number of sets and each
/// set holds exactly its number of questions.
pub open spec fn spec_config_fulfilled(c: QuestionSetConfig, wsets: Seq<QuestionSet>) -> bool {
    &&& wsets.len() == c.number_of_set
    &&& forall|i: int|
        0 <= i < wsets.len() ==> (#[trigger] wsets[i].questions@.len()) == c.number_of_questions
}

/// Decides whether the config is fulfilled by these working sets.
fn is_question_set_config_fulfilled(c: &QuestionSetConfig, wsets: &Vec<QuestionSet>) -> (r: bool)
    ensures
        r == spec_config_fulfilled(*c, wsets@),
{
    if wsets.len() != c.number_of_set as usize {
        return false;
    }
    let n = wsets.len();
    for i in 0..n
        invariant
            n == wsets@.len(),
            n == c.number_of_set,
            forall|k: int|
                0 <= k < i ==> (#[trigger] wsets@[k].questions@.len()) == c.number_of_questions,
    {
        if wsets[i].questions.len() != c.number_of_questions as usize {
            proof {
                assert(wsets@[i as int].questions@.len() != c.number_of_questions);
            }
            return false;
        }
    }
    true
}

/// Whether the question offers enough correct and incorrect answers for
/// the config.
fn question_has_enough_answers(q: &Question, c: &QuestionSetConfig) -> bool {
    let nc = count_correct_exec(&q.answers);
    if (nc as u64) < c.number_of_correct_answers as u64 {
        return false;
    }
    let ni = count_incorrect_exec(&q.answers);
    (ni as u64) >= c.number_of_incorrect_answers as u64
}

/// How many incorrect answers the picker keeps: the configured number, or
/// every incorrect answer the question has, whichever is smaller.
pub open spec fn incorrect_taken(question: Question, c: QuestionSetConfig) -> nat {
    let have = crate::config_validator::count_incorrect(question.answers@);
    if have < c.number_of_incorrect_answers {
        have
    } else {
        c.number_of_incorrect_answers as nat
    }
}

/// How many correct answers the picker keeps.
pub open spec fn correct_taken(question: Question, c: QuestionSetConfig) -> nat {
    let have = crate::config_validator::count_correct(question.answers@);
    if have < c.number_of_correct_answers {
        have
    } else {
        c.number_of_correct_answers as nat
    }
}

/// Picks the question's answers for this config: shuffle, then the first
/// configured number of incorrect answers followed by the first configured
/// number of correct ones. Fails exactly when either slice comes up empty:
/// when a quota is zero, or the question lacks any answer of that kind.
fn get_question_with_random_answers(
    question: &Question,
    c: &QuestionSetConfig,
    rng: &mut rand::rngs::StdRng,
) -> (r: Result<Question, Error>)
    ensures
        r is Ok <==> incorrect_taken(*question, *c) > 0 && correct_taken(*question, *c) > 0,
        r matches Err(e) ==> e == Error::Generation(GenerationError::NotEnoughAnswers(question.id)),
        r matches Ok(q2) ==> {
            let ni = incorrect_taken(*question, *c);
            &&& q2.id == question.id
            &&& q2.text == question.text
            &&& q2.tags@ == question.tags@
            &&& q2.audio == question.audio
            &&& q2.deprecated == question.deprecated
            &&& q2.answers@.len() == ni + correct_taken(*question, *c)
            &&& forall|k: int|
                0 <= k < q2.answers@.len() ==> (#[trigger] q2.answers@[k]).is_correct == (k
                    >= ni)
            &&& forall|k: int|
                0 <= k < q2.answers@.len() ==> question.answers@.contains(
                    #[trigger] q2.answers@[k],
                )
        },
{
    let mut random_answers = clone_answers(&question.answers);
    shuffle_vec(&mut random_answers, rng);
    proof {
        crate::config_validator::lemma_count_correct_multiset(random_answers@, question.answers@);
        crate::config_validator::lemma_count_incorrect_complement(random_answers@);
        crate::config_validator::lemma_count_incorrect_complement(question.answers@);
        assert(random_answers@.take(0) =~= Seq::<Answer>::empty());
    }

    let ghost ra = random_answers@;
    let mut incorrect: Vec<Answer> = Vec::new();
    let mut correct: Vec<Answer> = Vec::new();
    let n = random_answers.len();
    for i in 0..n
        invariant
            n == ra.len(),
            random_answers@ == ra,
            ra.to_multiset() == question.answers@.to_multiset(),
            incorrect@.len() == (if crate::config_validator::count_incorrect(ra.take(i as int))
                < c.number_of_incorrect_answers {
                crate::config_validator::count_incorrect(ra.take(i as int))
            } else {
                c.number_of_incorrect_answers as nat
            }),
            correct@.len() == (if crate::config_validator::count_correct(ra.take(i as int))
                < c.number_of_correct_answers {
                crate::config_validator::count_correct(ra.take(i as int))
            } else {
                c.number_of_correct_answers as nat
            }),
            forall|k: int| 0 <= k < incorrect@.len() ==> !(#[trigger] incorrect@[k]).is_correct,
            forall|k: int| 0 <= k < correct@.len() ==> (#[trigger] correct@[k]).is_correct,
            forall|k: int|
                0 <= k < incorrect@.len() ==> question.answers@.contains(#[trigger] incorrect@[k]),
            forall|k: int|
                0 <= k < correct@.len() ==> question.answers@.contains(#[trigger] correct@[k]),
    {
        proof {
            assert(ra.take(i as int + 1) =~= ra.take(i as int).push(ra[i as int]));
            crate::config_validator::lemma_count_correct_snoc(ra.take(i as int), ra[i as int]);
            crate::config_validator::lemma_count_incorrect_complement(ra.take(i as int));
            crate::config_validator::lemma_count_incorrect_complement(ra.take(i as int + 1));
            assert(ra.to_multiset().contains(ra[i as int])) by {
                broadcast use vstd::seq_lib::group_to_multiset_ensures;

                assert(ra.contains(ra[i as int]));
            }
            assert(crate::config_validator::count_correct(ra.take(i as int + 1))
                == crate::config_validator::count_correct(ra.take(i as int)) + (
            if ra[i as int].is_correct {
                1nat
            } else {
                0nat
            }));
            assert(ra.take(i as int + 1).len() == i + 1);
            assert(ra.take(i as int).len() == i as int);
            assert(crate::config_validator::count_incorrect(ra.take(i as int + 1))
                == crate::config_validator::count_incorrect(ra.take(i as int)) + (
            if ra[i as int].is_correct {
                0nat
            } else {
                1nat
            }));
        }
        let a = &random_answers[i];
        let copy = Answer { id: a.id, is_correct: a.is_correct, text: a.text.clone() };
        proof {
            assert(copy == ra[i as int]);
            assert(question.answers@.to_multiset().contains(copy));
            assert(question.answers@.contains(copy)) by {
                broadcast use vstd::seq_lib::group_to_multiset_ensures;

            }
        }
        if !a.is_correct && incorrect.len() < c.number_of_incorrect_answers as usize {
            incorrect.push(copy);
        } else if a.is_correct && correct.len() < c.number_of_correct_answers as usize {
            correct.push(copy);
        }
    }
    proof {
        assert(ra.take(n as int) =~= ra);
        crate::config_validator::lemma_count_correct_multiset(ra, question.answers@);
        crate::config_validator::lemma_count_incorrect_complement(ra);
        crate::config_validator::lemma_count_incorrect_complement(question.answers@);
    }
    if incorrect.len() == 0 || correct.len() == 0 {
        return Err(Error::Generation(GenerationError::NotEnoughAnswers(question.id)));
    }
    let ghost ni_taken = incorrect@.len();
    let mut answers = incorrect;
    answers.append(&mut correct);
    proof {
        assert(forall|k: int|
            0 <= k < answers@.len() ==> (#[trigger] answers@[k]).is_correct == (k
                >= ni_taken as int));
    }
    Ok(
        Question {
            id: question.id,
            text: question.text.clone(),
            tags: clone_string_vec(&question.tags),
            audio: clone_opt_audio(&question.audio),
            answers,
            deprecated: question.deprecated,
        },
    )
}

/// The index of the working set drawn from this source set, if any.
fn find_wset_index(wsets: &Vec<QuestionSet>, id: Id) -> (r: Option<usize>)
    ensures
        r matches Some(wi) ==> wi < wsets@.len(),
{
    let n = wsets.len();
    for i in 0..n
        invariant
            n == wsets@.len(),
    {
        if wsets[i].id == id {
            return Some(i);
        }
    }
    None
}

/// The index of the pool set with this id, if any.
fn find_pool_index_by_id(pool: &Vec<QuestionSet>, id: Id) -> (r: Option<usize>)
    ensures
        r matches Some(si) ==> si < pool@.len(),
{
    let n = pool.len();
    for i in 0..n
        invariant
            n == pool@.len(),
    {
        if pool[i].id == id {
            return Some(i);
        }
    }
    None
}

/// The first question of the list with enough answers for the config.
fn find_eligible_question(questions: &Vec<Question>, c: &QuestionSetConfig) -> (r: Option<usize>)
    ensures
        r matches Some(qi) ==> qi < questions@.len(),
{
    let n = questions.len();
    for i in 0..n
        invariant
            n == questions@.len(),
    {
        if question_has_enough_answers(&questions[i], c) {
            return Some(i);
        }
    }
    None
}

/// The first (set, question) the tag-driven pass may take: the set has the
/// config's type, enough questions, and room in the working sets; the
/// question carries every tag of the group and enough answers.
fn find_tagged_candidate(
    pool: &Vec<QuestionSet>,
    c: &QuestionSetConfig,
    group: &Vec<String>,
    wsets: &Vec<QuestionSet>,
    used: &Vec<Id>,
) -> (r: Option<(usize, usize)>)
    ensures
        match r {
            Some(p) => p.0 < pool@.len() && p.1 < pool@[p.0 as int].questions@.len(),
            None => true,
        },
{
    let n = pool.len();
    for si in 0..n
        invariant
            n == pool@.len(),
    {
        let s = &pool[si];
        if s.set_type == c.set_type && s.questions.len() >= c.number_of_questions as usize {
            let feasible = match find_wset_index(wsets, s.id) {
                Some(wi) => wsets[wi].questions.len() < c.number_of_questions as usize,
                None => wsets.len() < c.number_of_set as usize && !crate::lookup::contains_id(
                    used,
                    s.id,
                ),
            };
            if feasible {
                let nq = s.questions.len();
                for qi in 0..nq
                    invariant
                        n == pool@.len(),
                        si < n,
                        nq == pool@[si as int].questions@.len(),
                        s == pool@[si as int],
                {
                    let q = &s.questions[qi];
                    if has_all_tags(q, group) && question_has_enough_answers(q, c) {
                        return Some((si, qi));
                    }
                }
            }
        }
    }
    None
}

/// The first pool set a new working set can be drawn from: right type, not
/// yet used as a source, and enough questions with enough answers.
fn find_fillable_set(pool: &Vec<QuestionSet>, c: &QuestionSetConfig, used: &Vec<Id>) -> (r: Option<
    usize,
>)
    ensures
        r matches Some(si) ==> si < pool@.len(),
{
    let n = pool.len();
    for si in 0..n
        invariant
            n == pool@.len(),
    {
        let s = &pool[si];
        if s.set_type == c.set_type && s.questions.len() >= c.number_of_questions as usize
            && !crate::lookup::contains_id(used, s.id) {
            let mut eligible: usize = 0;
            let nq = s.questions.len();
            for qi in 0..nq
                invariant
                    n == pool@.len(),
                    si < n,
                    nq == s.questions@.len(),
                    s == pool@[si as int],
                    eligible <= qi,
            {
                if question_has_enough_answers(&s.questions[qi], c) {
                    eligible = eligible + 1;
                }
            }
            if eligible >= c.number_of_questions as usize {
                return Some(si);
            }
        }
    }
    None
}

/// Takes one question out of a pool set, keeping the pool's shape.
fn extract_question(pool: &mut Vec<QuestionSet>, si: usize, qi: usize) -> (q: Question)
    requires
        si < old(pool)@.len(),
        qi < old(pool)@[si as int].questions@.len(),
    ensures
        final(pool)@.len() == old(pool)@.len(),
{
    let mut s = pool.remove(si);
    let q = s.questions.remove(qi);
    pool.insert(si, s);
    q
}

/// What one working question must look like for the config: a question of
/// the source set, not deprecated, whose offered answers stand incorrect
/// block first, then correct block, judged by the source question.
pub open spec fn working_question_ok(ts: QuestionSet, q: Question, c: QuestionSetConfig) -> bool {
    question_source_ok(ts, q.id, q.answers@.map_values(|a: Answer| a.id), c)
}

/// The working sets fill the config exactly: the configured number of
/// sets, each with the configured number of questions, each drawn from the
/// template set carrying the working set's id and of the config's type.
pub open spec fn working_sets_fill(
    template: Seq<QuestionSet>,
    c: QuestionSetConfig,
    wsets: Seq<QuestionSet>,
) -> bool {
    &&& wsets.len() == c.number_of_set
    &&& forall|i: int|
        0 <= i < wsets.len() ==> (#[trigger] wsets[i].questions@.len()) == c.number_of_questions
    &&& forall|i: int|
        0 <= i < wsets.len() ==> (match spec_find(template, (#[trigger] wsets[i]).id) {
            Some(ts) => ts.set_type == c.set_type && forall|j: int|
                0 <= j < wsets[i].questions@.len() ==> working_question_ok(
                    ts,
                    #[trigger] wsets[i].questions@[j],
                    c,
                ),
            None => false,
        })
}

/// Verifies that the working sets fill the config exactly and converts
/// them to generated sets: per set the source id, per question its id and
/// its chosen answer ids in chosen order. Succeeds exactly when the
/// working sets fill the config.
fn assemble_config_sets(
    template: &Vec<QuestionSet>,
    c: &QuestionSetConfig,
    wsets: &Vec<QuestionSet>,
) -> (r: Result<Vec<GeneratedQuestionSet>, Error>)
    ensures
        r is Ok <==> working_sets_fill(template@, *c, wsets@),
        r matches Ok(v) ==> v@.len() == c.number_of_set && forall|i: int|
            0 <= i < v@.len() ==> set_fills(template@, *c, #[trigger] v@[i]),
        r matches Err(e) ==> (e matches Error::Generation(g) && !(g is NoQuestionSetConfigs)),
{
    if wsets.len() != c.number_of_set as usize {
        return Err(Error::Generation(GenerationError::Stalled));
    }
    let mut out: Vec<GeneratedQuestionSet> = Vec::new();
    let n = wsets.len();
    for i in 0..n
        invariant
            n == wsets@.len(),
            n == c.number_of_set,
            out@.len() == i,
            forall|k: int| 0 <= k < i ==> set_fills(template@, *c, #[trigger] out@[k]),
            forall|k: int|
                0 <= k < i ==> (#[trigger] wsets@[k].questions@.len()) == c.number_of_questions,
            forall|k: int|
                0 <= k < i ==> (match spec_find(template@, (#[trigger] wsets@[k]).id) {
                    Some(ts) => ts.set_type == c.set_type && forall|j: int|
                        0 <= j < wsets@[k].questions@.len() ==> working_question_ok(
                            ts,
                            #[trigger] wsets@[k].questions@[j],
                            *c,
                        ),
                    None => false,
                }),
    {
        let ws = &wsets[i];
        if ws.questions.len() != c.number_of_questions as usize {
            proof {
                assert(!working_sets_fill(template@, *c, wsets@)) by {
                    assert(wsets@[i as int].questions@.len() != c.number_of_questions);
                }
            }
            return Err(Error::Generation(GenerationError::Stalled));
        }
        let ts = match crate::lookup::find_by_key(template, ws.id) {
            Some(ts) => ts,
            None => {
                proof {
                    assert(!working_sets_fill(template@, *c, wsets@)) by {
                        assert(spec_find(template@, wsets@[i as int].id) is None);
                    }
                }
                return Err(Error::Generation(GenerationError::SetNotInTemplate(ws.id)));
            },
        };
        if ts.set_type != c.set_type {
            proof {
                assert(!working_sets_fill(template@, *c, wsets@)) by {
                    assert(spec_find(template@, wsets@[i as int].id) == Some(*ts));
                }
            }
            return Err(Error::Generation(GenerationError::SetNotInTemplate(ws.id)));
        }
        let mut gqs: Vec<GeneratedQuestion> = Vec::new();
        let nq = ws.questions.len();
        for j in 0..nq
            invariant
                n == wsets@.len(),
                i < n,
                nq == ws.questions@.len(),
                ws == wsets@[i as int],
                nq == c.number_of_questions,
                spec_find(template@, wsets@[i as int].id) == Some(*ts),
                ts.set_type == c.set_type,
                gqs@.len() == j,
                forall|k: int|
                    0 <= k < j ==> (#[trigger] gqs@[k]).id == ws.questions@[k].id
                        && gqs@[k].answers@ == ws.questions@[k].answers@.map_values(
                        |a: Answer| a.id,
                    ),
                forall|k: int|
                    0 <= k < j ==> working_question_ok(*ts, #[trigger] ws.questions@[k], *c),
        {
            let q = &ws.questions[j];
            let mut aids: Vec<Id> = Vec::new();
            let na = q.answers.len();
            for a in 0..na
                invariant
                    nq == ws.questions@.len(),
                    j < nq,
                    na == q.answers@.len(),
                    q == ws.questions@[j as int],
                    aids@ == q.answers@.take(a as int).map_values(|x: Answer| x.id),
            {
                aids.push(q.answers[a].id);
                proof {
                    assert(aids@ =~= q.answers@.take(a as int + 1).map_values(
                        |x: Answer| x.id,
                    ));
                }
            }
            proof {
                assert(q.answers@.take(na as int) =~= q.answers@);
            }
            let tq = match crate::lookup::find_by_key(&ts.questions, q.id) {
                Some(tq) => tq,
                None => {
                    proof {
                        assert(!working_question_ok(*ts, ws.questions@[j as int], *c));
                        assert(!working_sets_fill(template@, *c, wsets@));
                    }
                    return Err(Error::Generation(GenerationError::QuestionNotInTemplate(q.id)));
                },
            };
            if tq.deprecated {
                proof {
                    assert(!working_question_ok(*ts, ws.questions@[j as int], *c));
                    assert(!working_sets_fill(template@, *c, wsets@));
                }
                return Err(Error::Generation(GenerationError::DeprecatedQuestion(q.id)));
            }
            if (aids.len() as u64) != (c.number_of_correct_answers as u64)
                + (c.number_of_incorrect_answers as u64) {
                proof {
                    assert(!working_question_ok(*ts, ws.questions@[j as int], *c));
                    assert(!working_sets_fill(template@, *c, wsets@));
                }
                return Err(Error::Generation(GenerationError::NotEnoughAnswers(q.id)));
            }
            let nk = aids.len();
            for k in 0..nk
                invariant
                    nq == ws.questions@.len(),
                    j < nq,
                    q == ws.questions@[j as int],
                    ws == wsets@[i as int],
                    n == wsets@.len(),
                    i < n,
                    nk == aids@.len(),
                    aids@ == q.answers@.map_values(|x: Answer| x.id),
                    nk == c.number_of_correct_answers + c.number_of_incorrect_answers,
                    spec_find(template@, wsets@[i as int].id) == Some(*ts),
                    spec_find(ts.questions@, q.id) == Some(*tq),
                    !tq.deprecated,
                    forall|kk: int|
                        0 <= kk < k ==> (match spec_find(tq.answers@, #[trigger] aids@[kk]) {
                            Some(a) => a.is_correct == (kk >= c.number_of_incorrect_answers),
                            None => false,
                        }),
            {
                let flag_ok = match crate::lookup::find_by_key(&tq.answers, aids[k]) {
                    Some(a) => a.is_correct == (k >= c.number_of_incorrect_answers as usize),
                    None => false,
                };
                if !flag_ok {
                    proof {
                        assert(!working_question_ok(*ts, ws.questions@[j as int], *c));
                        assert(!working_sets_fill(template@, *c, wsets@));
                    }
                    return Err(Error::Generation(GenerationError::NotEnoughAnswers(q.id)));
                }
            }
            proof {
                assert(working_question_ok(*ts, ws.questions@[j as int], *c));
            }
            gqs.push(GeneratedQuestion { id: q.id, answers: aids });
        }
        let new_set = GeneratedQuestionSet { id: ws.id, questions: gqs };
        proof {
            assert(set_fills(template@, *c, new_set)) by {
                assert(spec_find(template@, new_set.id) == Some(*ts));
                assert(forall|j: int|
                    0 <= j < new_set.questions@.len() ==> question_source_ok(
                        *ts,
                        (#[trigger] new_set.questions@[j]).id,
                        new_set.questions@[j].answers@,
                        *c,
                    ));
            }
        }
        out.push(new_set);
    }
    proof {
        assert(working_sets_fill(template@, *c, wsets@));
    }
    Ok(out)
}

/// Generates a per-user exam instance from the template, deterministically
/// under the seed, using `generation_id` as the new instance's id.
///
/// A successful result satisfies every quota: one block of exactly
/// `number_of_set` sets per set config (in some order of the configs), each
/// set drawn from the template set carrying its id and of the config's
/// type, with exactly `number_of_questions` questions of that source set,
/// none of them deprecated, each offering exactly the configured answer
/// ids — the incorrect block first, then the correct block, judged by the
/// source question's own answers. Every tag quota is met by the chosen
/// questions, judged against the template, and no identifier occurs twice
/// anywhere in the instance; in particular the chosen source sets are
/// pairwise distinct and no question is offered in two sets. An exam whose
/// configuration lists no question set configs is rejected with exactly
/// that error, and with nothing else.
///
/// Success is not promised: the allocation is a seeded greedy heuristic,
/// and there are templates the validator accepts on which some seeds
/// succeed and others fail.
pub fn generate_exam(exam: &ExamInput, seed: u64, generation_id: Id) -> (r: Result<
    GeneratedExam,
    Error,
>)
    ensures
        r matches Ok(g) ==> {
            &&& g.id == generation_id
            &&& g.exam_id == exam.id
            &&& g.version == 1
            &&& !g.deprecated
            &&& gen_ids_unique(g.question_sets@)
            &&& tags_satisfied(*exam, g.question_sets@)
            &&& exists|cfgs: Seq<QuestionSetConfig>|
                #![auto]
                cfgs.to_multiset() == exam.config.question_sets@.to_multiset() && sets_match(
                    exam.question_sets@,
                    cfgs,
                    g.question_sets@,
                )
        },
        r matches Err(e) ==> e matches Error::Generation(_),
        (r == Err::<GeneratedExam, Error>(
            Error::Generation(GenerationError::NoQuestionSetConfigs),
        )) <==> exam.config.question_sets@.len() == 0,
{
    let mut rng = rng_from_seed(seed);

    // Normalise: drop deprecated questions and shuffle answers, questions
    // and sets under the seed.
    let mut pool: Vec<QuestionSet> = Vec::new();
    let nsets = exam.question_sets.len();
    for i in 0..nsets
        invariant
            nsets == exam.question_sets@.len(),
    {
        let s = &exam.question_sets[i];
        let mut kept: Vec<Question> = Vec::new();
        let nq = s.questions.len();
        for j in 0..nq
            invariant
                nq == s.questions@.len(),
        {
            let q = &s.questions[j];
            if !q.deprecated {
                let mut answers = clone_answers(&q.answers);
                shuffle_vec(&mut answers, &mut rng);
                kept.push(
                    Question {
                        id: q.id,
                        text: q.text.clone(),
                        tags: clone_string_vec(&q.tags),
                        audio: clone_opt_audio(&q.audio),
                        answers,
                        deprecated: false,
                    },
                );
            }
        }
        shuffle_vec(&mut kept, &mut rng);
        pool.push(
            QuestionSet {
                id: s.id,
                set_type: s.set_type,
                context: clone_opt_string(&s.context),
                questions: kept,
            },
        );
    }
    shuffle_vec(&mut pool, &mut rng);

    if exam.config.question_sets.len() == 0 {
        return Err(Error::Generation(GenerationError::NoQuestionSetConfigs));
    }

    let sorted_configs = group_and_shuffle_configs(&exam.config.question_sets, &mut rng);

    // Most restrictive tag groups first; the counters drive the heuristic.
    let sorted_tags = sort_tags_desc(clone_tag_configs(&exam.config.tags));
    let ntags = sorted_tags.len();
    let mut counters: Vec<u32> = Vec::new();
    for t in 0..ntags
        invariant
            exam.config.question_sets@.len() > 0,
            ntags == sorted_tags@.len(),
            counters@.len() == t,
    {
        counters.push(sorted_tags[t].number_of_questions);
    }

    let mut used_source_ids: Vec<Id> = Vec::new();
    let mut out_sets: Vec<GeneratedQuestionSet> = Vec::new();
    let nconf = sorted_configs.len();
    proof {
        assert(sorted_configs@.take(0) =~= Seq::<QuestionSetConfig>::empty());
    }
    for ci in 0..nconf
        invariant
            exam.config.question_sets@.len() > 0,
            nconf == sorted_configs@.len(),
            ntags == sorted_tags@.len(),
            counters@.len() == ntags,
            sets_match(exam.question_sets@, sorted_configs@.take(ci as int), out_sets@),
    {
        let c = sorted_configs[ci];
        let mut wsets: Vec<QuestionSet> = Vec::new();

        // Tag-driven allocation: for each still-open tag group, move
        // matching questions from the pool into the working sets.
        for t in 0..ntags
            invariant
                exam.config.question_sets@.len() > 0,
                nconf == sorted_configs@.len(),
                ntags == sorted_tags@.len(),
                counters@.len() == ntags,
                sets_match(exam.question_sets@, sorted_configs@.take(ci as int), out_sets@),
        {
            loop
                invariant
                    exam.config.question_sets@.len() > 0,
                    nconf == sorted_configs@.len(),
                    ntags == sorted_tags@.len(),
                    t < ntags,
                    counters@.len() == ntags,
                    sets_match(exam.question_sets@, sorted_configs@.take(ci as int), out_sets@),
                decreases counters@[t as int],
            {
                if counters[t] == 0 {
                    break;
                }
                if is_question_set_config_fulfilled(&c, &wsets) {
                    break;
                }
                match find_tagged_candidate(
                    &pool,
                    &c,
                    &sorted_tags[t].group,
                    &wsets,
                    &used_source_ids,
                ) {
                    None => {
                        break;
                    },
                    Some((si, qi)) => {
                        let src_id = pool[si].id;
                        let src_type = pool[si].set_type;
                        let q = extract_question(&mut pool, si, qi);
                        let q2 = match get_question_with_random_answers(&q, &c, &mut rng) {
                            Ok(x) => x,
                            Err(e) => {
                                return Err(e);
                            },
                        };
                        match find_wset_index(&wsets, src_id) {
                            Some(wi) => {
                                let mut ws = wsets.remove(wi);
                                ws.questions.push(q2);
                                wsets.insert(wi, ws);
                            },
                            None => {
                                wsets.push(
                                    QuestionSet {
                                        id: src_id,
                                        set_type: src_type,
                                        context: None,
                                        questions: vec![q2],
                                    },
                                );
                                used_source_ids.push(src_id);
                            },
                        }
                        let cnt = counters[t];
                        counters.set(t, cnt - 1);
                    },
                }
            }
        }

        // Fill remaining capacity, ignoring tags. The explicit no-progress
        // exit plays the role of the generation deadline; the fuel counter
        // only states termination formally.
        let mut fuel: u64 = u64::MAX;
        loop
            invariant
                exam.config.question_sets@.len() > 0,
                nconf == sorted_configs@.len(),
                ntags == sorted_tags@.len(),
                counters@.len() == ntags,
                sets_match(exam.question_sets@, sorted_configs@.take(ci as int), out_sets@),
            decreases fuel,
        {
            if is_question_set_config_fulfilled(&c, &wsets) {
                break;
            }
            if fuel == 0 {
                return Err(Error::Generation(GenerationError::Stalled));
            }
            fuel = fuel - 1;
            let mut progress = false;

            // Draw whole new working sets while sets are missing.
            if wsets.len() < c.number_of_set as usize {
                match find_fillable_set(&pool, &c, &used_source_ids) {
                    None => {
                        return Err(
                            Error::Generation(
                                GenerationError::NotEnoughQuestionsOfType(c.set_type),
                            ),
                        );
                    },
                    Some(si) => {
                        let s = pool.remove(si);
                        used_source_ids.push(s.id);
                        let mut chosen: Vec<Question> = Vec::new();
                        let snq = s.questions.len();
                        for j in 0..snq
                            invariant
                                exam.config.question_sets@.len() > 0,
                                snq == s.questions@.len(),
                                nconf == sorted_configs@.len(),
                                ntags == sorted_tags@.len(),
                                counters@.len() == ntags,
                                sets_match(exam.question_sets@, sorted_configs@.take(ci as int), out_sets@),
                        {
                            if chosen.len() < c.number_of_questions as usize
                                && question_has_enough_answers(&s.questions[j], &c) {
                                let q2 = match get_question_with_random_answers(
                                    &s.questions[j],
                                    &c,
                                    &mut rng,
                                ) {
                                    Ok(x) => x,
                                    Err(e) => {
                                        return Err(e);
                                    },
                                };
                                chosen.push(q2);
                            }
                        }
                        if chosen.len() < c.number_of_questions as usize {
                            return Err(
                                Error::Generation(
                                    GenerationError::NotEnoughQuestionsOfType(c.set_type),
                                ),
                            );
                        }
                        wsets.push(
                            QuestionSet {
                                id: s.id,
                                set_type: s.set_type,
                                context: None,
                                questions: chosen,
                            },
                        );
                        progress = true;
                    },
                }
            }

            // Top up deficient working sets from their source sets.
            let nws = wsets.len();
            for wi in 0..nws
                invariant
                    exam.config.question_sets@.len() > 0,
                    nws == wsets@.len(),
                    nconf == sorted_configs@.len(),
                    ntags == sorted_tags@.len(),
                    counters@.len() == ntags,
                    sets_match(exam.question_sets@, sorted_configs@.take(ci as int), out_sets@),
            {
                let have = wsets[wi].questions.len();
                let want = c.number_of_questions as usize;
                if have < want {
                    let deficit = want - have;
                    match find_pool_index_by_id(&pool, wsets[wi].id) {
                        None => {
                            return Err(
                                Error::Generation(
                                    GenerationError::NotEnoughQuestionsOfType(c.set_type),
                                ),
                            );
                        },
                        Some(si) => {
                            let mut exhausted = false;
                            for _k in 0..deficit
                                invariant
                                    exam.config.question_sets@.len() > 0,
                                    nws == wsets@.len(),
                                    si < pool@.len(),
                                    wi < nws,
                                    nconf == sorted_configs@.len(),
                                    ntags == sorted_tags@.len(),
                                    counters@.len() == ntags,
                                    sets_match(exam.question_sets@, sorted_configs@.take(ci as int), out_sets@),
                            {
                                if !exhausted {
                                    match find_eligible_question(&pool[si].questions, &c) {
                                        None => {
                                            exhausted = true;
                                        },
                                        Some(qi) => {
                                            let q = extract_question(&mut pool, si, qi);
                                            let q2 = match get_question_with_random_answers(
                                                &q,
                                                &c,
                                                &mut rng,
                                            ) {
                                                Ok(x) => x,
                                                Err(e) => {
                                                    return Err(e);
                                                },
                                            };
                                            let mut ws = wsets.remove(wi);
                                            ws.questions.push(q2);
                                            wsets.insert(wi, ws);
                                            progress = true;
                                        },
                                    }
                                }
                            }
                        },
                    }
                }
            }

            if !progress {
                return Err(Error::Generation(GenerationError::Stalled));
            }
        }

        // The config must now be exactly fulfilled; verify and convert.
        let block = match assemble_config_sets(&exam.question_sets, &c, &wsets) {
            Ok(b) => b,
            Err(e) => {
                return Err(e);
            },
        };
        proof {
            let one = seq![c];
            assert(one[0] == c);
            assert(one.drop_first() =~= Seq::<QuestionSetConfig>::empty());
            assert(block@.skip(c.number_of_set as int) =~= Seq::<GeneratedQuestionSet>::empty());
            assert(sets_match(
                exam.question_sets@,
                one.drop_first(),
                block@.skip(c.number_of_set as int),
            ));
            assert(sets_match(exam.question_sets@, one, block@));
            assert(sorted_configs@.take(ci as int + 1) =~= sorted_configs@.take(ci as int) + one);
            lemma_sets_match_concat(
                exam.question_sets@,
                sorted_configs@.take(ci as int),
                one,
                out_sets@,
                block@,
            );
        }
        let mut block_mut = block;
        out_sets.append(&mut block_mut);
    }
    proof {
        assert(sorted_configs@.take(nconf as int) =~= sorted_configs@);
    }

    // Reconcile tag quotas against the template: every group must be
    // satisfied by the chosen questions.
    let ntags0 = exam.config.tags.len();
    for k in 0..ntags0
        invariant
            exam.config.question_sets@.len() > 0,
            ntags0 == exam.config.tags@.len(),
            sets_match(exam.question_sets@, sorted_configs@, out_sets@),
            sorted_configs@.to_multiset() == exam.config.question_sets@.to_multiset(),
            forall|kk: int|
                0 <= kk < k ==> count_gen_tagged(
                    exam.question_sets@,
                    out_sets@,
                    #[trigger] exam.config.tags@[kk].group@,
                ) >= exam.config.tags@[kk].number_of_questions,
    {
        let cnt = count_gen_tagged_exec(&exam.question_sets, &out_sets, &exam.config.tags[k].group);
        if cnt < exam.config.tags[k].number_of_questions as u128 {
            return Err(
                Error::Generation(
                    GenerationError::NotEnoughQuestionsForTagGroup(
                        clone_string_vec(&exam.config.tags[k].group),
                    ),
                ),
            );
        }
    }

    // No identifier may occur twice anywhere in the instance.
    let ids = collect_gen_ids(&out_sets);
    proof {
        lemma_first_dup_none_iff(ids@);
    }
    if let Some(x) = find_first_duplicate(&ids) {
        return Err(Error::Generation(GenerationError::DuplicateId(x)));
    }

    proof {
        assert(exists|cfgs: Seq<QuestionSetConfig>|
            #![auto]
            cfgs.to_multiset() == exam.config.question_sets@.to_multiset() && sets_match(
                exam.question_sets@,
                cfgs,
                out_sets@,
            )) by {
            assert(sorted_configs@.to_multiset() == exam.config.question_sets@.to_multiset()
                && sets_match(exam.question_sets@, sorted_configs@, out_sets@));
        }
    }
    Ok(
        GeneratedExam {
            id: generation_id,
            exam_id: exam.id,
            question_sets: out_sets,
            deprecated: false,
            version: 1,
        },
    )
}

/// Two questions agree on everything generation reads: id, tags, answers
/// and the deprecation mark.
pub open spec fn question_like(a: Question, b: Question) -> bool {
    &&& a.id == b.id
    &&& a.tags@ == b.tags@
    &&& a.answers@ == b.answers@
    &&& a.deprecated == b.deprecated
}

/// Two question sets agree on everything generation reads.
pub open spec fn question_set_like(a: QuestionSet, b: QuestionSet) -> bool {
    &&& a.id == b.id
    &&& a.set_type == b.set_type
    &&& a.questions@.len() == b.questions@.len()
    &&& forall|j: int|
        0 <= j < a.questions@.len() ==> question_like(
            #[trigger] a.questions@[j],
            b.questions@[j],
        )
}

/// Two templates agree on everything generation reads.
pub open spec fn question_sets_like(a: Seq<QuestionSet>, b: Seq<QuestionSet>) -> bool {
    &&& a.len() == b.len()
    &&& forall|i: int| 0 <= i < a.len() ==> question_set_like(#[trigger] a[i], b[i])
}

/// Agreeing question lists find agreeing questions.
proof fn lemma_find_question_like(aq: Seq<Question>, bq: Seq<Question>, qid: Id)
    requires
        aq.len() == bq.len(),
        forall|j: int| 0 <= j < aq.len() ==> question_like(#[trigger] aq[j], bq[j]),
    ensures
        match spec_find(aq, qid) {
            Some(qa) => spec_find(bq, qid) is Some && question_like(
                qa,
                spec_find(bq, qid)->Some_0,
            ),
            None => spec_find(bq, qid) is None,
        },
    decreases aq.len(),
{
    if aq.len() > 0 && aq[0].id != qid {
        assert(forall|j: int|
            0 <= j < aq.drop_first().len() ==> question_like(
                #[trigger] aq.drop_first()[j],
                bq.drop_first()[j],
            )) by {
            assert(forall|j: int|
                0 <= j < aq.drop_first().len() ==> aq.drop_first()[j] == aq[j + 1]
                    && bq.drop_first()[j] == bq[j + 1]);
        }
        lemma_find_question_like(aq.drop_first(), bq.drop_first(), qid);
    }
}

/// Agreeing templates find agreeing sets.
proof fn lemma_find_set_like(a: Seq<QuestionSet>, b: Seq<QuestionSet>, id: Id)
    requires
        question_sets_like(a, b),
    ensures
        match spec_find(a, id) {
            Some(sa) => spec_find(b, id) is Some && question_set_like(
                sa,
                spec_find(b, id)->Some_0,
            ),
            None => spec_find(b, id) is None,
        },
    decreases a.len(),
{
    if a.len() > 0 && a[0].id != id {
        assert(question_sets_like(a.drop_first(), b.drop_first())) by {
            assert(forall|i: int|
                0 <= i < a.drop_first().len() ==> a.drop_first()[i] == a[i + 1]
                    && b.drop_first()[i] == b[i + 1]);
        }
        lemma_find_set_like(a.drop_first(), b.drop_first(), id);
    }
}

/// Agreeing templates find agreeing questions anywhere.
proof fn lemma_find_template_question_like(a: Seq<QuestionSet>, b: Seq<QuestionSet>, qid: Id)
    requires
        question_sets_like(a, b),
    ensures
        match spec_find_template_question(a, qid) {
            Some(qa) => spec_find_template_question(b, qid) is Some && question_like(
                qa,
                spec_find_template_question(b, qid)->Some_0,
            ),
            None => spec_find_template_question(b, qid) is None,
        },
    decreases a.len(),
{
    if a.len() > 0 {
        lemma_find_question_like(a[0].questions@, b[0].questions@, qid);
        if spec_find(a[0].questions@, qid) is None {
            assert(question_sets_like(a.drop_first(), b.drop_first())) by {
                assert(forall|i: int|
                    0 <= i < a.drop_first().len() ==> a.drop_first()[i] == a[i + 1]
                        && b.drop_first()[i] == b[i + 1]);
            }
            lemma_find_template_question_like(a.drop_first(), b.drop_first(), qid);
        }
    }
}

/// A sound question offer for one template set is sound for an agreeing one.
proof fn lemma_question_source_ok_like(
    tsa: QuestionSet,
    tsb: QuestionSet,
    qid: Id,
    ids: Seq<Id>,
    c: QuestionSetConfig,
)
    requires
        question_set_like(tsa, tsb),
    ensures
        question_source_ok(tsa, qid, ids, c) == question_source_ok(tsb, qid, ids, c),
{
    lemma_find_question_like(tsa.questions@, tsb.questions@, qid);
}

/// Generated sets matching the configs against one template match them
/// against an agreeing template.
proof fn lemma_sets_match_like(
    a: Seq<QuestionSet>,
    b: Seq<QuestionSet>,
    cfgs: Seq<QuestionSetConfig>,
    sets: Seq<GeneratedQuestionSet>,
)
    requires
        question_sets_like(a, b),
        sets_match(a, cfgs, sets),
    ensures
        sets_match(b, cfgs, sets),
    decreases cfgs.len(),
{
    if cfgs.len() > 0 {
        let k = cfgs[0].number_of_set as int;
        assert forall|i: int| 0 <= i < k implies set_fills(b, cfgs[0], #[trigger] sets[i]) by {
            assert(set_fills(a, cfgs[0], sets[i]));
            lemma_find_set_like(a, b, sets[i].id);
            let tsa = spec_find(a, sets[i].id)->Some_0;
            let tsb = spec_find(b, sets[i].id)->Some_0;
            assert forall|j: int| 0 <= j < sets[i].questions@.len() implies question_source_ok(
                tsb,
                (#[trigger] sets[i].questions@[j]).id,
                sets[i].questions@[j].answers@,
                cfgs[0],
            ) by {
                assert(question_source_ok(
                    tsa,
                    sets[i].questions@[j].id,
                    sets[i].questions@[j].answers@,
                    cfgs[0],
                ));
                lemma_question_source_ok_like(
                    tsa,
                    tsb,
                    sets[i].questions@[j].id,
                    sets[i].questions@[j].answers@,
                    cfgs[0],
                );
            }
        }
        lemma_sets_match_like(a, b, cfgs.drop_first(), sets.skip(k));
    }
}

/// A tag count over one generated set agrees across agreeing templates.
proof fn lemma_count_gen_tagged_like(
    a: Seq<QuestionSet>,
    b: Seq<QuestionSet>,
    qs: Seq<GeneratedQuestion>,
    group: Seq<String>,
)
    requires
        question_sets_like(a, b),
    ensures
        count_gen_tagged_in(a, qs, group) == count_gen_tagged_in(b, qs, group),
    decreases qs.len(),
{
    if qs.len() > 0 {
        lemma_find_template_question_like(a, b, qs[0].id);
        lemma_count_gen_tagged_like(a, b, qs.drop_first(), group);
    }
}

/// The whole-generation tag count agrees across agreeing templates.
proof fn lemma_count_gen_tagged_sets_like(
    a: Seq<QuestionSet>,
    b: Seq<QuestionSet>,
    gsets: Seq<GeneratedQuestionSet>,
    group: Seq<String>,
)
    requires
        question_sets_like(a, b),
    ensures
        count_gen_tagged(a, gsets, group) == count_gen_tagged(b, gsets, group),
    decreases gsets.len(),
{
    if gsets.len() > 0 {
        lemma_count_gen_tagged_like(a, b, gsets[0].questions@, group);
        lemma_count_gen_tagged_sets_like(a, b, gsets.drop_first(), group);
    }
}

/// Deep-copies the template's question sets for the generator's working
/// pool, keeping everything generation reads.
fn clone_question_sets(sets: &Vec<QuestionSet>) -> (r: Vec<QuestionSet>)
    ensures
        question_sets_like(r@, sets@),
{
    let mut out: Vec<QuestionSet> = Vec::new();
    let n = sets.len();
    for i in 0..n
        invariant
            n == sets@.len(),
            out@.len() == i,
            forall|k: int| 0 <= k < i ==> question_set_like(#[trigger] out@[k], sets@[k]),
    {
        let s = &sets[i];
        let mut questions: Vec<Question> = Vec::new();
        let nq = s.questions.len();
        for j in 0..nq
            invariant
                nq == s.questions@.len(),
                questions@.len() == j,
                forall|k: int|
                    0 <= k < j ==> question_like(#[trigger] questions@[k], s.questions@[k]),
        {
            let q = &s.questions[j];
            let copy = Question {
                id: q.id,
                text: q.text.clone(),
                tags: clone_string_vec(&q.tags),
                audio: clone_opt_audio(&q.audio),
                answers: clone_answers(&q.answers),
                deprecated: q.deprecated,
            };
            proof {
                assert(question_like(copy, s.questions@[j as int]));
            }
            questions.push(copy);
        }
        let sc = QuestionSet {
            id: s.id,
            set_type: s.set_type,
            context: clone_opt_string(&s.context),
            questions,
        };
        proof {
            assert(question_set_like(sc, sets@[i as int]));
        }
        out.push(sc);
    }
    out
}

/// Validates the template's configuration, then generates an exam instance
/// from it. A rejected configuration comes back as `InvalidConfig`, exactly
/// the validator's verdict; a solvable one proceeds to generation, and an
/// accepted instance carries the generator's full guarantees, stated
/// against this template.
pub fn try_generate(exam: &crate::records::Exam, seed: u64, generation_id: Id) -> (r: Result<
    GeneratedExam,
    Error,
>)
    ensures
        (match crate::config_validator::spec_validate_config(*exam) {
            Err(e) => r == Err::<GeneratedExam, Error>(Error::InvalidConfig(e)),
            Ok(()) => !(r matches Err(Error::InvalidConfig(_))),
        }),
        crate::config_validator::spec_validate_config(*exam) is Ok ==> ((r
            == Err::<GeneratedExam, Error>(
            Error::Generation(GenerationError::NoQuestionSetConfigs),
        )) <==> exam.config.question_sets@.len() == 0),
        r matches Ok(g) ==> {
            &&& g.id == generation_id
            &&& g.exam_id == exam.id
            &&& g.version == 1
            &&& !g.deprecated
            &&& gen_ids_unique(g.question_sets@)
            &&& forall|k: int|
                0 <= k < exam.config.tags@.len() ==> count_gen_tagged(
                    exam.question_sets@,
                    g.question_sets@,
                    #[trigger] exam.config.tags@[k].group@,
                ) >= exam.config.tags@[k].number_of_questions
            &&& exists|cfgs: Seq<QuestionSetConfig>|
                #![auto]
                cfgs.to_multiset() == exam.config.question_sets@.to_multiset() && sets_match(
                    exam.question_sets@,
                    cfgs,
                    g.question_sets@,
                )
        },
{
    if let Err(e) = crate::config_validator::validate_config(exam) {
        return Err(Error::InvalidConfig(e));
    }
    let input = ExamInput {
        id: exam.id,
        question_sets: clone_question_sets(&exam.question_sets),
        config: crate::records::clone_config(&exam.config),
    };
    let r = generate_exam(&input, seed, generation_id);
    proof {
        if r is Ok {
            let g = r->Ok_0;
            assert forall|k: int| 0 <= k < exam.config.tags@.len() implies count_gen_tagged(
                exam.question_sets@,
                g.question_sets@,
                #[trigger] exam.config.tags@[k].group@,
            ) >= exam.config.tags@[k].number_of_questions by {
                assert(input.config.tags@[k].group@ == exam.config.tags@[k].group@
                    && input.config.tags@[k].number_of_questions
                    == exam.config.tags@[k].number_of_questions);
                assert(count_gen_tagged(
                    input.question_sets@,
                    g.question_sets@,
                    input.config.tags@[k].group@,
                ) >= input.config.tags@[k].number_of_questions);
                lemma_count_gen_tagged_sets_like(
                    input.question_sets@,
                    exam.question_sets@,
                    g.question_sets@,
                    exam.config.tags@[k].group@,
                );
            }
            let cfgs = choose|cfgs: Seq<QuestionSetConfig>|
                #![auto]
                cfgs.to_multiset() == input.config.question_sets@.to_multiset() && sets_match(
                    input.question_sets@,
                    cfgs,
                    g.question_sets@,
                );
            lemma_sets_match_like(
                input.question_sets@,
                exam.question_sets@,
                cfgs,
                g.question_sets@,
            );
            assert(cfgs.to_multiset() == exam.config.question_sets@.to_multiset());
        }
    }
    r
}

/// A generation without identifier collisions is exactly what the
/// generation validator accepts: every instance the generator returns is
/// collision-free, and the validator's result is `Ok` precisely when the
/// flattened id scan finds no repeat.
pub proof fn lemma_generated_exam_validates(gs: Seq<GeneratedQuestionSet>)
    requires
        gen_ids_unique(gs),
    ensures
        crate::generation_validator::first_dup(
            crate::generation_validator::all_gen_ids(gs),
        ) is None,
{
    lemma_first_dup_none_iff(crate::generation_validator::all_gen_ids(gs));
}

} // verus!

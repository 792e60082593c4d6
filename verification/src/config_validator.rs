//! Config validator: decides whether an exam template is solvable under its
//! configuration. All checks are pure; the first failing check, in document
//! order, names the rejection.
//!
//! Solvability means: enough questions carry each required tag group, enough
//! question sets of each configured type exist, they hold enough questions
//! in total and in at least one single set, and every question of a
//! configured type offers enough correct and incorrect answers. Besides
//! that, every question needs non-blank text and at least one correct
//! answer, and every answer needs non-blank text.

use vstd::prelude::*;

use vstd::string::StringSliceAdditionalSpecFns;

use crate::error::ConfigError;
use crate::records::{Answer, Exam, Question, QuestionSet, QuestionSetConfig, QuestionType};

verus! {

/// An ASCII whitespace byte: space, tab, or one of the line-break controls.
pub open spec fn is_blank_byte(b: u8) -> bool {
    b == 32 || b == 9 || b == 10 || b == 11 || b == 12 || b == 13
}

/// Text is blank when every byte of its UTF-8 form is ASCII whitespace; an
/// empty text is blank.
pub open spec fn text_blank(s: Seq<char>) -> bool {
    let b = vstd::utf8::encode_utf8(s);
    forall|i: int| 0 <= i < b.len() ==> is_blank_byte(#[trigger] b[i])
}

/// Whether this text trims down to nothing.
pub fn is_blank_text(s: &String) -> (r: bool)
    ensures
        r == text_blank(s@),
{
    let bytes = s.as_str().as_bytes();
    let n = bytes.len();
    for i in 0..n
        invariant
            n == bytes@.len(),
            bytes@ == vstd::utf8::encode_utf8(s@),
            forall|j: int| 0 <= j < i ==> is_blank_byte(#[trigger] bytes@[j]),
    {
        let b = bytes[i];
        if !(b == 32 || b == 9 || b == 10 || b == 11 || b == 12 || b == 13) {
            return false;
        }
    }
    true
}

/// Whether `tags` holds a tag spelled like `t`.
pub open spec fn tag_in(tags: Seq<String>, t: Seq<char>) -> bool {
    exists|j: int| 0 <= j < tags.len() && #[trigger] tags[j]@ == t
}

/// Whether the question carries every tag of `group`.
pub open spec fn question_has_tags(q: Question, group: Seq<String>) -> bool {
    forall|i: int| 0 <= i < group.len() ==> #[trigger] tag_in(q.tags@, group[i]@)
}

/// Whether `tags` holds a tag spelled like `t`.
fn tags_contain(tags: &Vec<String>, t: &String) -> (r: bool)
    ensures
        r == tag_in(tags@, t@),
{
    let n = tags.len();
    for j in 0..n
        invariant
            n == tags@.len(),
            forall|k: int| 0 <= k < j ==> #[trigger] tags@[k]@ != t@,
    {
        if tags[j].eq(t) {
            return true;
        }
    }
    proof {
        if tag_in(tags@, t@) {
            let j = choose|j: int| 0 <= j < tags@.len() && #[trigger] tags@[j]@ == t@;
            assert(tags@[j]@ != t@);
        }
    }
    false
}

/// Whether the question carries every tag of `group`.
pub fn has_all_tags(q: &Question, group: &Vec<String>) -> (r: bool)
    ensures
        r == question_has_tags(*q, group@),
{
    let n = group.len();
    for i in 0..n
        invariant
            n == group@.len(),
            forall|k: int| 0 <= k < i ==> #[trigger] tag_in(q.tags@, group@[k]@),
    {
        if !tags_contain(&q.tags, &group[i]) {
            return false;
        }
    }
    true
}

/// How many live (non-deprecated) questions of this list carry every tag of
/// `group`.
pub open spec fn count_tagged_in(qs: Seq<Question>, group: Seq<String>) -> nat
    decreases qs.len(),
{
    if qs.len() == 0 {
        0
    } else {
        (if !qs[0].deprecated && question_has_tags(qs[0], group) {
            1nat
        } else {
            0nat
        }) + count_tagged_in(qs.drop_first(), group)
    }
}

/// How many live questions across all sets carry every tag of `group`.
pub open spec fn count_tagged(sets: Seq<QuestionSet>, group: Seq<String>) -> nat
    decreases sets.len(),
{
    if sets.len() == 0 {
        0
    } else {
        count_tagged_in(sets[0].questions@, group) + count_tagged(sets.drop_first(), group)
    }
}

/// How many sets have this type.
pub open spec fn count_sets_of_type(sets: Seq<QuestionSet>, t: QuestionType) -> nat
    decreases sets.len(),
{
    if sets.len() == 0 {
        0
    } else {
        (if sets[0].set_type == t {
            1nat
        } else {
            0nat
        }) + count_sets_of_type(sets.drop_first(), t)
    }
}

/// How many questions the sets of this type hold in total.
pub open spec fn total_questions_of_type(sets: Seq<QuestionSet>, t: QuestionType) -> nat
    decreases sets.len(),
{
    if sets.len() == 0 {
        0
    } else {
        (if sets[0].set_type == t {
            sets[0].questions@.len()
        } else {
            0nat
        }) + total_questions_of_type(sets.drop_first(), t)
    }
}

/// Whether one single set of this type holds at least `k` questions.
pub open spec fn some_set_large_enough(sets: Seq<QuestionSet>, t: QuestionType, k: nat) -> bool {
    exists|i: int|
        0 <= i < sets.len() && #[trigger] sets[i].set_type == t && sets[i].questions@.len() >= k
}

/// How many answers of this list are marked correct.
pub open spec fn count_correct(answers: Seq<Answer>) -> nat
    decreases answers.len(),
{
    if answers.len() == 0 {
        0
    } else {
        (if answers[0].is_correct {
            1nat
        } else {
            0nat
        }) + count_correct(answers.drop_first())
    }
}

/// How many answers of this list are marked incorrect.
pub open spec fn count_incorrect(answers: Seq<Answer>) -> nat
    decreases answers.len(),
{
    if answers.len() == 0 {
        0
    } else {
        (if !answers[0].is_correct {
            1nat
        } else {
            0nat
        }) + count_incorrect(answers.drop_first())
    }
}

/// Counts the live questions of one list carrying every tag of `group`.
fn count_tagged_in_exec(qs: &Vec<Question>, group: &Vec<String>) -> (r: usize)
    ensures
        r == count_tagged_in(qs@, group@),
        r <= qs@.len(),
{
    let n = qs.len();
    let mut c: usize = 0;
    proof {
        assert(qs@.skip(0) =~= qs@);
    }
    for i in 0..n
        invariant
            n == qs@.len(),
            c <= i,
            count_tagged_in(qs@, group@) == c + count_tagged_in(qs@.skip(i as int), group@),
    {
        proof {
            assert(qs@.skip(i as int)[0] == qs@[i as int]);
            assert(qs@.skip(i as int).drop_first() =~= qs@.skip(i as int + 1));
        }
        if !qs[i].deprecated && has_all_tags(&qs[i], group) {
            c = c + 1;
        }
    }
    proof {
        assert(qs@.skip(n as int) =~= Seq::<Question>::empty());
    }
    c
}

/// Counts the live questions across all sets carrying every tag of `group`.
pub fn count_tagged_exec(sets: &Vec<QuestionSet>, group: &Vec<String>) -> (r: u128)
    ensures
        r == count_tagged(sets@, group@),
{
    let n = sets.len();
    let mut c: u128 = 0;
    proof {
        assert(sets@.skip(0) =~= sets@);
    }
    for i in 0..n
        invariant
            n == sets@.len(),
            c <= (i as u128) * (usize::MAX as u128),
            count_tagged(sets@, group@) == c + count_tagged(sets@.skip(i as int), group@),
    {
        proof {
            assert(sets@.skip(i as int)[0] == sets@[i as int]);
            assert(sets@.skip(i as int).drop_first() =~= sets@.skip(i as int + 1));
            assert((i as u128 + 1) * (usize::MAX as u128) == (i as u128) * (usize::MAX as u128) + (
            usize::MAX as u128)) by (nonlinear_arith);
            assert((i as u128 + 1) * (usize::MAX as u128) <= (usize::MAX as u128) * (
            usize::MAX as u128)) by (nonlinear_arith)
                requires
                    i as u128 + 1 <= usize::MAX as u128,
            ;
        }
        let dc = count_tagged_in_exec(&sets[i].questions, group);
        c = c + dc as u128;
    }
    proof {
        assert(sets@.skip(n as int) =~= Seq::<QuestionSet>::empty());
    }
    c
}

/// Counts the sets of this type.
fn count_sets_of_type_exec(sets: &Vec<QuestionSet>, t: QuestionType) -> (r: usize)
    ensures
        r == count_sets_of_type(sets@, t),
{
    let n = sets.len();
    let mut c: usize = 0;
    proof {
        assert(sets@.skip(0) =~= sets@);
    }
    for i in 0..n
        invariant
            n == sets@.len(),
            c <= i,
            count_sets_of_type(sets@, t) == c + count_sets_of_type(sets@.skip(i as int), t),
    {
        proof {
            assert(sets@.skip(i as int)[0] == sets@[i as int]);
            assert(sets@.skip(i as int).drop_first() =~= sets@.skip(i as int + 1));
        }
        if sets[i].set_type == t {
            c = c + 1;
        }
    }
    proof {
        assert(sets@.skip(n as int) =~= Seq::<QuestionSet>::empty());
    }
    c
}

/// Sums the question counts of the sets of this type.
fn total_questions_of_type_exec(sets: &Vec<QuestionSet>, t: QuestionType) -> (r: u128)
    ensures
        r == total_questions_of_type(sets@, t),
{
    let n = sets.len();
    let mut c: u128 = 0;
    proof {
        assert(sets@.skip(0) =~= sets@);
    }
    for i in 0..n
        invariant
            n == sets@.len(),
            c <= (i as u128) * (usize::MAX as u128),
            total_questions_of_type(sets@, t) == c + total_questions_of_type(
                sets@.skip(i as int),
                t,
            ),
    {
        proof {
            assert(sets@.skip(i as int)[0] == sets@[i as int]);
            assert(sets@.skip(i as int).drop_first() =~= sets@.skip(i as int + 1));
            assert((i as u128 + 1) * (usize::MAX as u128) == (i as u128) * (usize::MAX as u128) + (
            usize::MAX as u128)) by (nonlinear_arith);
            assert((i as u128 + 1) * (usize::MAX as u128) <= (usize::MAX as u128) * (
            usize::MAX as u128)) by (nonlinear_arith)
                requires
                    i as u128 + 1 <= usize::MAX as u128,
            ;
        }
        if sets[i].set_type == t {
            let len = sets[i].questions.len();
            c = c + len as u128;
        }
    }
    proof {
        assert(sets@.skip(n as int) =~= Seq::<QuestionSet>::empty());
    }
    c
}

/// Whether one single set of this type holds at least `k` questions.
fn some_set_large_enough_exec(sets: &Vec<QuestionSet>, t: QuestionType, k: u32) -> (r: bool)
    ensures
        r == some_set_large_enough(sets@, t, k as nat),
{
    let n = sets.len();
    for i in 0..n
        invariant
            n == sets@.len(),
            forall|j: int|
                0 <= j < i ==> !(#[trigger] sets@[j].set_type == t && sets@[j].questions@.len()
                    >= k),
    {
        if sets[i].set_type == t && sets[i].questions.len() >= k as usize {
            return true;
        }
    }
    false
}

/// Appending one answer raises the correct count by its flag.
pub proof fn lemma_count_correct_snoc(s: Seq<Answer>, x: Answer)
    ensures
        count_correct(s.push(x)) == count_correct(s) + (if x.is_correct {
            1nat
        } else {
            0nat
        }),
    decreases s.len(),
{
    if s.len() == 0 {
        assert(s.push(x)[0] == x);
        assert(s.push(x).drop_first() =~= Seq::<Answer>::empty());
        assert(count_correct(s.push(x).drop_first()) == 0);
        assert(count_correct(s) == 0);
    } else {
        assert(s.push(x).drop_first() =~= s.drop_first().push(x));
        assert(s.push(x)[0] == s[0]);
        lemma_count_correct_snoc(s.drop_first(), x);
    }
}

/// Removing one answer lowers the correct count by its flag.
pub proof fn lemma_count_correct_remove(s: Seq<Answer>, i: int)
    requires
        0 <= i < s.len(),
    ensures
        count_correct(s.remove(i)) == count_correct(s) - (if s[i].is_correct {
            1nat
        } else {
            0nat
        }),
    decreases s.len(),
{
    if i == 0 {
        assert(s.remove(0) =~= s.drop_first());
    } else {
        assert(s.remove(i).drop_first() =~= s.drop_first().remove(i - 1));
        assert(s.remove(i)[0] == s[0]);
        assert(s.drop_first()[i - 1] == s[i]);
        lemma_count_correct_remove(s.drop_first(), i - 1);
    }
}

/// The correct count is a property of the multiset of answers alone, so
/// shuffling a list never changes it.
pub proof fn lemma_count_correct_multiset(s1: Seq<Answer>, s2: Seq<Answer>)
    requires
        s1.to_multiset() == s2.to_multiset(),
    ensures
        count_correct(s1) == count_correct(s2),
    decreases s1.len(),
{
    broadcast use vstd::seq_lib::group_to_multiset_ensures;

    if s1.len() == 0 {
        assert(s2.to_multiset().len() == 0);
        assert(s2.len() == 0);
    } else {
        let x = s1.last();
        let s1p = s1.drop_last();
        assert(s1 =~= s1p.push(x));
        assert(s1p.push(x).to_multiset() =~= s1p.to_multiset().insert(x));
        assert(s2.to_multiset().count(x) > 0) by {
            assert(s1.to_multiset().count(x) == s1p.to_multiset().count(x) + 1);
        }
        assert(s2.contains(x));
        let j = choose|j: int| 0 <= j < s2.len() && s2[j] == x;
        let s2p = s2.remove(j);
        assert(s2p.to_multiset() =~= s1p.to_multiset()) by {
            assert(s2p.to_multiset() =~= s2.to_multiset().remove(x));
            assert(s1p.to_multiset() =~= s1.to_multiset().remove(x));
        }
        lemma_count_correct_multiset(s1p, s2p);
        lemma_count_correct_snoc(s1p, x);
        lemma_count_correct_remove(s2, j);
    }
}

/// The incorrect count is the complement of the correct count.
pub proof fn lemma_count_incorrect_complement(s: Seq<Answer>)
    ensures
        count_incorrect(s) == s.len() - count_correct(s),
    decreases s.len(),
{
    if s.len() > 0 {
        lemma_count_incorrect_complement(s.drop_first());
    }
}

/// Counts the answers marked correct.
pub fn count_correct_exec(answers: &Vec<Answer>) -> (r: usize)
    ensures
        r == count_correct(answers@),
{
    let n = answers.len();
    let mut c: usize = 0;
    proof {
        assert(answers@.skip(0) =~= answers@);
    }
    for i in 0..n
        invariant
            n == answers@.len(),
            c <= i,
            count_correct(answers@) == c + count_correct(answers@.skip(i as int)),
    {
        proof {
            assert(answers@.skip(i as int)[0] == answers@[i as int]);
            assert(answers@.skip(i as int).drop_first() =~= answers@.skip(i as int + 1));
        }
        if answers[i].is_correct {
            c = c + 1;
        }
    }
    proof {
        assert(answers@.skip(n as int) =~= Seq::<Answer>::empty());
    }
    c
}

/// Counts the answers marked incorrect.
pub fn count_incorrect_exec(answers: &Vec<Answer>) -> (r: usize)
    ensures
        r == count_incorrect(answers@),
{
    let n = answers.len();
    let mut c: usize = 0;
    proof {
        assert(answers@.skip(0) =~= answers@);
    }
    for i in 0..n
        invariant
            n == answers@.len(),
            c <= i,
            count_incorrect(answers@) == c + count_incorrect(answers@.skip(i as int)),
    {
        proof {
            assert(answers@.skip(i as int)[0] == answers@[i as int]);
            assert(answers@.skip(i as int).drop_first() =~= answers@.skip(i as int + 1));
        }
        if !answers[i].is_correct {
            c = c + 1;
        }
    }
    proof {
        assert(answers@.skip(n as int) =~= Seq::<Answer>::empty());
    }
    c
}

/// The first tag config, from position `j` on, whose required question
/// count is not available; identified by its position.
pub open spec fn first_tag_error_at(exam: Exam, j: int) -> Option<ConfigError>
    decreases exam.config.tags@.len() - j when 0 <= j <= exam.config.tags@.len()
{
    if j >= exam.config.tags@.len() {
        None
    } else if count_tagged(exam.question_sets@, exam.config.tags@[j].group@)
        < exam.config.tags@[j].number_of_questions {
        Some(ConfigError::NotEnoughQuestionsForTag(j as usize))
    } else {
        first_tag_error_at(exam, j + 1)
    }
}

/// The first set config, from position `j` on, with fewer sets of its type
/// than required.
pub open spec fn first_set_count_error_at(exam: Exam, j: int) -> Option<ConfigError>
    decreases exam.config.question_sets@.len() - j when 0 <= j <= exam.config.question_sets@.len()
{
    let configs = exam.config.question_sets@;
    if j >= configs.len() {
        None
    } else if count_sets_of_type(exam.question_sets@, configs[j].set_type)
        < configs[j].number_of_set {
        Some(ConfigError::NotEnoughQuestionSets(configs[j].set_type))
    } else {
        first_set_count_error_at(exam, j + 1)
    }
}

/// The first set config, from position `j` on, whose type has too few
/// questions in total or no single set large enough.
pub open spec fn first_question_count_error_at(exam: Exam, j: int) -> Option<ConfigError>
    decreases exam.config.question_sets@.len() - j when 0 <= j <= exam.config.question_sets@.len()
{
    let configs = exam.config.question_sets@;
    if j >= configs.len() {
        None
    } else if total_questions_of_type(exam.question_sets@, configs[j].set_type)
        < configs[j].number_of_set * configs[j].number_of_questions {
        Some(ConfigError::NotEnoughQuestionsOverall(configs[j].set_type))
    } else if !some_set_large_enough(
        exam.question_sets@,
        configs[j].set_type,
        configs[j].number_of_questions as nat,
    ) {
        Some(ConfigError::NoSingleSetLargeEnough(configs[j].set_type))
    } else {
        first_question_count_error_at(exam, j + 1)
    }
}

/// The first question of `qs`, from position `j` on, with too few correct
/// or incorrect answers for the config.
pub open spec fn first_answer_error_in_at(
    c: QuestionSetConfig,
    qs: Seq<Question>,
    j: int,
) -> Option<ConfigError>
    decreases qs.len() - j when 0 <= j <= qs.len()
{
    if j >= qs.len() {
        None
    } else if count_correct(qs[j].answers@) < c.number_of_correct_answers {
        Some(ConfigError::NotEnoughCorrectAnswers(qs[j].id))
    } else if count_incorrect(qs[j].answers@) < c.number_of_incorrect_answers {
        Some(ConfigError::NotEnoughIncorrectAnswers(qs[j].id))
    } else {
        first_answer_error_in_at(c, qs, j + 1)
    }
}

/// The first answer-count violation for config `c` among the sets of its
/// type, from set position `i` on.
pub open spec fn first_answer_error_for_at(
    c: QuestionSetConfig,
    sets: Seq<QuestionSet>,
    i: int,
) -> Option<ConfigError>
    decreases sets.len() - i when 0 <= i <= sets.len()
{
    if i >= sets.len() {
        None
    } else if sets[i].set_type == c.set_type {
        match first_answer_error_in_at(c, sets[i].questions@, 0) {
            Some(e) => Some(e),
            None => first_answer_error_for_at(c, sets, i + 1),
        }
    } else {
        first_answer_error_for_at(c, sets, i + 1)
    }
}

/// The first answer-count violation across the set configs, from config
/// position `j` on.
pub open spec fn first_answer_error_at(exam: Exam, j: int) -> Option<ConfigError>
    decreases exam.config.question_sets@.len() - j when 0 <= j <= exam.config.question_sets@.len()
{
    let configs = exam.config.question_sets@;
    if j >= configs.len() {
        None
    } else {
        match first_answer_error_for_at(configs[j], exam.question_sets@, 0) {
            Some(e) => Some(e),
            None => first_answer_error_at(exam, j + 1),
        }
    }
}

/// The first blank answer text of this list, from position `k` on.
pub open spec fn first_blank_answer_at(answers: Seq<Answer>, k: int) -> Option<ConfigError>
    decreases answers.len() - k when 0 <= k <= answers.len()
{
    if k >= answers.len() {
        None
    } else if text_blank(answers[k].text@) {
        Some(ConfigError::EmptyAnswerText(answers[k].id))
    } else {
        first_blank_answer_at(answers, k + 1)
    }
}

/// The first content violation among this question list, from position `j`
/// on: blank question text, no correct answer, or a blank answer text.
pub open spec fn first_content_error_in_at(qs: Seq<Question>, j: int) -> Option<ConfigError>
    decreases qs.len() - j when 0 <= j <= qs.len()
{
    if j >= qs.len() {
        None
    } else if text_blank(qs[j].text@) {
        Some(ConfigError::EmptyQuestionText(qs[j].id))
    } else if count_correct(qs[j].answers@) == 0 {
        Some(ConfigError::NoCorrectAnswer(qs[j].id))
    } else {
        match first_blank_answer_at(qs[j].answers@, 0) {
            Some(e) => Some(e),
            None => first_content_error_in_at(qs, j + 1),
        }
    }
}

/// The first content violation across all sets, from set position `i` on.
pub open spec fn first_content_error_at(sets: Seq<QuestionSet>, i: int) -> Option<ConfigError>
    decreases sets.len() - i when 0 <= i <= sets.len()
{
    if i >= sets.len() {
        None
    } else {
        match first_content_error_in_at(sets[i].questions@, 0) {
            Some(e) => Some(e),
            None => first_content_error_at(sets, i + 1),
        }
    }
}

/// What `validate_config` decides: the first failing check in document
/// order, or `Ok` when the template is solvable and well formed.
pub open spec fn spec_validate_config(exam: Exam) -> Result<(), ConfigError> {
    if exam.config.name@.len() == 0 {
        Err(ConfigError::EmptyName)
    } else if exam.config.passing_percent_hundredths > 10000 {
        Err(ConfigError::PassingPercentOutOfRange)
    } else {
        match first_tag_error_at(exam, 0) {
            Some(e) => Err(e),
            None => match first_set_count_error_at(exam, 0) {
                Some(e) => Err(e),
                None => match first_question_count_error_at(exam, 0) {
                    Some(e) => Err(e),
                    None => match first_answer_error_at(exam, 0) {
                        Some(e) => Err(e),
                        None => match first_content_error_at(exam.question_sets@, 0) {
                            Some(e) => Err(e),
                            None => Ok(()),
                        },
                    },
                },
            },
        }
    }
}

/// Checks that the template is solvable: every tag quota and set quota can
/// be met, every configured question offers enough answers, and all texts
/// are non-blank with at least one correct answer per question. Returns the
/// first failing check, in document order.
pub fn validate_config(exam: &Exam) -> (r: Result<(), ConfigError>)
    ensures
        r == spec_validate_config(*exam),
{
    if exam.config.name.as_str().is_empty() {
        return Err(ConfigError::EmptyName);
    }
    if exam.config.passing_percent_hundredths > 10000 {
        return Err(ConfigError::PassingPercentOutOfRange);
    }

    let sets = &exam.question_sets;

    // Tag quotas.
    let ntags = exam.config.tags.len();
    for i in 0..ntags
        invariant
            ntags == exam.config.tags@.len(),
            exam.config.name@.len() != 0,
            exam.config.passing_percent_hundredths <= 10000,
            first_tag_error_at(*exam, 0) == first_tag_error_at(*exam, i as int),
    {
        let available = count_tagged_exec(&exam.question_sets, &exam.config.tags[i].group);
        if available < exam.config.tags[i].number_of_questions as u128 {
            return Err(ConfigError::NotEnoughQuestionsForTag(i));
        }
    }

    // Set-count quotas.
    let nconf = exam.config.question_sets.len();
    for i in 0..nconf
        invariant
            nconf == exam.config.question_sets@.len(),
            exam.config.name@.len() != 0,
            exam.config.passing_percent_hundredths <= 10000,
            first_tag_error_at(*exam, 0) is None,
            first_set_count_error_at(*exam, 0) == first_set_count_error_at(*exam, i as int),
    {
        let c = &exam.config.question_sets[i];
        let available = count_sets_of_type_exec(&exam.question_sets, c.set_type);
        if (available as u64) < c.number_of_set as u64 {
            return Err(ConfigError::NotEnoughQuestionSets(c.set_type));
        }
    }

    // Question-count quotas: enough in total, and one set large enough.
    for i in 0..nconf
        invariant
            nconf == exam.config.question_sets@.len(),
            exam.config.name@.len() != 0,
            exam.config.passing_percent_hundredths <= 10000,
            first_tag_error_at(*exam, 0) is None,
            first_set_count_error_at(*exam, 0) is None,
            first_question_count_error_at(*exam, 0) == first_question_count_error_at(
                *exam,
                i as int,
            ),
    {
        let c = &exam.config.question_sets[i];
        let total = total_questions_of_type_exec(&exam.question_sets, c.set_type);
        let ns = c.number_of_set as u64;
        let nq2 = c.number_of_questions as u64;
        proof {
            assert(ns * nq2 <= (u32::MAX as u64) * (u32::MAX as u64)) by (nonlinear_arith)
                requires
                    ns <= u32::MAX as u64,
                    nq2 <= u32::MAX as u64,
            ;
        }
        let required = (ns * nq2) as u128;
        if total < required {
            return Err(ConfigError::NotEnoughQuestionsOverall(c.set_type));
        }
        if !some_set_large_enough_exec(&exam.question_sets, c.set_type, c.number_of_questions) {
            return Err(ConfigError::NoSingleSetLargeEnough(c.set_type));
        }
    }

    // Answer-count quotas per configured type.
    for i in 0..nconf
        invariant
            nconf == exam.config.question_sets@.len(),
            exam.config.name@.len() != 0,
            exam.config.passing_percent_hundredths <= 10000,
            first_tag_error_at(*exam, 0) is None,
            first_set_count_error_at(*exam, 0) is None,
            first_question_count_error_at(*exam, 0) is None,
            first_answer_error_at(*exam, 0) == first_answer_error_at(*exam, i as int),
    {
        let c = &exam.config.question_sets[i];
        if let Some(e) = answer_error_for(c, &exam.question_sets) {
            return Err(e);
        }
    }

    // Content checks: non-blank texts, at least one correct answer.
    let nsets = sets.len();
    for i in 0..nsets
        invariant
            nsets == exam.question_sets@.len(),
            sets == exam.question_sets,
            exam.config.name@.len() != 0,
            exam.config.passing_percent_hundredths <= 10000,
            first_tag_error_at(*exam, 0) is None,
            first_set_count_error_at(*exam, 0) is None,
            first_question_count_error_at(*exam, 0) is None,
            first_answer_error_at(*exam, 0) is None,
            first_content_error_at(sets@, 0) == first_content_error_at(sets@, i as int),
    {
        if let Some(e) = content_error_in(&sets[i].questions) {
            return Err(e);
        }
    }

    Ok(())
}

/// Finds the first answer-count violation for one config, across the sets
/// of its type.
fn answer_error_for(c: &QuestionSetConfig, sets: &Vec<QuestionSet>) -> (r: Option<ConfigError>)
    ensures
        r == first_answer_error_for_at(*c, sets@, 0),
{
    let nsets = sets.len();
    for i in 0..nsets
        invariant
            nsets == sets@.len(),
            first_answer_error_for_at(*c, sets@, 0) == first_answer_error_for_at(
                *c,
                sets@,
                i as int,
            ),
    {
        if sets[i].set_type == c.set_type {
            let qs = &sets[i].questions;
            let nq = qs.len();
            for j in 0..nq
                invariant
                    nsets == sets@.len(),
                    i < nsets,
                    nq == qs@.len(),
                    qs == sets@[i as int].questions,
                    sets@[i as int].set_type == c.set_type,
                    first_answer_error_for_at(*c, sets@, 0) == first_answer_error_for_at(
                        *c,
                        sets@,
                        i as int,
                    ),
                    first_answer_error_in_at(*c, qs@, 0) == first_answer_error_in_at(
                        *c,
                        qs@,
                        j as int,
                    ),
            {
                let nc = count_correct_exec(&qs[j].answers);
                if (nc as u64) < c.number_of_correct_answers as u64 {
                    return Some(ConfigError::NotEnoughCorrectAnswers(qs[j].id));
                }
                let ni = count_incorrect_exec(&qs[j].answers);
                if (ni as u64) < c.number_of_incorrect_answers as u64 {
                    return Some(ConfigError::NotEnoughIncorrectAnswers(qs[j].id));
                }
            }
        }
    }
    None
}

/// Finds the first content violation among one question list.
fn content_error_in(qs: &Vec<Question>) -> (r: Option<ConfigError>)
    ensures
        r == first_content_error_in_at(qs@, 0),
{
    let nq = qs.len();
    for j in 0..nq
        invariant
            nq == qs@.len(),
            first_content_error_in_at(qs@, 0) == first_content_error_in_at(qs@, j as int),
    {
        if is_blank_text(&qs[j].text) {
            return Some(ConfigError::EmptyQuestionText(qs[j].id));
        }
        let nc = count_correct_exec(&qs[j].answers);
        if nc == 0 {
            return Some(ConfigError::NoCorrectAnswer(qs[j].id));
        }
        let answers = &qs[j].answers;
        let na = answers.len();
        for k in 0..na
            invariant
                nq == qs@.len(),
                j < nq,
                na == answers@.len(),
                answers == qs@[j as int].answers,
                first_content_error_in_at(qs@, 0) == first_content_error_in_at(qs@, j as int),
                !text_blank(qs@[j as int].text@),
                count_correct(qs@[j as int].answers@) != 0,
                first_blank_answer_at(answers@, 0) == first_blank_answer_at(answers@, k as int),
        {
            if is_blank_text(&answers[k].text) {
                return Some(ConfigError::EmptyAnswerText(answers[k].id));
            }
        }
    }
    None
}

} // verus!

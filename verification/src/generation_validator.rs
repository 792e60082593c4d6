//! Generation validator: a generated exam must have no identifier collision
//! among its question sets, questions and answers, within or across the
//! three categories.

use vstd::prelude::*;

use crate::error::{Error, GenerationError};
use crate::records::{GeneratedExam, GeneratedQuestion, GeneratedQuestionSet, Id};

verus! {

/// Every id of a generated question, in document order: the question id,
/// then its answer ids.
pub open spec fn question_ids_with_answers(qs: Seq<GeneratedQuestion>) -> Seq<Id>
    decreases qs.len(),
{
    if qs.len() == 0 {
        Seq::empty()
    } else {
        seq![qs[0].id] + qs[0].answers@ + question_ids_with_answers(qs.drop_first())
    }
}

/// Every id of a generation, in document order: per set, the set id, then
/// its questions' ids with their answers.
pub open spec fn all_gen_ids(gs: Seq<GeneratedQuestionSet>) -> Seq<Id>
    decreases gs.len(),
{
    if gs.len() == 0 {
        Seq::empty()
    } else {
        seq![gs[0].id] + question_ids_with_answers(gs[0].questions@) + all_gen_ids(gs.drop_first())
    }
}

/// No id occurs twice.
pub open spec fn ids_unique(s: Seq<Id>) -> bool {
    forall|i: int, j: int| 0 <= i < j < s.len() ==> s[i] != s[j]
}

/// A generation is collision-free when its flattened id list is unique.
pub open spec fn gen_ids_unique(gs: Seq<GeneratedQuestionSet>) -> bool {
    ids_unique(all_gen_ids(gs))
}

/// The first id that repeats an earlier one, scanning from position `j`.
pub open spec fn first_dup_at(s: Seq<Id>, j: int) -> Option<Id>
    decreases s.len() - j when 0 <= j <= s.len()
{
    if j >= s.len() {
        None
    } else if s.take(j).contains(s[j]) {
        Some(s[j])
    } else {
        first_dup_at(s, j + 1)
    }
}

/// The first id of `s` that repeats an earlier one, if any.
pub open spec fn first_dup(s: Seq<Id>) -> Option<Id> {
    first_dup_at(s, 0)
}

proof fn lemma_first_dup_none_iff_at(s: Seq<Id>, j: int)
    requires
        0 <= j <= s.len(),
        ids_unique(s.take(j)),
    ensures
        (first_dup_at(s, j) is None) <==> ids_unique(s),
    decreases s.len() - j,
{
    if j >= s.len() {
        assert(s.take(j) =~= s);
    } else if s.take(j).contains(s[j]) {
        let i = choose|i: int| 0 <= i < j && s.take(j)[i] == s[j];
        assert(s[i] == s[j]);
    } else {
        assert(ids_unique(s.take(j + 1))) by {
            assert(forall|k: int| 0 <= k < j + 1 ==> s.take(j + 1)[k] == s[k]);
            assert(forall|k: int| 0 <= k < j ==> s.take(j)[k] == s[k]);
            assert(forall|k: int| 0 <= k < j ==> s[k] != s[j]) by {
                assert(forall|k: int|
                    0 <= k < j && s[k] == s[j] ==> s.take(j).contains(#[trigger] s[k]));
            }
        }
        lemma_first_dup_none_iff_at(s, j + 1);
    }
}

/// A scan that never saw a repeat means the whole list is unique, and the
/// other way round.
pub proof fn lemma_first_dup_none_iff(s: Seq<Id>)
    ensures
        (first_dup(s) is None) <==> ids_unique(s),
{
    assert(s.take(0) =~= Seq::<Id>::empty());
    lemma_first_dup_none_iff_at(s, 0);
}

/// Flattening distributes over concatenation of question lists.
proof fn lemma_question_ids_concat(a: Seq<GeneratedQuestion>, b: Seq<GeneratedQuestion>)
    ensures
        question_ids_with_answers(a + b) == question_ids_with_answers(a)
            + question_ids_with_answers(b),
    decreases a.len(),
{
    if a.len() == 0 {
        assert(a + b =~= b);
        assert(question_ids_with_answers(a) =~= Seq::<Id>::empty());
        assert(question_ids_with_answers(a) + question_ids_with_answers(b)
            =~= question_ids_with_answers(b));
    } else {
        assert((a + b).drop_first() =~= a.drop_first() + b);
        assert((a + b)[0] == a[0]);
        lemma_question_ids_concat(a.drop_first(), b);
        assert(seq![a[0].id] + a[0].answers@ + (question_ids_with_answers(a.drop_first())
            + question_ids_with_answers(b)) =~= (seq![a[0].id] + a[0].answers@
            + question_ids_with_answers(a.drop_first())) + question_ids_with_answers(b));
    }
}

/// Flattening distributes over concatenation of set lists.
proof fn lemma_all_gen_ids_concat(a: Seq<GeneratedQuestionSet>, b: Seq<GeneratedQuestionSet>)
    ensures
        all_gen_ids(a + b) == all_gen_ids(a) + all_gen_ids(b),
    decreases a.len(),
{
    if a.len() == 0 {
        assert(a + b =~= b);
        assert(all_gen_ids(a) =~= Seq::<Id>::empty());
        assert(all_gen_ids(a) + all_gen_ids(b) =~= all_gen_ids(b));
    } else {
        assert((a + b).drop_first() =~= a.drop_first() + b);
        assert((a + b)[0] == a[0]);
        lemma_all_gen_ids_concat(a.drop_first(), b);
        assert(seq![a[0].id] + question_ids_with_answers(a[0].questions@) + (all_gen_ids(
            a.drop_first(),
        ) + all_gen_ids(b)) =~= (seq![a[0].id] + question_ids_with_answers(a[0].questions@)
            + all_gen_ids(a.drop_first())) + all_gen_ids(b));
    }
}

/// Collects every id of one question list, in document order.
fn collect_question_ids(questions: &Vec<GeneratedQuestion>, out: &mut Vec<Id>)
    ensures
        final(out)@ == old(out)@ + question_ids_with_answers(questions@),
{
    let ghost orig = out@;
    let nq = questions.len();
    proof {
        assert(questions@.take(0) =~= Seq::<GeneratedQuestion>::empty());
        assert(question_ids_with_answers(questions@.take(0)) =~= Seq::<Id>::empty());
        assert(out@ =~= orig + question_ids_with_answers(questions@.take(0)));
    }
    for j in 0..nq
        invariant
            nq == questions@.len(),
            out@ == orig + question_ids_with_answers(questions@.take(j as int)),
    {
        out.push(questions[j].id);
        let na = questions[j].answers.len();
        for k in 0..na
            invariant
                nq == questions@.len(),
                j < nq,
                na == questions@[j as int].answers@.len(),
                out@ == orig + question_ids_with_answers(questions@.take(j as int)) + seq![
                    questions@[j as int].id,
                ] + questions@[j as int].answers@.take(k as int),
        {
            out.push(questions[j].answers[k]);
            proof {
                assert(questions@[j as int].answers@.take(k as int).push(
                    questions@[j as int].answers@[k as int],
                ) =~= questions@[j as int].answers@.take(k as int + 1));
                assert(out@ =~= orig + question_ids_with_answers(questions@.take(j as int)) + seq![
                    questions@[j as int].id,
                ] + questions@[j as int].answers@.take(k as int + 1));
            }
        }
        proof {
            let q = questions@[j as int];
            assert(q.answers@.take(na as int) =~= q.answers@);
            let one = seq![q];
            assert(one.drop_first() =~= Seq::<GeneratedQuestion>::empty());
            assert(one[0] == q);
            assert(question_ids_with_answers(one.drop_first()) =~= Seq::<Id>::empty());
            assert(question_ids_with_answers(one) =~= seq![q.id] + q.answers@);
            assert(questions@.take(j as int + 1) =~= questions@.take(j as int) + one);
            lemma_question_ids_concat(questions@.take(j as int), one);
            assert(out@ =~= orig + question_ids_with_answers(questions@.take(j as int + 1)));
        }
    }
    proof {
        assert(questions@.take(nq as int) =~= questions@);
    }
}

/// Collects every id of a generation, in document order.
pub(crate) fn collect_gen_ids(gs: &Vec<GeneratedQuestionSet>) -> (r: Vec<Id>)
    ensures
        r@ == all_gen_ids(gs@),
{
    let mut out: Vec<Id> = Vec::new();
    let n = gs.len();
    proof {
        assert(gs@.take(0) =~= Seq::<GeneratedQuestionSet>::empty());
        assert(out@ =~= all_gen_ids(gs@.take(0)));
    }
    for i in 0..n
        invariant
            n == gs@.len(),
            out@ == all_gen_ids(gs@.take(i as int)),
    {
        let ghost before = out@;
        out.push(gs[i].id);
        collect_question_ids(&gs[i].questions, &mut out);
        proof {
            let s = gs@[i as int];
            let one = seq![s];
            assert(one.drop_first() =~= Seq::<GeneratedQuestionSet>::empty());
            assert(one[0] == s);
            assert(all_gen_ids(one.drop_first()) =~= Seq::<Id>::empty());
            assert(all_gen_ids(one) =~= seq![s.id] + question_ids_with_answers(s.questions@));
            assert(gs@.take(i as int + 1) =~= gs@.take(i as int) + one);
            lemma_all_gen_ids_concat(gs@.take(i as int), one);
            assert(out@ =~= before + seq![s.id] + question_ids_with_answers(s.questions@));
            assert(out@ =~= all_gen_ids(gs@.take(i as int + 1)));
        }
    }
    proof {
        assert(gs@.take(n as int) =~= gs@);
    }
    out
}

/// Whether the first `k` entries of `v` hold `x`.
fn contains_id_prefix(v: &Vec<Id>, k: usize, x: Id) -> (r: bool)
    requires
        k <= v@.len(),
    ensures
        r == v@.take(k as int).contains(x),
{
    for i in 0..k
        invariant
            k <= v@.len(),
            forall|j: int| 0 <= j < i ==> v@[j] != x,
    {
        if v[i] == x {
            proof {
                assert(v@.take(k as int)[i as int] == x);
            }
            return true;
        }
    }
    proof {
        if v@.take(k as int).contains(x) {
            let j = choose|j: int| 0 <= j < k && v@.take(k as int)[j] == x;
            assert(v@[j] == x);
        }
    }
    false
}

/// The first id of `v` that repeats an earlier one, if any.
pub(crate) fn find_first_duplicate(v: &Vec<Id>) -> (r: Option<Id>)
    ensures
        r == first_dup(v@),
{
    let n = v.len();
    for i in 0..n
        invariant
            n == v@.len(),
            first_dup(v@) == first_dup_at(v@, i as int),
    {
        if contains_id_prefix(v, i, v[i]) {
            return Some(v[i]);
        }
    }
    None
}

/// Checks a generation for identifier collisions: `Ok` exactly when no id
/// occurs twice anywhere among set ids, question ids and answer ids; else
/// the first repeated id, in document order.
pub fn validate_generation(generation: &GeneratedExam) -> (r: Result<(), Error>)
    ensures
        r is Ok <==> gen_ids_unique(generation.question_sets@),
        r == (match first_dup(all_gen_ids(generation.question_sets@)) {
            None => Ok::<(), Error>(()),
            Some(x) => Err::<(), Error>(Error::Generation(GenerationError::DuplicateId(x))),
        }),
{
    let ids = collect_gen_ids(&generation.question_sets);
    proof {
        lemma_first_dup_none_iff(ids@);
    }
    match find_first_duplicate(&ids) {
        None => Ok(()),
        Some(x) => Err(Error::Generation(GenerationError::DuplicateId(x))),
    }
}

} // verus!

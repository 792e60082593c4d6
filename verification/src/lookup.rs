//! First-match lookup by identifier, shared by the scorer, the attempt
//! assembler and the pipeline. All joins in the engine are by id, and a
//! collection may in principle hold two records with one id, so every
//! contract here is phrased over the *first* match in scan order.

use vstd::prelude::*;

use crate::records::Id;

verus! {

/// A record addressed by an `Id` key.
pub trait Keyed: Sized {
    /// The key the record is looked up by.
    spec fn key(self) -> Id;

    /// Returns the key of the record.
    fn read_key(&self) -> (k: Id)
        ensures
            k == self.key(),
    ;
}

impl Keyed for crate::records::Answer {
    open spec fn key(self) -> Id {
        self.id
    }

    fn read_key(&self) -> (k: Id) {
        self.id
    }
}

impl Keyed for crate::records::QuestionSet {
    open spec fn key(self) -> Id {
        self.id
    }

    fn read_key(&self) -> (k: Id) {
        self.id
    }
}

impl Keyed for crate::records::Question {
    open spec fn key(self) -> Id {
        self.id
    }

    fn read_key(&self) -> (k: Id) {
        self.id
    }
}

impl Keyed for crate::records::GeneratedQuestionSet {
    open spec fn key(self) -> Id {
        self.id
    }

    fn read_key(&self) -> (k: Id) {
        self.id
    }
}

impl Keyed for crate::records::GeneratedQuestion {
    open spec fn key(self) -> Id {
        self.id
    }

    fn read_key(&self) -> (k: Id) {
        self.id
    }
}

impl Keyed for crate::records::QuestionSetAttempt {
    open spec fn key(self) -> Id {
        self.id
    }

    fn read_key(&self) -> (k: Id) {
        self.id
    }
}

impl Keyed for crate::records::QuestionAttempt {
    open spec fn key(self) -> Id {
        self.id
    }

    fn read_key(&self) -> (k: Id) {
        self.id
    }
}

impl Keyed for crate::records::Exam {
    open spec fn key(self) -> Id {
        self.id
    }

    fn read_key(&self) -> (k: Id) {
        self.id
    }
}

impl Keyed for crate::records::GeneratedExam {
    open spec fn key(self) -> Id {
        self.id
    }

    fn read_key(&self) -> (k: Id) {
        self.id
    }
}

impl Keyed for crate::records::ExamAttempt {
    open spec fn key(self) -> Id {
        self.id
    }

    fn read_key(&self) -> (k: Id) {
        self.id
    }
}

/// A challenge mapping is looked up by the exam it certifies.
impl Keyed for crate::records::Challenge {
    open spec fn key(self) -> Id {
        self.exam_id
    }

    fn read_key(&self) -> (k: Id) {
        self.exam_id
    }
}

/// The first record of `s` whose key is `id`, if any.
pub open spec fn spec_find<T: Keyed>(s: Seq<T>, id: Id) -> Option<T>
    decreases s.len(),
{
    if s.len() == 0 {
        None
    } else if s[0].key() == id {
        Some(s[0])
    } else {
        spec_find(s.drop_first(), id)
    }
}

/// Returns the first record of `v` whose key is `id`, if any.
pub fn find_by_key<'a, T: Keyed>(v: &'a Vec<T>, id: Id) -> (r: Option<&'a T>)
    ensures
        match r {
            Some(t) => spec_find(v@, id) == Some(*t),
            None => spec_find(v@, id) is None,
        },
{
    let n = v.len();
    proof {
        assert(v@.skip(0) =~= v@);
    }
    for i in 0..n
        invariant
            n == v@.len(),
            spec_find(v@, id) == spec_find(v@.skip(i as int), id),
    {
        proof {
            assert(v@.skip(i as int)[0] == v@[i as int]);
        }
        if v[i].read_key() == id {
            return Some(&v[i]);
        }
        proof {
            assert(v@.skip(i as int).drop_first() =~= v@.skip(i as int + 1));
        }
    }
    proof {
        assert(v@.skip(n as int) =~= Seq::<T>::empty());
    }
    None
}

/// Whether `v` holds the id `x`.
pub fn contains_id(v: &Vec<Id>, x: Id) -> (r: bool)
    ensures
        r == v@.contains(x),
{
    let n = v.len();
    for i in 0..n
        invariant
            n == v@.len(),
            forall|j: int| 0 <= j < i ==> v@[j] != x,
    {
        if v[i] == x {
            return true;
        }
    }
    false
}

} // verus!

//! Record model: the typed shapes the engine reads and writes.
//!
//! Identifiers are 12-byte opaque values; the engine only ever compares them
//! for equality, so they are held as two plain integers. Timestamps are UTC
//! millisecond instants (`i64`). The passing percentage is held in hundredths
//! of a percent so that score comparisons stay in integer arithmetic.

use vstd::prelude::*;

verus! {

/// A 12-byte opaque record identifier (4 high bytes, 8 low bytes).
#[derive(Clone, Copy, Debug, PartialEq, Eq, Structural, Hash)]
pub struct Id {
    pub hi: u32,
    pub lo: u64,
}

impl Id {
    /// Convenience constructor for identifiers drawn from a small space.
    pub fn from_u64(n: u64) -> (r: Id)
        ensures
            r == (Id { hi: 0u32, lo: n }),
    {
        Id { hi: 0, lo: n }
    }
}

/// One answer of a question in the exam template.
#[derive(Clone, Debug)]
pub struct Answer {
    pub id: Id,
    pub is_correct: bool,
    pub text: String,
}

/// Copies an option of text, keeping the value.
pub fn clone_opt_string(o: &Option<String>) -> (r: Option<String>)
    ensures
        r == *o,
{
    match o {
        None => None,
        Some(s) => Some(s.clone()),
    }
}

/// Copies a list of ids, keeping the sequence.
pub fn clone_id_vec(v: &Vec<Id>) -> (r: Vec<Id>)
    ensures
        r@ == v@,
{
    let mut r: Vec<Id> = Vec::new();
    let n = v.len();
    for i in 0..n
        invariant
            n == v@.len(),
            r@ == v@.take(i as int),
    {
        r.push(v[i]);
        proof {
            assert(v@.take(i as int).push(v@[i as int]) =~= v@.take(i as int + 1));
        }
    }
    proof {
        assert(v@.take(n as int) =~= v@);
    }
    r
}

/// Copies a list of texts, keeping the sequence of values.
pub fn clone_string_vec(v: &Vec<String>) -> (r: Vec<String>)
    ensures
        r@ == v@,
{
    let mut r: Vec<String> = Vec::new();
    let n = v.len();
    for i in 0..n
        invariant
            n == v@.len(),
            r@ == v@.take(i as int),
    {
        r.push(v[i].clone());
        proof {
            assert(v@.take(i as int).push(v@[i as int]) =~= v@.take(i as int + 1));
        }
    }
    proof {
        assert(v@.take(n as int) =~= v@);
    }
    r
}

/// Copies a list of answers, keeping the sequence of values.
pub fn clone_answers(v: &Vec<Answer>) -> (r: Vec<Answer>)
    ensures
        r@ == v@,
{
    let mut r: Vec<Answer> = Vec::new();
    let n = v.len();
    for i in 0..n
        invariant
            n == v@.len(),
            r@ == v@.take(i as int),
    {
        let a = Answer { id: v[i].id, is_correct: v[i].is_correct, text: v[i].text.clone() };
        proof {
            assert(a == v@[i as int]);
        }
        r.push(a);
        proof {
            assert(v@.take(i as int).push(v@[i as int]) =~= v@.take(i as int + 1));
        }
    }
    proof {
        assert(v@.take(n as int) =~= v@);
    }
    r
}

/// Optional audio attachment of a question.
#[derive(Clone, Debug)]
pub struct Audio {
    pub captions: Option<String>,
    pub url: String,
}

/// One question of the exam template.
#[derive(Clone, Debug)]
pub struct Question {
    pub id: Id,
    pub text: String,
    pub tags: Vec<String>,
    pub audio: Option<Audio>,
    pub answers: Vec<Answer>,
    pub deprecated: bool,
}

/// The kind of a question set.
#[derive(Clone, Copy, Debug, PartialEq, Eq, Structural)]
pub enum QuestionType {
    MultipleChoice,
}

/// One question set of the exam template.
#[derive(Clone, Debug)]
pub struct QuestionSet {
    pub id: Id,
    pub set_type: QuestionType,
    pub context: Option<String>,
    pub questions: Vec<Question>,
}

/// A quota on questions carrying every tag of a group.
#[derive(Clone, Debug)]
pub struct TagConfig {
    pub group: Vec<String>,
    pub number_of_questions: u32,
}

/// A quota on question sets of one type.
#[derive(Clone, Copy, Debug)]
pub struct QuestionSetConfig {
    pub set_type: QuestionType,
    pub number_of_set: u32,
    pub number_of_questions: u32,
    pub number_of_correct_answers: u32,
    pub number_of_incorrect_answers: u32,
}

/// The configuration of an exam template.
#[derive(Clone, Debug)]
pub struct Config {
    pub name: String,
    pub note: String,
    /// Passing threshold, in hundredths of a percent (0 ..= 10_000).
    pub passing_percent_hundredths: u32,
    /// Total allowed exam time, in seconds; positive.
    pub total_time_in_s: u32,
    /// Wait before a retake is allowed, in milliseconds.
    pub retake_time_in_ms: i64,
    pub tags: Vec<TagConfig>,
    pub question_sets: Vec<QuestionSetConfig>,
}

/// Copies an option of audio, keeping the value.
pub fn clone_opt_audio(o: &Option<Audio>) -> (r: Option<Audio>)
    ensures
        r == *o,
{
    match o {
        None => None,
        Some(a) => {
            let c = Audio { captions: clone_opt_string(&a.captions), url: a.url.clone() };
            proof {
                assert(c == *a);
            }
            Some(c)
        },
    }
}

/// Two tag config lists agree: same length, same quotas, same groups.
pub open spec fn tag_configs_like(a: Seq<TagConfig>, b: Seq<TagConfig>) -> bool {
    &&& a.len() == b.len()
    &&& forall|i: int|
        0 <= i < a.len() ==> #[trigger] a[i].number_of_questions == b[i].number_of_questions
            && a[i].group@ == b[i].group@
}

/// Copies a list of tag configs, keeping quotas and groups.
pub fn clone_tag_configs(v: &Vec<TagConfig>) -> (r: Vec<TagConfig>)
    ensures
        tag_configs_like(r@, v@),
{
    let mut r: Vec<TagConfig> = Vec::new();
    let n = v.len();
    for i in 0..n
        invariant
            n == v@.len(),
            r@.len() == i,
            tag_configs_like(r@, v@.take(i as int)),
    {
        let t = TagConfig {
            group: clone_string_vec(&v[i].group),
            number_of_questions: v[i].number_of_questions,
        };
        r.push(t);
    }
    proof {
        assert(v@.take(n as int) =~= v@);
    }
    r
}

/// Copies a list of question set configs, keeping the sequence.
pub fn clone_set_configs(v: &Vec<QuestionSetConfig>) -> (r: Vec<QuestionSetConfig>)
    ensures
        r@ == v@,
{
    let mut r: Vec<QuestionSetConfig> = Vec::new();
    let n = v.len();
    for i in 0..n
        invariant
            n == v@.len(),
            r@ == v@.take(i as int),
    {
        r.push(v[i]);
        proof {
            assert(v@.take(i as int).push(v@[i as int]) =~= v@.take(i as int + 1));
        }
    }
    proof {
        assert(v@.take(n as int) =~= v@);
    }
    r
}

/// Two configs agree on every field, comparing lists by content.
pub open spec fn config_like(a: Config, b: Config) -> bool {
    &&& a.name == b.name
    &&& a.note == b.note
    &&& a.passing_percent_hundredths == b.passing_percent_hundredths
    &&& a.total_time_in_s == b.total_time_in_s
    &&& a.retake_time_in_ms == b.retake_time_in_ms
    &&& tag_configs_like(a.tags@, b.tags@)
    &&& a.question_sets@ == b.question_sets@
}

/// Copies a config, keeping every field's content.
pub fn clone_config(c: &Config) -> (r: Config)
    ensures
        config_like(r, *c),
{
    Config {
        name: c.name.clone(),
        note: c.note.clone(),
        passing_percent_hundredths: c.passing_percent_hundredths,
        total_time_in_s: c.total_time_in_s,
        retake_time_in_ms: c.retake_time_in_ms,
        tags: clone_tag_configs(&c.tags),
        question_sets: clone_set_configs(&c.question_sets),
    }
}

/// The master exam template. The engine only reads it.
#[derive(Clone, Debug)]
pub struct Exam {
    pub id: Id,
    pub prerequisites: Vec<Id>,
    pub deprecated: bool,
    pub version: i64,
    pub config: Config,
    pub question_sets: Vec<QuestionSet>,
}

/// The part of an exam template that generation needs.
#[derive(Clone, Debug)]
pub struct ExamInput {
    pub id: Id,
    pub question_sets: Vec<QuestionSet>,
    pub config: Config,
}

/// One question of a generated exam: the offered answer ids, in offer order.
#[derive(Clone, Debug)]
pub struct GeneratedQuestion {
    pub id: Id,
    pub answers: Vec<Id>,
}

/// One question set of a generated exam.
#[derive(Clone, Debug)]
pub struct GeneratedQuestionSet {
    pub id: Id,
    pub questions: Vec<GeneratedQuestion>,
}

/// A concrete per-user exam instance drawn from a template.
#[derive(Clone, Debug)]
pub struct GeneratedExam {
    pub id: Id,
    pub exam_id: Id,
    pub question_sets: Vec<GeneratedQuestionSet>,
    pub deprecated: bool,
    pub version: i64,
}

/// One answered question of a raw attempt.
#[derive(Clone, Debug)]
pub struct QuestionAttempt {
    pub id: Id,
    pub answers: Vec<Id>,
    pub submission_time_ms: i64,
}

/// One question set of a raw attempt.
#[derive(Clone, Debug)]
pub struct QuestionSetAttempt {
    pub id: Id,
    pub questions: Vec<QuestionAttempt>,
}

/// One user's single run of an exam instance, as persisted.
#[derive(Clone, Debug)]
pub struct ExamAttempt {
    pub id: Id,
    pub user_id: Id,
    pub exam_id: Id,
    pub generated_exam_id: Id,
    pub question_sets: Vec<QuestionSetAttempt>,
    pub start_time_ms: i64,
    /// Set once the pipeline has created a moderation record.
    pub exam_moderation_id: Option<Id>,
    pub version: i64,
}

/// Disposition of a moderation record.
#[derive(Clone, Copy, Debug, PartialEq, Eq, Structural)]
pub enum ModerationStatus {
    Pending,
    Approved,
    Denied,
}

/// The fixed set of feedback notes the pipeline writes on a moderation;
/// rendering them as wire strings is the embedding program's concern. The
/// score is carried in millionths.
#[derive(Clone, Copy, Debug, PartialEq, Eq, Structural)]
pub enum ModerationFeedback {
    /// "Auto Approved - Failed attempt"
    AutoApprovedFailedAttempt,
    /// "Auto Approved - Moderation score: {score}"
    AutoApprovedScore(u64),
    /// "Moderation score: {score}"
    ScoreReport(u64),
    /// "Auto Approved - Moderation time exceeded"
    AutoApprovedTimeExceeded,
    /// "Auto Moderated - Invalid attempt submission"
    AutoModeratedInvalidSubmission,
}

/// The lifecycle record deciding whether an attempt's certificate is granted.
#[derive(Clone, Copy, Debug, PartialEq, Eq, Structural)]
pub struct Moderation {
    pub id: Id,
    pub exam_attempt_id: Id,
    pub status: ModerationStatus,
    pub moderator_id: Option<Id>,
    pub feedback: Option<ModerationFeedback>,
    pub moderation_date_ms: Option<i64>,
    pub submission_date_ms: i64,
    pub challenges_awarded: bool,
    pub version: i64,
}

/// Maps an exam to the certification challenge it awards.
#[derive(Clone, Copy, Debug, PartialEq, Eq, Structural)]
pub struct Challenge {
    pub id: Id,
    pub exam_id: Id,
    pub challenge_id: Id,
}

/// One certification challenge a user has completed.
#[derive(Clone, Copy, Debug, PartialEq, Eq, Structural)]
pub struct CompletedChallenge {
    pub id: Id,
    pub completed_date_ms: i64,
    pub challenge_type: i64,
}

/// The slice of a user record the engine reads and updates.
#[derive(Clone, Debug)]
pub struct User {
    pub id: Id,
    pub completed_challenges: Vec<CompletedChallenge>,
}

/// The kind of a user-activity event.
#[derive(Clone, Copy, Debug, PartialEq, Eq, Structural)]
pub enum EventKind {
    CaptionsOpened,
    QuestionVisit,
    Focus,
    Blur,
    ExamExit,
}

/// One user-activity event recorded during an attempt.
#[derive(Clone, Debug)]
pub struct Event {
    pub id: String,
    pub timestamp_ms: i64,
    pub kind: EventKind,
    pub attempt_id: Id,
}

} // verus!

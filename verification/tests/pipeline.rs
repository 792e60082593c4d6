//! Exercises the attempt view, the moderation scorer, the reconciliation
//! pipeline tasks and the service settings on concrete data.

use exam_engine::attempt_view::construct_attempt;
use exam_engine::env_config::{
    environment_from_name, EnvVars, Environment, DEFAULT_MODERATION_LENGTH_IN_S,
    DEFAULT_MODERATION_THRESHOLD_MILLIONTHS,
};
use exam_engine::moderation_score::{try_get_moderation_score, try_raw_moderation_score};
use exam_engine::pipeline::{
    auto_approve_moderation_records, award_challenge_ids, delete_old_events,
    delete_practice_exam_attempts, ensure_awarded_challenges, remediate_duplicate_moderations,
    update_moderation_collection,
};
use exam_engine::records::{
    Answer, Challenge, CompletedChallenge, Config, Event, EventKind, Exam, ExamAttempt,
    GeneratedExam, GeneratedQuestion, GeneratedQuestionSet, Id, Moderation, ModerationFeedback,
    ModerationStatus, Question, QuestionAttempt, QuestionSet, QuestionSetAttempt, QuestionType,
    User,
};

fn id(n: u64) -> Id {
    Id::from_u64(n)
}

fn answer(n: u64, correct: bool) -> Answer {
    Answer {
        id: id(n),
        is_correct: correct,
        text: format!("answer {}", n),
    }
}

fn event(n: u64, ts: i64, kind: EventKind, attempt: Id) -> Event {
    Event {
        id: format!("event-{}", n),
        timestamp_ms: ts,
        kind,
        attempt_id: attempt,
    }
}

/// One exam of two one-correct-answer questions, its generation, and an
/// attempt answering both at the given instants with the given answers.
fn fixture(answers: [u64; 2], submissions: [i64; 2]) -> (Exam, GeneratedExam, ExamAttempt) {
    let exam = Exam {
        id: id(1),
        prerequisites: vec![],
        deprecated: false,
        version: 1,
        config: Config {
            name: "pipeline exam".to_string(),
            note: String::new(),
            passing_percent_hundredths: 7000,
            total_time_in_s: 100,
            retake_time_in_ms: 0,
            tags: vec![],
            question_sets: vec![],
        },
        question_sets: vec![QuestionSet {
            id: id(10),
            set_type: QuestionType::MultipleChoice,
            context: Some("context".to_string()),
            questions: vec![
                Question {
                    id: id(11),
                    text: "first".to_string(),
                    tags: vec!["networking".to_string()],
                    audio: None,
                    answers: vec![answer(101, true), answer(102, false)],
                    deprecated: false,
                },
                Question {
                    id: id(12),
                    text: "second".to_string(),
                    tags: vec![],
                    audio: None,
                    answers: vec![answer(103, true), answer(104, false)],
                    deprecated: false,
                },
            ],
        }],
    };
    let generation = GeneratedExam {
        id: id(2),
        exam_id: id(1),
        question_sets: vec![GeneratedQuestionSet {
            id: id(10),
            questions: vec![
                GeneratedQuestion {
                    id: id(11),
                    answers: vec![id(101), id(102)],
                },
                GeneratedQuestion {
                    id: id(12),
                    answers: vec![id(103), id(104)],
                },
            ],
        }],
        deprecated: false,
        version: 1,
    };
    let attempt = ExamAttempt {
        id: id(3),
        user_id: id(4),
        exam_id: id(1),
        generated_exam_id: id(2),
        question_sets: vec![QuestionSetAttempt {
            id: id(10),
            questions: vec![
                QuestionAttempt {
                    id: id(11),
                    answers: vec![id(answers[0])],
                    submission_time_ms: submissions[0],
                },
                QuestionAttempt {
                    id: id(12),
                    answers: vec![id(answers[1])],
                    submission_time_ms: submissions[1],
                },
            ],
        }],
        start_time_ms: 0,
        exam_moderation_id: None,
        version: 1,
    };
    (exam, generation, attempt)
}

#[test]
fn view_carries_all_three_projections() {
    let (exam, generation, mut attempt) = fixture([101, 103], [30_000, 60_000]);
    // Leave the second question unanswered.
    attempt.question_sets[0].questions.pop();
    let view = construct_attempt(&exam, &generation, &attempt);
    assert_eq!(view.id, attempt.id);
    assert_eq!(view.exam_id, attempt.exam_id);
    assert_eq!(view.user_id, attempt.user_id);
    assert_eq!(view.start_time_ms, 0);
    assert_eq!(view.question_sets.len(), 1);
    let set = &view.question_sets[0];
    assert_eq!(set.id, id(10));
    assert_eq!(set.context, Some("context".to_string()));
    assert_eq!(set.questions.len(), 2);
    let q1 = &set.questions[0];
    assert_eq!(q1.answers.len(), 2);
    assert_eq!(q1.selected, vec![id(101)]);
    assert_eq!(q1.generated, vec![id(101), id(102)]);
    assert_eq!(q1.submission_time_ms, Some(30_000));
    let q2 = &set.questions[1];
    assert_eq!(q2.selected, Vec::<Id>::new());
    assert_eq!(q2.generated, vec![id(103), id(104)]);
    assert_eq!(q2.submission_time_ms, None);
}

#[test]
fn moderation_score_exact_value() {
    // Cap 100 s, last submission at 25 s, one blur span of 10 s entirely
    // before the last answer:
    //   time part  (100000-25000)*250000/100000 = 187500
    //   blur part   10000*250000/100000         =  25000
    //   early part  10000*500000/25000          = 200000
    let (_, _, attempt) = fixture([101, 103], [10_000, 25_000]);
    // Hand the events out of order; the scorer sorts by timestamp.
    let events = vec![
        event(1, 20_000, EventKind::Focus, id(3)),
        event(2, 10_000, EventKind::Blur, id(3)),
        event(3, 5_000, EventKind::QuestionVisit, id(3)),
    ];
    let score = try_raw_moderation_score(100, 0, &attempt.question_sets, &events);
    assert_eq!(score, Some(412_500));
}

#[test]
fn moderation_score_matches_on_view() {
    let (exam, generation, attempt) = fixture([101, 103], [10_000, 25_000]);
    let events = vec![
        event(1, 10_000, EventKind::Blur, id(3)),
        event(2, 20_000, EventKind::Focus, id(3)),
    ];
    let view = construct_attempt(&exam, &generation, &attempt);
    assert_eq!(try_get_moderation_score(&view, &events), Some(412_500));
}

#[test]
fn moderation_score_without_submissions_is_zero() {
    let (exam, generation, mut attempt) = fixture([101, 103], [30_000, 60_000]);
    attempt.question_sets.clear();
    let view = construct_attempt(&exam, &generation, &attempt);
    assert_eq!(try_get_moderation_score(&view, &vec![]), Some(0));
}

#[test]
fn moderation_score_stays_bounded() {
    // Many blur spans before a late submission; the score must stay at or
    // below one.
    let (_, _, attempt) = fixture([101, 103], [99_000, 100_000]);
    let mut events = Vec::new();
    let mut n: u64 = 0;
    let mut t: i64 = 0;
    while t + 2_000 < 99_000 {
        events.push(event(n, t, EventKind::Blur, id(3)));
        events.push(event(n + 1, t + 1_000, EventKind::Focus, id(3)));
        n += 2;
        t += 2_000;
    }
    let score = try_raw_moderation_score(100, 0, &attempt.question_sets, &events).unwrap();
    assert!(score <= 1_000_000);
}

#[test]
fn moderation_score_rejects_corrupt_timing() {
    // The last submission lies beyond the allowed exam time.
    let (_, _, attempt) = fixture([101, 103], [30_000, 200_000]);
    assert_eq!(try_raw_moderation_score(100, 0, &attempt.question_sets, &vec![]), None);
}

#[test]
fn practice_attempts_deleted_with_time_guard() {
    let (_, _, attempt) = fixture([101, 103], [30_000, 60_000]);
    let practice = id(77);
    let mut old_practice = attempt.clone();
    old_practice.id = id(30);
    old_practice.exam_id = practice;
    old_practice.start_time_ms = 0;
    let mut fresh_practice = attempt.clone();
    fresh_practice.id = id(31);
    fresh_practice.exam_id = practice;
    fresh_practice.start_time_ms = 9_500_000;
    let mut real = attempt.clone();
    real.id = id(32);
    let now: i64 = 10_000_000;
    let kept = delete_practice_exam_attempts(vec![old_practice, fresh_practice, real], practice, now);
    let kept_ids: Vec<Id> = kept.iter().map(|a| a.id).collect();
    assert_eq!(kept_ids, vec![id(31), id(32)]);
}

#[test]
fn old_events_deleted() {
    let keep = event(1, 1_000_000, EventKind::Focus, id(3));
    let drop = event(2, 0, EventKind::Blur, id(3));
    let now: i64 = 2_592_000_000 + 500_000;
    let kept = delete_old_events(vec![keep.clone(), drop], now);
    assert_eq!(kept.len(), 1);
    assert_eq!(kept[0].id, keep.id);
}

fn pending_moderation(n: u64, attempt: Id, submitted_ms: i64) -> Moderation {
    Moderation {
        id: id(n),
        exam_attempt_id: attempt,
        status: ModerationStatus::Pending,
        moderator_id: None,
        feedback: None,
        moderation_date_ms: None,
        submission_date_ms: submitted_ms,
        challenges_awarded: false,
        version: 2,
    }
}

#[test]
fn pending_moderation_ages_into_approval() {
    // Submitted eight days ago, the default window is seven days.
    let now: i64 = 800 * 24 * 3600 * 1000;
    let eight_days_ago = now - 8 * 24 * 3600 * 1000;
    let one_day_ago = now - 24 * 3600 * 1000;
    let mods = vec![
        pending_moderation(40, id(3), eight_days_ago),
        pending_moderation(41, id(5), one_day_ago),
    ];
    let out = auto_approve_moderation_records(&mods, now, DEFAULT_MODERATION_LENGTH_IN_S);
    assert_eq!(out[0].status, ModerationStatus::Approved);
    assert_eq!(out[0].feedback, Some(ModerationFeedback::AutoApprovedTimeExceeded));
    assert_eq!(out[0].moderation_date_ms, Some(now));
    assert_eq!(out[1], mods[1]);
}

#[test]
fn duplicate_moderations_collapse_to_one() {
    let singles = pending_moderation(50, id(8), 500);
    let dup_a = pending_moderation(51, id(9), 300);
    let dup_b = pending_moderation(52, id(9), 100);
    let mods = vec![dup_a, singles.clone(), dup_b];
    let fresh = vec![id(60), id(61), id(62)];
    let out = remediate_duplicate_moderations(&mods, 1_000, &fresh);
    assert_eq!(out.len(), 2);
    // Every surviving entry references a distinct attempt.
    assert_ne!(out[0].exam_attempt_id, out[1].exam_attempt_id);
    // The duplicated group is replaced by one denied record carrying the
    // oldest submission date of the group.
    let replacement = &out[0];
    assert_eq!(replacement.exam_attempt_id, id(9));
    assert_eq!(replacement.status, ModerationStatus::Denied);
    assert_eq!(
        replacement.feedback,
        Some(ModerationFeedback::AutoModeratedInvalidSubmission)
    );
    assert_eq!(replacement.submission_date_ms, 100);
    assert!(replacement.challenges_awarded);
    assert_eq!(out[1], singles);
}

#[test]
fn moderation_pass_dispositions() {
    let now: i64 = 10_000_000;
    // A failing attempt: wrong answers; auto-approved, nothing to award.
    let (exam, generation, failing) = fixture([102, 104], [30_000, 60_000]);
    // A passing attempt with low suspicion: answered late, no events.
    let (_, _, mut calm) = fixture([101, 103], [40_000, 90_000]);
    calm.id = id(6);
    // A passing attempt with a long early blur: suspicious, left pending.
    let (_, _, mut nervous) = fixture([101, 103], [10_000, 60_000]);
    nervous.id = id(7);
    let events = vec![
        event(1, 10_000, EventKind::Blur, id(7)),
        event(2, 50_000, EventKind::Focus, id(7)),
    ];
    let fresh = vec![id(80), id(81), id(82)];
    let (atts, mods) = update_moderation_collection(
        &vec![exam],
        &vec![generation],
        &events,
        vec![failing, calm, nervous],
        id(77),
        now,
        DEFAULT_MODERATION_THRESHOLD_MILLIONTHS,
        &fresh,
    );
    assert_eq!(mods.len(), 3);

    assert_eq!(mods[0].exam_attempt_id, id(3));
    assert_eq!(mods[0].status, ModerationStatus::Approved);
    assert_eq!(mods[0].feedback, Some(ModerationFeedback::AutoApprovedFailedAttempt));
    assert!(mods[0].challenges_awarded);
    assert_eq!(mods[0].moderation_date_ms, Some(now));
    // The submission date is the attempt's expiry instant.
    assert_eq!(mods[0].submission_date_ms, 100_000);

    assert_eq!(mods[1].exam_attempt_id, id(6));
    assert_eq!(mods[1].status, ModerationStatus::Approved);
    // Low suspicion: only the time part contributes, 10000*250000/100000.
    assert_eq!(mods[1].feedback, Some(ModerationFeedback::AutoApprovedScore(25_000)));
    assert!(!mods[1].challenges_awarded);

    assert_eq!(mods[2].exam_attempt_id, id(7));
    assert_eq!(mods[2].status, ModerationStatus::Pending);
    // High suspicion: 100000 + 100000 + 40000*500000/60000 = 533333.
    assert_eq!(mods[2].feedback, Some(ModerationFeedback::ScoreReport(533_333)));
    assert_eq!(mods[2].moderation_date_ms, None);

    // Every processed attempt is stamped with its record's id.
    assert_eq!(atts[0].exam_moderation_id, Some(id(80)));
    assert_eq!(atts[1].exam_moderation_id, Some(id(81)));
    assert_eq!(atts[2].exam_moderation_id, Some(id(82)));
}

#[test]
fn moderation_pass_skips_and_idempotence() {
    let now: i64 = 10_000_000;
    let (exam, generation, expired) = fixture([102, 104], [30_000, 60_000]);
    // A practice attempt and a still-running attempt are left alone.
    let (_, _, mut practice) = fixture([101, 103], [30_000, 60_000]);
    practice.id = id(8);
    practice.exam_id = id(77);
    let (_, _, mut running) = fixture([101, 103], [30_000, 60_000]);
    running.id = id(9);
    running.start_time_ms = now - 50_000;
    let fresh = vec![id(80), id(81), id(82)];
    let (atts, mods) = update_moderation_collection(
        &vec![exam.clone()],
        &vec![generation.clone()],
        &vec![],
        vec![expired, practice, running],
        id(77),
        now,
        DEFAULT_MODERATION_THRESHOLD_MILLIONTHS,
        &fresh,
    );
    assert_eq!(mods.len(), 1);
    assert_eq!(atts[0].exam_moderation_id, Some(id(80)));
    assert_eq!(atts[1].exam_moderation_id, None);
    assert_eq!(atts[2].exam_moderation_id, None);

    // A second run over the stamped attempts creates nothing new.
    let fresh2 = vec![id(90), id(91), id(92)];
    let (atts2, mods2) = update_moderation_collection(
        &vec![exam],
        &vec![generation],
        &vec![],
        atts.clone(),
        id(77),
        now,
        DEFAULT_MODERATION_THRESHOLD_MILLIONTHS,
        &fresh2,
    );
    assert_eq!(mods2.len(), 0);
    let ids1: Vec<Option<Id>> = atts.iter().map(|a| a.exam_moderation_id).collect();
    let ids2: Vec<Option<Id>> = atts2.iter().map(|a| a.exam_moderation_id).collect();
    assert_eq!(ids1, ids2);
}

fn awarded_setup() -> (Vec<Moderation>, Vec<ExamAttempt>, Vec<Exam>, Vec<GeneratedExam>, Vec<Challenge>) {
    let (mut exam, generation, attempt) = fixture([101, 103], [30_000, 60_000]);
    exam.config.passing_percent_hundredths = 5000;
    let moderation = Moderation {
        id: id(40),
        exam_attempt_id: attempt.id,
        status: ModerationStatus::Approved,
        moderator_id: None,
        feedback: None,
        moderation_date_ms: Some(1),
        submission_date_ms: 1,
        challenges_awarded: false,
        version: 2,
    };
    let challenge = Challenge {
        id: id(50),
        exam_id: exam.id,
        challenge_id: id(51),
    };
    (
        vec![moderation],
        vec![attempt],
        vec![exam],
        vec![generation],
        vec![challenge],
    )
}

#[test]
fn award_pushes_challenge_once() {
    let (mods, atts, exams, gens, chals) = awarded_setup();
    let user = User {
        id: id(4),
        completed_challenges: vec![],
    };
    let (out_mods, out_users) = award_challenge_ids(&mods, &atts, &exams, &gens, &chals, vec![user]);
    assert!(out_mods[0].challenges_awarded);
    assert_eq!(out_users[0].completed_challenges.len(), 1);
    let cc = out_users[0].completed_challenges[0];
    assert_eq!(cc.id, id(51));
    assert_eq!(cc.completed_date_ms, 0);
    assert_eq!(cc.challenge_type, 30);

    // Running the pass again changes no user: nothing is outstanding.
    let (out_mods2, out_users2) =
        award_challenge_ids(&out_mods, &atts, &exams, &gens, &chals, out_users.clone());
    assert_eq!(out_users2[0].completed_challenges.len(), 1);
    assert!(out_mods2[0].challenges_awarded);
}

#[test]
fn award_respects_existing_challenge() {
    let (mods, atts, exams, gens, chals) = awarded_setup();
    let user = User {
        id: id(4),
        completed_challenges: vec![CompletedChallenge {
            id: id(51),
            completed_date_ms: 123,
            challenge_type: 30,
        }],
    };
    let (out_mods, out_users) = award_challenge_ids(&mods, &atts, &exams, &gens, &chals, vec![user]);
    // The guard yields zero modifications, yet the flag still flips.
    assert_eq!(out_users[0].completed_challenges.len(), 1);
    assert_eq!(out_users[0].completed_challenges[0].completed_date_ms, 123);
    assert!(out_mods[0].challenges_awarded);
}

#[test]
fn award_skips_failing_attempt() {
    let (mut mods, mut atts, exams, gens, chals) = awarded_setup();
    // Both answers wrong: the attempt scores 0% and fails its exam.
    atts[0].question_sets[0].questions[0].answers = vec![id(102)];
    atts[0].question_sets[0].questions[1].answers = vec![id(104)];
    let user = User {
        id: id(4),
        completed_challenges: vec![],
    };
    let (out_mods, out_users) = award_challenge_ids(&mods, &atts, &exams, &gens, &chals, vec![user]);
    assert_eq!(out_users[0].completed_challenges.len(), 0);
    // The record is still marked done so it is not reconsidered.
    assert!(out_mods[0].challenges_awarded);
    mods[0].status = ModerationStatus::Pending;
    let (out_mods2, _) = award_challenge_ids(&mods, &atts, &exams, &gens, &chals, vec![]);
    assert!(!out_mods2[0].challenges_awarded);
}

#[test]
fn recovery_pushes_missing_challenge() {
    let (mut mods, atts, exams, gens, chals) = awarded_setup();
    // The awards were marked done, but the user never got the challenge.
    mods[0].challenges_awarded = true;
    let user = User {
        id: id(4),
        completed_challenges: vec![],
    };
    let out_users = ensure_awarded_challenges(&mods, &atts, &exams, &gens, &chals, vec![user]);
    assert_eq!(out_users[0].completed_challenges.len(), 1);
    assert_eq!(out_users[0].completed_challenges[0].id, id(51));

    // A user who already holds it is untouched.
    let holder = User {
        id: id(4),
        completed_challenges: vec![CompletedChallenge {
            id: id(51),
            completed_date_ms: 5,
            challenge_type: 30,
        }],
    };
    let out_users2 = ensure_awarded_challenges(&mods, &atts, &exams, &gens, &chals, vec![holder]);
    assert_eq!(out_users2[0].completed_challenges.len(), 1);
    assert_eq!(out_users2[0].completed_challenges[0].completed_date_ms, 5);
}

#[test]
fn settings_take_defaults() {
    let vars = EnvVars::from_settings(
        "mongodb://localhost/db".to_string(),
        None,
        None,
        None,
        Environment::Production,
        None,
    );
    assert_eq!(vars.moderation_length_in_s, DEFAULT_MODERATION_LENGTH_IN_S);
    assert_eq!(
        vars.moderation_threshold_millionths,
        DEFAULT_MODERATION_THRESHOLD_MILLIONTHS
    );
    assert_eq!(vars.timeout_secs, None);

    let vars = EnvVars::from_settings(
        "mongodb://localhost/db".to_string(),
        Some("SECRET-REDACTED".to_string()),
        Some(3600),
        Some(100_000),
        Environment::Staging,
        Some(0),
    );
    assert_eq!(vars.moderation_length_in_s, 3600);
    assert_eq!(vars.moderation_threshold_millionths, 100_000);
    // A non-positive timeout is ignored.
    assert_eq!(vars.timeout_secs, None);
    assert_eq!(vars.environment, Environment::Staging);
}

#[test]
fn environment_names() {
    assert_eq!(environment_from_name("development"), Environment::Development);
    assert_eq!(environment_from_name("staging"), Environment::Staging);
    assert_eq!(environment_from_name("production"), Environment::Production);
    assert_eq!(environment_from_name("anything else"), Environment::Production);
}

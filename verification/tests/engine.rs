//! Exercises the template validator, the generator and the scorer on
//! concrete exams.

use exam_engine::config_validator::validate_config;
use exam_engine::error::{ConfigError, Error, GenerationError};
use exam_engine::generation_validator::validate_generation;
use exam_engine::generator::{generate_exam, try_generate};
use exam_engine::records::{
    Answer, Config, Exam, ExamAttempt, ExamInput, GeneratedExam, GeneratedQuestion,
    GeneratedQuestionSet, Id, Question, QuestionAttempt, QuestionSet, QuestionSetAttempt,
    QuestionSetConfig, QuestionType, TagConfig,
};
use exam_engine::scorer::{calculate_score, check_attempt_pass, compare_answers, ScoreError};

fn id(n: u64) -> Id {
    Id::from_u64(n)
}

fn answer(n: u64, correct: bool) -> Answer {
    Answer {
        id: id(n),
        is_correct: correct,
        text: format!("answer {}", n),
    }
}

fn question(n: u64, answer_base: u64, tags: Vec<String>) -> Question {
    Question {
        id: id(n),
        text: format!("question {}", n),
        tags,
        audio: None,
        answers: vec![
            answer(answer_base, true),
            answer(answer_base + 1, false),
            answer(answer_base + 2, false),
            answer(answer_base + 3, false),
        ],
        deprecated: false,
    }
}

/// The template of the happy-generation scenario: four sets of type
/// multiple-choice, each with five questions tagged "networking" and four
/// answers each (one correct, three incorrect).
fn happy_template() -> Exam {
    let mut sets = Vec::new();
    for s in 0..4u64 {
        let mut questions = Vec::new();
        for q in 0..5u64 {
            let qn = 1000 + s * 100 + q;
            questions.push(question(qn, 10_000 + qn * 10, vec!["networking".to_string()]));
        }
        sets.push(QuestionSet {
            id: id(100 + s),
            set_type: QuestionType::MultipleChoice,
            context: None,
            questions,
        });
    }
    Exam {
        id: id(1),
        prerequisites: vec![],
        deprecated: false,
        version: 1,
        config: Config {
            name: "networking certification".to_string(),
            note: String::new(),
            passing_percent_hundredths: 7000,
            total_time_in_s: 100,
            retake_time_in_ms: 0,
            tags: vec![TagConfig {
                group: vec!["networking".to_string()],
                number_of_questions: 4,
            }],
            question_sets: vec![QuestionSetConfig {
                set_type: QuestionType::MultipleChoice,
                number_of_set: 2,
                number_of_questions: 3,
                number_of_correct_answers: 1,
                number_of_incorrect_answers: 3,
            }],
        },
        question_sets: sets,
    }
}

fn input_of(exam: &Exam) -> ExamInput {
    ExamInput {
        id: exam.id,
        question_sets: exam.question_sets.clone(),
        config: exam.config.clone(),
    }
}

#[test]
fn happy_template_validates() {
    let exam = happy_template();
    assert!(validate_config(&exam).is_ok());
}

#[test]
fn happy_generation_shape() {
    let exam = happy_template();
    let g = generate_exam(&input_of(&exam), 7, id(900)).expect("solvable template");
    assert_eq!(g.exam_id, exam.id);
    assert_eq!(g.id, id(900));
    assert_eq!(g.version, 1);
    assert!(!g.deprecated);
    assert_eq!(g.question_sets.len(), 2);
    for set in &g.question_sets {
        assert_eq!(set.questions.len(), 3);
        for q in &set.questions {
            assert_eq!(q.answers.len(), 4);
        }
    }
}

#[test]
fn generated_answers_stand_incorrect_first() {
    // Every template question carries one correct answer at the lowest id
    // of its block of four; the offer must list the three incorrect ids
    // first and the correct id last.
    let exam = happy_template();
    let g = generate_exam(&input_of(&exam), 19, id(908)).expect("solvable template");
    for set in &g.question_sets {
        let source = exam
            .question_sets
            .iter()
            .find(|s| s.id == set.id)
            .expect("source set exists");
        for q in &set.questions {
            let tq = source
                .questions
                .iter()
                .find(|t| t.id == q.id)
                .expect("source question exists");
            assert!(!tq.deprecated);
            let correct_of = |aid: &Id| tq.answers.iter().find(|a| a.id == *aid).unwrap().is_correct;
            assert_eq!(q.answers.len(), 4);
            assert!(!correct_of(&q.answers[0]));
            assert!(!correct_of(&q.answers[1]));
            assert!(!correct_of(&q.answers[2]));
            assert!(correct_of(&q.answers[3]));
        }
    }
}

#[test]
fn generation_validates_after_generate() {
    let exam = happy_template();
    let g = generate_exam(&input_of(&exam), 11, id(901)).expect("solvable template");
    assert!(validate_generation(&g).is_ok());
}

#[test]
fn validated_template_generates() {
    let exam = happy_template();
    assert!(validate_config(&exam).is_ok());
    let g = try_generate(&exam, 3, id(902));
    assert!(g.is_ok());
}

#[test]
fn generation_deterministic_under_seed() {
    let exam = happy_template();
    let a = generate_exam(&input_of(&exam), 42, id(903)).expect("solvable");
    let b = generate_exam(&input_of(&exam), 42, id(903)).expect("solvable");
    let flat = |g: &GeneratedExam| -> Vec<(Id, Vec<(Id, Vec<Id>)>)> {
        g.question_sets
            .iter()
            .map(|s| {
                (
                    s.id,
                    s.questions
                        .iter()
                        .map(|q| (q.id, q.answers.clone()))
                        .collect(),
                )
            })
            .collect()
    };
    assert_eq!(flat(&a), flat(&b));

    // Two seeds that pick different content or orders; the template offers
    // many alternatives, so some pair of seeds must differ.
    let mut found_difference = false;
    for seed in 0..8u64 {
        let c = generate_exam(&input_of(&exam), seed, id(903)).expect("solvable");
        if flat(&c) != flat(&a) {
            found_difference = true;
            break;
        }
    }
    assert!(found_difference);
}

#[test]
fn generator_rejects_missing_tag_group() {
    let mut exam = happy_template();
    exam.config.tags = vec![TagConfig {
        group: vec!["databases".to_string()],
        number_of_questions: 1,
    }];
    let r = generate_exam(&input_of(&exam), 5, id(904));
    match r {
        Err(Error::Generation(GenerationError::NotEnoughQuestionsForTagGroup(g))) => {
            assert_eq!(g, vec!["databases".to_string()]);
        }
        other => panic!("expected a tag-group failure, got {:?}", other),
    }
}

#[test]
fn generator_rejects_empty_config() {
    let mut exam = happy_template();
    exam.config.question_sets = vec![];
    let r = generate_exam(&input_of(&exam), 5, id(905));
    assert!(matches!(
        r,
        Err(Error::Generation(GenerationError::NoQuestionSetConfigs))
    ));
}

#[test]
fn generator_rejects_too_large_quota() {
    let mut exam = happy_template();
    exam.config.question_sets[0].number_of_set = 5; // only 4 sets exist
    let r = generate_exam(&input_of(&exam), 5, id(906));
    assert!(matches!(
        r,
        Err(Error::Generation(GenerationError::NotEnoughQuestionsOfType(_)))
    ));
}

#[test]
fn try_generate_reports_invalid_config() {
    let mut exam = happy_template();
    exam.config.name = String::new();
    let r = try_generate(&exam, 5, id(907));
    assert!(matches!(
        r,
        Err(Error::InvalidConfig(ConfigError::EmptyName))
    ));
}

#[test]
fn validate_config_reports_each_failure() {
    let base = happy_template();

    let mut exam = base.clone();
    exam.config.passing_percent_hundredths = 10_001;
    assert_eq!(
        validate_config(&exam),
        Err(ConfigError::PassingPercentOutOfRange)
    );

    let mut exam = base.clone();
    exam.config.tags[0].number_of_questions = 100;
    assert_eq!(validate_config(&exam), Err(ConfigError::NotEnoughQuestionsForTag(0)));

    let mut exam = base.clone();
    exam.config.question_sets[0].number_of_set = 9;
    assert_eq!(
        validate_config(&exam),
        Err(ConfigError::NotEnoughQuestionSets(QuestionType::MultipleChoice))
    );

    let mut exam = base.clone();
    exam.config.question_sets[0].number_of_questions = 6;
    exam.config.question_sets[0].number_of_set = 4;
    // 4 sets x 5 questions = 20 >= 24 fails first on the overall count.
    assert_eq!(
        validate_config(&exam),
        Err(ConfigError::NotEnoughQuestionsOverall(QuestionType::MultipleChoice))
    );

    let mut exam = base.clone();
    exam.config.question_sets[0].number_of_questions = 6;
    // 4 x 5 = 20 >= 2 x 6 = 12 overall, but no single set has 6.
    assert_eq!(
        validate_config(&exam),
        Err(ConfigError::NoSingleSetLargeEnough(QuestionType::MultipleChoice))
    );

    let mut exam = base.clone();
    exam.config.question_sets[0].number_of_correct_answers = 2;
    assert_eq!(
        validate_config(&exam),
        Err(ConfigError::NotEnoughCorrectAnswers(exam.question_sets[0].questions[0].id))
    );

    let mut exam = base.clone();
    exam.config.question_sets[0].number_of_incorrect_answers = 4;
    assert_eq!(
        validate_config(&exam),
        Err(ConfigError::NotEnoughIncorrectAnswers(exam.question_sets[0].questions[0].id))
    );

    let mut exam = base.clone();
    exam.question_sets[1].questions[2].text = "  \t ".to_string();
    assert_eq!(
        validate_config(&exam),
        Err(ConfigError::EmptyQuestionText(exam.question_sets[1].questions[2].id))
    );

    let mut exam = base.clone();
    for a in exam.question_sets[2].questions[0].answers.iter_mut() {
        a.is_correct = false;
    }
    // The per-config answer quota trips first on the same question.
    assert_eq!(
        validate_config(&exam),
        Err(ConfigError::NotEnoughCorrectAnswers(exam.question_sets[2].questions[0].id))
    );
    // Without a set config demanding correct answers, the content pass
    // reports the missing correct answer itself.
    exam.config.question_sets = vec![];
    assert_eq!(
        validate_config(&exam),
        Err(ConfigError::NoCorrectAnswer(exam.question_sets[2].questions[0].id))
    );

    let mut exam = base.clone();
    exam.question_sets[3].questions[4].answers[1].text = String::new();
    assert_eq!(
        validate_config(&exam),
        Err(ConfigError::EmptyAnswerText(exam.question_sets[3].questions[4].answers[1].id))
    );
}

#[test]
fn validate_generation_finds_duplicates() {
    let g = GeneratedExam {
        id: id(1),
        exam_id: id(2),
        question_sets: vec![
            GeneratedQuestionSet {
                id: id(10),
                questions: vec![GeneratedQuestion {
                    id: id(11),
                    answers: vec![id(12), id(13)],
                }],
            },
            GeneratedQuestionSet {
                id: id(20),
                questions: vec![GeneratedQuestion {
                    id: id(21),
                    answers: vec![id(13)],
                }],
            },
        ],
        deprecated: false,
        version: 1,
    };
    match validate_generation(&g) {
        Err(Error::Generation(GenerationError::DuplicateId(x))) => assert_eq!(x, id(13)),
        other => panic!("expected duplicate id, got {:?}", other),
    }

    let ok = GeneratedExam {
        id: id(1),
        exam_id: id(2),
        question_sets: vec![GeneratedQuestionSet {
            id: id(10),
            questions: vec![GeneratedQuestion {
                id: id(11),
                answers: vec![id(12), id(13)],
            }],
        }],
        deprecated: false,
        version: 1,
    };
    assert!(validate_generation(&ok).is_ok());

    // A set id colliding with an answer id is a collision across categories.
    let cross = GeneratedExam {
        id: id(1),
        exam_id: id(2),
        question_sets: vec![GeneratedQuestionSet {
            id: id(12),
            questions: vec![GeneratedQuestion {
                id: id(11),
                answers: vec![id(12)],
            }],
        }],
        deprecated: false,
        version: 1,
    };
    match validate_generation(&cross) {
        Err(Error::Generation(GenerationError::DuplicateId(x))) => assert_eq!(x, id(12)),
        other => panic!("expected duplicate id, got {:?}", other),
    }
}

#[test]
fn compare_answers_exact_set_equality() {
    let exam_answers = vec![
        answer(1, true),
        answer(2, false),
        answer(3, true),
        answer(4, false),
    ];
    let generated = vec![id(1), id(2), id(3)];
    // Correct offered answers are 1 and 3; selecting exactly those passes.
    assert!(compare_answers(&exam_answers, &generated, &vec![id(1), id(3)]));
    assert!(compare_answers(&exam_answers, &generated, &vec![id(3), id(1)]));
    // A missing or extra selection fails.
    assert!(!compare_answers(&exam_answers, &generated, &vec![id(1)]));
    assert!(!compare_answers(
        &exam_answers,
        &generated,
        &vec![id(1), id(3), id(2)]
    ));
    // Same size but a wrong element fails.
    assert!(!compare_answers(&exam_answers, &generated, &vec![id(1), id(2)]));
}

/// A small exam with one set of two questions, each offering one correct
/// and one incorrect answer.
fn scoring_fixture() -> (Exam, GeneratedExam, ExamAttempt) {
    let exam = Exam {
        id: id(1),
        prerequisites: vec![],
        deprecated: false,
        version: 1,
        config: Config {
            name: "scored".to_string(),
            note: String::new(),
            passing_percent_hundredths: 7000,
            total_time_in_s: 100,
            retake_time_in_ms: 0,
            tags: vec![],
            question_sets: vec![],
        },
        question_sets: vec![QuestionSet {
            id: id(10),
            set_type: QuestionType::MultipleChoice,
            context: None,
            questions: vec![
                Question {
                    id: id(11),
                    text: "first".to_string(),
                    tags: vec![],
                    audio: None,
                    answers: vec![answer(101, true), answer(102, false)],
                    deprecated: false,
                },
                Question {
                    id: id(12),
                    text: "second".to_string(),
                    tags: vec![],
                    audio: None,
                    answers: vec![answer(103, true), answer(104, false)],
                    deprecated: false,
                },
            ],
        }],
    };
    let generation = GeneratedExam {
        id: id(2),
        exam_id: id(1),
        question_sets: vec![GeneratedQuestionSet {
            id: id(10),
            questions: vec![
                GeneratedQuestion {
                    id: id(11),
                    answers: vec![id(101), id(102)],
                },
                GeneratedQuestion {
                    id: id(12),
                    answers: vec![id(103), id(104)],
                },
            ],
        }],
        deprecated: false,
        version: 1,
    };
    let attempt = ExamAttempt {
        id: id(3),
        user_id: id(4),
        exam_id: id(1),
        generated_exam_id: id(2),
        question_sets: vec![QuestionSetAttempt {
            id: id(10),
            questions: vec![
                QuestionAttempt {
                    id: id(11),
                    answers: vec![id(101)],
                    submission_time_ms: 30_000,
                },
                QuestionAttempt {
                    id: id(12),
                    answers: vec![id(104)],
                    submission_time_ms: 60_000,
                },
            ],
        }],
        start_time_ms: 0,
        exam_moderation_id: None,
        version: 1,
    };
    (exam, generation, attempt)
}

#[test]
fn calculate_score_exact_value() {
    let (exam, generation, attempt) = scoring_fixture();
    // One of two questions correct: 50% in hundredths.
    assert_eq!(calculate_score(&exam, &generation, &attempt), Ok(5000));
}

#[test]
fn calculate_score_is_hundred_iff_all_correct() {
    let (exam, generation, mut attempt) = scoring_fixture();
    attempt.question_sets[0].questions[1].answers = vec![id(103)];
    assert_eq!(calculate_score(&exam, &generation, &attempt), Ok(10_000));
    // Leaving one generated question unanswered keeps the score below 100%.
    attempt.question_sets[0].questions.pop();
    assert_eq!(calculate_score(&exam, &generation, &attempt), Ok(5000));
}

#[test]
fn calculate_score_reports_join_failures() {
    let (exam, generation, attempt) = scoring_fixture();

    let mut a = attempt.clone();
    a.question_sets[0].id = id(99);
    assert_eq!(
        calculate_score(&exam, &generation, &a),
        Err(ScoreError::QuestionSetNotInExam(id(99)))
    );

    let mut g = generation.clone();
    g.question_sets[0].id = id(98);
    assert_eq!(
        calculate_score(&exam, &g, &attempt),
        Err(ScoreError::QuestionSetNotInGeneration(id(10)))
    );

    let mut a = attempt.clone();
    a.question_sets[0].questions[0].id = id(97);
    assert_eq!(
        calculate_score(&exam, &generation, &a),
        Err(ScoreError::QuestionNotInExam(id(97)))
    );

    let mut g = generation.clone();
    g.question_sets[0].questions.remove(1);
    assert_eq!(
        calculate_score(&exam, &g, &attempt),
        Err(ScoreError::QuestionNotInGeneration(id(12)))
    );

    let mut g = generation.clone();
    g.question_sets[0].questions.clear();
    let mut a = attempt.clone();
    a.question_sets.clear();
    assert_eq!(
        calculate_score(&exam, &g, &a),
        Err(ScoreError::NoGeneratedQuestions)
    );
}

#[test]
fn check_attempt_pass_threshold() {
    let (mut exam, generation, attempt) = scoring_fixture();
    // Score is 50%; the pass threshold decides.
    exam.config.passing_percent_hundredths = 5000;
    assert!(check_attempt_pass(&exam, &generation, &attempt));
    exam.config.passing_percent_hundredths = 5001;
    assert!(!check_attempt_pass(&exam, &generation, &attempt));
}

#[test]
fn greedy_allocation_can_fail_on_a_solvable_template() {
    // Two configs of one type share a small pool: one set of one question,
    // and one set of two. The validator accepts the template, but when the
    // one-question config draws the two-question set first, the other
    // config is left without a large enough set.
    let q = |n: u64| question(n, n * 10, vec![]);
    let exam = Exam {
        id: id(1),
        prerequisites: vec![],
        deprecated: false,
        version: 1,
        config: Config {
            name: "tight pool".to_string(),
            note: String::new(),
            passing_percent_hundredths: 7000,
            total_time_in_s: 100,
            retake_time_in_ms: 0,
            tags: vec![],
            question_sets: vec![
                QuestionSetConfig {
                    set_type: QuestionType::MultipleChoice,
                    number_of_set: 1,
                    number_of_questions: 1,
                    number_of_correct_answers: 1,
                    number_of_incorrect_answers: 3,
                },
                QuestionSetConfig {
                    set_type: QuestionType::MultipleChoice,
                    number_of_set: 1,
                    number_of_questions: 2,
                    number_of_correct_answers: 1,
                    number_of_incorrect_answers: 3,
                },
            ],
        },
        question_sets: vec![
            QuestionSet {
                id: id(100),
                set_type: QuestionType::MultipleChoice,
                context: None,
                questions: vec![q(1000)],
            },
            QuestionSet {
                id: id(101),
                set_type: QuestionType::MultipleChoice,
                context: None,
                questions: vec![q(2000), q(2001)],
            },
        ],
    };
    assert!(validate_config(&exam).is_ok());
    let mut failed = false;
    let mut succeeded = false;
    for seed in 0..32u64 {
        match generate_exam(&input_of(&exam), seed, id(900)) {
            Ok(_) => succeeded = true,
            Err(_) => failed = true,
        }
    }
    // Both outcomes occur, depending on the seed's draw order.
    assert!(succeeded);
    assert!(failed);
}

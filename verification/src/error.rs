//! Error taxonomy of the engine's pure components.
//!
//! Pure components return errors by value. Each variant carries the record
//! ids or values a caller needs to report the failure; rendering a message
//! is left to the embedding program.

use vstd::prelude::*;

use crate::records::{Id, QuestionType};

verus! {

/// Why an exam could not be generated, or why a generation is invalid.
#[derive(Clone, Debug, PartialEq)]
pub enum GenerationError {
    /// The exam configuration lists no question set configs.
    NoQuestionSetConfigs,
    /// A generation holds one id twice (within or across sets, questions
    /// and answers).
    DuplicateId(Id),
    /// No remaining question set of this type can fill the quota.
    NotEnoughQuestionsOfType(QuestionType),
    /// This question lacks the required correct or incorrect answers.
    NotEnoughAnswers(Id),
    /// A chosen question has no counterpart in its source set.
    QuestionNotInTemplate(Id),
    /// A chosen question is marked deprecated in the template.
    DeprecatedQuestion(Id),
    /// A chosen set has no template set of its id and the required type.
    SetNotInTemplate(Id),
    /// Too few chosen questions carry every tag of this group.
    NotEnoughQuestionsForTagGroup(Vec<String>),
    /// The allocation made no further progress; this plays the role of the
    /// generation deadline.
    Stalled,
}

/// Why an exam template was rejected by the config validator.
#[derive(Clone, Debug, PartialEq)]
pub enum ConfigError {
    /// `config.name` is empty.
    EmptyName,
    /// The passing percentage lies outside 0 ..= 100 percent.
    PassingPercentOutOfRange,
    /// Fewer questions carry every tag of the group of the tag config at
    /// this position than it requires.
    NotEnoughQuestionsForTag(usize),
    /// Fewer question sets of this type exist than the set config requires.
    NotEnoughQuestionSets(QuestionType),
    /// The sets of this type hold fewer questions in total than the set
    /// config requires.
    NotEnoughQuestionsOverall(QuestionType),
    /// No single set of this type holds enough questions for the set config.
    NoSingleSetLargeEnough(QuestionType),
    /// This question has fewer correct answers than the set config requires.
    NotEnoughCorrectAnswers(Id),
    /// This question has fewer incorrect answers than the set config
    /// requires.
    NotEnoughIncorrectAnswers(Id),
    /// This question's text is empty or whitespace.
    EmptyQuestionText(Id),
    /// This question has no correct answer at all.
    NoCorrectAnswer(Id),
    /// This answer's text is empty or whitespace.
    EmptyAnswerText(Id),
}

/// Top-level error of the exam utilities.
#[derive(Clone, Debug, PartialEq)]
pub enum Error {
    Generation(GenerationError),
    InvalidConfig(ConfigError),
}

} // verus!

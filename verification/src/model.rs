//! The record and round types, their mathematical models, and the error
//! taxonomy of the loader and the round builders.

use vstd::prelude::*;

verus! {

/// The category of a nerve: carries sensory signals, motor signals, or both.
#[derive(Clone, Copy, Debug, PartialEq, Eq, Structural)]
pub enum NerveType {
    Sensory,
    Motor,
    Both,
}

/// One normalized row of the reference table. `order` is the 1-based row
/// position in the input, kept for provenance.
#[derive(Clone, Debug)]
pub struct StudyEntry {
    pub name: String,
    pub type_value: NerveType,
    pub function: String,
    pub role_in_swallowing: String,
    pub order: usize,
}

/// The mathematical value of a `StudyEntry`: its strings as character
/// sequences.
pub struct EntryModel {
    pub name: Seq<char>,
    pub type_value: NerveType,
    pub function: Seq<char>,
    pub role_in_swallowing: Seq<char>,
    pub order: int,
}

impl View for StudyEntry {
    type V = EntryModel;

    open spec fn view(&self) -> EntryModel {
        EntryModel {
            name: self.name@,
            type_value: self.type_value,
            function: self.function@,
            role_in_swallowing: self.role_in_swallowing@,
            order: self.order as int,
        }
    }
}

impl DeepView for StudyEntry {
    type V = EntryModel;

    open spec fn deep_view(&self) -> EntryModel {
        self.view()
    }
}

/// One multiple-choice question: a record and the name options shown for it,
/// the record's own name among them.
#[derive(Clone, Debug)]
pub struct Level1Question {
    pub entry: StudyEntry,
    pub name_options: Vec<String>,
}

/// The mathematical value of a `Level1Question`.
pub struct QuestionModel {
    pub entry: EntryModel,
    pub name_options: Seq<Seq<char>>,
}

impl View for Level1Question {
    type V = QuestionModel;

    open spec fn view(&self) -> QuestionModel {
        QuestionModel { entry: self.entry@, name_options: self.name_options.deep_view() }
    }
}

impl DeepView for Level1Question {
    type V = QuestionModel;

    open spec fn deep_view(&self) -> QuestionModel {
        self.view()
    }
}

/// A multiple-choice round: one question per input record.
#[derive(Clone, Debug)]
pub struct Level1Round {
    pub questions: Vec<Level1Question>,
}

/// A plain shuffled round: the input records in a fresh order.
#[derive(Clone, Debug)]
pub struct Level2Round {
    pub entries: Vec<StudyEntry>,
}

/// A filtered shuffled round: only records with a swallowing role, in a
/// fresh order.
#[derive(Clone, Debug)]
pub struct Level3Round {
    pub entries: Vec<StudyEntry>,
}

/// A tally of answers over one round.
#[derive(Clone, Copy, Debug, PartialEq, Eq, Structural)]
pub struct LevelSummary {
    pub correct: usize,
    pub wrong: usize,
    pub total: usize,
}

/// The logical columns of the input table.
#[derive(Clone, Copy, Debug, PartialEq, Eq, Structural)]
pub enum Field {
    Name,
    Type,
    Function,
    RoleInSwallowing,
}

/// Why a load failed. Any of these aborts the whole load.
#[derive(Clone, Debug)]
pub enum LoadError {
    /// The record at this 0-based position (0 is the header row) could not
    /// be read as delimited text.
    Read { row: usize },
    /// A required column is missing from the header row.
    MissingColumn { column: Field },
    /// A required field is empty in the 1-based data row.
    MissingField { row: usize, field: Field },
    /// A field holds a value outside its domain; `value` is the trimmed
    /// offending text.
    InvalidValue { row: usize, field: Field, value: String },
}

/// The mathematical value of a `LoadError`.
pub enum LoadErrorModel {
    Read { row: int },
    MissingColumn { column: Field },
    MissingField { row: int, field: Field },
    InvalidValue { row: int, field: Field, value: Seq<char> },
}

impl View for LoadError {
    type V = LoadErrorModel;

    open spec fn view(&self) -> LoadErrorModel {
        match self {
            LoadError::Read { row } => LoadErrorModel::Read { row: *row as int },
            LoadError::MissingColumn { column } => LoadErrorModel::MissingColumn {
                column: *column,
            },
            LoadError::MissingField { row, field } => LoadErrorModel::MissingField {
                row: *row as int,
                field: *field,
            },
            LoadError::InvalidValue { row, field, value } => LoadErrorModel::InvalidValue {
                row: *row as int,
                field: *field,
                value: value@,
            },
        }
    }
}

impl DeepView for LoadError {
    type V = LoadErrorModel;

    open spec fn deep_view(&self) -> LoadErrorModel {
        self.view()
    }
}

/// Why a round could not be built: the caller passed no records to a mode
/// that needs at least one, or the filtered mode found no eligible record.
#[derive(Clone, Copy, Debug, PartialEq, Eq, Structural)]
pub enum RoundError {
    EmptyInput,
    Unavailable,
}

} // verus!

//! The ways an extraction can fail.
//!
//! A schema error or an assembly error ends the whole run. A group processing
//! error concerns one group only: the run goes on without that group.

use vstd::prelude::*;
use vstd::string::*;

verus! {

/// The request does not fit the table.
#[derive(Debug, PartialEq, Eq)]
pub enum SchemaError {
    /// No column bears this name.
    MissingColumn(String),
    /// No column is left once the id and sort columns are set aside.
    NoFeatureColumns,
    /// The id column of this name holds observations, which have no
    /// canonical text to partition by.
    UnusableIdColumn(String),
}

/// The mathematical content of a [`SchemaError`].
pub enum SchemaFault {
    MissingColumn(Seq<char>),
    NoFeatureColumns,
    UnusableIdColumn(Seq<char>),
}

impl View for SchemaError {
    type V = SchemaFault;

    open spec fn view(&self) -> SchemaFault {
        match self {
            SchemaError::MissingColumn(name) => SchemaFault::MissingColumn(name@),
            SchemaError::NoFeatureColumns => SchemaFault::NoFeatureColumns,
            SchemaError::UnusableIdColumn(name) => SchemaFault::UnusableIdColumn(name@),
        }
    }
}

/// One group could not be processed.
#[derive(Debug, PartialEq, Eq)]
pub enum GroupProcessingError {
    /// The group has no column of the sort column's name.
    MissingSortColumn(String),
    /// The sort column holds observations, which the library cannot order.
    UnorderedSortColumn(String),
    /// The group has no column of this feature column's name.
    MissingFeatureColumn(String),
    /// This feature column does not hold observations.
    NonNumericFeatureColumn(String),
}

/// The mathematical content of a [`GroupProcessingError`].
pub enum GroupFault {
    MissingSortColumn(Seq<char>),
    UnorderedSortColumn(Seq<char>),
    MissingFeatureColumn(Seq<char>),
    NonNumericFeatureColumn(Seq<char>),
}

impl View for GroupProcessingError {
    type V = GroupFault;

    open spec fn view(&self) -> GroupFault {
        match self {
            GroupProcessingError::MissingSortColumn(name) => GroupFault::MissingSortColumn(name@),
            GroupProcessingError::UnorderedSortColumn(name) => GroupFault::UnorderedSortColumn(
                name@,
            ),
            GroupProcessingError::MissingFeatureColumn(name) => GroupFault::MissingFeatureColumn(
                name@,
            ),
            GroupProcessingError::NonNumericFeatureColumn(name) => {
                GroupFault::NonNumericFeatureColumn(name@)
            },
        }
    }
}

/// The collection of group results handed to the assembler was unusable.
#[derive(Debug, PartialEq, Eq)]
pub enum AssemblyError {
    /// No group produced a result, so there is nothing to assemble.
    NoGroupResults,
}

/// A failure that ends a grouped extraction.
#[derive(Debug, PartialEq, Eq)]
pub enum ExtractionError {
    Schema(SchemaError),
    Assembly(AssemblyError),
}

/// The mathematical content of an [`ExtractionError`].
pub enum ExtractionFault {
    Schema(SchemaFault),
    Assembly(AssemblyError),
}

impl View for ExtractionError {
    type V = ExtractionFault;

    open spec fn view(&self) -> ExtractionFault {
        match self {
            ExtractionError::Schema(e) => ExtractionFault::Schema(e@),
            ExtractionError::Assembly(e) => ExtractionFault::Assembly(*e),
        }
    }
}

/// `before`, then `name`, then `after`.
fn around(before: &str, name: &str, after: &str) -> (text: String)
    ensures
        text@ == before@ + name@ + after@,
{
    let mut text = before.to_owned();
    text.append(name);
    text.append(after);
    text
}

impl SchemaFault {
    /// The message of the fault, naming the column it is about.
    pub open spec fn message(self) -> Seq<char> {
        match self {
            SchemaFault::MissingColumn(name) => "Column '"@ + name + "' not found in table"@,
            SchemaFault::NoFeatureColumns => {
                "No feature columns found after excluding id and sort columns"@
            },
            SchemaFault::UnusableIdColumn(name) => "Column '"@ + name
                + "' holds observations and cannot serve as id column"@,
        }
    }
}

impl SchemaError {
    /// A description of the error that names the column it is about.
    pub fn message(&self) -> (text: String)
        ensures
            text@ == self@.message(),
    {
        match self {
            SchemaError::MissingColumn(name) => around(
                "Column '",
                name.as_str(),
                "' not found in table",
            ),
            SchemaError::NoFeatureColumns => {
                "No feature columns found after excluding id and sort columns".to_owned()
            },
            SchemaError::UnusableIdColumn(name) => around(
                "Column '",
                name.as_str(),
                "' holds observations and cannot serve as id column",
            ),
        }
    }
}

impl GroupFault {
    /// The message of the fault, naming the column it is about.
    pub open spec fn message(self) -> Seq<char> {
        match self {
            GroupFault::MissingSortColumn(name) => "Sort column '"@ + name + "' not found"@,
            GroupFault::UnorderedSortColumn(name) => "Sort column '"@ + name
                + "' holds observations and cannot be ordered"@,
            GroupFault::MissingFeatureColumn(name) => "Feature column '"@ + name
                + "' not found"@,
            GroupFault::NonNumericFeatureColumn(name) => "Feature column '"@ + name
                + "' does not hold observations"@,
        }
    }
}

impl GroupProcessingError {
    /// A description of the error that names the column it is about.
    pub fn message(&self) -> (text: String)
        ensures
            text@ == self@.message(),
    {
        match self {
            GroupProcessingError::MissingSortColumn(name) => around(
                "Sort column '",
                name.as_str(),
                "' not found",
            ),
            GroupProcessingError::UnorderedSortColumn(name) => around(
                "Sort column '",
                name.as_str(),
                "' holds observations and cannot be ordered",
            ),
            GroupProcessingError::MissingFeatureColumn(name) => around(
                "Feature column '",
                name.as_str(),
                "' not found",
            ),
            GroupProcessingError::NonNumericFeatureColumn(name) => around(
                "Feature column '",
                name.as_str(),
                "' does not hold observations",
            ),
        }
    }
}

impl AssemblyError {
    /// A description of the error.
    pub fn message(&self) -> (text: String)
        ensures
            text@ == "No group results to assemble"@,
    {
        "No group results to assemble".to_owned()
    }
}

impl ExtractionFault {
    /// The message of the failure: that of the fault it wraps.
    pub open spec fn message(self) -> Seq<char> {
        match self {
            ExtractionFault::Schema(fault) => fault.message(),
            ExtractionFault::Assembly(_) => "No group results to assemble"@,
        }
    }
}

impl ExtractionError {
    /// A description of the failure: that of the error it wraps.
    pub fn message(&self) -> (text: String)
        ensures
            text@ == self@.message(),
    {
        match self {
            ExtractionError::Schema(e) => e.message(),
            ExtractionError::Assembly(e) => e.message(),
        }
    }
}

} // verus!

use vstd::prelude::*;

use crate::query::{Literal, LiteralModel, Statement, StatementModel};
use crate::schema::ColumnType;
use crate::values::{TypedValue, ValueModel};

verus! {

/// The faults the engine reports.  Each aborts the whole execution: no
/// partial result is ever produced alongside one of these.
#[derive(Debug, PartialEq)]
pub enum Error {
    /// A column was declared multiline but is not a string column; carries
    /// the column's name and its declared type.
    InvalidMultilineType(String, ColumnType),
    /// The statement uses a shape the engine does not support; carries the
    /// offending statement.
    InvalidQuery(Statement),
    /// No statement was supplied where one was required.
    InvalidSqlQuery,
    /// Schema columns with no matching capture group in the extraction
    /// pattern.
    MissingColumns(Vec<String>),
    /// More than one column was declared multiline; carries every multiline
    /// column name.
    TooManyMultilineColumns(Vec<String>),
    /// More than one statement was supplied.
    TooManySqlQueries,
    /// A comparison whose declared column type, stored value and literal do
    /// not agree; carries all three.
    TypeMismatch(ColumnType, TypedValue, Literal),
}

pub enum ErrorModel {
    InvalidMultilineType(Seq<char>, ColumnType),
    InvalidQuery(StatementModel),
    InvalidSqlQuery,
    MissingColumns(Seq<Seq<char>>),
    TooManyMultilineColumns(Seq<Seq<char>>),
    TooManySqlQueries,
    TypeMismatch(ColumnType, ValueModel, LiteralModel),
}

impl View for Error {
    type V = ErrorModel;

    open spec fn view(&self) -> ErrorModel {
        match self {
            Error::InvalidMultilineType(name, t) => ErrorModel::InvalidMultilineType(name@, *t),
            Error::InvalidQuery(stmt) => ErrorModel::InvalidQuery(stmt@),
            Error::InvalidSqlQuery => ErrorModel::InvalidSqlQuery,
            Error::MissingColumns(names) => ErrorModel::MissingColumns(names.deep_view()),
            Error::TooManyMultilineColumns(names) => ErrorModel::TooManyMultilineColumns(
                names.deep_view(),
            ),
            Error::TooManySqlQueries => ErrorModel::TooManySqlQueries,
            Error::TypeMismatch(t, v, lit) => ErrorModel::TypeMismatch(*t, v@, lit@),
        }
    }
}

} // verus!

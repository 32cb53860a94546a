//! What can go wrong while rows are turned into a record batch.

use arrow::error::ArrowError;
use bigdecimal::BigDecimal;
use serde_json::Error as JsonError;
use std::num::TryFromIntError;
use vstd::prelude::*;

verus! {

#[verifier::external_type_specification]
#[verifier::external_body]
pub struct ExArrowError(ArrowError);

#[verifier::external_type_specification]
#[verifier::external_body]
pub struct ExBigDecimal(BigDecimal);

#[verifier::external_type_specification]
#[verifier::external_body]
pub struct ExJsonError(JsonError);

#[derive(Debug)]
pub enum Error {
    /// Arrow refused the columns, or the precision and scale of a decimal column.
    FailedToBuildRecordBatch { source: ArrowError },
    NoBuilderForIndex { index: usize },
    FailedToDowncastBuilder { trino_type: String },
    FailedToConvertU64toI64 { source: TryFromIntError },
    FailedToParseJsonValue { column: String, source: JsonError },
    FailedToConvertBigDecimalToI128 { big_decimal: BigDecimal },
    /// No builder is left for a column of the schema.
    FailedToFindFieldInSchema { column_name: String },
    NoArrowFieldForIndex { index: usize },
    NoColumnNameForIndex { index: usize },
    /// The type has no counterpart.
    UnsupportedTrinoType { trino_type: String },
    InvalidDateValue { value: String },
    InvalidTimeValue { value: String },
    InvalidTimestampValue { value: String },
    FailedToParseDecimal { value: String },
    /// A builder is not of the kind that the column's type calls for.
    BuilderDowncastError { expected: String },
}

/// The mathematical value of an `Error`: its kind and what it holds.
pub enum ErrorView {
    FailedToBuildRecordBatch(ArrowError),
    NoBuilderForIndex(usize),
    FailedToDowncastBuilder(Seq<char>),
    FailedToConvertU64toI64(TryFromIntError),
    FailedToParseJsonValue(Seq<char>, JsonError),
    FailedToConvertBigDecimalToI128(BigDecimal),
    FailedToFindFieldInSchema(Seq<char>),
    NoArrowFieldForIndex(usize),
    NoColumnNameForIndex(usize),
    UnsupportedTrinoType(Seq<char>),
    InvalidDateValue(Seq<char>),
    InvalidTimeValue(Seq<char>),
    InvalidTimestampValue(Seq<char>),
    FailedToParseDecimal(Seq<char>),
    BuilderDowncastError(Seq<char>),
}

impl View for Error {
    type V = ErrorView;

    open spec fn view(&self) -> ErrorView {
        match self {
            Error::FailedToBuildRecordBatch { source } => ErrorView::FailedToBuildRecordBatch(
                *source,
            ),
            Error::NoBuilderForIndex { index } => ErrorView::NoBuilderForIndex(*index),
            Error::FailedToDowncastBuilder { trino_type } => ErrorView::FailedToDowncastBuilder(
                trino_type@,
            ),
            Error::FailedToConvertU64toI64 { source } => ErrorView::FailedToConvertU64toI64(
                *source,
            ),
            Error::FailedToParseJsonValue { column, source } => ErrorView::FailedToParseJsonValue(
                column@,
                *source,
            ),
            Error::FailedToConvertBigDecimalToI128 { big_decimal } =>
                ErrorView::FailedToConvertBigDecimalToI128(*big_decimal),
            Error::FailedToFindFieldInSchema { column_name } =>
                ErrorView::FailedToFindFieldInSchema(column_name@),
            Error::NoArrowFieldForIndex { index } => ErrorView::NoArrowFieldForIndex(*index),
            Error::NoColumnNameForIndex { index } => ErrorView::NoColumnNameForIndex(*index),
            Error::UnsupportedTrinoType { trino_type } => ErrorView::UnsupportedTrinoType(
                trino_type@,
            ),
            Error::InvalidDateValue { value } => ErrorView::InvalidDateValue(value@),
            Error::InvalidTimeValue { value } => ErrorView::InvalidTimeValue(value@),
            Error::InvalidTimestampValue { value } => ErrorView::InvalidTimestampValue(value@),
            Error::FailedToParseDecimal { value } => ErrorView::FailedToParseDecimal(value@),
            Error::BuilderDowncastError { expected } => ErrorView::BuilderDowncastError(expected@),
        }
    }
}

} // verus!

use vstd::prelude::*;

verus! {

#[verifier::external_type_specification]
#[verifier::external_body]
pub struct ExIoError(std::io::Error);

#[verifier::external_type_specification]
#[verifier::external_body]
pub struct ExCsvError(csv::Error);

/// The ways a run can fail.
#[derive(Debug)]
pub enum CsvError {
    /// Opening, reading or writing a stream failed.
    Io(std::io::Error),
    /// The CSV reader rejected a row.
    Csv(csv::Error),
    /// The input held no row to take the header from.
    MissingHeader,
    /// The settings cannot be used.
    Config(String),
    /// Processing failed for another reason.
    Processing(String),
    /// The column selection cannot be used.
    FieldSelection(String),
    /// A worker context ended abnormally.
    Threading(String),
}

} // verus!

use crate::error::CsvError;
use crate::projection::{to_zero_based, zero_based};
use vstd::prelude::*;
use vstd::string::*;

verus! {

#[verifier::external_type_specification]
#[verifier::external_body]
pub struct ExPathBuf(std::path::PathBuf);

/// Settings of one run, fixed before processing starts.
#[derive(Clone, Debug)]
pub struct Config {
    /// Input file path (`None` for standard input).
    pub input: Option<String>,
    /// Output file path (`None` for standard output).
    pub output: Option<String>,
    /// Columns to select, 1-based, in output order.
    pub fields: Option<Vec<usize>>,
    /// Buffer size in bytes for input and output.
    pub buffer_size: usize,
    /// Requested number of worker threads (`None` to leave it open).
    pub threads: Option<usize>,
    /// Whether to report statistics after the run.
    pub stats: bool,
}

/// The 0-based offsets that a configuration selects, if it selects columns.
pub open spec fn offsets_of(config: Config) -> Option<Seq<usize>> {
    match config.fields {
        Some(fields) => Some(fields@.map_values(|f: usize| zero_based(f))),
        None => None,
    }
}

/// Relies on `PathBuf::from(String)`, which takes the string as the path.
#[verifier::external_body]
fn path_from(s: &String) -> (r: std::path::PathBuf) {
    std::path::PathBuf::from(s.clone())
}

impl Config {
    /// The input file as a path, if one is named.
    pub fn input_path(&self) -> (r: Option<std::path::PathBuf>)
        ensures
            r is Some <==> self.input is Some,
    {
        match &self.input {
            Some(path) => Some(path_from(path)),
            None => None,
        }
    }

    /// The output file as a path, if one is named.
    pub fn output_path(&self) -> (r: Option<std::path::PathBuf>)
        ensures
            r is Some <==> self.output is Some,
    {
        match &self.output {
            Some(path) => Some(path_from(path)),
            None => None,
        }
    }

    /// Whether the run selects columns.
    pub fn should_select_fields(&self) -> (r: bool)
        ensures
            r == self.fields is Some,
    {
        self.fields.is_some()
    }

    /// Checks the settings before a run: the buffer size must be positive
    /// and a column selection, if given, must name at least one column.
    pub fn validate(&self) -> (r: Result<(), CsvError>)
        ensures
            r is Ok <==> self.buffer_size > 0 && !(self.fields is Some && self.fields->Some_0@.len()
                == 0),
            self.buffer_size == 0 ==> r is Err && r->Err_0 is Config,
            self.buffer_size > 0 && self.fields is Some && self.fields->Some_0@.len() == 0 ==> r is Err
                && r->Err_0 is FieldSelection,
    {
        if self.buffer_size == 0 {
            return Err(CsvError::Config(String::from_str("buffer size must be positive")));
        }
        match &self.fields {
            Some(fields) => {
                if fields.len() == 0 {
                    return Err(CsvError::FieldSelection(String::from_str("no fields selected")));
                }
            },
            None => {},
        }
        Ok(())
    }

    /// The selected columns as 0-based offsets, in the same order.
    pub fn field_indices(&self) -> (r: Option<Vec<usize>>)
        ensures
            match r {
                Some(v) => offsets_of(*self) == Some(v@),
                None => offsets_of(*self) is None,
            },
    {
        match &self.fields {
            Some(fields) => {
                let offsets = to_zero_based(fields);
                assert(offsets@ =~= fields@.map_values(|f: usize| zero_based(f)));
                Some(offsets)
            },
            None => None,
        }
    }
}

} // verus!

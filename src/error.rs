use crate::prepared::PreparedField;
use crate::query::ParsedQuery;
use crate::registrar::UnsupportedType;
use vstd::prelude::*;

verus! {

/// What the server answered when it refused a statement.
#[derive(Debug)]
pub struct DbError {
    pub message: String,
}

/// A query that contradicts its own annotations or an earlier query.
#[derive(Debug)]
pub enum ValidationError {
    QueryNameAlreadyUsed { name: String, pos: usize },
    InvalidNullableColumnIndex { index: usize, max_col_index: usize, pos: usize },
    InvalidNullableColumnName { name: String, pos: usize },
    ColumnAlreadyNullable { name: String, pos: usize },
    NamedRowInvalidFields {
        expected: Vec<PreparedField>,
        actual: Vec<PreparedField>,
        name: String,
        pos: usize,
    },
    NamedParamStructInvalidFields {
        expected: Vec<PreparedField>,
        actual: Vec<PreparedField>,
        name: String,
        pos: usize,
    },
}

/// The cause of a failed preparation.
#[derive(Debug)]
pub enum ErrorVariant {
    Db(DbError),
    PostgresType(UnsupportedType),
    Validation(ValidationError),
    ColumnNameAlreadyTaken { name: String },
}

/// A failed preparation, located at its query.
#[derive(Debug)]
pub struct Error {
    pub query_name: String,
    pub query_start_line: Option<usize>,
    pub err: ErrorVariant,
    pub path: String,
}

impl Error {
    /// `err`, located at `query` in the file at `path`.
    pub fn new(err: ErrorVariant, query: &ParsedQuery, path: &str) -> (r: Error)
        ensures
            r.err == err,
            r.query_name@ == query.name.value@,
            r.query_start_line == Some(query.line),
            r.path@ == path@,
    {
        Error {
            query_start_line: Some(query.line),
            err,
            path: path.to_owned(),
            query_name: query.name.value.clone(),
        }
    }
}

} // verus!

use vstd::prelude::*;

verus! {

/// Failure categories of the generator. Every failure is surfaced to the
/// top level and aborts the run; each variant carries a human-readable
/// description of the underlying failure.
#[derive(Debug, Clone)]
pub enum GeneratorError {
    /// A file could not be read or written.
    IoError(String),
    /// The configuration file could not be parsed.
    TomlParseError(String),
    /// A CSV record could not be read or held a non-numeric field.
    CsvParseError(String),
    /// A numeric field could not be converted.
    NumParseError(String),
    /// An integer argument (the thread count) could not be converted.
    IntParseError(String),
    /// The database refused a connection, statement or transaction.
    DbError(String),
    /// A matrix operation was asked for with mismatched dimensions.
    ShapeError(String),
    /// An internal invariant did not hold (e.g. a query returned no row).
    Message(String),
}

impl GeneratorError {
    /// The description carried by the error, whatever its category.
    pub fn describe(&self) -> (r: &str)
        ensures
            r@ == self.text(),
    {
        match self {
            GeneratorError::IoError(s) => s.as_str(),
            GeneratorError::TomlParseError(s) => s.as_str(),
            GeneratorError::CsvParseError(s) => s.as_str(),
            GeneratorError::NumParseError(s) => s.as_str(),
            GeneratorError::IntParseError(s) => s.as_str(),
            GeneratorError::DbError(s) => s.as_str(),
            GeneratorError::ShapeError(s) => s.as_str(),
            GeneratorError::Message(s) => s.as_str(),
        }
    }

    /// The description as a sequence of characters.
    pub open spec fn text(self) -> Seq<char> {
        match self {
            GeneratorError::IoError(s) => s@,
            GeneratorError::TomlParseError(s) => s@,
            GeneratorError::CsvParseError(s) => s@,
            GeneratorError::NumParseError(s) => s@,
            GeneratorError::IntParseError(s) => s@,
            GeneratorError::DbError(s) => s@,
            GeneratorError::ShapeError(s) => s@,
            GeneratorError::Message(s) => s@,
        }
    }
}

} // verus!

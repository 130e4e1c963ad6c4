use vstd::prelude::*;

verus! {

/// Errors raised while validating or decoding a schema.
#[derive(Debug, PartialEq, Eq)]
pub enum ParquetError {
    /// The input is not a spec-compliant schema.
    OutOfSpec(String),
}

impl ParquetError {
    /// Builds the out-of-spec error carrying the given message.
    pub fn oos(message: &str) -> (r: ParquetError)
        ensures
            r matches ParquetError::OutOfSpec(m) && m@ == message@,
    {
        ParquetError::OutOfSpec(message.to_owned())
    }

    /// The message carried by this error.
    pub fn message(&self) -> (r: &str)
        ensures
            self matches ParquetError::OutOfSpec(m) && r@ == m@,
    {
        match self {
            ParquetError::OutOfSpec(m) => m.as_str(),
        }
    }
}

pub type ParquetResult<T> = Result<T, ParquetError>;

} // verus!

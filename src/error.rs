use vstd::prelude::*;

verus! {

/// Why an entity is not valid; the first text names the attribute.
#[derive(Debug, Clone, PartialEq, Eq)]
pub enum ValidationError {
    EmptyField(String),
    InvalidFormat(String, String),
    TooShort(String, usize),
    TooLong(String, usize),
}

/// The outcome of validating one entity: nothing, or the errors found.
pub type ValidationResult = Result<(), Vec<ValidationError>>;

} // verus!

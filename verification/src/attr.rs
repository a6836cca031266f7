//! Classification of a single pseudo-file attribute read: the outcome of the
//! raw read is turned into a typed value or a typed failure.

use vstd::prelude::*;
use crate::text::{trim_spec, trim_str, parse_u64, is_uint_literal, uint_body, dec_val};

verus! {

/// What the raw, single-shot read of a pseudo-file produced: its full text,
/// or the stage at which it failed.
pub enum AttrOutcome {
    /// The file was opened and read to the end; this is its text.
    Content(String),
    /// The file could not be opened.
    OpenFailed,
    /// The file was opened but its contents could not be read.
    ReadFailed,
}

/// Why an attribute has no value: classified by the stage that failed.
#[derive(Clone, Copy, Debug, PartialEq, Eq, Structural)]
pub enum AttrError {
    /// The attribute file could not be opened.
    CannotOpen,
    /// The attribute file could not be read after a successful open.
    CannotRead,
    /// The contents are not a valid unsigned integer.
    CannotParse,
}

/// The numeric attribute value that `content` denotes, if any: its text,
/// trimmed of surrounding whitespace, read as an unsigned decimal literal.
pub open spec fn numeric_attr_value(content: Seq<char>) -> Option<u64> {
    let t = trim_spec(content);
    if is_uint_literal(t) && dec_val(uint_body(t)) <= u64::MAX {
        Some(dec_val(uint_body(t)) as u64)
    } else {
        None
    }
}

/// The numeric attribute a raw read outcome denotes: the trimmed contents
/// read as an unsigned integer, or the error that classifies the failure.
pub open spec fn numeric_result(o: AttrOutcome) -> Result<u64, AttrError> {
    match o {
        AttrOutcome::Content(s) => match numeric_attr_value(s@) {
            Some(v) => Ok(v),
            None => Err(AttrError::CannotParse),
        },
        AttrOutcome::OpenFailed => Err(AttrError::CannotOpen),
        AttrOutcome::ReadFailed => Err(AttrError::CannotRead),
    }
}

/// Reads a numeric attribute out of a raw read outcome, exactly as
/// `numeric_result` states it.
pub fn numeric_attr(outcome: &AttrOutcome) -> (r: Result<u64, AttrError>)
    ensures
        r == numeric_result(*outcome),
{
    match outcome {
        AttrOutcome::Content(s) => {
            let t = trim_str(s.as_str());
            match parse_u64(t.as_str()) {
                Some(v) => Ok(v),
                None => Err(AttrError::CannotParse),
            }
        },
        AttrOutcome::OpenFailed => Err(AttrError::CannotOpen),
        AttrOutcome::ReadFailed => Err(AttrError::CannotRead),
    }
}

/// Reads a string attribute out of a raw read outcome: the text trimmed of
/// surrounding whitespace, or the classified failure.  Trimmed text is a
/// value whatever it holds, so only open and read failures are possible.
pub fn string_attr(outcome: &AttrOutcome) -> (r: Result<String, AttrError>)
    ensures
        outcome matches AttrOutcome::Content(s) ==> r matches Ok(m) && m@ == trim_spec(s@),
        outcome is OpenFailed ==> r == Result::<String, AttrError>::Err(AttrError::CannotOpen),
        outcome is ReadFailed ==> r == Result::<String, AttrError>::Err(AttrError::CannotRead),
{
    match outcome {
        AttrOutcome::Content(s) => Ok(trim_str(s.as_str())),
        AttrOutcome::OpenFailed => Err(AttrError::CannotOpen),
        AttrOutcome::ReadFailed => Err(AttrError::CannotRead),
    }
}

} // verus!

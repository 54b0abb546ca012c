use vstd::prelude::*;

verus! {

/// Errors surfaced by every decoder in this crate.
#[derive(Debug, Clone)]
pub enum NetFlowError {
    /// A lower-level read failed for a reason described in `desc`.
    ParseError { desc: String },
    /// A declared length is inconsistent with the available bytes or with a
    /// required field width.
    InvalidLength,
    /// A value failed domain validation: a string field that is not UTF-8,
    /// or a packet whose version field is not 9.
    InvalidFieldValue,
    /// A data flowset references a template id absent from the supplied list.
    TemplateNotFound,
    /// A fixed-width read needed more input than was provided.
    UnexpectedIncomplete,
}

/// A decode result: the unconsumed remainder of the input plus the value.
pub type ParseResult<'a, T> = Result<(&'a [u8], T), NetFlowError>;

} // verus!

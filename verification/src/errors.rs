use vstd::prelude::*;

verus! {

/// The failure kinds this core reports to its callers. Every failing
/// operation returns one of these; none is silently swallowed.
#[derive(Debug, PartialEq, Eq)]
pub enum Error {
    /// Guild-config creation was attempted for a guild that already has one.
    AlreadyExists(u64),
    /// A mutation or read targeted a guild with no configuration.
    NotFound(u64),
    /// A privilege token was not one of the accepted lowercase tokens;
    /// carries the rejected input.
    UnrecognizedPrivilege(String),
    /// A provided welcome or goodbye message exceeds the maximum length.
    MessageTooLong,
    /// A requested pagination limit exceeds the representable count type.
    LimitOutOfRange,
}

} // verus!

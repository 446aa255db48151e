//! Who submitted an operation, as the identity layer reports it.

use vstd::prelude::*;

verus! {

/// The authenticated origin of an operation.
#[derive(Clone, Copy, Debug, PartialEq, Eq, Structural)]
pub enum Origin {
    /// The privileged origin.
    Root,
    /// An operation signed by an account.
    Signed(u64),
    /// An operation that nobody signed.
    Unsigned,
}

/// The signing account, if the origin is a signed one.
pub fn ensure_signed(origin: Origin) -> (r: Option<u64>)
    ensures
        r == match origin {
            Origin::Signed(a) => Some(a),
            _ => None::<u64>,
        },
{
    match origin {
        Origin::Signed(a) => Some(a),
        _ => None,
    }
}

/// Whether the origin is the privileged one.
pub fn ensure_root(origin: Origin) -> (r: bool)
    ensures
        r == (origin == Origin::Root),
{
    match origin {
        Origin::Root => true,
        _ => false,
    }
}

} // verus!

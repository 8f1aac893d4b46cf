//! Client-key normalisation for the LAN remote's signaling relay.  The relay
//! itself — sockets, authentication, message transport — is plain I/O outside
//! the library; routing decisions on its message fields are made here.

use vstd::prelude::*;
use vstd::string::StringSliceAdditionalSpecFns;
use crate::text::bytes_eq;

verus! {

/// The canonical client key a shorthand target resolves to.
pub open spec fn spec_normalize_target(target: &str) -> Seq<char> {
    if target.spec_bytes() == "operator".spec_bytes() {
        "window:main"@
    } else if target.spec_bytes() == "output".spec_bytes() {
        "window:output"@
    } else {
        target@
    }
}

/// Normalises shorthand target names ("operator", "output") to canonical
/// client keys; any other target already is one and passes through.
pub fn normalize_target(target: &str) -> (r: String)
    ensures
        r@ == spec_normalize_target(target),
{
    if bytes_eq(target.as_bytes(), "operator".as_bytes()) {
        "window:main".to_owned()
    } else if bytes_eq(target.as_bytes(), "output".as_bytes()) {
        "window:output".to_owned()
    } else {
        target.to_owned()
    }
}

} // verus!

//! The refs a push announces to `pre-push`: for each, the local ref and
//! object, and the remote ref and the object it points at now.

use vstd::prelude::*;

verus! {

/// One ref of a push, as git hands it to `pre-push`.
#[derive(Debug, Clone, PartialEq, Eq)]
pub struct PushRef {
    pub local_ref: String,
    pub local_oid: String,
    pub remote_ref: String,
    pub remote_oid: String,
}

} // verus!

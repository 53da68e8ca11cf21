//! Random identifiers.

use vstd::prelude::*;

use crate::text::{append_hex, hex};

verus! {

/// Calls `rand::random` for 64 random bits. Nothing is claimed of them.
#[verifier::external_body]
pub(crate) fn random_u64() -> u64 {
    rand::random::<u64>()
}

/// Sixteen lower-case hexadecimal digits.
pub open spec fn id_text(n: u64) -> Seq<char> {
    hex(n as nat, 16, false)
}

pub fn id_of(n: u64) -> (s: String)
    ensures
        s@ == id_text(n),
{
    let mut s = String::new();
    append_hex(&mut s, n, 16, false);
    assert(s@ =~= id_text(n));
    s
}

/// A fresh identifier.
pub fn new_id() -> (s: String)
    ensures
        exists|n: u64| s@ == id_text(n),
{
    id_of(random_u64())
}

} // verus!

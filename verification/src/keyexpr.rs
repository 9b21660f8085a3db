//! The one key-expression operation the admin plane needs from the overlay
//! fabric's key-expression algebra: set intersection of two key
//! expressions.

use vstd::prelude::*;

verus! {

/// Whether two key expressions denote intersecting key sets; the result is
/// a function of the two strings alone.
pub uninterp spec fn ke_intersects_spec(a: Seq<char>, b: Seq<char>) -> bool;

/// Relies on `zenoh_keyexpr::keyexpr::intersects`, after parsing both
/// strings with `keyexpr::new`: true iff both parse as key expressions and
/// there is at least one key belonging to both sets. A malformed expression
/// intersects nothing.
#[verifier::external_body]
pub fn ke_intersects(a: &str, b: &str) -> (r: bool)
    ensures
        r == ke_intersects_spec(a@, b@),
{
    let ka: Result<&zenoh_keyexpr::keyexpr, _> = zenoh_keyexpr::keyexpr::new(a);
    let kb: Result<&zenoh_keyexpr::keyexpr, _> = zenoh_keyexpr::keyexpr::new(b);
    match (ka, kb) {
        (Ok(x), Ok(y)) => x.intersects(y),
        _ => false,
    }
}

} // verus!

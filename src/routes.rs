//! Paths of the service's endpoints.

use vstd::prelude::*;

use crate::text::chars_of;

verus! {

/// The path of `endpoint` under the current version of the API.
pub fn get_route(endpoint: &str) -> (r: String)
    ensures
        r@ == "/api/v1/"@ + endpoint@,
{
    let mut r = "/api/v1/".to_owned();
    let ghost prefix = r@;
    let e = chars_of(endpoint);
    let mut k: usize = 0;
    while k < e.len()
        invariant
            k <= e.len(),
            prefix == "/api/v1/"@,
            r@ == prefix + e@.subrange(0, k as int),
        decreases e.len() - k,
    {
        r.push(e[k]);
        k += 1;
        assert(r@ =~= prefix + e@.subrange(0, k as int));
    }
    assert(e@.subrange(0, k as int) =~= e@);
    r
}

} // verus!

//! Helpers a host (the CLI, a server, an in-process client) shares when
//! building sessions.

use vstd::prelude::*;

use crate::pricing::builtin_pricing;

verus! {

/// The names of the pricing strategies the engine can execute, for content
/// validation at link time.
pub fn pricing_names() -> (r: Vec<String>)
    ensures
        r@.len() == 1,
        r@[0]@ == "supply_demand_v1"@,
{
    let reg = builtin_pricing();
    let names = reg.names();
    let mut out: Vec<String> = Vec::new();
    let n = names.len();
    let mut i: usize = 0;
    while i < n
        invariant
            n == names@.len(),
            i <= n,
            out@.len() == i,
            forall|j: int| 0 <= j < i ==> (#[trigger] out@[j])@ == names@[j]@,
        decreases n - i,
    {
        out.push(names[i].to_owned());
        i = i + 1;
    }
    proof {
        let s = reg@;
        assert(s.dom().contains("supply_demand_v1"@));
        assert(s.dom().len() == 1) by {
            assert(s.dom() =~= set!["supply_demand_v1"@]);
        }
    }
    out
}

} // verus!

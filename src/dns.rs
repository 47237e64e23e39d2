//! Refresh of server addresses from name resolution.
use vstd::prelude::*;
use vstd::string::*;
use crate::model::Server;

verus! {

/// The address a server should move to after its name resolved to
/// `resolved`: none when nothing resolved or the stored address is among the
/// results, else the first result.
pub fn dns_new_ip(stored: &str, resolved: &Vec<String>) -> (r: Option<String>)
    ensures
        r is Some <==> (resolved.len() > 0 && !resolved.deep_view().contains(stored@)),
        r is Some ==> r->0@ == resolved@[0]@,
{
    if resolved.len() == 0 {
        return None;
    }
    let target = String::from_str(stored);
    let mut i: usize = 0;
    while i < resolved.len()
        invariant
            i <= resolved.len(),
            target@ == stored@,
            forall|j: int| 0 <= j < i ==> resolved.deep_view()[j] != stored@,
        decreases resolved.len() - i,
    {
        if resolved[i] == target {
            assert(resolved.deep_view()[i as int] == stored@);
            return None;
        }
        i += 1;
    }
    Some(resolved[0].clone())
}

/// The positions of the enabled servers whose address follows their name,
/// in order.
pub fn dns_refresh_candidates(servers: &Vec<Server>) -> (r: Vec<usize>)
    ensures
        forall|i: int| 0 <= i < r.len() ==> #[trigger] r@[i] < servers.len(),
        forall|i: int, j: int| 0 <= i < j < r.len() ==> #[trigger] r@[i] < #[trigger] r@[j],
        forall|k: usize| #[trigger] r@.contains(k) <==> (k < servers.len() && servers@[k as int].use_dns
            && !servers@[k as int].disabled),
{
    let mut r: Vec<usize> = Vec::new();
    let mut i: usize = 0;
    while i < servers.len()
        invariant
            i <= servers.len(),
            forall|x: int| 0 <= x < r.len() ==> #[trigger] r@[x] < i,
            forall|x: int, y: int| 0 <= x < y < r.len() ==> #[trigger] r@[x] < #[trigger] r@[y],
            forall|k: usize| #[trigger] r@.contains(k) <==> (k < i && servers@[k as int].use_dns
                && !servers@[k as int].disabled),
        decreases servers.len() - i,
    {
        if servers[i].use_dns && !servers[i].disabled {
            let ghost before = r@;
            r.push(i);
            proof {
                assert forall|k: usize| #[trigger] r@.contains(k) <==> (before.contains(k) || k == i) by {
                    if before.contains(k) {
                        let x = choose|x: int| 0 <= x < before.len() && before[x] == k;
                        assert(r@[x] == k);
                    }
                    if k == i {
                        assert(r@[before.len() as int] == k);
                    }
                    if r@.contains(k) && k != i {
                        let x = choose|x: int| 0 <= x < r@.len() && r@[x] == k;
                        assert(before[x] == k);
                    }
                }
            }
        }
        i += 1;
    }
    r
}

} // verus!

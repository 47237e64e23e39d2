//! Which listed rows a listing keeps, after the operator's filters.
use vstd::prelude::*;
use crate::aggregate::{has_infix, str_contains};
use crate::input::{lower_of, lowercase};
use crate::schema::{SshKeysQuery, UserGroupQuery, UserQuery};

verus! {

/// `field` matches `pattern`: equal when `exact`, else the pattern occurs in
/// the field with both in lower case.
pub open spec fn text_matches(field: Seq<char>, pattern: Seq<char>, exact: bool) -> bool {
    if exact {
        field == pattern
    } else {
        has_infix(lower_of(field), lower_of(pattern))
    }
}

/// An optional filter on a text: no filter keeps everything.
pub open spec fn passes(field: Seq<char>, filter: Option<Seq<char>>, exact: bool) -> bool {
    match filter {
        Some(p) => text_matches(field, p, exact),
        None => true,
    }
}

pub open spec fn opt_view(o: Option<&str>) -> Option<Seq<char>> {
    match o {
        Some(s) => Some(s@),
        None => None,
    }
}

/// Whether `field` matches `pattern`.
pub fn matches_text(field: &str, pattern: &str, exact: bool) -> (r: bool)
    ensures
        r == text_matches(field@, pattern@, exact),
{
    if exact {
        crate::input::text_eq(field, pattern)
    } else {
        let f = lowercase(field);
        let p = lowercase(pattern);
        str_contains(f.as_str(), p.as_str())
    }
}

fn passes_exec(field: &str, filter: Option<&str>, exact: bool) -> (r: bool)
    ensures
        r == passes(field@, opt_view(filter), exact),
{
    match filter {
        Some(p) => matches_text(field, p, exact),
        None => true,
    }
}

pub open spec fn user_kept(
    u: UserQuery,
    email: Option<Seq<char>>,
    name: Option<Seq<char>>,
    id: Option<i64>,
    exact: bool,
) -> bool {
    &&& passes(u.email@, email, exact)
    &&& passes(u.name@, name, exact)
    &&& match id {
        Some(i) => u.id == i,
        None => true,
    }
}

pub open spec fn key_kept(
    k: SshKeysQuery,
    email: Option<Seq<char>>,
    fingerprint: Option<Seq<char>>,
    id: Option<i64>,
) -> bool {
    &&& passes(k.email@, email, false)
    &&& match fingerprint {
        Some(f) => has_infix(k.fingerprint@, f),
        None => true,
    }
    &&& match id {
        Some(i) => k.id == i,
        None => true,
    }
}

pub open spec fn group_row_kept(
    g: UserGroupQuery,
    name: Option<Seq<char>>,
    email: Option<Seq<char>>,
    exact: bool,
    only_empty: bool,
) -> bool {
    &&& (only_empty ==> g.member is None)
    &&& match email {
        Some(e) => match g.member {
            Some(m) => text_matches(m@, e, exact),
            None => false,
        },
        None => true,
    }
    &&& passes(g.usergroup@, name, exact)
}

/// The positions of the users that pass the filters on email, name and id, in order.
pub fn matching_users(
    rows: &Vec<UserQuery>,
    email: Option<&str>,
    name: Option<&str>,
    id: Option<i64>,
    exact: bool,
) -> (r: Vec<usize>)
    ensures
        forall|i: int, j: int| 0 <= i < j < r.len() ==> #[trigger] r@[i] < #[trigger] r@[j],
        forall|k: usize| #[trigger] r@.contains(k) <==> (k < rows.len() && user_kept(
            rows@[k as int],
            opt_view(email),
            opt_view(name),
            id,
            exact,
        )),
{
    let mut r: Vec<usize> = Vec::new();
    let mut i: usize = 0;
    while i < rows.len()
        invariant
            i <= rows.len(),
            forall|x: int| 0 <= x < r.len() ==> #[trigger] r@[x] < i,
            forall|x: int, y: int| 0 <= x < y < r.len() ==> #[trigger] r@[x] < #[trigger] r@[y],
            forall|k: usize| #[trigger] r@.contains(k) <==> (k < i && user_kept(
                rows@[k as int],
                opt_view(email),
                opt_view(name),
                id,
                exact,
            )),
        decreases rows.len() - i,
    {
        let u = &rows[i];
        let keep = passes_exec(u.email.as_str(), email, exact) && passes_exec(
            u.name.as_str(),
            name,
            exact,
        ) && match id {
            Some(x) => u.id == x,
            None => true,
        };
        if keep {
            proof {
                lemma_push_index(r@, i);
            }
            r.push(i);
        }
        i += 1;
    }
    r
}

/// The positions of the keys that pass the filters on owner email, fingerprint
/// and id, in order.
pub fn matching_keys(
    rows: &Vec<SshKeysQuery>,
    email: Option<&str>,
    fingerprint: Option<&str>,
    id: Option<i64>,
) -> (r: Vec<usize>)
    ensures
        forall|i: int, j: int| 0 <= i < j < r.len() ==> #[trigger] r@[i] < #[trigger] r@[j],
        forall|k: usize| #[trigger] r@.contains(k) <==> (k < rows.len() && key_kept(
            rows@[k as int],
            opt_view(email),
            opt_view(fingerprint),
            id,
        )),
{
    let mut r: Vec<usize> = Vec::new();
    let mut i: usize = 0;
    while i < rows.len()
        invariant
            i <= rows.len(),
            forall|x: int| 0 <= x < r.len() ==> #[trigger] r@[x] < i,
            forall|x: int, y: int| 0 <= x < y < r.len() ==> #[trigger] r@[x] < #[trigger] r@[y],
            forall|k: usize| #[trigger] r@.contains(k) <==> (k < i && key_kept(
                rows@[k as int],
                opt_view(email),
                opt_view(fingerprint),
                id,
            )),
        decreases rows.len() - i,
    {
        let k = &rows[i];
        let keep = passes_exec(k.email.as_str(), email, false) && match fingerprint {
            Some(f) => str_contains(k.fingerprint.as_str(), f),
            None => true,
        } && match id {
            Some(x) => k.id == x,
            None => true,
        };
        if keep {
            proof {
                lemma_push_index(r@, i);
            }
            r.push(i);
        }
        i += 1;
    }
    r
}

/// The positions of the user group rows that pass the filters, in order:
/// only rows without a member when `only_empty`, rows whose member matches
/// `email`, rows whose group matches `name`.
pub fn matching_group_rows(
    rows: &Vec<UserGroupQuery>,
    name: Option<&str>,
    email: Option<&str>,
    exact: bool,
    only_empty: bool,
) -> (r: Vec<usize>)
    ensures
        forall|i: int, j: int| 0 <= i < j < r.len() ==> #[trigger] r@[i] < #[trigger] r@[j],
        forall|k: usize| #[trigger] r@.contains(k) <==> (k < rows.len() && group_row_kept(
            rows@[k as int],
            opt_view(name),
            opt_view(email),
            exact,
            only_empty,
        )),
{
    let mut r: Vec<usize> = Vec::new();
    let mut i: usize = 0;
    while i < rows.len()
        invariant
            i <= rows.len(),
            forall|x: int| 0 <= x < r.len() ==> #[trigger] r@[x] < i,
            forall|x: int, y: int| 0 <= x < y < r.len() ==> #[trigger] r@[x] < #[trigger] r@[y],
            forall|k: usize| #[trigger] r@.contains(k) <==> (k < i && group_row_kept(
                rows@[k as int],
                opt_view(name),
                opt_view(email),
                exact,
                only_empty,
            )),
        decreases rows.len() - i,
    {
        let g = &rows[i];
        let member_ok = match email {
            Some(e) => match &g.member {
                Some(m) => matches_text(m.as_str(), e, exact),
                None => false,
            },
            None => true,
        };
        let keep = (!only_empty || g.member.is_none()) && member_ok && passes_exec(
            g.usergroup.as_str(),
            name,
            exact,
        );
        if keep {
            proof {
                lemma_push_index(r@, i);
            }
            r.push(i);
        }
        i += 1;
    }
    r
}

proof fn lemma_push_index(s: Seq<usize>, i: usize)
    ensures
        forall|k: usize| #[trigger] s.push(i).contains(k) <==> (s.contains(k) || k == i),
{
    assert forall|k: usize| #[trigger] s.push(i).contains(k) <==> (s.contains(k) || k == i) by {
        if s.contains(k) {
            let x = choose|x: int| 0 <= x < s.len() && s[x] == k;
            assert(s.push(i)[x] == k);
        }
        if k == i {
            assert(s.push(i)[s.len() as int] == k);
        }
        if s.push(i).contains(k) && k != i {
            let x = choose|x: int| 0 <= x < s.len() + 1 && s.push(i)[x] == k;
            assert(s[x] == k);
        }
    }
}

} // verus!

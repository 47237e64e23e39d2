//! Grouping of `authorized_keys` lines by target address and account.
use vstd::prelude::*;
use vstd::string::*;
use crate::authline::{format_line, line_of};
use crate::model::AccessGraph;
use crate::resolve::{
    in_key_order, resolve, resolves, tuple_views, AuthTuple, AuthTupleView, GrantFilter,
};

verus! {

#[derive(Clone, Debug)]
pub struct AuthorizedKeys {
    pub keys: Vec<String>,
}

#[derive(Clone, Debug)]
pub struct AuthorizedUser {
    pub user: String,
    pub authorized_keys: AuthorizedKeys,
}

/// The lines that go into the `authorized_keys` file of one account on one server.
#[derive(Clone, Debug)]
pub struct ServerAuth {
    pub serverip: String,
    pub sshuser: AuthorizedUser,
}

pub struct ServerAuthView {
    pub serverip: Seq<char>,
    pub user: Seq<char>,
    pub keys: Seq<Seq<char>>,
}

impl View for ServerAuth {
    type V = ServerAuthView;

    open spec fn view(&self) -> ServerAuthView {
        ServerAuthView {
            serverip: self.serverip@,
            user: self.sshuser.user@,
            keys: self.sshuser.authorized_keys.keys.deep_view(),
        }
    }
}

pub open spec fn auth_views(s: Seq<ServerAuth>) -> Seq<ServerAuthView> {
    s.map_values(|a: ServerAuth| a@)
}

/// `needle` occurs in `hay` as a contiguous run.
pub open spec fn has_infix(hay: Seq<char>, needle: Seq<char>) -> bool {
    exists|i: int| 0 <= i <= hay.len() - needle.len() && #[trigger] hay.subrange(i, i + needle.len()) == needle
}

/// An address passes the filter when there is none or when the filter occurs in it.
pub open spec fn ip_passes(ip: Seq<char>, filter: Option<Seq<char>>) -> bool {
    match filter {
        Some(f) => has_infix(ip, f),
        None => true,
    }
}

/// The lines of the accesses in `ts` to account `user` at address `ip`, in order.
pub open spec fn lines_for(ts: Seq<AuthTupleView>, ip: Seq<char>, user: Seq<char>) -> Seq<Seq<char>>
    decreases ts.len(),
{
    if ts.len() == 0 {
        Seq::empty()
    } else {
        let rest = lines_for(ts.drop_last(), ip, user);
        if ts.last().ip == ip && ts.last().sshuser == user {
            rest.push(line_of(ts.last()))
        } else {
            rest
        }
    }
}

/// Some access in `ts` is to account `user` at address `ip`.
pub open spec fn has_account(ts: Seq<AuthTupleView>, ip: Seq<char>, user: Seq<char>) -> bool {
    exists|k: int| 0 <= k < ts.len() && #[trigger] ts[k].ip == ip && ts[k].sshuser == user
}

/// `r` holds a record for account `user` at address `ip`.
pub open spec fn has_record_for(r: Seq<ServerAuthView>, ip: Seq<char>, user: Seq<char>) -> bool {
    exists|x: int| 0 <= x < r.len() && #[trigger] r[x].serverip == ip && r[x].user == user
}

proof fn lemma_has_record_push(r: Seq<ServerAuthView>, rec: ServerAuthView, ip: Seq<char>, user: Seq<char>)
    ensures
        has_record_for(r.push(rec), ip, user) <==> (has_record_for(r, ip, user) || (rec.serverip == ip
            && rec.user == user)),
{
    let v = r.push(rec);
    if has_record_for(v, ip, user) {
        let x = choose|x: int| 0 <= x < v.len() && #[trigger] v[x].serverip == ip && v[x].user == user;
        if x < r.len() {
            assert(r[x] == v[x]);
        }
    }
    if has_record_for(r, ip, user) {
        let x = choose|x: int| 0 <= x < r.len() && #[trigger] r[x].serverip == ip && r[x].user == user;
        assert(v[x] == r[x]);
    }
    if rec.serverip == ip && rec.user == user {
        assert(v[r.len() as int] == rec);
    }
}

/// Records grouped exactly from `ts`: one per account that passes the filter,
/// none twice, each with the lines of its accesses in the order of `ts`.
pub open spec fn grouped(r: Seq<ServerAuthView>, ts: Seq<AuthTupleView>, filter: Option<Seq<char>>) -> bool {
    &&& forall|i: int| 0 <= i < r.len() ==> #[trigger] r[i].keys == lines_for(ts, r[i].serverip, r[i].user)
    &&& forall|i: int, j: int|
        0 <= i < j < r.len() ==> (#[trigger] r[i].serverip, r[i].user) != (#[trigger] r[j].serverip, r[j].user)
    &&& forall|ip: Seq<char>, user: Seq<char>|
        #[trigger] has_record_for(r, ip, user) <==> (has_account(ts, ip, user) && ip_passes(ip, filter))
}

/// Whether `needle` occurs in `hay`.
pub fn str_contains(hay: &str, needle: &str) -> (b: bool)
    ensures
        b == has_infix(hay@, needle@),
{
    let n = hay.unicode_len();
    let m = needle.unicode_len();
    if m > n {
        return false;
    }
    if m == 0 {
        assert(hay@.subrange(0, (0 as int) + needle@.len()) =~= needle@);
        return true;
    }
    let mut i: usize = 0;
    while i <= n - m
        invariant
            n == hay@.len(),
            m == needle@.len(),
            1 <= m <= n,
            i <= n - m + 1,
            forall|x: int| 0 <= x < i ==> #[trigger] hay@.subrange(x, x + m) != needle@,
        decreases n - m + 1 - i,
    {
        let mut j: usize = 0;
        let mut same = true;
        while j < m
            invariant
                n == hay@.len(),
                m == needle@.len(),
                i + m <= n,
                j <= m,
                same ==> forall|y: int| 0 <= y < j ==> hay@[i + y] == needle@[y],
                !same ==> hay@.subrange(i as int, i + m) != needle@,
            decreases m - j,
        {
            if hay.get_char(i + j) != needle.get_char(j) {
                proof {
                    assert(hay@.subrange(i as int, i + m)[j as int] != needle@[j as int]);
                }
                same = false;
            }
            j += 1;
        }
        if same {
            assert(hay@.subrange(i as int, i + m) =~= needle@);
            return true;
        }
        i += 1;
    }
    false
}

proof fn lemma_lines_step(ts: Seq<AuthTupleView>, j: int, ip: Seq<char>, user: Seq<char>)
    requires
        0 <= j < ts.len(),
    ensures
        lines_for(ts.take(j + 1), ip, user) == if ts[j].ip == ip && ts[j].sshuser == user {
            lines_for(ts.take(j), ip, user).push(line_of(ts[j]))
        } else {
            lines_for(ts.take(j), ip, user)
        },
{
    assert(ts.take(j + 1).drop_last() =~= ts.take(j));
}

/// The record for account `user` at `ip`, with the lines of all accesses to it.
fn collect_account(ts: &Vec<AuthTuple>, ip: &String, user: &String) -> (r: ServerAuth)
    ensures
        r@.serverip == ip@,
        r@.user == user@,
        r@.keys == lines_for(tuple_views(ts@), ip@, user@),
{
    let ghost tv = tuple_views(ts@);
    let mut keys: Vec<String> = Vec::new();
    let mut j: usize = 0;
    while j < ts.len()
        invariant
            tv == tuple_views(ts@),
            j <= ts.len(),
            keys.deep_view() == lines_for(tv.take(j as int), ip@, user@),
        decreases ts.len() - j,
    {
        proof {
            lemma_lines_step(tv, j as int, ip@, user@);
        }
        let t = &ts[j];
        if t.ip == *ip && t.sshuser == *user {
            let l = format_line(t);
            let ghost before = keys.deep_view();
            keys.push(l);
            proof {
                assert(keys.deep_view() =~= before.push(l@));
            }
        }
        j += 1;
    }
    proof {
        assert(tv.take(ts.len() as int) =~= tv);
    }
    ServerAuth {
        serverip: ip.clone(),
        sshuser: AuthorizedUser { user: user.clone(), authorized_keys: AuthorizedKeys { keys } },
    }
}

/// Whether `r` holds a record for account `user` at `ip`.
fn has_record(r: &Vec<ServerAuth>, ip: &String, user: &String) -> (b: bool)
    ensures
        b == has_record_for(auth_views(r@), ip@, user@),
{
    let mut x: usize = 0;
    while x < r.len()
        invariant
            x <= r.len(),
            forall|y: int|
                0 <= y < x ==> !(#[trigger] auth_views(r@)[y].serverip == ip@ && auth_views(r@)[y].user
                    == user@),
        decreases r.len() - x,
    {
        assert(auth_views(r@)[x as int] == r@[x as int]@);
        let same_ip: bool = r[x].serverip == *ip;
        let same_user: bool = r[x].sshuser.user == *user;
        if same_ip && same_user {
            assert(auth_views(r@)[x as int].serverip == ip@ && auth_views(r@)[x as int].user == user@);
            return true;
        }
        x += 1;
    }
    false
}

/// Groups the lines of `ts` by address and account, one record per account
/// in the order in which accounts first occur, keeping only the addresses in
/// which `ip_filter` occurs when it is given.
pub fn group_by_account(ts: &Vec<AuthTuple>, ip_filter: Option<&str>) -> (r: Vec<ServerAuth>)
    ensures
        grouped(auth_views(r@), tuple_views(ts@), match ip_filter {
            Some(f) => Some(f@),
            None => None,
        }),
{
    let ghost tv = tuple_views(ts@);
    let ghost filter = match ip_filter {
        Some(f) => Some(f@),
        None => None,
    };
    let mut r: Vec<ServerAuth> = Vec::new();
    let mut i: usize = 0;
    while i < ts.len()
        invariant
            tv == tuple_views(ts@),
            filter == match ip_filter {
                Some(f) => Some(f@),
                None => None::<Seq<char>>,
            },
            i <= ts.len(),
            forall|x: int|
                0 <= x < r.len() ==> #[trigger] auth_views(r@)[x].keys == lines_for(
                    tv,
                    auth_views(r@)[x].serverip,
                    auth_views(r@)[x].user,
                ),
            forall|x: int, y: int|
                0 <= x < y < r.len() ==> (#[trigger] auth_views(r@)[x].serverip, auth_views(r@)[x].user)
                    != (#[trigger] auth_views(r@)[y].serverip, auth_views(r@)[y].user),
            forall|ip: Seq<char>, user: Seq<char>|
                #![trigger has_record_for(auth_views(r@), ip, user)]
                #![trigger has_account(tv.take(i as int), ip, user)]
                has_record_for(auth_views(r@), ip, user)
                    <==> (has_account(tv.take(i as int), ip, user) && ip_passes(ip, filter)),
        decreases ts.len() - i,
    {
        let t = &ts[i];
        let passes = match ip_filter {
            Some(f) => str_contains(t.ip.as_str(), f),
            None => true,
        };
        let seen = has_record(&r, &t.ip, &t.sshuser);
        proof {
            assert forall|ip: Seq<char>, user: Seq<char>|
                #[trigger] has_account(tv.take(i + 1), ip, user) <==> (has_account(tv.take(i as int), ip, user)
                    || (tv[i as int].ip == ip && tv[i as int].sshuser == user)) by {
                if has_account(tv.take(i + 1), ip, user) {
                    let k = choose|k: int|
                        0 <= k < i + 1 && #[trigger] tv.take(i + 1)[k].ip == ip && tv.take(i + 1)[k].sshuser
                            == user;
                    if k < i {
                        assert(tv.take(i as int)[k] == tv[k]);
                    }
                }
                if has_account(tv.take(i as int), ip, user) {
                    let k = choose|k: int|
                        0 <= k < i && #[trigger] tv.take(i as int)[k].ip == ip && tv.take(i as int)[k].sshuser
                            == user;
                    assert(tv.take(i + 1)[k] == tv[k]);
                }
                if tv[i as int].ip == ip && tv[i as int].sshuser == user {
                    assert(tv.take(i + 1)[i as int] == tv[i as int]);
                }
            }
        }
        let ghost before = auth_views(r@);
        let ghost pushed = false;
        if passes && !seen {
            let rec = collect_account(ts, &t.ip, &t.sshuser);
            r.push(rec);
            proof {
                assert(auth_views(r@) =~= before.push(rec@));
                pushed = true;
            }
        }
        proof {
            let v = auth_views(r@);
            assert(tv[i as int] == t@);
            assert(passes == ip_passes(tv[i as int].ip, filter));
            assert(pushed ==> v == before.push(v[before.len() as int]) && v[before.len() as int].serverip
                == tv[i as int].ip && v[before.len() as int].user == tv[i as int].sshuser);
            assert(!pushed ==> v == before);
            assert forall|ip: Seq<char>, user: Seq<char>|
                #![trigger has_record_for(v, ip, user)]
                #![trigger has_account(tv.take(i + 1), ip, user)]
                has_record_for(v, ip, user)
                    <==> (has_account(tv.take(i + 1), ip, user) && ip_passes(ip, filter)) by {
                assert(has_record_for(before, ip, user)
                    <==> (has_account(tv.take(i as int), ip, user) && ip_passes(ip, filter)));
                assert(has_account(tv.take(i + 1), ip, user) <==> (has_account(tv.take(i as int), ip, user)
                    || (tv[i as int].ip == ip && tv[i as int].sshuser == user)));
                if pushed {
                    lemma_has_record_push(before, v[before.len() as int], ip, user);
                }
            }
        }
        i += 1;
    }
    proof {
        assert(tv.take(ts.len() as int) =~= tv);
    }
    r
}

/// The `authorized_keys` contents that the graph grants at time `now`,
/// grouped by address and account, restricted to the addresses in which
/// `ip_filter` occurs when it is given.
pub fn generate_serverauth(g: &AccessGraph, now: i64, ip_filter: Option<&str>) -> (r: Vec<ServerAuth>)
    requires
        g@.wf(),
    ensures
        exists|ts: Seq<AuthTuple>|
            (forall|t: AuthTupleView| #[trigger] tuple_views(ts).contains(t) <==> resolves(
                g@,
                now,
                GrantFilter::Current,
                t,
            ))
            && tuple_views(ts).no_duplicates() && in_key_order(g@, tuple_views(ts))
            && grouped(auth_views(r@), tuple_views(ts), match ip_filter {
                Some(f) => Some(f@),
                None => None,
            }),
{
    let ts = resolve(g, now, GrantFilter::Current);
    let r = group_by_account(&ts, ip_filter);
    assert(grouped(auth_views(r@), tuple_views(ts@), match ip_filter {
        Some(f) => Some(f@),
        None => None,
    }));
    r
}

/// Two accesses to the same account at the same address, for instance with
/// different keys, give one record holding both lines in order.
pub proof fn lemma_same_account_one_record(r: Seq<ServerAuthView>, t1: AuthTupleView, t2: AuthTupleView)
    requires
        grouped(r, seq![t1, t2], None),
        t1.ip == t2.ip,
        t1.sshuser == t2.sshuser,
    ensures
        r.len() == 1,
        r[0].serverip == t1.ip,
        r[0].user == t1.sshuser,
        r[0].keys == seq![line_of(t1), line_of(t2)],
{
    reveal_with_fuel(lines_for, 3);
    let ts = seq![t1, t2];
    assert(ts[0] == t1);
    assert(has_account(ts, t1.ip, t1.sshuser));
    assert(has_record_for(r, t1.ip, t1.sshuser));
    if r.len() >= 2 {
        assert(has_record_for(r, r[0].serverip, r[0].user));
        assert(has_record_for(r, r[1].serverip, r[1].user));
        assert((r[0].serverip, r[0].user) != (r[1].serverip, r[1].user));
    }
    assert(has_record_for(r, r[0].serverip, r[0].user));
    assert(ts.drop_last() =~= seq![t1]);
    assert(ts.drop_last().drop_last() =~= Seq::<AuthTupleView>::empty());
    assert(r[0].keys =~= seq![line_of(t1), line_of(t2)]);
}

/// Two accesses to different accounts, or to different addresses, give two
/// records of one line each.
pub proof fn lemma_different_accounts_two_records(
    r: Seq<ServerAuthView>,
    t1: AuthTupleView,
    t2: AuthTupleView,
)
    requires
        grouped(r, seq![t1, t2], None),
        (t1.ip, t1.sshuser) != (t2.ip, t2.sshuser),
    ensures
        r.len() == 2,
        exists|i: int|
            0 <= i < 2 && #[trigger] r[i].keys == seq![line_of(t1)] && r[1 - i].keys == seq![
                line_of(t2),
            ],
{
    reveal_with_fuel(lines_for, 3);
    let ts = seq![t1, t2];
    assert(ts[0] == t1 && ts[1] == t2);
    assert(has_account(ts, t1.ip, t1.sshuser));
    assert(has_account(ts, t2.ip, t2.sshuser));
    assert(has_record_for(r, t1.ip, t1.sshuser));
    assert(has_record_for(r, t2.ip, t2.sshuser));
    let x1 = choose|x: int| 0 <= x < r.len() && #[trigger] r[x].serverip == t1.ip && r[x].user == t1.sshuser;
    let x2 = choose|x: int| 0 <= x < r.len() && #[trigger] r[x].serverip == t2.ip && r[x].user == t2.sshuser;
    assert(x1 != x2);
    if r.len() > 2 {
        assert forall|k: int| 0 <= k < 3 implies (r[k].serverip, r[k].user) == (t1.ip, t1.sshuser) || (
        r[k].serverip, r[k].user) == (t2.ip, t2.sshuser) by {
            assert(has_record_for(r, r[k].serverip, r[k].user));
            let j = choose|j: int|
                0 <= j < ts.len() && #[trigger] ts[j].ip == r[k].serverip && ts[j].sshuser == r[k].user;
        }
        assert((r[0].serverip, r[0].user) != (r[1].serverip, r[1].user));
        assert((r[0].serverip, r[0].user) != (r[2].serverip, r[2].user));
        assert((r[1].serverip, r[1].user) != (r[2].serverip, r[2].user));
    }
    assert(ts.drop_last() =~= seq![t1]);
    assert(ts.drop_last().drop_last() =~= Seq::<AuthTupleView>::empty());
    assert(r[x1].keys =~= seq![line_of(t1)]);
    assert(r[x2].keys =~= seq![line_of(t2)]);
    if x1 == 0 {
        assert(r[0].keys == seq![line_of(t1)] && r[1 - 0].keys == seq![line_of(t2)]);
    } else {
        assert(r[1].keys == seq![line_of(t1)] && r[1 - 1].keys == seq![line_of(t2)]);
    }
}

} // verus!

//! Access resolution: who may log in as which account on which server.
use vstd::prelude::*;
use vstd::string::*;
use crate::closure::{group_closure, in_closure, vec_contains};
use crate::model::{
    AccessGraph, AccessGraphView, Principal, Server, ServerAccess, ServerAccessView, ServerView, SshKey,
    SshKeyView, Target, User, UserView, with_server_disabled, with_server_ip, with_user_disabled,
};

verus! {

/// Which grants take part in a resolution, by their expiry.
#[derive(Clone, Copy, Debug, PartialEq, Eq, Structural)]
pub enum GrantFilter {
    /// Grants whose `best_before` lies after the given time.
    Current,
    /// Grants whose `best_before` has passed.
    Expired,
    All,
}

/// Longest key comment carried into a resolved access, in characters.
pub const COMMENT_LIMIT: usize = 64;

/// One resolved access: a key that may log in as `sshuser` on the server at `ip`.
#[derive(Clone, Debug)]
pub struct AuthTuple {
    pub user_id: i64,
    pub key_id: i64,
    pub ip: String,
    pub sshuser: String,
    pub sshfrom: Option<String>,
    pub sshcommand: Option<String>,
    pub sshoption: Option<String>,
    pub sshkey: String,
    pub email: String,
    pub comment: Option<String>,
}

pub struct AuthTupleView {
    pub user_id: i64,
    pub key_id: i64,
    pub ip: Seq<char>,
    pub sshuser: Seq<char>,
    pub sshfrom: Option<Seq<char>>,
    pub sshcommand: Option<Seq<char>>,
    pub sshoption: Option<Seq<char>>,
    pub sshkey: Seq<char>,
    pub email: Seq<char>,
    pub comment: Option<Seq<char>>,
}

impl View for AuthTuple {
    type V = AuthTupleView;

    open spec fn view(&self) -> AuthTupleView {
        AuthTupleView {
            user_id: self.user_id,
            key_id: self.key_id,
            ip: self.ip@,
            sshuser: self.sshuser@,
            sshfrom: self.sshfrom.deep_view(),
            sshcommand: self.sshcommand.deep_view(),
            sshoption: self.sshoption.deep_view(),
            sshkey: self.sshkey@,
            email: self.email@,
            comment: self.comment.deep_view(),
        }
    }
}

pub open spec fn tuple_views(s: Seq<AuthTuple>) -> Seq<AuthTupleView> {
    s.map_values(|t: AuthTuple| t@)
}

pub open spec fn grant_selected(f: GrantFilter, best_before: i64, now: i64) -> bool {
    match f {
        GrantFilter::Current => best_before > now,
        GrantFilter::Expired => best_before <= now,
        GrantFilter::All => true,
    }
}

/// The groups that `m` belongs to directly, in the order of `ms`.
pub open spec fn direct_groups(ms: Seq<(i64, i64)>, m: i64) -> Seq<i64>
    decreases ms.len(),
{
    if ms.len() == 0 {
        Seq::empty()
    } else {
        let rest = direct_groups(ms.drop_last(), m);
        if ms.last().0 == m {
            rest.push(ms.last().1)
        } else {
            rest
        }
    }
}

pub open spec fn user_in_group(gv: AccessGraphView, uid: i64, g: i64) -> bool {
    in_closure(direct_groups(gv.user_memberships, uid), gv.usergroup_edges, g)
}

pub open spec fn server_in_group(gv: AccessGraphView, sid: i64, g: i64) -> bool {
    in_closure(direct_groups(gv.server_memberships, sid), gv.servergroup_edges, g)
}

pub open spec fn principal_covers(gv: AccessGraphView, p: Principal, uid: i64) -> bool {
    match p {
        Principal::User(id) => id == uid,
        Principal::UserGroup(g) => user_in_group(gv, uid, g),
    }
}

pub open spec fn target_covers(gv: AccessGraphView, t: Target, sid: i64) -> bool {
    match t {
        Target::Server(id) => id == sid,
        Target::ServerGroup(g) => server_in_group(gv, sid, g),
    }
}

/// The first `COMMENT_LIMIT` characters of a comment.
pub open spec fn truncated(c: Option<Seq<char>>) -> Option<Seq<char>> {
    match c {
        Some(s) => Some(
            if s.len() <= COMMENT_LIMIT {
                s
            } else {
                s.take(COMMENT_LIMIT as int)
            },
        ),
        None => None,
    }
}

pub open spec fn tuple_of(
    u: UserView,
    k: SshKeyView,
    s: ServerView,
    a: ServerAccessView,
) -> AuthTupleView {
    AuthTupleView {
        user_id: u.id,
        key_id: k.id,
        ip: s.ip,
        sshuser: a.sshuser,
        sshfrom: a.sshfrom,
        sshcommand: a.sshcommand,
        sshoption: a.sshoption,
        sshkey: k.sshkey,
        email: u.email,
        comment: truncated(k.comment),
    }
}

/// Key `ki` belongs to user `ui`, who is enabled.
pub open spec fn key_of_user(gv: AccessGraphView, ki: int, ui: int) -> bool {
    &&& 0 <= ki < gv.keys.len()
    &&& 0 <= ui < gv.users.len()
    &&& gv.keys[ki].user_id == gv.users[ui].id
    &&& !gv.users[ui].disabled
}

/// Grant `gi` passes the filter and is given to user `ui`.
pub open spec fn grant_to_user(
    gv: AccessGraphView,
    now: i64,
    f: GrantFilter,
    gi: int,
    ui: int,
) -> bool {
    &&& 0 <= gi < gv.user_accesses.len()
    &&& grant_selected(f, gv.user_accesses[gi].best_before, now)
    &&& principal_covers(gv, gv.user_accesses[gi].principal, gv.users[ui].id)
}

/// Grant `gi` refers to server access rule `ai`.
pub open spec fn rule_of_grant(gv: AccessGraphView, gi: int, ai: int) -> bool {
    &&& 0 <= ai < gv.server_accesses.len()
    &&& gv.user_accesses[gi].serveraccess_id == gv.server_accesses[ai].id
}

/// Rule `ai` reaches server `si`, which is enabled.
pub open spec fn rule_reaches(gv: AccessGraphView, ai: int, si: int) -> bool {
    &&& 0 <= si < gv.servers.len()
    &&& !gv.servers[si].disabled
    &&& target_covers(gv, gv.server_accesses[ai].target, gv.servers[si].id)
}

/// `t` is the access that key `ki` of user `ui` has through grant `gi`,
/// rule `ai` and server `si`.
pub open spec fn derives(
    gv: AccessGraphView,
    now: i64,
    f: GrantFilter,
    ki: int,
    ui: int,
    gi: int,
    ai: int,
    si: int,
    t: AuthTupleView,
) -> bool {
    &&& key_of_user(gv, ki, ui)
    &&& grant_to_user(gv, now, f, gi, ui)
    &&& rule_of_grant(gv, gi, ai)
    &&& rule_reaches(gv, ai, si)
    &&& t == tuple_of(gv.users[ui], gv.keys[ki], gv.servers[si], gv.server_accesses[ai])
}

/// `t` is an access that the graph grants at time `now`, among the grants that `f` selects.
pub open spec fn resolves(gv: AccessGraphView, now: i64, f: GrantFilter, t: AuthTupleView) -> bool {
    exists|ki: int, ui: int, gi: int, ai: int, si: int|
        #[trigger] derives(gv, now, f, ki, ui, gi, ai, si, t)
}

/// Key `ki` of the graph has id `kid`.
pub open spec fn key_at(gv: AccessGraphView, ki: int, kid: i64) -> bool {
    0 <= ki < gv.keys.len() && gv.keys[ki].id == kid
}

/// The accesses in `r` come in the order of their keys in the graph.
pub open spec fn in_key_order(gv: AccessGraphView, r: Seq<AuthTupleView>) -> bool {
    forall|i: int, j: int, ki: int, kj: int|
        0 <= i < j < r.len() && #[trigger] key_at(gv, ki, r[i].key_id) && #[trigger] key_at(gv, kj, r[j].key_id)
            ==> ki <= kj
}

spec fn from_keys(gv: AccessGraphView, now: i64, f: GrantFilter, n: int, t: AuthTupleView) -> bool {
    exists|ki: int, ui: int, gi: int, ai: int, si: int|
        ki < n && #[trigger] derives(gv, now, f, ki, ui, gi, ai, si, t)
}

spec fn from_grants(
    gv: AccessGraphView,
    now: i64,
    f: GrantFilter,
    ki: int,
    m: int,
    t: AuthTupleView,
) -> bool {
    exists|ui: int, gi: int, ai: int, si: int|
        gi < m && #[trigger] derives(gv, now, f, ki, ui, gi, ai, si, t)
}

spec fn from_servers(
    gv: AccessGraphView,
    now: i64,
    f: GrantFilter,
    ki: int,
    gi: int,
    p: int,
    t: AuthTupleView,
) -> bool {
    exists|ui: int, ai: int, si: int| si < p && #[trigger] derives(gv, now, f, ki, ui, gi, ai, si, t)
}

proof fn lemma_keys_step(gv: AccessGraphView, now: i64, f: GrantFilter, ki: int, t: AuthTupleView)
    requires
        0 <= ki,
    ensures
        from_keys(gv, now, f, ki + 1, t) <==> from_keys(gv, now, f, ki, t) || from_grants(
            gv,
            now,
            f,
            ki,
            gv.user_accesses.len() as int,
            t,
        ),
{
    if from_keys(gv, now, f, ki + 1, t) {
        let (k, u, g, a, s) = choose|k: int, u: int, g: int, a: int, s: int|
            k < ki + 1 && #[trigger] derives(gv, now, f, k, u, g, a, s, t);
        if k < ki {
            assert(from_keys(gv, now, f, ki, t));
        } else {
            assert(from_grants(gv, now, f, ki, gv.user_accesses.len() as int, t));
        }
    }
    if from_keys(gv, now, f, ki, t) {
        let (k, u, g, a, s) = choose|k: int, u: int, g: int, a: int, s: int|
            k < ki && #[trigger] derives(gv, now, f, k, u, g, a, s, t);
        assert(from_keys(gv, now, f, ki + 1, t));
    }
    if from_grants(gv, now, f, ki, gv.user_accesses.len() as int, t) {
        let (u, g, a, s) = choose|u: int, g: int, a: int, s: int|
            g < gv.user_accesses.len() && #[trigger] derives(gv, now, f, ki, u, g, a, s, t);
        assert(from_keys(gv, now, f, ki + 1, t));
    }
}

proof fn lemma_grants_step(
    gv: AccessGraphView,
    now: i64,
    f: GrantFilter,
    ki: int,
    gi: int,
    t: AuthTupleView,
)
    ensures
        from_grants(gv, now, f, ki, gi + 1, t) <==> from_grants(gv, now, f, ki, gi, t)
            || from_servers(gv, now, f, ki, gi, gv.servers.len() as int, t),
{
    if from_grants(gv, now, f, ki, gi + 1, t) {
        let (u, g, a, s) = choose|u: int, g: int, a: int, s: int|
            g < gi + 1 && #[trigger] derives(gv, now, f, ki, u, g, a, s, t);
        if g < gi {
            assert(from_grants(gv, now, f, ki, gi, t));
        } else {
            assert(from_servers(gv, now, f, ki, gi, gv.servers.len() as int, t));
        }
    }
    if from_grants(gv, now, f, ki, gi, t) {
        let (u, g, a, s) = choose|u: int, g: int, a: int, s: int|
            g < gi && #[trigger] derives(gv, now, f, ki, u, g, a, s, t);
        assert(from_grants(gv, now, f, ki, gi + 1, t));
    }
    if from_servers(gv, now, f, ki, gi, gv.servers.len() as int, t) {
        let (u, a, s) = choose|u: int, a: int, s: int|
            s < gv.servers.len() && #[trigger] derives(gv, now, f, ki, u, gi, a, s, t);
        assert(from_grants(gv, now, f, ki, gi + 1, t));
    }
}

proof fn lemma_servers_step(
    gv: AccessGraphView,
    now: i64,
    f: GrantFilter,
    ki: int,
    ui: int,
    gi: int,
    ai: int,
    si: int,
    t: AuthTupleView,
)
    requires
        gv.wf(),
        key_of_user(gv, ki, ui),
        grant_to_user(gv, now, f, gi, ui),
        rule_of_grant(gv, gi, ai),
        0 <= si,
    ensures
        from_servers(gv, now, f, ki, gi, si + 1, t) <==> from_servers(gv, now, f, ki, gi, si, t)
            || derives(gv, now, f, ki, ui, gi, ai, si, t),
{
    if from_servers(gv, now, f, ki, gi, si + 1, t) {
        let (u, a, s) = choose|u: int, a: int, s: int|
            s < si + 1 && #[trigger] derives(gv, now, f, ki, u, gi, a, s, t);
        if s == si {
            assert(gv.users[u].id == gv.users[ui].id);
            assert(u == ui);
            assert(gv.server_accesses[a].id == gv.server_accesses[ai].id);
            assert(a == ai);
        }
    }
    if derives(gv, now, f, ki, ui, gi, ai, si, t) {
        assert(from_servers(gv, now, f, ki, gi, si + 1, t));
    }
    if from_servers(gv, now, f, ki, gi, si, t) {
        let (u, a, s) = choose|u: int, a: int, s: int|
            s < si && #[trigger] derives(gv, now, f, ki, u, gi, a, s, t);
        assert(from_servers(gv, now, f, ki, gi, si + 1, t));
    }
}

fn opt_eq(a: &Option<String>, b: &Option<String>) -> (r: bool)
    ensures
        r == (a.deep_view() == b.deep_view()),
{
    match a {
        Some(x) => match b {
            Some(y) => {
                let e: bool = *x == *y;
                e
            },
            None => false,
        },
        None => b.is_none(),
    }
}

fn opt_clone(a: &Option<String>) -> (r: Option<String>)
    ensures
        r.deep_view() == a.deep_view(),
{
    match a {
        Some(x) => Some(x.clone()),
        None => None,
    }
}

fn tuple_eq(a: &AuthTuple, b: &AuthTuple) -> (r: bool)
    ensures
        r == (a@ == b@),
{
    a.user_id == b.user_id && a.key_id == b.key_id && a.ip == b.ip && a.sshuser == b.sshuser
        && opt_eq(&a.sshfrom, &b.sshfrom) && opt_eq(&a.sshcommand, &b.sshcommand) && opt_eq(
        &a.sshoption,
        &b.sshoption,
    ) && a.sshkey == b.sshkey && a.email == b.email && opt_eq(&a.comment, &b.comment)
}

/// A comment cut to its first `COMMENT_LIMIT` characters.
pub fn truncate_comment(c: &Option<String>) -> (r: Option<String>)
    ensures
        r.deep_view() == truncated(c.deep_view()),
{
    match c {
        Some(s) => {
            let n = s.as_str().unicode_len();
            if n <= COMMENT_LIMIT {
                Some(s.clone())
            } else {
                let head = s.as_str().substring_char(0, COMMENT_LIMIT);
                Some(String::from_str(head))
            }
        },
        None => None,
    }
}

/// The groups that `m` belongs to directly.
pub fn direct_groups_of(ms: &Vec<(i64, i64)>, m: i64) -> (r: Vec<i64>)
    ensures
        r@ == direct_groups(ms@, m),
{
    let mut r: Vec<i64> = Vec::new();
    let mut i: usize = 0;
    while i < ms.len()
        invariant
            i <= ms.len(),
            r@ == direct_groups(ms@.take(i as int), m),
        decreases ms.len() - i,
    {
        proof {
            assert(ms@.take(i as int + 1).drop_last() =~= ms@.take(i as int));
        }
        let (member, group) = ms[i];
        if member == m {
            r.push(group);
        }
        i += 1;
    }
    proof {
        assert(ms@.take(ms.len() as int) =~= ms@);
    }
    r
}

fn grant_selected_exec(f: GrantFilter, best_before: i64, now: i64) -> (b: bool)
    ensures
        b == grant_selected(f, best_before, now),
{
    match f {
        GrantFilter::Current => best_before > now,
        GrantFilter::Expired => best_before <= now,
        GrantFilter::All => true,
    }
}

fn find_user(users: &Vec<User>, id: i64) -> (r: Option<usize>)
    ensures
        match r {
            Some(i) => i < users.len() && users@[i as int].id == id,
            None => forall|i: int| 0 <= i < users.len() ==> users@[i].id != id,
        },
{
    let mut i: usize = 0;
    while i < users.len()
        invariant
            i <= users.len(),
            forall|j: int| 0 <= j < i ==> users@[j].id != id,
        decreases users.len() - i,
    {
        if users[i].id == id {
            return Some(i);
        }
        i += 1;
    }
    None
}

fn find_rule(rules: &Vec<ServerAccess>, id: i64) -> (r: Option<usize>)
    ensures
        match r {
            Some(i) => i < rules.len() && rules@[i as int].id == id,
            None => forall|i: int| 0 <= i < rules.len() ==> rules@[i].id != id,
        },
{
    let mut i: usize = 0;
    while i < rules.len()
        invariant
            i <= rules.len(),
            forall|j: int| 0 <= j < i ==> rules@[j].id != id,
        decreases rules.len() - i,
    {
        if rules[i].id == id {
            return Some(i);
        }
        i += 1;
    }
    None
}

fn make_tuple(u: &User, k: &SshKey, s: &Server, a: &ServerAccess) -> (t: AuthTuple)
    ensures
        t@ == tuple_of(u@, k@, s@, a@),
{
    AuthTuple {
        user_id: u.id,
        key_id: k.id,
        ip: s.ip.clone(),
        sshuser: a.sshuser.clone(),
        sshfrom: opt_clone(&a.sshfrom),
        sshcommand: opt_clone(&a.sshcommand),
        sshoption: opt_clone(&a.sshoption),
        sshkey: k.sshkey.clone(),
        email: u.email.clone(),
        comment: truncate_comment(&k.comment),
    }
}

fn contains_from(r: &Vec<AuthTuple>, start: usize, t: &AuthTuple) -> (b: bool)
    requires
        start <= r.len(),
    ensures
        b == exists|j: int| start <= j < r.len() && r@[j]@ == t@,
{
    let mut j: usize = start;
    while j < r.len()
        invariant
            start <= j <= r.len(),
            forall|x: int| start <= x < j ==> r@[x]@ != t@,
        decreases r.len() - j,
    {
        if tuple_eq(&r[j], t) {
            return true;
        }
        j += 1;
    }
    false
}

/// For each server, the groups it belongs to directly or through nesting.
fn server_closures(g: &AccessGraph) -> (r: Vec<Vec<i64>>)
    ensures
        r.len() == g.servers.len(),
        forall|si: int, x: i64|
            0 <= si < r.len() ==> (#[trigger] r@[si]@.contains(x) <==> server_in_group(
                g@,
                g.servers@[si].id,
                x,
            )),
{
    let mut r: Vec<Vec<i64>> = Vec::new();
    let mut i: usize = 0;
    while i < g.servers.len()
        invariant
            i <= g.servers.len(),
            r.len() == i,
            forall|si: int, x: i64|
                0 <= si < r.len() ==> (#[trigger] r@[si]@.contains(x) <==> server_in_group(
                    g@,
                    g.servers@[si].id,
                    x,
                )),
        decreases g.servers.len() - i,
    {
        let direct = direct_groups_of(&g.server_memberships, g.servers[i].id);
        let c = group_closure(&direct, &g.servergroup_edges);
        r.push(c);
        i += 1;
    }
    r
}

proof fn lemma_push_views(r: Seq<AuthTuple>, t: AuthTuple)
    ensures
        tuple_views(r.push(t)) == tuple_views(r).push(t@),
{
    assert(tuple_views(r.push(t)) =~= tuple_views(r).push(t@));
}

/// Every access that `g` grants at time `now` through the grants that `f`
/// selects, each once: the keys of every enabled user reached by a grant,
/// directly or through nested user groups, on every enabled server that the
/// grant's rule reaches, directly or through nested server groups.
pub fn resolve(g: &AccessGraph, now: i64, f: GrantFilter) -> (r: Vec<AuthTuple>)
    requires
        g@.wf(),
    ensures
        forall|t: AuthTupleView| #[trigger] tuple_views(r@).contains(t) <==> resolves(g@, now, f, t),
        tuple_views(r@).no_duplicates(),
        in_key_order(g@, tuple_views(r@)),
{
    let ghost gv = g@;
    let sgroups = server_closures(g);
    let mut r: Vec<AuthTuple> = Vec::new();
    let mut ki: usize = 0;
    while ki < g.keys.len()
        invariant
            gv == g@,
            gv.wf(),
            ki <= g.keys.len(),
            sgroups.len() == g.servers.len(),
            forall|si: int, x: i64|
                0 <= si < sgroups.len() ==> (#[trigger] sgroups@[si]@.contains(x)
                    <==> server_in_group(gv, g.servers@[si].id, x)),
            forall|t: AuthTupleView| #[trigger]
                tuple_views(r@).contains(t) <==> from_keys(gv, now, f, ki as int, t),
            tuple_views(r@).no_duplicates(),
            in_key_order(gv, tuple_views(r@)),
            forall|j: int, kk: int| 0 <= j < r.len() && #[trigger] key_at(gv, kk, r@[j].key_id) ==> kk < ki,
        decreases g.keys.len() - ki,
    {
        let start = r.len();
        proof {
            assert forall|j: int| 0 <= j < start implies #[trigger] r@[j].key_id != gv.keys[ki as int].id by {
                if r@[j].key_id == gv.keys[ki as int].id {
                    assert(key_at(gv, ki as int, r@[j].key_id));
                }
            }
        }
        let key = &g.keys[ki];
        let found = find_user(&g.users, key.user_id);
        match found {
            Some(ui) if !g.users[ui].disabled => {
                let user = &g.users[ui];
                let uid = user.id;
                let direct = direct_groups_of(&g.user_memberships, uid);
                let ugroups = group_closure(&direct, &g.usergroup_edges);
                let mut gi: usize = 0;
                while gi < g.user_accesses.len()
                    invariant
                        gv == g@,
                        gv.wf(),
                        ki < g.keys.len(),
                        ui < g.users.len(),
                        key_of_user(gv, ki as int, ui as int),
                        *user == g.users@[ui as int],
                        *key == g.keys@[ki as int],
                        uid == gv.users[ui as int].id,
                        forall|x: i64| #[trigger] ugroups@.contains(x) <==> user_in_group(gv, uid, x),
                        gi <= g.user_accesses.len(),
                        sgroups.len() == g.servers.len(),
                        forall|si: int, x: i64|
                            0 <= si < sgroups.len() ==> (#[trigger] sgroups@[si]@.contains(x)
                                <==> server_in_group(gv, g.servers@[si].id, x)),
                        start <= r.len(),
                        forall|j: int| 0 <= j < start ==> #[trigger] r@[j].key_id != gv.keys[ki as int].id,
                        forall|j: int, kk: int| 0 <= j < start && #[trigger] key_at(gv, kk, r@[j].key_id) ==> kk < ki,
                        forall|j: int| start <= j < r.len() ==> #[trigger] r@[j].key_id == gv.keys[ki as int].id,
                        in_key_order(gv, tuple_views(r@)),
                        forall|t: AuthTupleView| #[trigger]
                            tuple_views(r@).contains(t) <==> from_keys(gv, now, f, ki as int, t)
                                || from_grants(gv, now, f, ki as int, gi as int, t),
                        tuple_views(r@).no_duplicates(),
                    decreases g.user_accesses.len() - gi,
                {
                    let ua = g.user_accesses[gi];
                    let covers = match ua.principal {
                        Principal::User(id) => id == uid,
                        Principal::UserGroup(x) => vec_contains(&ugroups, x),
                    };
                    let mut matched = false;
                    if grant_selected_exec(f, ua.best_before, now) && covers {
                        let rule = find_rule(&g.server_accesses, ua.serveraccess_id);
                        if let Some(ai) = rule {
                            matched = true;
                            let a = &g.server_accesses[ai];
                            assert(grant_to_user(gv, now, f, gi as int, ui as int));
                            assert(rule_of_grant(gv, gi as int, ai as int));
                            let mut si: usize = 0;
                            while si < g.servers.len()
                                invariant
                                    gv == g@,
                                    gv.wf(),
                                    ki < g.keys.len(),
                                    ui < g.users.len(),
                                    gi < g.user_accesses.len(),
                                    ai < g.server_accesses.len(),
                                    key_of_user(gv, ki as int, ui as int),
                                    *user == g.users@[ui as int],
                                    *key == g.keys@[ki as int],
                                    *a == g.server_accesses@[ai as int],
                                    grant_to_user(gv, now, f, gi as int, ui as int),
                                    rule_of_grant(gv, gi as int, ai as int),
                                    si <= g.servers.len(),
                                    sgroups.len() == g.servers.len(),
                                    forall|si2: int, x: i64|
                                        0 <= si2 < sgroups.len() ==> (#[trigger] sgroups@[si2]@.contains(x)
                                            <==> server_in_group(gv, g.servers@[si2].id, x)),
                                    start <= r.len(),
                                    forall|j: int| 0 <= j < start ==> #[trigger] r@[j].key_id != gv.keys[ki as int].id,
                                    forall|j: int, kk: int| 0 <= j < start && #[trigger] key_at(gv, kk, r@[j].key_id) ==> kk < ki,
                                    forall|j: int| start <= j < r.len() ==> #[trigger] r@[j].key_id == gv.keys[ki as int].id,
                                    in_key_order(gv, tuple_views(r@)),
                                    forall|t: AuthTupleView| #[trigger]
                                        tuple_views(r@).contains(t) <==> from_keys(gv, now, f, ki as int, t)
                                            || from_grants(gv, now, f, ki as int, gi as int, t)
                                            || from_servers(gv, now, f, ki as int, gi as int, si as int, t),
                                    tuple_views(r@).no_duplicates(),
                                decreases g.servers.len() - si,
                            {
                                let s = &g.servers[si];
                                let reaches = match a.target {
                                    Target::Server(id) => id == s.id,
                                    Target::ServerGroup(x) => vec_contains(&sgroups[si], x),
                                };
                                proof {
                                    assert(gv.servers[si as int] == s@);
                                    assert(gv.server_accesses[ai as int] == a@);
                                    assert(gv.users[ui as int] == user@);
                                    assert(gv.keys[ki as int] == key@);
                                    assert(reaches == target_covers(gv, a.target, s.id));
                                    assert forall|t: AuthTupleView|
                                        from_servers(gv, now, f, ki as int, gi as int, si + 1, t)
                                            <==> from_servers(gv, now, f, ki as int, gi as int, si as int, t)
                                            || derives(gv, now, f, ki as int, ui as int, gi as int, ai as int, si as int, t) by {
                                        lemma_servers_step(gv, now, f, ki as int, ui as int, gi as int, ai as int, si as int, t);
                                    }
                                }
                                if !s.disabled && reaches {
                                    let t = make_tuple(user, key, s, a);
                                    assert(derives(gv, now, f, ki as int, ui as int, gi as int, ai as int, si as int, t@));
                                    if !contains_from(&r, start, &t) {
                                        proof {
                                            lemma_push_views(r@, t);
                                            let v = tuple_views(r@);
                                            assert forall|i2: int, j2: int, k1: int, k2: int|
                                                0 <= i2 < j2 < v.len() + 1 && #[trigger] key_at(gv, k1, v.push(t@)[i2].key_id)
                                                    && #[trigger] key_at(gv, k2, v.push(t@)[j2].key_id) implies k1 <= k2 by {
                                                if j2 < v.len() {
                                                    assert(v.push(t@)[i2] == v[i2]);
                                                    assert(v.push(t@)[j2] == v[j2]);
                                                } else {
                                                    assert(v.push(t@)[i2] == v[i2]);
                                                    assert(t@.key_id == gv.keys[ki as int].id);
                                                    assert(k2 == ki as int) by {
                                                        if k2 < ki { assert(gv.keys[k2].id != gv.keys[ki as int].id); }
                                                        if k2 > ki { assert(gv.keys[ki as int].id != gv.keys[k2].id); }
                                                    }
                                                    assert(v[i2] == r@[i2]@);
                                                    if i2 < start {
                                                        assert(key_at(gv, k1, r@[i2].key_id));
                                                    } else {
                                                        assert(r@[i2].key_id == gv.keys[ki as int].id);
                                                        if k1 > ki { assert(gv.keys[ki as int].id != gv.keys[k1].id); }
                                                    }
                                                }
                                            }
                                            assert forall|j: int| 0 <= j < r.len() implies tuple_views(r@)[j] != t@ by {
                                                if j < start {
                                                    assert(r@[j].key_id != gv.keys[ki as int].id);
                                                }
                                            }
                                            assert forall|x: AuthTupleView| #[trigger] tuple_views(r@.push(t)).contains(x)
                                                <==> (tuple_views(r@).contains(x) || x == t@) by {
                                                let v = tuple_views(r@);
                                                if v.contains(x) {
                                                    let j = choose|j: int| 0 <= j < v.len() && v[j] == x;
                                                    assert(v.push(t@)[j] == x);
                                                }
                                                if x == t@ {
                                                    assert(v.push(t@)[v.len() as int] == x);
                                                }
                                            }
                                        }
                                        r.push(t);
                                    } else {
                                        proof {
                                            let j = choose|j: int| start <= j < r.len() && r@[j]@ == t@;
                                            assert(tuple_views(r@)[j] == t@);
                                        }
                                    }
                                } else {
                                    proof {
                                        assert forall|t: AuthTupleView|
                                            !derives(gv, now, f, ki as int, ui as int, gi as int, ai as int, si as int, t) by {
                                        }
                                    }
                                }
                                si += 1;
                            }
                        }
                    }
                    proof {
                        assert forall|t: AuthTupleView| from_grants(gv, now, f, ki as int, gi + 1, t)
                            <==> from_grants(gv, now, f, ki as int, gi as int, t)
                            || from_servers(gv, now, f, ki as int, gi as int, gv.servers.len() as int, t) by {
                            lemma_grants_step(gv, now, f, ki as int, gi as int, t);
                        }
                        if !matched {
                            assert forall|t: AuthTupleView|
                                !from_servers(gv, now, f, ki as int, gi as int, gv.servers.len() as int, t) by {
                                if from_servers(gv, now, f, ki as int, gi as int, gv.servers.len() as int, t) {
                                    let (u, a, s) = choose|u: int, a: int, s: int|
                                        s < gv.servers.len() && #[trigger] derives(gv, now, f, ki as int, u, gi as int, a, s, t);
                                    assert(gv.users[u].id == gv.users[ui as int].id);
                                    assert(u == ui);
                                }
                            }
                        }
                    }
                    gi += 1;
                }
            },
            _ => {
                proof {
                    assert forall|t: AuthTupleView|
                        !from_grants(gv, now, f, ki as int, gv.user_accesses.len() as int, t) by {
                        if from_grants(gv, now, f, ki as int, gv.user_accesses.len() as int, t) {
                            let (u, gg, a, s) = choose|u: int, gg: int, a: int, s: int|
                                gg < gv.user_accesses.len() && #[trigger] derives(gv, now, f, ki as int, u, gg, a, s, t);
                            if let Some(ui) = found {
                                assert(gv.users[u].id == gv.users[ui as int].id);
                                assert(u == ui);
                            }
                        }
                    }
                }
            },
        }
        proof {
            assert forall|j: int, kk: int| 0 <= j < r.len() && #[trigger] key_at(gv, kk, r@[j].key_id) implies kk < ki + 1 by {
                if j >= start {
                    assert(r@[j].key_id == gv.keys[ki as int].id);
                    if kk > ki { assert(gv.keys[ki as int].id != gv.keys[kk].id); }
                }
            }
            assert forall|t: AuthTupleView| from_keys(gv, now, f, ki + 1, t)
                <==> from_keys(gv, now, f, ki as int, t)
                || from_grants(gv, now, f, ki as int, gv.user_accesses.len() as int, t) by {
                lemma_keys_step(gv, now, f, ki as int, t);
            }
        }
        ki += 1;
    }
    proof {
        assert forall|t: AuthTupleView| from_keys(gv, now, f, gv.keys.len() as int, t)
            <==> resolves(gv, now, f, t) by {
            if resolves(gv, now, f, t) {
                let (k, u, gg, a, s) = choose|k: int, u: int, gg: int, a: int, s: int|
                    #[trigger] derives(gv, now, f, k, u, gg, a, s, t);
                assert(from_keys(gv, now, f, gv.keys.len() as int, t));
            }
        }
    }
    r
}

/// The graph holds a server of id `id` at the address `ip`.
pub open spec fn serves_at(gv: AccessGraphView, id: i64, ip: Seq<char>) -> bool {
    exists|si: int| 0 <= si < gv.servers.len() && #[trigger] gv.servers[si].id == id && gv.servers[si].ip == ip
}

/// At any time each grant is either current or expired, and never both; what
/// all grants resolve to is exactly what the current grants resolve to
/// together with what the expired grants resolve to.
pub proof fn lemma_expiry_partition(gv: AccessGraphView, now: i64, best_before: i64, t: AuthTupleView)
    ensures
        grant_selected(GrantFilter::Current, best_before, now) != grant_selected(
            GrantFilter::Expired,
            best_before,
            now,
        ),
        resolves(gv, now, GrantFilter::All, t) <==> (resolves(gv, now, GrantFilter::Current, t)
            || resolves(gv, now, GrantFilter::Expired, t)),
{
    if resolves(gv, now, GrantFilter::All, t) {
        let (k, u, g, a, s) = choose|k: int, u: int, g: int, a: int, s: int|
            #[trigger] derives(gv, now, GrantFilter::All, k, u, g, a, s, t);
        if gv.user_accesses[g].best_before > now {
            assert(derives(gv, now, GrantFilter::Current, k, u, g, a, s, t));
        } else {
            assert(derives(gv, now, GrantFilter::Expired, k, u, g, a, s, t));
        }
    }
    if resolves(gv, now, GrantFilter::Current, t) {
        let (k, u, g, a, s) = choose|k: int, u: int, g: int, a: int, s: int|
            #[trigger] derives(gv, now, GrantFilter::Current, k, u, g, a, s, t);
        assert(derives(gv, now, GrantFilter::All, k, u, g, a, s, t));
    }
    if resolves(gv, now, GrantFilter::Expired, t) {
        let (k, u, g, a, s) = choose|k: int, u: int, g: int, a: int, s: int|
            #[trigger] derives(gv, now, GrantFilter::Expired, k, u, g, a, s, t);
        assert(derives(gv, now, GrantFilter::All, k, u, g, a, s, t));
    }
}

/// Disabling a user removes exactly that user's accesses and leaves every
/// other access as it was.
pub proof fn lemma_disabled_user_excluded(
    gv: AccessGraphView,
    now: i64,
    f: GrantFilter,
    id: i64,
    t: AuthTupleView,
)
    ensures
        resolves(with_user_disabled(gv, id, true), now, f, t) <==> (resolves(gv, now, f, t)
            && t.user_id != id),
{
    let g2 = with_user_disabled(gv, id, true);
    if resolves(g2, now, f, t) {
        let (k, u, g, a, s) = choose|k: int, u: int, g: int, a: int, s: int|
            #[trigger] derives(g2, now, f, k, u, g, a, s, t);
        assert(gv.users[u].id != id);
        assert(g2.users[u] == gv.users[u]);
        assert(derives(gv, now, f, k, u, g, a, s, t));
    }
    if resolves(gv, now, f, t) && t.user_id != id {
        let (k, u, g, a, s) = choose|k: int, u: int, g: int, a: int, s: int|
            #[trigger] derives(gv, now, f, k, u, g, a, s, t);
        assert(g2.users[u] == gv.users[u]);
        assert(derives(g2, now, f, k, u, g, a, s, t));
    }
}

/// Disabling an enabled user and enabling it again gives back the same accesses.
pub proof fn lemma_user_toggle_restores(
    gv: AccessGraphView,
    now: i64,
    f: GrantFilter,
    id: i64,
    t: AuthTupleView,
)
    requires
        forall|i: int| 0 <= i < gv.users.len() && #[trigger] gv.users[i].id == id ==> !gv.users[i].disabled,
    ensures
        resolves(with_user_disabled(with_user_disabled(gv, id, true), id, false), now, f, t)
            == resolves(gv, now, f, t),
{
    let g3 = with_user_disabled(with_user_disabled(gv, id, true), id, false);
    assert(g3.users =~= gv.users);
    assert(g3 == gv);
}

/// Disabling a server removes exactly the accesses to its address and leaves
/// every other access as it was.
pub proof fn lemma_disabled_server_excluded(
    gv: AccessGraphView,
    now: i64,
    f: GrantFilter,
    id: i64,
    t: AuthTupleView,
)
    requires
        gv.wf(),
    ensures
        resolves(with_server_disabled(gv, id, true), now, f, t) <==> (resolves(gv, now, f, t)
            && !serves_at(gv, id, t.ip)),
{
    let g2 = with_server_disabled(gv, id, true);
    if resolves(g2, now, f, t) {
        let (k, u, g, a, s) = choose|k: int, u: int, g: int, a: int, s: int|
            #[trigger] derives(g2, now, f, k, u, g, a, s, t);
        assert(gv.servers[s].id != id);
        assert(g2.servers[s] == gv.servers[s]);
        assert(derives(gv, now, f, k, u, g, a, s, t));
        if serves_at(gv, id, t.ip) {
            let sj = choose|sj: int|
                0 <= sj < gv.servers.len() && #[trigger] gv.servers[sj].id == id && gv.servers[sj].ip
                    == t.ip;
            assert(sj != s);
            if sj < s {
                assert(gv.servers[sj].ip != gv.servers[s].ip);
            } else {
                assert(gv.servers[s].ip != gv.servers[sj].ip);
            }
        }
    }
    if resolves(gv, now, f, t) && !serves_at(gv, id, t.ip) {
        let (k, u, g, a, s) = choose|k: int, u: int, g: int, a: int, s: int|
            #[trigger] derives(gv, now, f, k, u, g, a, s, t);
        assert(gv.servers[s].id != id);
        assert(g2.servers[s] == gv.servers[s]);
        assert(derives(g2, now, f, k, u, g, a, s, t));
    }
}

/// Disabling an enabled server and enabling it again gives back the same accesses.
pub proof fn lemma_server_toggle_restores(
    gv: AccessGraphView,
    now: i64,
    f: GrantFilter,
    id: i64,
    t: AuthTupleView,
)
    requires
        forall|i: int| 0 <= i < gv.servers.len() && #[trigger] gv.servers[i].id == id ==> !gv.servers[i].disabled,
    ensures
        resolves(with_server_disabled(with_server_disabled(gv, id, true), id, false), now, f, t)
            == resolves(gv, now, f, t),
{
    let g3 = with_server_disabled(with_server_disabled(gv, id, true), id, false);
    assert(g3.servers =~= gv.servers);
    assert(g3 == gv);
}

/// A grant whose `best_before` has passed gives nothing among the current
/// accesses, and gives among the expired ones exactly what it gives among all.
pub proof fn lemma_expired_grant_only_in_expired(
    gv: AccessGraphView,
    now: i64,
    gi: int,
    ki: int,
    ui: int,
    ai: int,
    si: int,
    t: AuthTupleView,
)
    requires
        0 <= gi < gv.user_accesses.len(),
        gv.user_accesses[gi].best_before <= now,
    ensures
        !derives(gv, now, GrantFilter::Current, ki, ui, gi, ai, si, t),
        derives(gv, now, GrantFilter::Expired, ki, ui, gi, ai, si, t) == derives(
            gv,
            now,
            GrantFilter::All,
            ki,
            ui,
            gi,
            ai,
            si,
            t,
        ),
{
}

/// After the server of id `id` moves from `old` to `new`, every access that
/// was resolved at `old` is resolved at `new` instead, and nothing else about
/// it changes.
pub proof fn lemma_moved_server_resolves_at_new_address(
    gv: AccessGraphView,
    now: i64,
    f: GrantFilter,
    id: i64,
    old: Seq<char>,
    new: Seq<char>,
    t: AuthTupleView,
)
    requires
        gv.wf(),
        serves_at(gv, id, old),
        resolves(gv, now, f, t),
        t.ip == old,
    ensures
        resolves(with_server_ip(gv, id, new), now, f, AuthTupleView { ip: new, ..t }),
{
    let g2 = with_server_ip(gv, id, new);
    let (k, u, g, a, s) = choose|k: int, u: int, g: int, a: int, s: int|
        #[trigger] derives(gv, now, f, k, u, g, a, s, t);
    let sj = choose|sj: int|
        0 <= sj < gv.servers.len() && #[trigger] gv.servers[sj].id == id && gv.servers[sj].ip == old;
    if s < sj {
        assert(gv.servers[s].ip != gv.servers[sj].ip);
    } else if sj < s {
        assert(gv.servers[sj].ip != gv.servers[s].ip);
    }
    assert(g2.servers[s] == ServerView { ip: new, ..gv.servers[s] });
    assert(derives(g2, now, f, k, u, g, a, s, AuthTupleView { ip: new, ..t }));
}

} // verus!

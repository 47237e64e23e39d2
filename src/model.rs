//! The entities that access resolution reads, as held in memory.
use vstd::prelude::*;
use vstd::string::*;

verus! {

/// Who a user access grant is given to.
#[derive(Clone, Copy, Debug, PartialEq, Eq, Structural)]
pub enum Principal {
    User(i64),
    UserGroup(i64),
}

/// What a server access rule points at.
#[derive(Clone, Copy, Debug, PartialEq, Eq, Structural)]
pub enum Target {
    Server(i64),
    ServerGroup(i64),
}

#[derive(Clone, Debug)]
pub struct User {
    pub id: i64,
    pub email: String,
    pub disabled: bool,
}

#[derive(Clone, Debug)]
pub struct SshKey {
    pub id: i64,
    pub user_id: i64,
    /// Algorithm and base64 blob, separated by one space.
    pub sshkey: String,
    pub comment: Option<String>,
}

#[derive(Clone, Debug)]
pub struct Server {
    pub id: i64,
    pub name: String,
    /// The address in its canonical text form.
    pub ip: String,
    pub disabled: bool,
    pub use_dns: bool,
}

#[derive(Clone, Debug)]
pub struct ServerAccess {
    pub id: i64,
    pub sshuser: String,
    pub sshfrom: Option<String>,
    pub sshcommand: Option<String>,
    pub sshoption: Option<String>,
    pub target: Target,
}

/// A time-bounded grant; `best_before` is a timestamp in seconds.
#[derive(Clone, Copy, Debug, PartialEq, Eq, Structural)]
pub struct UserAccess {
    pub id: i64,
    pub principal: Principal,
    pub serveraccess_id: i64,
    pub best_before: i64,
}

/// Everything access resolution reads: entities, direct memberships as
/// `(member, group)` and group nesting as `(subgroup, supergroup)`.
#[derive(Clone, Debug)]
pub struct AccessGraph {
    pub users: Vec<User>,
    pub keys: Vec<SshKey>,
    pub servers: Vec<Server>,
    pub server_accesses: Vec<ServerAccess>,
    pub user_accesses: Vec<UserAccess>,
    pub user_memberships: Vec<(i64, i64)>,
    pub usergroup_edges: Vec<(i64, i64)>,
    pub server_memberships: Vec<(i64, i64)>,
    pub servergroup_edges: Vec<(i64, i64)>,
}

pub struct UserView {
    pub id: i64,
    pub email: Seq<char>,
    pub disabled: bool,
}

pub struct SshKeyView {
    pub id: i64,
    pub user_id: i64,
    pub sshkey: Seq<char>,
    pub comment: Option<Seq<char>>,
}

pub struct ServerView {
    pub id: i64,
    pub name: Seq<char>,
    pub ip: Seq<char>,
    pub disabled: bool,
    pub use_dns: bool,
}

pub struct ServerAccessView {
    pub id: i64,
    pub sshuser: Seq<char>,
    pub sshfrom: Option<Seq<char>>,
    pub sshcommand: Option<Seq<char>>,
    pub sshoption: Option<Seq<char>>,
    pub target: Target,
}

pub struct AccessGraphView {
    pub users: Seq<UserView>,
    pub keys: Seq<SshKeyView>,
    pub servers: Seq<ServerView>,
    pub server_accesses: Seq<ServerAccessView>,
    pub user_accesses: Seq<UserAccess>,
    pub user_memberships: Seq<(i64, i64)>,
    pub usergroup_edges: Seq<(i64, i64)>,
    pub server_memberships: Seq<(i64, i64)>,
    pub servergroup_edges: Seq<(i64, i64)>,
}

impl View for User {
    type V = UserView;

    open spec fn view(&self) -> UserView {
        UserView { id: self.id, email: self.email@, disabled: self.disabled }
    }
}

impl View for SshKey {
    type V = SshKeyView;

    open spec fn view(&self) -> SshKeyView {
        SshKeyView {
            id: self.id,
            user_id: self.user_id,
            sshkey: self.sshkey@,
            comment: self.comment.deep_view(),
        }
    }
}

impl View for Server {
    type V = ServerView;

    open spec fn view(&self) -> ServerView {
        ServerView {
            id: self.id,
            name: self.name@,
            ip: self.ip@,
            disabled: self.disabled,
            use_dns: self.use_dns,
        }
    }
}

impl View for ServerAccess {
    type V = ServerAccessView;

    open spec fn view(&self) -> ServerAccessView {
        ServerAccessView {
            id: self.id,
            sshuser: self.sshuser@,
            sshfrom: self.sshfrom.deep_view(),
            sshcommand: self.sshcommand.deep_view(),
            sshoption: self.sshoption.deep_view(),
            target: self.target,
        }
    }
}

impl View for AccessGraph {
    type V = AccessGraphView;

    open spec fn view(&self) -> AccessGraphView {
        AccessGraphView {
            users: self.users@.map_values(|u: User| u@),
            keys: self.keys@.map_values(|k: SshKey| k@),
            servers: self.servers@.map_values(|s: Server| s@),
            server_accesses: self.server_accesses@.map_values(|a: ServerAccess| a@),
            user_accesses: self.user_accesses@,
            user_memberships: self.user_memberships@,
            usergroup_edges: self.usergroup_edges@,
            server_memberships: self.server_memberships@,
            servergroup_edges: self.servergroup_edges@,
        }
    }
}

impl AccessGraphView {
    /// Ids are unique within each kind of entity, and so are server addresses.
    pub open spec fn wf(&self) -> bool {
        &&& forall|i: int, j: int|
            0 <= i < j < self.users.len() ==> #[trigger] self.users[i].id != #[trigger] self.users[j].id
        &&& forall|i: int, j: int|
            0 <= i < j < self.keys.len() ==> #[trigger] self.keys[i].id != #[trigger] self.keys[j].id
        &&& forall|i: int, j: int|
            0 <= i < j < self.servers.len() ==> #[trigger] self.servers[i].id
                != #[trigger] self.servers[j].id
        &&& forall|i: int, j: int|
            0 <= i < j < self.servers.len() ==> #[trigger] self.servers[i].ip
                != #[trigger] self.servers[j].ip
        &&& forall|i: int, j: int|
            0 <= i < j < self.server_accesses.len() ==> #[trigger] self.server_accesses[i].id
                != #[trigger] self.server_accesses[j].id
    }
}

/// The graph with every user of id `id` given the disabled flag `d`.
pub open spec fn with_user_disabled(gv: AccessGraphView, id: i64, d: bool) -> AccessGraphView {
    AccessGraphView {
        users: gv.users.map_values(
            |u: UserView|
                if u.id == id {
                    UserView { disabled: d, ..u }
                } else {
                    u
                },
        ),
        ..gv
    }
}

/// The graph with every server of id `id` given the disabled flag `d`.
pub open spec fn with_server_disabled(gv: AccessGraphView, id: i64, d: bool) -> AccessGraphView {
    AccessGraphView {
        servers: gv.servers.map_values(
            |s: ServerView|
                if s.id == id {
                    ServerView { disabled: d, ..s }
                } else {
                    s
                },
        ),
        ..gv
    }
}

/// The graph with every server of id `id` moved to the address `ip`.
pub open spec fn with_server_ip(gv: AccessGraphView, id: i64, ip: Seq<char>) -> AccessGraphView {
    AccessGraphView {
        servers: gv.servers.map_values(
            |s: ServerView|
                if s.id == id {
                    ServerView { ip: ip, ..s }
                } else {
                    s
                },
        ),
        ..gv
    }
}

impl AccessGraph {
    /// Enables or disables the user with id `id`.
    pub fn set_user_disabled(&mut self, id: i64, disabled: bool)
        ensures
            final(self)@ == with_user_disabled(old(self)@, id, disabled),
    {
        let ghost old_users = self.users@;
        let mut i: usize = 0;
        while i < self.users.len()
            invariant
                i <= self.users.len(),
                self.users.len() == old_users.len(),
                self.keys == old(self).keys,
                self.servers == old(self).servers,
                self.server_accesses == old(self).server_accesses,
                self.user_accesses == old(self).user_accesses,
                self.user_memberships == old(self).user_memberships,
                self.usergroup_edges == old(self).usergroup_edges,
                self.server_memberships == old(self).server_memberships,
                self.servergroup_edges == old(self).servergroup_edges,
                old_users == old(self).users@,
                forall|j: int|
                    0 <= j < i ==> #[trigger] self.users@[j]@ == (if old_users[j].id == id {
                        UserView { disabled: disabled, ..old_users[j]@ }
                    } else {
                        old_users[j]@
                    }),
                forall|j: int| i <= j < self.users.len() ==> #[trigger] self.users@[j] == old_users[j],
            decreases self.users.len() - i,
        {
            if self.users[i].id == id {
                let u = User {
                    id: self.users[i].id,
                    email: self.users[i].email.clone(),
                    disabled: disabled,
                };
                self.users.set(i, u);
            }
            i += 1;
        }
        proof {
            assert(self@.users =~= with_user_disabled(old(self)@, id, disabled).users);
        }
    }

    /// Enables or disables the server with id `id`.
    pub fn set_server_disabled(&mut self, id: i64, disabled: bool)
        ensures
            final(self)@ == with_server_disabled(old(self)@, id, disabled),
    {
        let ghost old_servers = self.servers@;
        let mut i: usize = 0;
        while i < self.servers.len()
            invariant
                i <= self.servers.len(),
                self.servers.len() == old_servers.len(),
                self.users == old(self).users,
                self.keys == old(self).keys,
                self.server_accesses == old(self).server_accesses,
                self.user_accesses == old(self).user_accesses,
                self.user_memberships == old(self).user_memberships,
                self.usergroup_edges == old(self).usergroup_edges,
                self.server_memberships == old(self).server_memberships,
                self.servergroup_edges == old(self).servergroup_edges,
                old_servers == old(self).servers@,
                forall|j: int|
                    0 <= j < i ==> #[trigger] self.servers@[j]@ == (if old_servers[j].id == id {
                        ServerView { disabled: disabled, ..old_servers[j]@ }
                    } else {
                        old_servers[j]@
                    }),
                forall|j: int| i <= j < self.servers.len() ==> #[trigger] self.servers@[j] == old_servers[j],
            decreases self.servers.len() - i,
        {
            if self.servers[i].id == id {
                let s = Server {
                    id: self.servers[i].id,
                    name: self.servers[i].name.clone(),
                    ip: self.servers[i].ip.clone(),
                    disabled: disabled,
                    use_dns: self.servers[i].use_dns,
                };
                self.servers.set(i, s);
            }
            i += 1;
        }
        proof {
            assert(self@.servers =~= with_server_disabled(old(self)@, id, disabled).servers);
        }
    }

    /// Moves the server with id `id` to the address `ip`.
    pub fn set_server_ip(&mut self, id: i64, ip: &str)
        ensures
            final(self)@ == with_server_ip(old(self)@, id, ip@),
    {
        let ghost old_servers = self.servers@;
        let mut i: usize = 0;
        while i < self.servers.len()
            invariant
                i <= self.servers.len(),
                self.servers.len() == old_servers.len(),
                self.users == old(self).users,
                self.keys == old(self).keys,
                self.server_accesses == old(self).server_accesses,
                self.user_accesses == old(self).user_accesses,
                self.user_memberships == old(self).user_memberships,
                self.usergroup_edges == old(self).usergroup_edges,
                self.server_memberships == old(self).server_memberships,
                self.servergroup_edges == old(self).servergroup_edges,
                old_servers == old(self).servers@,
                forall|j: int|
                    0 <= j < i ==> #[trigger] self.servers@[j]@ == (if old_servers[j].id == id {
                        ServerView { ip: ip@, ..old_servers[j]@ }
                    } else {
                        old_servers[j]@
                    }),
                forall|j: int| i <= j < self.servers.len() ==> #[trigger] self.servers@[j] == old_servers[j],
            decreases self.servers.len() - i,
        {
            if self.servers[i].id == id {
                let s = Server {
                    id: self.servers[i].id,
                    name: self.servers[i].name.clone(),
                    ip: String::from_str(ip),
                    disabled: self.servers[i].disabled,
                    use_dns: self.servers[i].use_dns,
                };
                self.servers.set(i, s);
            }
            i += 1;
        }
        proof {
            assert(self@.servers =~= with_server_ip(old(self)@, id, ip@).servers);
        }
    }
}

/// No two entries of `v` are equal.
pub open spec fn distinct<T>(v: Seq<T>) -> bool {
    forall|i: int, j: int| 0 <= i < j < v.len() ==> #[trigger] v[i] != #[trigger] v[j]
}

fn ids_distinct(v: &Vec<i64>) -> (b: bool)
    ensures
        b == distinct(v@),
{
    let mut i: usize = 0;
    while i < v.len()
        invariant
            i <= v.len(),
            forall|x: int, y: int| 0 <= x < y < v.len() && x < i ==> #[trigger] v@[x] != #[trigger] v@[y],
        decreases v.len() - i,
    {
        let mut j: usize = i + 1;
        while j < v.len()
            invariant
                i < j <= v.len(),
                forall|x: int, y: int| 0 <= x < y < v.len() && x < i ==> #[trigger] v@[x] != #[trigger] v@[y],
                forall|y: int| i < y < j ==> v@[i as int] != #[trigger] v@[y],
            decreases v.len() - j,
        {
            if v[i] == v[j] {
                return false;
            }
            j += 1;
        }
        i += 1;
    }
    true
}

fn texts_distinct(v: &Vec<String>) -> (b: bool)
    ensures
        b == distinct(v.deep_view()),
{
    let ghost d = v.deep_view();
    let mut i: usize = 0;
    while i < v.len()
        invariant
            d == v.deep_view(),
            i <= v.len(),
            forall|x: int, y: int| 0 <= x < y < v.len() && x < i ==> #[trigger] d[x] != #[trigger] d[y],
        decreases v.len() - i,
    {
        let mut j: usize = i + 1;
        while j < v.len()
            invariant
                d == v.deep_view(),
                i < j <= v.len(),
                forall|x: int, y: int| 0 <= x < y < v.len() && x < i ==> #[trigger] d[x] != #[trigger] d[y],
                forall|y: int| i < y < j ==> d[i as int] != #[trigger] d[y],
            decreases v.len() - j,
        {
            if v[i] == v[j] {
                proof {
                    assert(d[i as int] == v@[i as int]@);
                    assert(d[j as int] == v@[j as int]@);
                }
                return false;
            }
            j += 1;
        }
        i += 1;
    }
    true
}

impl AccessGraph {
    /// Whether ids are unique within each kind of entity and server
    /// addresses are unique, as access resolution requires.
    pub fn is_well_formed(&self) -> (b: bool)
        ensures
            b == self@.wf(),
    {
        let ghost gv = self@;
        let mut users: Vec<i64> = Vec::new();
        let mut i: usize = 0;
        while i < self.users.len()
            invariant
                gv == self@,
                i <= self.users.len(),
                users.len() == i,
                forall|x: int| #![trigger users@[x]] #![trigger gv.users[x]] 0 <= x < i ==> users@[x] == gv.users[x].id,
            decreases self.users.len() - i,
        {
            users.push(self.users[i].id);
            i += 1;
        }
        let mut keys: Vec<i64> = Vec::new();
        let mut i: usize = 0;
        while i < self.keys.len()
            invariant
                gv == self@,
                i <= self.keys.len(),
                keys.len() == i,
                forall|x: int| #![trigger keys@[x]] #![trigger gv.keys[x]] 0 <= x < i ==> keys@[x] == gv.keys[x].id,
            decreases self.keys.len() - i,
        {
            keys.push(self.keys[i].id);
            i += 1;
        }
        let mut servers: Vec<i64> = Vec::new();
        let mut ips: Vec<String> = Vec::new();
        let mut i: usize = 0;
        while i < self.servers.len()
            invariant
                gv == self@,
                i <= self.servers.len(),
                servers.len() == i,
                ips.len() == i,
                forall|x: int| #![trigger servers@[x]] #![trigger gv.servers[x]] 0 <= x < i ==> servers@[x] == gv.servers[x].id,
                forall|x: int| #![trigger ips.deep_view()[x]] #![trigger gv.servers[x]] 0 <= x < i ==> ips.deep_view()[x] == gv.servers[x].ip,
            decreases self.servers.len() - i,
        {
            servers.push(self.servers[i].id);
            let ghost before = ips.deep_view();
            ips.push(self.servers[i].ip.clone());
            proof {
                assert(ips.deep_view() =~= before.push(gv.servers[i as int].ip));
            }
            i += 1;
        }
        let mut rules: Vec<i64> = Vec::new();
        let mut i: usize = 0;
        while i < self.server_accesses.len()
            invariant
                gv == self@,
                i <= self.server_accesses.len(),
                rules.len() == i,
                forall|x: int| #![trigger rules@[x]] #![trigger gv.server_accesses[x]] 0 <= x < i ==> rules@[x] == gv.server_accesses[x].id,
            decreases self.server_accesses.len() - i,
        {
            rules.push(self.server_accesses[i].id);
            i += 1;
        }
        let a = ids_distinct(&users);
        let b = ids_distinct(&keys);
        let c = ids_distinct(&servers);
        let d = texts_distinct(&ips);
        let e = ids_distinct(&rules);
        proof {
            assert(
                a == (forall|i: int, j: int|
                    0 <= i < j < gv.users.len() ==> #[trigger] gv.users[i].id != #[trigger] gv.users[j].id)
            ) by {
                if !a {
                    let (i, j) = choose|i: int, j: int|
                        0 <= i < j < users@.len() && #[trigger] users@[i] == #[trigger] users@[j];
                    assert(gv.users[i].id == gv.users[j].id);
                }
            }
            assert(
                b == (forall|i: int, j: int|
                    0 <= i < j < gv.keys.len() ==> #[trigger] gv.keys[i].id != #[trigger] gv.keys[j].id)
            ) by {
                if !b {
                    let (i, j) = choose|i: int, j: int|
                        0 <= i < j < keys@.len() && #[trigger] keys@[i] == #[trigger] keys@[j];
                    assert(gv.keys[i].id == gv.keys[j].id);
                }
            }
            assert(
                c == (forall|i: int, j: int|
                    0 <= i < j < gv.servers.len() ==> #[trigger] gv.servers[i].id != #[trigger] gv.servers[j].id)
            ) by {
                if !c {
                    let (i, j) = choose|i: int, j: int|
                        0 <= i < j < servers@.len() && #[trigger] servers@[i] == #[trigger] servers@[j];
                    assert(gv.servers[i].id == gv.servers[j].id);
                }
            }
            assert(
                d == (forall|i: int, j: int|
                    0 <= i < j < gv.servers.len() ==> #[trigger] gv.servers[i].ip != #[trigger] gv.servers[j].ip)
            ) by {
                if !d {
                    let (i, j) = choose|i: int, j: int|
                        0 <= i < j < ips.deep_view().len() && #[trigger] ips.deep_view()[i] == #[trigger] ips.deep_view()[j];
                    assert(gv.servers[i].ip == gv.servers[j].ip);
                }
            }
            assert(
                e == (forall|i: int, j: int|
                    0 <= i < j < gv.server_accesses.len() ==> #[trigger] gv.server_accesses[i].id != #[trigger] gv.server_accesses[j].id)
            ) by {
                if !e {
                    let (i, j) = choose|i: int, j: int|
                        0 <= i < j < rules@.len() && #[trigger] rules@[i] == #[trigger] rules@[j];
                    assert(gv.server_accesses[i].id == gv.server_accesses[j].id);
                }
            }
        }
        a && b && c && d && e
    }
}

} // verus!

use oerec::aggregate::{generate_serverauth, group_by_account, ServerAuth};
use oerec::closure::group_closure;
use oerec::model::{AccessGraph, Principal, Server, ServerAccess, SshKey, Target, User, UserAccess};
use oerec::resolve::{resolve, truncate_comment, AuthTuple, GrantFilter};

const NOW: i64 = 1_700_000_000;
const FAR: i64 = 9_000_000_000;
const KEY: &str = "ssh-ed25519 AAAAC3NzaC1lZDI1NTE5AAAAIAABAgMEBQYHCAkKCwwNDg8QERITFBUWFxgZGhscHR4f";

fn user(id: i64, email: &str) -> User {
    User { id, email: email.to_string(), disabled: false }
}

fn key(id: i64, user_id: i64, sshkey: &str, comment: Option<&str>) -> SshKey {
    SshKey { id, user_id, sshkey: sshkey.to_string(), comment: comment.map(|c| c.to_string()) }
}

fn server(id: i64, name: &str, ip: &str) -> Server {
    Server { id, name: name.to_string(), ip: ip.to_string(), disabled: false, use_dns: false }
}

fn rule(id: i64, sshuser: &str, target: Target) -> ServerAccess {
    ServerAccess {
        id,
        sshuser: sshuser.to_string(),
        sshfrom: None,
        sshcommand: None,
        sshoption: None,
        target,
    }
}

fn grant(id: i64, principal: Principal, serveraccess_id: i64, best_before: i64) -> UserAccess {
    UserAccess { id, principal, serveraccess_id, best_before }
}

fn empty_graph() -> AccessGraph {
    AccessGraph {
        users: vec![],
        keys: vec![],
        servers: vec![],
        server_accesses: vec![],
        user_accesses: vec![],
        user_memberships: vec![],
        usergroup_edges: vec![],
        server_memberships: vec![],
        servergroup_edges: vec![],
    }
}

/// alice in `admins` (group 10), granted `prod-access` (deploy) on server
/// group `prod` (group 20) holding web1 at 10.0.0.5.
fn alice_graph() -> AccessGraph {
    let mut g = empty_graph();
    g.users.push(user(1, "alice@example.com"));
    g.keys.push(key(100, 1, KEY, None));
    g.servers.push(server(5, "web1", "10.0.0.5"));
    g.server_accesses.push(rule(30, "deploy", Target::ServerGroup(20)));
    g.user_accesses.push(grant(40, Principal::UserGroup(10), 30, FAR));
    g.user_memberships.push((1, 10));
    g.server_memberships.push((5, 20));
    g
}

fn sorted(mut v: Vec<i64>) -> Vec<i64> {
    v.sort();
    v
}

fn tuple(ip: &str, sshuser: &str, key_id: i64, sshkey: &str) -> AuthTuple {
    AuthTuple {
        user_id: 1,
        key_id,
        ip: ip.to_string(),
        sshuser: sshuser.to_string(),
        sshfrom: None,
        sshcommand: None,
        sshoption: None,
        sshkey: sshkey.to_string(),
        email: "alice@example.com".to_string(),
        comment: None,
    }
}

#[test]
fn closure_follows_every_path_length() {
    let edges = vec![(1, 2), (2, 3), (3, 4), (7, 8)];
    assert_eq!(sorted(group_closure(&vec![1], &edges)), vec![1, 2, 3, 4]);
}

#[test]
fn closure_of_dag_counts_shared_ancestor_once() {
    let edges = vec![(1, 2), (1, 3), (2, 4), (3, 4)];
    assert_eq!(sorted(group_closure(&vec![1], &edges)), vec![1, 2, 3, 4]);
}

#[test]
fn closure_terminates_on_cycles() {
    let edges = vec![(1, 2), (2, 3), (3, 1), (5, 5)];
    assert_eq!(sorted(group_closure(&vec![1], &edges)), vec![1, 2, 3]);
    assert_eq!(group_closure(&vec![5], &edges), vec![5]);
}

#[test]
fn closure_of_group_without_parents_is_itself() {
    assert_eq!(group_closure(&vec![7], &vec![(1, 2)]), vec![7]);
    assert_eq!(group_closure(&vec![], &vec![(1, 2)]), Vec::<i64>::new());
}

#[test]
fn end_to_end_scenario() {
    let g = alice_graph();
    let r = generate_serverauth(&g, NOW, None);
    assert_eq!(r.len(), 1);
    assert_eq!(r[0].serverip, "10.0.0.5");
    assert_eq!(r[0].sshuser.user, "deploy");
    assert_eq!(r[0].sshuser.authorized_keys.keys, vec![format!("{KEY} alice@example.com")]);
}

#[test]
fn nested_groups_reach_members_and_servers() {
    let mut g = alice_graph();
    // the grant moves to a supergroup of admins, the rule to a supergroup of prod
    g.usergroup_edges.push((10, 11));
    g.servergroup_edges.push((20, 21));
    g.user_accesses[0] = grant(40, Principal::UserGroup(11), 30, FAR);
    g.server_accesses[0] = rule(30, "deploy", Target::ServerGroup(21));
    let r = resolve(&g, NOW, GrantFilter::Current);
    assert_eq!(r.len(), 1);
    assert_eq!(r[0].ip, "10.0.0.5");
}

#[test]
fn grant_to_subgroup_does_not_reach_supergroup_members() {
    let mut g = alice_graph();
    g.usergroup_edges.push((11, 10));
    g.user_memberships[0] = (1, 11);
    g.user_accesses[0] = grant(40, Principal::UserGroup(12), 30, FAR);
    assert!(resolve(&g, NOW, GrantFilter::Current).is_empty());
}

#[test]
fn direct_user_and_server_grants() {
    let mut g = alice_graph();
    g.server_accesses[0] = rule(30, "root", Target::Server(5));
    g.user_accesses[0] = grant(40, Principal::User(1), 30, FAR);
    let r = resolve(&g, NOW, GrantFilter::Current);
    assert_eq!(r.len(), 1);
    assert_eq!(r[0].sshuser, "root");
    assert_eq!(r[0].user_id, 1);
    assert_eq!(r[0].key_id, 100);
}

#[test]
fn expired_grant_only_in_expired_resolution() {
    let mut g = alice_graph();
    g.user_accesses[0] = grant(40, Principal::UserGroup(10), 30, NOW - 1);
    assert!(resolve(&g, NOW, GrantFilter::Current).is_empty());
    assert_eq!(resolve(&g, NOW, GrantFilter::Expired).len(), 1);
    assert_eq!(resolve(&g, NOW, GrantFilter::All).len(), 1);
    assert!(generate_serverauth(&g, NOW, None).is_empty());
}

#[test]
fn expiry_filters_partition_the_grants() {
    let mut g = alice_graph();
    g.servers.push(server(6, "web2", "10.0.0.6"));
    g.server_accesses.push(rule(31, "ops", Target::Server(6)));
    g.user_accesses.push(grant(41, Principal::User(1), 31, NOW));
    let current = resolve(&g, NOW, GrantFilter::Current);
    let expired = resolve(&g, NOW, GrantFilter::Expired);
    let all = resolve(&g, NOW, GrantFilter::All);
    assert_eq!(current.len(), 1);
    assert_eq!(current[0].ip, "10.0.0.5");
    assert_eq!(expired.len(), 1);
    assert_eq!(expired[0].ip, "10.0.0.6");
    assert_eq!(all.len(), 2);
}

#[test]
fn disabled_user_excluded_and_restored() {
    let mut g = alice_graph();
    g.users.push(user(2, "bob@example.com"));
    g.keys.push(key(101, 2, "ssh-rsa BBBB", None));
    g.user_memberships.push((2, 10));
    let before = resolve(&g, NOW, GrantFilter::Current);
    assert_eq!(before.len(), 2);
    g.set_user_disabled(1, true);
    let off = resolve(&g, NOW, GrantFilter::Current);
    assert_eq!(off.len(), 1);
    assert_eq!(off[0].email, "bob@example.com");
    g.set_user_disabled(1, false);
    let again = resolve(&g, NOW, GrantFilter::Current);
    assert_eq!(again.len(), 2);
    for (a, b) in before.iter().zip(again.iter()) {
        assert_eq!(a.email, b.email);
        assert_eq!(a.key_id, b.key_id);
        assert_eq!(a.ip, b.ip);
    }
}

#[test]
fn disabled_server_excluded_and_restored() {
    let mut g = alice_graph();
    g.servers.push(server(6, "web2", "10.0.0.6"));
    g.server_memberships.push((6, 20));
    assert_eq!(resolve(&g, NOW, GrantFilter::Current).len(), 2);
    g.set_server_disabled(5, true);
    let off = resolve(&g, NOW, GrantFilter::Current);
    assert_eq!(off.len(), 1);
    assert_eq!(off[0].ip, "10.0.0.6");
    g.set_server_disabled(5, false);
    assert_eq!(resolve(&g, NOW, GrantFilter::Current).len(), 2);
}

#[test]
fn same_access_through_two_grants_appears_once() {
    let mut g = alice_graph();
    g.user_accesses.push(grant(41, Principal::User(1), 30, FAR));
    assert_eq!(resolve(&g, NOW, GrantFilter::Current).len(), 1);
}

#[test]
fn user_without_keys_or_empty_group_resolves_to_nothing() {
    let mut g = alice_graph();
    g.keys.clear();
    assert!(resolve(&g, NOW, GrantFilter::Current).is_empty());
    let mut h = alice_graph();
    h.server_memberships.clear();
    assert!(resolve(&h, NOW, GrantFilter::Current).is_empty());
}

#[test]
fn tuples_carry_rule_options_and_truncated_comment() {
    let mut g = alice_graph();
    let long = "c".repeat(70);
    g.keys[0] = key(100, 1, KEY, Some(&long));
    g.server_accesses[0].sshfrom = Some("10.0.0.0/8".to_string());
    g.server_accesses[0].sshoption = Some("no-pty".to_string());
    let r = resolve(&g, NOW, GrantFilter::Current);
    assert_eq!(r[0].sshfrom.as_deref(), Some("10.0.0.0/8"));
    assert_eq!(r[0].sshcommand, None);
    assert_eq!(r[0].sshoption.as_deref(), Some("no-pty"));
    assert_eq!(r[0].comment, Some("c".repeat(64)));
}

#[test]
fn comment_truncation_counts_characters() {
    let s = "é".repeat(65);
    assert_eq!(truncate_comment(&Some(s)), Some("é".repeat(64)));
    assert_eq!(truncate_comment(&Some("short".to_string())), Some("short".to_string()));
    assert_eq!(truncate_comment(&None), None);
}

#[test]
fn aggregation_same_account_two_keys_one_record() {
    let ts = vec![tuple("10.0.0.5", "deploy", 100, "ssh-rsa A"), tuple("10.0.0.5", "deploy", 101, "ssh-rsa B")];
    let r = group_by_account(&ts, None);
    assert_eq!(r.len(), 1);
    assert_eq!(
        r[0].sshuser.authorized_keys.keys,
        vec!["ssh-rsa A alice@example.com".to_string(), "ssh-rsa B alice@example.com".to_string()]
    );
}

#[test]
fn aggregation_different_accounts_separate_records() {
    let ts = vec![
        tuple("10.0.0.5", "deploy", 100, "ssh-rsa A"),
        tuple("10.0.0.5", "root", 100, "ssh-rsa A"),
        tuple("10.0.0.6", "deploy", 100, "ssh-rsa A"),
    ];
    let r: Vec<ServerAuth> = group_by_account(&ts, None);
    assert_eq!(r.len(), 3);
    assert_eq!((r[0].serverip.as_str(), r[0].sshuser.user.as_str()), ("10.0.0.5", "deploy"));
    assert_eq!((r[1].serverip.as_str(), r[1].sshuser.user.as_str()), ("10.0.0.5", "root"));
    assert_eq!((r[2].serverip.as_str(), r[2].sshuser.user.as_str()), ("10.0.0.6", "deploy"));
    for rec in &r {
        assert_eq!(rec.sshuser.authorized_keys.keys.len(), 1);
    }
}

#[test]
fn aggregation_ip_filter_matches_infix() {
    let ts = vec![
        tuple("10.0.0.5", "deploy", 100, "ssh-rsa A"),
        tuple("192.168.1.50", "deploy", 100, "ssh-rsa A"),
    ];
    let r = group_by_account(&ts, Some("0.0.0"));
    assert_eq!(r.len(), 1);
    assert_eq!(r[0].serverip, "10.0.0.5");
    assert_eq!(group_by_account(&ts, Some("1.5")).len(), 1);
    assert_eq!(group_by_account(&ts, Some("")).len(), 2);
    assert!(group_by_account(&ts, Some("172.")).is_empty());
}

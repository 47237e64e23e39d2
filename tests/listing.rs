use oerec::membership::{plan_removal, RemovalPlan};
use oerec::listing::{matches_text, matching_group_rows, matching_keys, matching_users};
use oerec::model::{AccessGraph, Server, User};
use oerec::schema::{SshKeysQuery, UserGroupQuery, UserQuery};

fn user_row(id: i64, email: &str, name: &str) -> UserQuery {
    UserQuery {
        id,
        email: email.to_string(),
        name: name.to_string(),
        usertype: "AD user".to_string(),
        disabled: "f".to_string(),
        comment: None,
    }
}

fn key_row(id: i64, email: &str, fingerprint: &str) -> SshKeysQuery {
    SshKeysQuery {
        id,
        email: email.to_string(),
        sshkey: "ssh-rsa AAAA".to_string(),
        fingerprint: fingerprint.to_string(),
        comment: None,
    }
}

fn group_row(group: &str, member: Option<&str>) -> UserGroupQuery {
    UserGroupQuery {
        usergroup: group.to_string(),
        member: member.map(|m| m.to_string()),
        comment: None,
        subgroups: None,
    }
}

#[test]
fn text_matching_modes() {
    assert!(matches_text("Alice@Example.com", "example", false));
    assert!(!matches_text("Alice@Example.com", "example", true));
    assert!(matches_text("alice", "alice", true));
    assert!(!matches_text("alice", "bob", false));
}

#[test]
fn users_filtered_by_email_name_and_id() {
    let rows = vec![
        user_row(1, "alice@example.com", "Alice"),
        user_row(2, "bob@example.com", "Bob"),
        user_row(3, "carol@other.org", "Carol"),
    ];
    assert_eq!(matching_users(&rows, Some("EXAMPLE"), None, None, false), vec![0, 1]);
    assert_eq!(matching_users(&rows, None, Some("bob"), None, false), vec![1]);
    assert!(matching_users(&rows, None, Some("bob"), None, true).is_empty());
    assert_eq!(matching_users(&rows, None, None, Some(3), false), vec![2]);
    assert_eq!(matching_users(&rows, None, None, None, false), vec![0, 1, 2]);
}

#[test]
fn keys_filtered_by_email_fingerprint_and_id() {
    let rows = vec![
        key_row(7, "alice@example.com", "SHA256:abcDEF"),
        key_row(8, "bob@example.com", "SHA256:xyz"),
    ];
    assert_eq!(matching_keys(&rows, Some("ALICE"), None, None), vec![0]);
    assert_eq!(matching_keys(&rows, None, Some("DEF"), None), vec![0]);
    assert!(matching_keys(&rows, None, Some("def"), None).is_empty());
    assert_eq!(matching_keys(&rows, None, None, Some(8)), vec![1]);
}

#[test]
fn group_rows_filtered() {
    let rows = vec![
        group_row("admins", Some("alice@example.com")),
        group_row("admins", Some("bob@example.com")),
        group_row("empty", None),
    ];
    assert_eq!(matching_group_rows(&rows, None, None, false, true), vec![2]);
    assert_eq!(matching_group_rows(&rows, None, Some("bob"), false, false), vec![1]);
    assert_eq!(matching_group_rows(&rows, Some("ADMIN"), None, false, false), vec![0, 1]);
    assert!(matching_group_rows(&rows, Some("admin"), None, true, false).is_empty());
}

#[test]
fn well_formedness_detects_duplicates() {
    let server = |id: i64, ip: &str| Server {
        id,
        name: format!("s{id}"),
        ip: ip.to_string(),
        disabled: false,
        use_dns: false,
    };
    let mut g = AccessGraph {
        users: vec![
            User { id: 1, email: "a@x".to_string(), disabled: false },
            User { id: 2, email: "b@x".to_string(), disabled: false },
        ],
        keys: vec![],
        servers: vec![server(1, "10.0.0.1"), server(2, "10.0.0.2")],
        server_accesses: vec![],
        user_accesses: vec![],
        user_memberships: vec![],
        usergroup_edges: vec![],
        server_memberships: vec![],
        servergroup_edges: vec![],
    };
    assert!(g.is_well_formed());
    g.servers.push(server(3, "10.0.0.1"));
    assert!(!g.is_well_formed());
    g.servers.pop();
    g.users.push(User { id: 2, email: "c@x".to_string(), disabled: false });
    assert!(!g.is_well_formed());
}

#[test]
fn removal_plans() {
    assert_eq!(
        plan_removal("all", true, 1),
        RemovalPlan { warn_builtin: true, warn_left_empty: false, offer_group_deletion: false }
    );
    assert_eq!(
        plan_removal("all", false, 1),
        RemovalPlan { warn_builtin: false, warn_left_empty: true, offer_group_deletion: true }
    );
    assert_eq!(
        plan_removal("web", true, 3),
        RemovalPlan { warn_builtin: false, warn_left_empty: false, offer_group_deletion: false }
    );
}

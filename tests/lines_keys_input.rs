use oerec::aggregate::{generate_serverauth, str_contains};
use oerec::authline::format_line;
use oerec::dns::{dns_new_ip, dns_refresh_candidates};
use oerec::input::{
    classify_answer, client_identity, fold, is_confirmation, is_refusal, optional_text, updated_comment,
    updated_optional, updated_required, Answer,
};
use oerec::key::{generate_fingerprint, is_supported_algorithm, normalize_key, split_key, KeyError};
use oerec::model::{AccessGraph, Principal, Server, ServerAccess, SshKey, Target, User, UserAccess};
use oerec::resolve::AuthTuple;
use oerec::schema::{parse_usertype, pipe_reset, ListObject, Usertype};
use oerec::until::{default_best_before, parse_until, Timestamp, UntilError};

const KEY_BLOB: &str = "AAAAC3NzaC1lZDI1NTE5AAAAIAABAgMEBQYHCAkKCwwNDg8QERITFBUWFxgZGhscHR4f";
const KEY_BLOB_CHANGED: &str = "AAAAC3NzaC1lZDI1NTE5AAAAIAABAgMEBQYHCAkKCwwNDg8QERITFBUWFxgZGhscHR4e";

fn plain_tuple() -> AuthTuple {
    AuthTuple {
        user_id: 1,
        key_id: 2,
        ip: "10.0.0.5".to_string(),
        sshuser: "deploy".to_string(),
        sshfrom: None,
        sshcommand: None,
        sshoption: None,
        sshkey: "ssh-ed25519 AAAA".to_string(),
        email: "alice@example.com".to_string(),
        comment: None,
    }
}

#[test]
fn line_with_every_option() {
    let mut t = plain_tuple();
    t.sshfrom = Some("10.0.0.0/8".to_string());
    t.sshcommand = Some("/bin/true".to_string());
    t.sshoption = Some("no-pty".to_string());
    t.comment = Some("laptop key".to_string());
    assert_eq!(
        format_line(&t),
        "from=\"10.0.0.0/8\",command=\"/bin/true\",no-pty ssh-ed25519 AAAA alice@example.com (laptop key)"
    );
}

#[test]
fn line_without_options() {
    assert_eq!(format_line(&plain_tuple()), "ssh-ed25519 AAAA alice@example.com");
}

#[test]
fn line_separators_follow_present_options() {
    let mut t = plain_tuple();
    t.sshfrom = Some("*.example.com".to_string());
    assert_eq!(format_line(&t), "from=\"*.example.com\" ssh-ed25519 AAAA alice@example.com");
    t.sshcommand = Some("/bin/true".to_string());
    assert_eq!(
        format_line(&t),
        "from=\"*.example.com\",command=\"/bin/true\" ssh-ed25519 AAAA alice@example.com"
    );
    let mut u = plain_tuple();
    u.sshoption = Some("no-pty".to_string());
    u.comment = Some("x".to_string());
    assert_eq!(format_line(&u), "no-pty ssh-ed25519 AAAA alice@example.com (x)");
    let mut v = plain_tuple();
    v.sshfrom = Some("a".to_string());
    v.sshoption = Some("no-pty".to_string());
    assert_eq!(format_line(&v), "from=\"a\",no-pty ssh-ed25519 AAAA alice@example.com");
}

#[test]
fn infix_search() {
    assert!(str_contains("10.0.0.5", "0.0"));
    assert!(str_contains("10.0.0.5", ""));
    assert!(str_contains("10.0.0.5", "10.0.0.5"));
    assert!(!str_contains("10.0.0.5", "10.0.0.55"));
    assert!(!str_contains("10.0.0.5", "6"));
}

#[test]
fn dns_refresh_scenario() {
    let mut g = AccessGraph {
        users: vec![User { id: 1, email: "alice@example.com".to_string(), disabled: false }],
        keys: vec![SshKey { id: 2, user_id: 1, sshkey: "ssh-rsa AAAA".to_string(), comment: None }],
        servers: vec![Server {
            id: 9,
            name: "web2".to_string(),
            ip: "10.0.0.9".to_string(),
            disabled: false,
            use_dns: true,
        }],
        server_accesses: vec![ServerAccess {
            id: 3,
            sshuser: "deploy".to_string(),
            sshfrom: None,
            sshcommand: None,
            sshoption: None,
            target: Target::Server(9),
        }],
        user_accesses: vec![UserAccess { id: 4, principal: Principal::User(1), serveraccess_id: 3, best_before: 10 }],
        user_memberships: vec![],
        usergroup_edges: vec![],
        server_memberships: vec![],
        servergroup_edges: vec![],
    };
    assert_eq!(dns_refresh_candidates(&g.servers), vec![0]);
    let new_ip = dns_new_ip(&g.servers[0].ip, &vec!["10.0.0.99".to_string()]);
    assert_eq!(new_ip.as_deref(), Some("10.0.0.99"));
    g.set_server_ip(9, &new_ip.unwrap());
    assert_eq!(g.servers[0].ip, "10.0.0.99");
    let r = generate_serverauth(&g, 0, None);
    assert_eq!(r.len(), 1);
    assert_eq!(r[0].serverip, "10.0.0.99");
}

#[test]
fn dns_keeps_address_that_still_resolves() {
    let resolved = vec!["10.0.0.1".to_string(), "10.0.0.9".to_string()];
    assert_eq!(dns_new_ip("10.0.0.9", &resolved), None);
    assert_eq!(dns_new_ip("10.0.0.9", &vec![]), None);
    assert_eq!(dns_new_ip("10.0.0.8", &resolved).as_deref(), Some("10.0.0.1"));
}

#[test]
fn dns_candidates_skip_disabled_and_static_servers() {
    let s = |id: i64, disabled: bool, use_dns: bool| Server {
        id,
        name: format!("s{id}"),
        ip: format!("10.0.0.{id}"),
        disabled,
        use_dns,
    };
    let servers = vec![s(1, false, true), s(2, true, true), s(3, false, false), s(4, false, true)];
    assert_eq!(dns_refresh_candidates(&servers), vec![0, 3]);
}

#[test]
fn fingerprint_of_known_key() {
    let k = format!("ssh-ed25519 {KEY_BLOB}");
    assert_eq!(generate_fingerprint(&k).unwrap(), "SHA256:ZkAslGjFiUHdGf/WUL8rQvkib4PTvQatUV0OUQSncCA");
}

#[test]
fn fingerprint_is_deterministic_and_sensitive() {
    let k = format!("ssh-ed25519 {KEY_BLOB}");
    assert_eq!(generate_fingerprint(&k), generate_fingerprint(&k));
    let changed = format!("ssh-ed25519 {KEY_BLOB_CHANGED}");
    assert_eq!(
        generate_fingerprint(&changed).unwrap(),
        "SHA256:7UxkOKMDvEz2cBXcf6DRmDMNmbVkh54JlUbo9ZuN0Ug"
    );
    assert_ne!(generate_fingerprint(&k), generate_fingerprint(&changed));
}

#[test]
fn fingerprint_refusals() {
    assert_eq!(generate_fingerprint("ssh-dss AAAA"), Err(KeyError::UnsupportedAlgorithm));
    assert_eq!(generate_fingerprint("ssh-dss not-base64!"), Err(KeyError::UnsupportedAlgorithm));
    assert_eq!(generate_fingerprint("ssh-rsa not-base64!"), Err(KeyError::InvalidBase64));
    assert_eq!(generate_fingerprint("ssh-rsa"), Err(KeyError::Malformed));
    assert!(is_supported_algorithm("ecdsa-sha2-nistp256"));
    assert!(!is_supported_algorithm("ssh-ed448"));
}

#[test]
fn key_keeps_two_fields() {
    let k = format!("ssh-ed25519 {KEY_BLOB} alice@laptop extra");
    assert_eq!(normalize_key(&k).unwrap(), format!("ssh-ed25519 {KEY_BLOB}"));
    assert_eq!(normalize_key("ssh-rsa AAAA").unwrap(), "ssh-rsa AAAA");
    assert_eq!(normalize_key("ssh-rsa  AAAA").unwrap(), "ssh-rsa ");
    assert_eq!(normalize_key("ssh-rsa"), Err(KeyError::Malformed));
    assert_eq!(split_key("a b c"), Some(("a".to_string(), "b".to_string())));
    assert_eq!(KeyError::Malformed.message(), "Invalid key format.");
}

#[test]
fn optional_and_updated_texts() {
    assert_eq!(optional_text("".to_string()), None);
    assert_eq!(optional_text("  NULL ".to_string()), None);
    assert_eq!(optional_text(" laptop ".to_string()), Some(" laptop ".to_string()));
    assert_eq!(updated_comment("".to_string(), Some("old".to_string())), Some("old".to_string()));
    assert_eq!(updated_comment("Null".to_string(), Some("old".to_string())), None);
    assert_eq!(updated_comment("new".to_string(), None), Some("new".to_string()));
    assert_eq!(fold("  YeS "), "yes");
}

#[test]
fn confirmations() {
    assert!(is_confirmation(" Y\n"));
    assert!(!is_confirmation("yes"));
    assert!(!is_confirmation(""));
    assert!(is_refusal("N"));
    assert!(!is_refusal(""));
}

#[test]
fn audit_client_identity() {
    assert_eq!(client_identity(None, false), "local user");
    assert_eq!(client_identity(Some("10.1.2.3 51000 10.0.0.1 22"), false), "10.1.2.3:51000");
    assert_eq!(client_identity(Some("fe80::1 51000 fe80::2 22"), true), "[fe80::1]:51000");
    assert_eq!(client_identity(Some("odd value"), false), "odd value");
}

#[test]
fn expiry_parsing() {
    assert_eq!(parse_until(""), Ok(default_best_before()));
    assert_eq!(parse_until("null"), Ok(default_best_before()));
    assert_eq!(
        default_best_before(),
        Timestamp { year: 2256, month: 5, day: 11, hour: 0, minute: 0, second: 0 }
    );
    assert_eq!(
        parse_until("2024-02-29"),
        Ok(Timestamp { year: 2024, month: 2, day: 29, hour: 0, minute: 0, second: 0 })
    );
    assert_eq!(
        parse_until("2024-03-01 13:45:07"),
        Ok(Timestamp { year: 2024, month: 3, day: 1, hour: 13, minute: 45, second: 7 })
    );
    assert_eq!(parse_until("2023-02-29"), Err(UntilError::Date));
    assert_eq!(parse_until("2024-03-01 25:00:00"), Err(UntilError::Time));
    assert_eq!(parse_until("2024-03-01 10:00:00 x"), Err(UntilError::Shape));
    assert_eq!(UntilError::Time.message(), "Could not parse time.");
}

#[test]
fn usertypes_and_prompts() {
    assert_eq!(parse_usertype("", Usertype::Tool), Some(Usertype::Tool));
    assert_eq!(parse_usertype("ad user", Usertype::Tool), Some(Usertype::AD));
    assert_eq!(parse_usertype("external", Usertype::AD), Some(Usertype::External));
    assert_eq!(parse_usertype("robot", Usertype::AD), None);
    assert_eq!(Usertype::Tool.db_name(), "tool user");
    assert_eq!(Usertype::from_db_name("external user"), Some(Usertype::External));
    assert_eq!(Usertype::from_db_name("admin"), None);
    assert_eq!(ListObject::KeyID.default_prompt(), "Key ID ['?' for list]");
    pipe_reset();
}

#[test]
fn update_answers() {
    assert!(matches!(classify_answer("".to_string()), Answer::Keep));
    assert!(matches!(classify_answer(" NuLL ".to_string()), Answer::Clear));
    assert!(matches!(classify_answer("deploy".to_string()), Answer::Value(v) if v == "deploy"));
    assert_eq!(updated_optional("".to_string(), Some("no-pty".to_string())), Some("no-pty".to_string()));
    assert_eq!(updated_optional("null".to_string(), Some("no-pty".to_string())), None);
    assert_eq!(updated_optional("x11".to_string(), None), Some("x11".to_string()));
    assert_eq!(updated_required("".to_string(), "administrator".to_string()), "administrator");
    assert_eq!(updated_required("deploy".to_string(), "administrator".to_string()), "deploy");
}

//! Rows and kinds of the entity store as the command surface shows them.
use vstd::prelude::*;
use crate::input::text_eq;

verus! {

/// The kind of a user account.
#[derive(Clone, Copy, Debug, PartialEq, Eq, Structural)]
pub enum Usertype {
    AD,
    Tool,
    External,
}

impl Usertype {
    /// The name of the kind in the entity store.
    pub open spec fn db_name_spec(self) -> Seq<char> {
        match self {
            Usertype::AD => "AD user"@,
            Usertype::Tool => "tool user"@,
            Usertype::External => "external user"@,
        }
    }

    /// The name of the kind in the entity store.
    pub fn db_name(&self) -> (r: &'static str)
        ensures
            r@ == self.db_name_spec(),
    {
        match self {
            Usertype::AD => "AD user",
            Usertype::Tool => "tool user",
            Usertype::External => "external user",
        }
    }

    /// The kind with the given store name.
    pub fn from_db_name(s: &str) -> (r: Option<Usertype>)
        ensures
            match r {
                Some(t) => t.db_name_spec() == s@,
                None => forall|t: Usertype| t.db_name_spec() != s@,
            },
    {
        if text_eq(s, "AD user") {
            Some(Usertype::AD)
        } else if text_eq(s, "tool user") {
            Some(Usertype::Tool)
        } else if text_eq(s, "external user") {
            Some(Usertype::External)
        } else {
            proof {
                assert forall|t: Usertype| t.db_name_spec() != s@ by {
                    match t {
                        Usertype::AD => {},
                        Usertype::Tool => {},
                        Usertype::External => {},
                    }
                }
            }
            None
        }
    }
}

/// The kind that a folded answer names (`ad`, `tool`, `external`, with or
/// without ` user`); an empty answer keeps `default`.
pub open spec fn usertype_answer(folded: Seq<char>, default: Usertype) -> Option<Usertype> {
    if folded == ""@ {
        Some(default)
    } else if folded == "ad"@ || folded == "ad user"@ {
        Some(Usertype::AD)
    } else if folded == "tool"@ || folded == "tool user"@ {
        Some(Usertype::Tool)
    } else if folded == "external"@ || folded == "external user"@ {
        Some(Usertype::External)
    } else {
        None
    }
}

/// The kind that a folded answer names, or none for an unknown kind.
pub fn parse_usertype(folded: &str, default: Usertype) -> (r: Option<Usertype>)
    ensures
        r == usertype_answer(folded@, default),
{
    if text_eq(folded, "") {
        Some(default)
    } else if text_eq(folded, "ad") || text_eq(folded, "ad user") {
        Some(Usertype::AD)
    } else if text_eq(folded, "tool") || text_eq(folded, "tool user") {
        Some(Usertype::Tool)
    } else if text_eq(folded, "external") || text_eq(folded, "external user") {
        Some(Usertype::External)
    } else {
        None
    }
}

/// What an interactive prompt asks for.
#[derive(Clone, Copy, Debug, PartialEq, Eq, Structural)]
pub enum ListObject {
    UserEmail,
    UserName,
    UserGroup,
    ServerName,
    ServerGroup,
    ServerAccess,
    KeyID,
}

impl ListObject {
    pub open spec fn prompt_spec(self) -> Seq<char> {
        match self {
            ListObject::UserEmail => "User email ['?' for list]"@,
            ListObject::UserName => "User name ['?' for list]"@,
            ListObject::UserGroup => "User group name ['?' for list]"@,
            ListObject::ServerName => "Server name ['?' for list]"@,
            ListObject::ServerGroup => "Server group name ['?' for list]"@,
            ListObject::ServerAccess => "Server access name ['?' for list]"@,
            ListObject::KeyID => "Key ID ['?' for list]"@,
        }
    }

    /// The prompt shown when no other message is given.
    pub fn default_prompt(&self) -> (r: &'static str)
        ensures
            r@ == self.prompt_spec(),
    {
        match self {
            ListObject::UserEmail => "User email ['?' for list]",
            ListObject::UserName => "User name ['?' for list]",
            ListObject::UserGroup => "User group name ['?' for list]",
            ListObject::ServerName => "Server name ['?' for list]",
            ListObject::ServerGroup => "Server group name ['?' for list]",
            ListObject::ServerAccess => "Server access name ['?' for list]",
            ListObject::KeyID => "Key ID ['?' for list]",
        }
    }
}

/// A user as listed.
#[derive(Clone, Debug)]
pub struct UserQuery {
    pub id: i64,
    pub email: String,
    pub name: String,
    pub usertype: String,
    pub disabled: String,
    pub comment: Option<String>,
}

/// An SSH key as listed.
#[derive(Clone, Debug)]
pub struct SshKeysQuery {
    pub id: i64,
    pub email: String,
    pub sshkey: String,
    pub fingerprint: String,
    pub comment: Option<String>,
}

/// A user group membership as listed.
#[derive(Clone, Debug)]
pub struct UserGroupQuery {
    pub usergroup: String,
    pub member: Option<String>,
    pub comment: Option<String>,
    pub subgroups: Option<String>,
}

/// Restores default handling of a closed output pipe. Only Unix has such a
/// signal, and the program's entry point resets it there; on other systems
/// there is nothing to do.
pub fn pipe_reset() {
}

} // verus!

//! One resolved access as a line of an OpenSSH `authorized_keys` file.
use vstd::prelude::*;
use vstd::string::*;
use crate::resolve::{AuthTuple, AuthTupleView};

verus! {

/// `from="<pattern>"`, then a comma when more options follow, else a space.
pub open spec fn from_clause(t: AuthTupleView) -> Seq<char> {
    match t.sshfrom {
        Some(f) => "from=\""@ + f + "\""@ + if t.sshcommand is Some || t.sshoption is Some {
            ","@
        } else {
            " "@
        },
        None => Seq::empty(),
    }
}

/// `command="<command>"`, then a comma when an option follows, else a space.
pub open spec fn command_clause(t: AuthTupleView) -> Seq<char> {
    match t.sshcommand {
        Some(c) => "command=\""@ + c + "\""@ + if t.sshoption is Some {
            ","@
        } else {
            " "@
        },
        None => Seq::empty(),
    }
}

/// The free-form options, verbatim, then a space.
pub open spec fn option_clause(t: AuthTupleView) -> Seq<char> {
    match t.sshoption {
        Some(o) => o + " "@,
        None => Seq::empty(),
    }
}

/// ` (<comment>)` when the key has a comment.
pub open spec fn comment_clause(t: AuthTupleView) -> Seq<char> {
    match t.comment {
        Some(c) => " ("@ + c + ")"@,
        None => Seq::empty(),
    }
}

/// The `authorized_keys` line of an access: its options, the key, the
/// owner's email and the key's comment.
pub open spec fn line_of(t: AuthTupleView) -> Seq<char> {
    from_clause(t) + command_clause(t) + option_clause(t) + t.sshkey + " "@ + t.email
        + comment_clause(t)
}

/// The `authorized_keys` line of `t`.
pub fn format_line(t: &AuthTuple) -> (l: String)
    ensures
        l@ == line_of(t@),
{
    let mut l = String::new();
    if let Some(from) = &t.sshfrom {
        l.append("from=\"");
        l.append(from.as_str());
        l.append("\"");
        if t.sshcommand.is_some() || t.sshoption.is_some() {
            l.append(",");
        } else {
            l.append(" ");
        }
    }
    assert(l@ == from_clause(t@));
    let ghost after_from = l@;
    if let Some(command) = &t.sshcommand {
        l.append("command=\"");
        l.append(command.as_str());
        l.append("\"");
        if t.sshoption.is_some() {
            l.append(",");
        } else {
            l.append(" ");
        }
    }
    assert(l@ == after_from + command_clause(t@));
    let ghost after_command = l@;
    if let Some(option) = &t.sshoption {
        l.append(option.as_str());
        l.append(" ");
    }
    assert(l@ == after_command + option_clause(t@));
    l.append(t.sshkey.as_str());
    l.append(" ");
    l.append(t.email.as_str());
    let ghost before_comment = l@;
    if let Some(comment) = &t.comment {
        l.append(" (");
        l.append(comment.as_str());
        l.append(")");
    }
    assert(l@ == before_comment + comment_clause(t@));
    assert(l@ =~= line_of(t@));
    l
}

/// With every option and a comment present, the options are joined by commas
/// and followed by the key, the email and the comment in parentheses.
pub proof fn lemma_full_line(t: AuthTupleView, f: Seq<char>, c: Seq<char>, o: Seq<char>, m: Seq<char>)
    requires
        t.sshfrom == Some(f),
        t.sshcommand == Some(c),
        t.sshoption == Some(o),
        t.comment == Some(m),
    ensures
        line_of(t) == "from=\""@ + f + "\""@ + ","@ + "command=\""@ + c + "\""@ + ","@ + o + " "@
            + t.sshkey + " "@ + t.email + " ("@ + m + ")"@,
{
    assert(line_of(t) =~= "from=\""@ + f + "\""@ + ","@ + "command=\""@ + c + "\""@ + ","@ + o
        + " "@ + t.sshkey + " "@ + t.email + " ("@ + m + ")"@);
}

/// With no option and no comment, the line is the key, a space and the email,
/// nothing else.
pub proof fn lemma_plain_line(t: AuthTupleView)
    requires
        t.sshfrom is None,
        t.sshcommand is None,
        t.sshoption is None,
        t.comment is None,
    ensures
        line_of(t) == t.sshkey + " "@ + t.email,
{
    assert(line_of(t) =~= t.sshkey + " "@ + t.email);
}

} // verus!

use vstd::prelude::*;
use vstd::string::StringExecFns;

use crate::Errors;
use crate::clock::{current_timestamp, timestamp_chars};
use crate::directory::{
    Directory, matches_any_of, matches_of, register_nick_post, register_username_post,
    usernames_of,
};
use crate::fold::{lower_of, lowercase};

verus! {

broadcast use vstd::string::group_string_axioms;

/// The chat server core: static configuration set at construction, plus the
/// shared user directory that the commands read and mutate.
pub struct Server {
    pub admin: String,
    pub version: String,
    pub show_users: bool,
    pub motd: Option<String>,
    pub users: Directory,
}

/// The i-th argument, or the empty name when it was not supplied.
pub open spec fn arg_or_empty(args: Seq<Seq<char>>, i: int) -> Seq<char> {
    if 0 <= i < args.len() {
        args[i]
    } else {
        Seq::empty()
    }
}

/// The reply's error classification read as the handler outcome.
pub open spec fn outcome(e: Option<Errors>) -> Result<(), Errors> {
    match e {
        None => Ok(()),
        Some(err) => Err(err),
    }
}

/// `items` joined by `sep`, in order, with no leading or trailing separator.
pub open spec fn joined(items: Seq<Seq<char>>, sep: Seq<char>) -> Seq<char>
    decreases items.len(),
{
    if items.len() == 0 {
        Seq::empty()
    } else if items.len() == 1 {
        items[0]
    } else {
        joined(items.drop_last(), sep) + sep + items.last()
    }
}

/// No command ever alters the configuration; only the directory may change.
pub open spec fn same_config(pre: Server, post: Server) -> bool {
    pre.admin == post.admin && pre.version == post.version && pre.show_users == post.show_users
        && pre.motd == post.motd
}

pub open spec fn nick_command_post(
    pre: Server,
    post: Server,
    args: Seq<Seq<char>>,
    id: Seq<char>,
    r: (Option<Errors>, String),
) -> bool {
    &&& same_config(pre, post)
    &&& register_nick_post(
        pre.users.records@,
        post.users.records@,
        id,
        lower_of(arg_or_empty(args, 0)),
        outcome(r.0),
    )
    &&& (r.0 is None ==> r.1@ == "Introducing new nick \""@ + lower_of(arg_or_empty(args, 0))
        + "\" \r\n"@)
    &&& (r.0 == Some(Errors::ErrNoNickNameGiven) ==> r.1@ == "No Nickname given\r\n"@)
    &&& (r.0 == Some(Errors::ErrNickNameInUse) ==> r.1@ == lower_of(arg_or_empty(args, 0))
        + " Nickname is already in use\r\n"@)
    &&& (lower_of(arg_or_empty(args, 0)).len() == 0 <==> arg_or_empty(args, 0).len() == 0)
}

pub open spec fn user_command_post(
    pre: Server,
    post: Server,
    args: Seq<Seq<char>>,
    id: Seq<char>,
    r: (Option<Errors>, String),
) -> bool {
    &&& same_config(pre, post)
    &&& (args.len() == 0 ==> post == pre && r.0 == Some(Errors::ErrNeedMoreParams) && r.1@
        == "Not enough parameters\r\n"@)
    &&& (args.len() > 0 ==> {
        &&& register_username_post(
            pre.users.records@,
            post.users.records@,
            id,
            lower_of(args[0]),
            outcome(r.0),
        )
        &&& (r.0 is None ==> r.1@ == "Username registered successfully\r\n"@)
        &&& (r.0 == Some(Errors::ErrNoSuchIdentity) ==> r.1@
            == "You must register a nickname first\r\n"@)
    })
}

pub open spec fn users_command_post(s: Server, r: (Option<Errors>, String)) -> bool {
    &&& (!s.show_users ==> r.0 == Some(Errors::ErrUserDisabled) && r.1@
        == "USERS has been disabled\r\n"@)
    &&& (s.show_users ==> r.0 is None && r.1@ == joined(usernames_of(s.users.records@), "\r\n"@)
        + "\r\n"@)
}

pub open spec fn version_post(s: Server, r: (Option<Errors>, String)) -> bool {
    r.0 is None && r.1@ == s.version@ + "\r\n"@
}

pub open spec fn time_post(r: (Option<Errors>, String)) -> bool {
    &&& r.0 is None
    &&& exists|y: int, mo: int, d: int, h: int, mi: int, s: int|
        1 <= mo <= 12 && 1 <= d <= 31 && 0 <= h <= 23 && 0 <= mi <= 59 && 0 <= s <= 59 && r.1@
            == timestamp_chars(y, mo, d, h, mi, s) + "\r\n"@
}

pub open spec fn who_post(s: Server, args: Seq<Seq<char>>, r: (Option<Errors>, String)) -> bool {
    &&& (args.len() == 0 ==> r.0 == Some(Errors::ErrNeedMoreParams) && r.1@
        == "Not enough parameters\r\n"@)
    &&& (args.len() > 0 ==> r.0 is None && r.1@ == joined(
        matches_of(s.users.records@, args[0]),
        "\r\n"@,
    ) + "\r\n"@)
}

pub open spec fn userhost_post(s: Server, args: Seq<Seq<char>>, r: (Option<Errors>, String)) -> bool {
    &&& (args.len() == 0 ==> r.0 == Some(Errors::ErrNeedMoreParams) && r.1@
        == "Not enough parameters\r\n"@)
    &&& (args.len() > 0 ==> r.0 is None && r.1@ == joined(
        matches_any_of(s.users.records@, args),
        "\r\n"@,
    ) + "\r\n"@)
}

pub open spec fn recognized(cmd: Seq<char>) -> bool {
    ||| cmd == "NICK"@
    ||| cmd == "USER"@
    ||| cmd == "USERS"@
    ||| cmd == "VERSION"@
    ||| cmd == "TIME"@
    ||| cmd == "WHO"@
    ||| cmd == "USERHOST"@
}

/// The dispatcher resolves the first token to exactly one recognized handler,
/// or to the unknown-command outcome, and never alters the reply text of the
/// handler it ran.
pub open spec fn dispatch_post(
    pre: Server,
    post: Server,
    tv: Seq<Seq<char>>,
    id: Seq<char>,
    r: (Option<Errors>, String),
) -> bool {
    &&& same_config(pre, post)
    &&& (!(tv.len() > 0 && recognized(tv[0])) ==> post == pre && r.0 == Some(
        Errors::UnknownCommand,
    ) && r.1@ == "Unknown command\r\n"@)
    &&& (tv.len() > 0 ==> {
        &&& (tv[0] == "NICK"@ ==> nick_command_post(pre, post, tv.skip(1), id, r))
        &&& (tv[0] == "USER"@ ==> user_command_post(pre, post, tv.skip(1), id, r))
        &&& (tv[0] == "USERS"@ ==> post == pre && users_command_post(pre, r))
        &&& (tv[0] == "VERSION"@ ==> post == pre && version_post(pre, r))
        &&& (tv[0] == "TIME"@ ==> post == pre && time_post(r))
        &&& (tv[0] == "WHO"@ ==> post == pre && who_post(pre, tv.skip(1), r))
        &&& (tv[0] == "USERHOST"@ ==> post == pre && userhost_post(pre, tv.skip(1), r))
    })
}

fn join_crlf(items: &Vec<String>) -> (r: String)
    ensures
        r@ == joined(items.deep_view(), "\r\n"@),
{
    let mut out = String::new();
    let n = items.len();
    let mut i: usize = 0;
    proof {
        assert(items.deep_view().take(0) =~= Seq::<Seq<char>>::empty());
    }
    while i < n
        invariant
            n == items@.len(),
            i <= n,
            out@ == joined(items.deep_view().take(i as int), "\r\n"@),
        decreases n - i,
    {
        proof {
            let dv = items.deep_view();
            assert(dv.take(i as int + 1).drop_last() =~= dv.take(i as int));
            assert(dv.take(i as int + 1).last() == dv[i as int]);
            assert(dv[i as int] == items@[i as int]@);
        }
        if i > 0 {
            out.append("\r\n");
        }
        out.append(items[i].as_str());
        proof {
            let dv = items.deep_view();
            if i == 0 {
                assert(out@ =~= dv[0]);
            } else {
                assert(out@ == joined(dv.take(i as int), "\r\n"@) + "\r\n"@ + dv[i as int]);
            }
        }
        i += 1;
    }
    proof {
        assert(items.deep_view().take(n as int) =~= items.deep_view());
    }
    out
}

fn rest_args(tokens: &Vec<String>) -> (r: Vec<String>)
    requires
        tokens@.len() >= 1,
    ensures
        r.deep_view() == tokens.deep_view().skip(1),
{
    let mut out: Vec<String> = Vec::new();
    let n = tokens.len();
    let mut i: usize = 1;
    proof {
        assert(out.deep_view() =~= tokens.deep_view().subrange(1, 1));
    }
    while i < n
        invariant
            n == tokens@.len(),
            1 <= i <= n,
            out.deep_view() == tokens.deep_view().subrange(1, i as int),
        decreases n - i,
    {
        let ghost prev = out.deep_view();
        let t = tokens[i].clone();
        proof {
            assert(t@ == tokens@[i as int]@);
        }
        out.push(t);
        proof {
            assert(out.deep_view() =~= prev.push(tokens@[i as int]@));
            assert(prev.push(tokens@[i as int]@) =~= tokens.deep_view().subrange(1, i as int + 1));
        }
        i += 1;
    }
    proof {
        assert(tokens.deep_view().subrange(1, n as int) =~= tokens.deep_view().skip(1));
    }
    out
}

impl Server {
    pub fn new(admin: String) -> (s: Server)
        ensures
            s.admin == admin,
            s.version@ == "1.0"@,
            s.show_users == false,
            s.motd is None,
            s.users.wf(),
            s.users.records@.len() == 0,
    {
        Server {
            admin,
            version: String::from_str("1.0"),
            show_users: false,
            motd: None,
            users: Directory::new(),
        }
    }

    pub fn set_motd(&mut self, msg: String)
        ensures
            final(self).motd == Some(msg),
            final(self).admin == old(self).admin,
            final(self).version == old(self).version,
            final(self).show_users == old(self).show_users,
            final(self).users == old(self).users,
    {
        self.motd = Some(msg);
    }

    /// Turns the USERS listing off: a later USERS command fails.
    pub fn disable_users(&mut self)
        ensures
            final(self).show_users == false,
            final(self).admin == old(self).admin,
            final(self).version == old(self).version,
            final(self).motd == old(self).motd,
            final(self).users == old(self).users,
    {
        self.show_users = false;
    }

    /// Turns the USERS listing on: a later USERS command succeeds.
    pub fn enable_users(&mut self)
        ensures
            final(self).show_users == true,
            final(self).admin == old(self).admin,
            final(self).version == old(self).version,
            final(self).motd == old(self).motd,
            final(self).users == old(self).users,
    {
        self.show_users = true;
    }

    /// NICK: registers the case-folded candidate nickname for the calling
    /// connection, or reports why it was rejected. An absent argument counts
    /// as the empty nickname. Never mutates the directory on failure.
    pub fn nick_command(&mut self, args: &Vec<String>, identity: &String) -> (r: (
        Option<Errors>,
        String,
    ))
        requires
            old(self).users.wf(),
        ensures
            final(self).users.wf(),
            nick_command_post(*old(self), *final(self), args.deep_view(), identity@, r),
    {
        let candidate = if args.len() > 0 {
            args[0].clone()
        } else {
            String::new()
        };
        proof {
            assert(candidate@ == arg_or_empty(args.deep_view(), 0));
        }
        let folded = lowercase(candidate.as_str());
        match self.users.register_nick(identity, &candidate) {
            Ok(()) => {
                let mut msg = String::from_str("Introducing new nick \"");
                msg.append(folded.as_str());
                msg.append("\" \r\n");
                (None, msg)
            },
            Err(e) => {
                if e == Errors::ErrNoNickNameGiven {
                    (Some(e), String::from_str("No Nickname given\r\n"))
                } else {
                    let mut msg = folded;
                    msg.append(" Nickname is already in use\r\n");
                    (Some(e), msg)
                }
            },
        }
    }

    /// USER: stores the case-folded username on this connection's record; a
    /// connection that never completed a NICK gets a structured error and the
    /// directory is left unchanged.
    pub fn user_command(&mut self, args: &Vec<String>, identity: &String) -> (r: (
        Option<Errors>,
        String,
    ))
        requires
            old(self).users.wf(),
        ensures
            final(self).users.wf(),
            user_command_post(*old(self), *final(self), args.deep_view(), identity@, r),
    {
        if args.len() == 0 {
            return (Some(Errors::ErrNeedMoreParams), String::from_str("Not enough parameters\r\n"));
        }
        proof {
            assert(args.deep_view()[0] == args@[0]@);
        }
        match self.users.register_username(identity, &args[0]) {
            Ok(()) => (None, String::from_str("Username registered successfully\r\n")),
            Err(e) => (Some(e), String::from_str("You must register a nickname first\r\n")),
        }
    }

    /// USERS: lists every registered username, unless listing is disabled.
    pub fn users_command(&self) -> (r: (Option<Errors>, String))
        ensures
            users_command_post(*self, r),
    {
        if !self.show_users {
            return (Some(Errors::ErrUserDisabled), String::from_str("USERS has been disabled\r\n"));
        }
        let names = self.users.list_usernames();
        let mut msg = join_crlf(&names);
        msg.append("\r\n");
        (None, msg)
    }

    /// VERSION: the server's static version string.
    pub fn show_version(&self) -> (r: (Option<Errors>, String))
        ensures
            version_post(*self, r),
    {
        let mut msg = self.version.clone();
        msg.append("\r\n");
        (None, msg)
    }

    /// TIME: the current local time, rendered by the verified formatter.
    pub fn show_time(&self) -> (r: (Option<Errors>, String))
        ensures
            time_post(r),
    {
        let mut msg = current_timestamp();
        proof {
            let (y, mo, d, h, mi, s) = choose|y: int, mo: int, d: int, h: int, mi: int, s: int|
                1 <= mo <= 12 && 1 <= d <= 31 && 0 <= h <= 23 && 0 <= mi <= 59 && 0 <= s <= 59
                    && msg@ == timestamp_chars(y, mo, d, h, mi, s);
            assert(msg@ + "\r\n"@ == timestamp_chars(y, mo, d, h, mi, s) + "\r\n"@);
        }
        msg.append("\r\n");
        (None, msg)
    }

    /// ADMIN: the configured administrator contact.
    pub fn admin_command(&self) -> (r: (Option<Errors>, String))
        ensures
            r.0 is None,
            r.1@ == self.admin@ + "\r\n"@,
    {
        let mut msg = self.admin.clone();
        msg.append("\r\n");
        (None, msg)
    }

    /// WHO: every connection identity whose nickname or username equals the
    /// requested name; no match is an empty listing, not an error.
    pub fn who_command(&self, args: &Vec<String>) -> (r: (Option<Errors>, String))
        ensures
            who_post(*self, args.deep_view(), r),
    {
        if args.len() == 0 {
            return (Some(Errors::ErrNeedMoreParams), String::from_str("Not enough parameters\r\n"));
        }
        proof {
            assert(args.deep_view()[0] == args@[0]@);
        }
        let ids = self.users.find_identities_by_name(&args[0]);
        let mut msg = join_crlf(&ids);
        msg.append("\r\n");
        (None, msg)
    }

    /// USERHOST: every connection identity matching any of the requested
    /// names, each listed at most once; no names at all is an error.
    pub fn userhost_command(&self, args: &Vec<String>) -> (r: (Option<Errors>, String))
        ensures
            userhost_post(*self, args.deep_view(), r),
    {
        if args.len() == 0 {
            return (Some(Errors::ErrNeedMoreParams), String::from_str("Not enough parameters\r\n"));
        }
        let ids = self.users.find_identities_matching_any(args);
        let mut msg = join_crlf(&ids);
        msg.append("\r\n");
        (None, msg)
    }

    /// Resolves the command name to exactly one handler and runs it; an
    /// unrecognized or absent name is the unknown-command outcome, never a
    /// fault.
    pub fn dispatch(&mut self, tokens: &Vec<String>, identity: &String) -> (r: (
        Option<Errors>,
        String,
    ))
        requires
            old(self).users.wf(),
        ensures
            final(self).users.wf(),
            dispatch_post(*old(self), *final(self), tokens.deep_view(), identity@, r),
    {
        proof {
            reveal_strlit("NICK");
            reveal_strlit("USER");
            reveal_strlit("USERS");
            reveal_strlit("VERSION");
            reveal_strlit("TIME");
            reveal_strlit("WHO");
            reveal_strlit("USERHOST");
            // the command names are pairwise distinct: equal lengths only for
            // NICK, USER and TIME, whose first characters differ
            assert("NICK"@.len() == 4 && "USER"@.len() == 4 && "USERS"@.len() == 5 && "VERSION"@.len() == 7 && "TIME"@.len() == 4 && "WHO"@.len() == 3 && "USERHOST"@.len() == 8);
            assert("NICK"@.index(0) == 'N' && "USER"@.index(0) == 'U' && "TIME"@.index(0) == 'T');
        }
        if tokens.len() == 0 {
            return (Some(Errors::UnknownCommand), String::from_str("Unknown command\r\n"));
        }
        proof {
            assert(tokens.deep_view()[0] == tokens@[0]@);
        }
        let cmd = &tokens[0];
        if cmd.eq(&String::from_str("NICK")) {
            let args = rest_args(tokens);
            self.nick_command(&args, identity)
        } else if cmd.eq(&String::from_str("USER")) {
            let args = rest_args(tokens);
            self.user_command(&args, identity)
        } else if cmd.eq(&String::from_str("USERS")) {
            self.users_command()
        } else if cmd.eq(&String::from_str("VERSION")) {
            self.show_version()
        } else if cmd.eq(&String::from_str("TIME")) {
            self.show_time()
        } else if cmd.eq(&String::from_str("WHO")) {
            let args = rest_args(tokens);
            self.who_command(&args)
        } else if cmd.eq(&String::from_str("USERHOST")) {
            let args = rest_args(tokens);
            self.userhost_command(&args)
        } else {
            (Some(Errors::UnknownCommand), String::from_str("Unknown command\r\n"))
        }
    }

    /// One raw line, parsed and dispatched: a line without the command marker
    /// is treated as the unknown-command case, exactly as an unrecognized
    /// command name is.
    pub fn handle_line(&mut self, line: &str, identity: &String) -> (r: (Option<Errors>, String))
        requires
            old(self).users.wf(),
        ensures
            final(self).users.wf(),
            !crate::parser::parse_ok(line@) ==> *final(self) == *old(self) && r.0 == Some(
                Errors::UnknownCommand,
            ) && r.1@ == "Unknown command\r\n"@,
            crate::parser::parse_ok(line@) ==> dispatch_post(
                *old(self),
                *final(self),
                crate::parser::tokens_of(line@.drop_first()),
                identity@,
                r,
            ),
    {
        match crate::parser::parse_command(line) {
            Some(tokens) => self.dispatch(&tokens, identity),
            None => (Some(Errors::UnknownCommand), String::from_str("Unknown command\r\n")),
        }
    }
}

} // verus!

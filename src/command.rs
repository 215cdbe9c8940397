//! The command dispatcher: a request's name (in any case) selects a handler;
//! commands of the connection are answered here, the others become a
//! `Command` for the data models.
use vstd::prelude::*;
use vstd::string::StringSliceAdditionalSpecFns;
use vstd::utf8::{decode_utf8, valid_utf8};
use crate::acl::{acl_request, parse_acl_command, unknown_subcommand_text, AclRequest, ACLMethod};
use crate::bytes::{append_bytes, copy_bytes, eq_ignore_case, parse_i64_spec, text_bytes, upper_seq};
use crate::config::SocketConfig;
use crate::decimal::parse_i64;
use crate::frame::{error, is_bulk, is_error_text, is_simple_text, is_utf8, lossy_text, ok, simple, vec_views, Frame, Request};
use crate::string::{parse_delta, parse_set_extra_args, parse_set_args_from, SetFlags};

verus! {

/// Work that a request leaves for the data models.
pub enum Command {
    /// The reply is already known.
    Reply(Frame),
    SetValue { key: Vec<u8>, value: Vec<u8>, flags: SetFlags },
    Get { key: Vec<u8> },
    Del { key: Vec<u8> },
    GetDel { key: Vec<u8> },
    /// INCR, DECR, INCRBY and DECRBY: add `delta` to the counter.
    Add { key: Vec<u8>, delta: i64 },
    Append { key: Vec<u8>, value: Vec<u8> },
    Auth { user: Vec<u8>, password: Vec<u8> },
    AclSetUser { user: Vec<u8>, password: Vec<u8>, rules: Option<Vec<u8>> },
    AclGetUser { user: Vec<u8> },
    AclDelUser { user: Vec<u8> },
    AclList,
}

pub open spec fn named(name: Seq<u8>, word: &str) -> bool {
    upper_seq(name) == word.spec_bytes()
}

pub open spec fn replies_error(c: Command, text: Seq<char>) -> bool {
    c matches Command::Reply(f) && is_error_text(f, text)
}

pub open spec fn replies_ok(c: Command) -> bool {
    c matches Command::Reply(f) && is_simple_text(f, "OK")
}

/// The argument payloads that are UTF-8, joined by single spaces.
pub open spec fn joined_text_args(args: Seq<Seq<u8>>) -> Seq<u8>
    decreases args.len(),
{
    if args.len() == 0 {
        Seq::empty()
    } else {
        let rest = joined_text_args(args.drop_last());
        if !valid_utf8(args.last()) {
            rest
        } else if !has_text_arg(args.drop_last()) {
            args.last()
        } else {
            rest + seq![32u8] + args.last()
        }
    }
}

pub open spec fn has_text_arg(args: Seq<Seq<u8>>) -> bool {
    exists|i: int| 0 <= i < args.len() && valid_utf8(#[trigger] args[i])
}

/// The text of the reply to a command that no handler takes.
pub open spec fn unknown_command_text(name: Seq<u8>, args: Seq<Seq<u8>>) -> Seq<u8> {
    "ERR unknown command '".spec_bytes() + (if valid_utf8(name) {
        name
    } else {
        Seq::empty()
    }) + "', with args beginning with: '".spec_bytes() + joined_text_args(args) + "'".spec_bytes()
}

/// What a request of the connection family does to the session and replies.
pub open spec fn connection_ok(
    c: Command,
    name: Seq<u8>,
    args: Seq<Seq<u8>>,
    s0: SocketConfig,
    s1: SocketConfig,
) -> bool {
    if named(name, "PING") {
        s1 == s0 && (c matches Command::Reply(f) && (if args.len() > 0 {
            is_bulk(f, args[0])
        } else {
            is_simple_text(f, "PONG")
        }))
    } else if named(name, "ECHO") {
        s1 == s0 && if args.len() == 0 {
            replies_error(c, "ERR wrong number of arguments for 'ECHO' command"@)
        } else {
            c matches Command::Reply(f) && is_bulk(f, args[0])
        }
    } else if named(name, "HELLO") || named(name, "RESET") {
        s1 == s0 && replies_ok(c)
    } else if named(name, "SELECT") {
        if args.len() == 0 {
            s1 == s0 && replies_error(c, "ERR wrong number of arguments for 'SELECT' command"@)
        } else {
            match parse_i64_spec(args[0]) {
                Some(n) => replies_ok(c) && s1 == (SocketConfig {
                    selected_db: if n >= 0 { n as usize } else { s0.selected_db },
                    ..s0
                }),
                None => s1 == s0 && replies_error(c, "ERR invalid DB index"@),
            }
        }
    } else if named(name, "CLIENT") {
        if args.len() == 0 {
            s1 == s0 && replies_error(c, "ERR wrong number of arguments for 'CLIENT' command"@)
        } else if named(args[0], "GETNAME") {
            s1 == s0 && (c matches Command::Reply(f) && match s0.client_name {
                Some(n) => is_bulk(f, n@),
                None => f is Null,
            })
        } else if named(args[0], "SETNAME") {
            if args.len() < 2 {
                s1 == s0 && replies_error(c, "ERR wrong number of arguments for 'CLIENT SETNAME'"@)
            } else {
                replies_ok(c) && s1 == (SocketConfig { client_name: s1.client_name, ..s0 }) && (
                s1.client_name matches Some(n) && n@ == args[1])
            }
        } else {
            s1 == s0 && replies_error(c, "ERR CLIENT subcommand not implemented"@)
        }
    } else if named(name, "QUIT") {
        replies_ok(c) && s1 == (SocketConfig { should_close: true, ..s0 })
    } else if named(name, "AUTH") {
        s1 == s0 && if args.len() == 0 {
            replies_error(c, "ERR wrong number of arguments for 'AUTH' command"@)
        } else if args.len() == 1 {
            c matches Command::Auth { user, password } && user@ == "default".spec_bytes() && password@
                == args[0]
        } else {
            c matches Command::Auth { user, password } && user@ == args[0] && password@ == args[1]
        }
    } else {
        false
    }
}

pub open spec fn is_connection_command(name: Seq<u8>) -> bool {
    named(name, "PING") || named(name, "ECHO") || named(name, "HELLO") || named(name, "RESET")
        || named(name, "SELECT") || named(name, "CLIENT") || named(name, "QUIT") || named(name, "AUTH")
}

/// Answer a command of the connection family, updating the session.
fn connection_command(name: &[u8], args: &Vec<Vec<u8>>, session: &mut SocketConfig) -> (r: Command)
    requires
        is_connection_command(name@),
    ensures
        connection_ok(r, name@, vec_views(args@), *old(session), *final(session)),
{
    let ghost a = vec_views(args@);
    proof {
        if args@.len() > 0 {
            assert(args@[0]@ == a[0]);
        }
        if args@.len() > 1 {
            assert(args@[1]@ == a[1]);
        }
    }
    if eq_ignore_case(name, "PING") {
        if args.len() > 0 {
            Command::Reply(Frame::BulkString(args[0].clone()))
        } else {
            Command::Reply(simple("PONG"))
        }
    } else if eq_ignore_case(name, "ECHO") {
        if args.len() == 0 {
            Command::Reply(error("ERR wrong number of arguments for 'ECHO' command"))
        } else {
            Command::Reply(Frame::BulkString(args[0].clone()))
        }
    } else if eq_ignore_case(name, "HELLO") || eq_ignore_case(name, "RESET") {
        Command::Reply(ok())
    } else if eq_ignore_case(name, "SELECT") {
        if args.len() == 0 {
            return Command::Reply(error("ERR wrong number of arguments for 'SELECT' command"));
        }
        match parse_i64(args[0].as_slice()) {
            Some(n) => {
                if n >= 0 {
                    session.selected_db = n as usize;
                }
                Command::Reply(ok())
            },
            None => Command::Reply(error("ERR invalid DB index")),
        }
    } else if eq_ignore_case(name, "CLIENT") {
        if args.len() == 0 {
            return Command::Reply(error("ERR wrong number of arguments for 'CLIENT' command"));
        }
        let sub = args[0].as_slice();
        if eq_ignore_case(sub, "GETNAME") {
            match &session.client_name {
                Some(n) => Command::Reply(Frame::BulkString(n.clone())),
                None => Command::Reply(Frame::Null),
            }
        } else if eq_ignore_case(sub, "SETNAME") {
            if args.len() < 2 {
                Command::Reply(error("ERR wrong number of arguments for 'CLIENT SETNAME'"))
            } else {
                session.client_name = Some(args[1].clone());
                Command::Reply(ok())
            }
        } else {
            Command::Reply(error("ERR CLIENT subcommand not implemented"))
        }
    } else if eq_ignore_case(name, "QUIT") {
        session.mark_close();
        Command::Reply(ok())
    } else {
        if args.len() == 0 {
            Command::Reply(error("ERR wrong number of arguments for 'AUTH' command"))
        } else if args.len() == 1 {
            Command::Auth { user: text_bytes("default"), password: args[0].clone() }
        } else {
            Command::Auth { user: args[0].clone(), password: args[1].clone() }
        }
    }
}


pub open spec fn is_data_command(name: Seq<u8>) -> bool {
    named(name, "SET") || named(name, "GET") || named(name, "DEL") || named(name, "GETDEL")
        || named(name, "INCR") || named(name, "DECR") || named(name, "INCRBY") || named(name, "DECRBY")
        || named(name, "APPEND")
}

/// The INCRBY/DECRBY argument error.
pub open spec fn replies_not_integer(c: Command) -> bool {
    replies_error(c, "ERR value is not an integer or out of range"@)
}

/// What a request of the string family asks the string model to do.
pub open spec fn data_ok(c: Command, name: Seq<u8>, args: Seq<Seq<u8>>) -> bool {
    if named(name, "SET") {
        if args.len() < 2 {
            replies_error(c, "ERR wrong number of arguments for 'SET' command"@)
        } else {
            c matches Command::SetValue { key, value, flags } && key@ == args[0] && value@ == args[1]
                && flags == parse_set_args_from(
                args.subrange(2, args.len() as int),
                0,
                SetFlags { method: None, ttl: None, get: false },
            )
        }
    } else if named(name, "GET") {
        if args.len() == 0 {
            replies_error(c, "ERR wrong number of arguments for 'GET' command"@)
        } else {
            c matches Command::Get { key } && key@ == args[0]
        }
    } else if named(name, "DEL") {
        if args.len() == 0 {
            replies_error(c, "ERR wrong number of arguments for 'DEL' command"@)
        } else {
            c matches Command::Del { key } && key@ == args[0]
        }
    } else if named(name, "GETDEL") {
        if args.len() == 0 {
            replies_error(c, "ERR wrong number of arguments for 'GETDEL' command"@)
        } else {
            c matches Command::GetDel { key } && key@ == args[0]
        }
    } else if named(name, "INCR") {
        if args.len() == 0 {
            replies_error(c, "ERR wrong number of arguments for 'INCR' command"@)
        } else {
            c matches Command::Add { key, delta } && key@ == args[0] && delta == 1
        }
    } else if named(name, "DECR") {
        if args.len() == 0 {
            replies_error(c, "ERR wrong number of arguments for 'DECR' command"@)
        } else {
            c matches Command::Add { key, delta } && key@ == args[0] && delta == -1
        }
    } else if named(name, "INCRBY") {
        if args.len() < 2 {
            replies_error(c, "ERR wrong number of arguments for 'INCRBY' command"@)
        } else {
            match parse_i64_spec(args[1]) {
                Some(n) => c matches Command::Add { key, delta } && key@ == args[0] && delta == n,
                None => replies_not_integer(c),
            }
        }
    } else if named(name, "DECRBY") {
        if args.len() < 2 {
            replies_error(c, "ERR wrong number of arguments for 'DECRBY' command"@)
        } else {
            match parse_i64_spec(args[1]) {
                Some(n) => c matches Command::Add { key, delta } && key@ == args[0] && delta
                    == 0i64.wrapping_sub(n),
                None => replies_not_integer(c),
            }
        }
    } else if named(name, "APPEND") {
        if args.len() < 2 {
            replies_error(c, "ERR wrong number of arguments for 'APPEND' command"@)
        } else {
            c matches Command::Append { key, value } && key@ == args[0] && value@ == args[1]
        }
    } else {
        false
    }
}

/// Copies of `args[from..]`.
fn tail_args(args: &Vec<Vec<u8>>, from: usize) -> (r: Vec<Vec<u8>>)
    requires
        from <= args@.len(),
    ensures
        vec_views(r@) == vec_views(args@).subrange(from as int, args@.len() as int),
{
    let mut r: Vec<Vec<u8>> = Vec::new();
    let mut i: usize = from;
    while i < args.len()
        invariant
            from <= i <= args@.len(),
            vec_views(r@) == vec_views(args@).subrange(from as int, i as int),
        decreases args@.len() - i,
    {
        let ghost before = vec_views(r@);
        let piece = copy_bytes(args[i].as_slice());
        assert(vec_views(args@)[i as int] == args@[i as int]@);
        r.push(piece);
        assert(vec_views(r@) =~= before.push(piece@));
        i = i + 1;
        assert(vec_views(r@) =~= vec_views(args@).subrange(from as int, i as int));
    }
    r
}

/// Turn a request of the string family into its command.
fn data_command(name: &[u8], args: &Vec<Vec<u8>>) -> (r: Command)
    requires
        is_data_command(name@),
    ensures
        data_ok(r, name@, vec_views(args@)),
{
    let ghost a = vec_views(args@);
    proof {
        if args@.len() > 0 {
            assert(args@[0]@ == a[0]);
        }
        if args@.len() > 1 {
            assert(args@[1]@ == a[1]);
        }
    }
    if eq_ignore_case(name, "SET") {
        if args.len() < 2 {
            return Command::Reply(error("ERR wrong number of arguments for 'SET' command"));
        }
        let extra = tail_args(args, 2);
        let flags = parse_set_extra_args(&extra);
        Command::SetValue { key: args[0].clone(), value: args[1].clone(), flags }
    } else if eq_ignore_case(name, "GET") {
        if args.len() == 0 {
            return Command::Reply(error("ERR wrong number of arguments for 'GET' command"));
        }
        Command::Get { key: args[0].clone() }
    } else if eq_ignore_case(name, "DEL") {
        if args.len() == 0 {
            return Command::Reply(error("ERR wrong number of arguments for 'DEL' command"));
        }
        Command::Del { key: args[0].clone() }
    } else if eq_ignore_case(name, "GETDEL") {
        if args.len() == 0 {
            return Command::Reply(error("ERR wrong number of arguments for 'GETDEL' command"));
        }
        Command::GetDel { key: args[0].clone() }
    } else if eq_ignore_case(name, "INCR") {
        if args.len() == 0 {
            return Command::Reply(error("ERR wrong number of arguments for 'INCR' command"));
        }
        Command::Add { key: args[0].clone(), delta: 1 }
    } else if eq_ignore_case(name, "DECR") {
        if args.len() == 0 {
            return Command::Reply(error("ERR wrong number of arguments for 'DECR' command"));
        }
        Command::Add { key: args[0].clone(), delta: -1 }
    } else if eq_ignore_case(name, "INCRBY") {
        if args.len() < 2 {
            return Command::Reply(error("ERR wrong number of arguments for 'INCRBY' command"));
        }
        match parse_delta(args[1].as_slice(), false) {
            Ok(delta) => Command::Add { key: args[0].clone(), delta },
            Err(e) => Command::Reply(e),
        }
    } else if eq_ignore_case(name, "DECRBY") {
        if args.len() < 2 {
            return Command::Reply(error("ERR wrong number of arguments for 'DECRBY' command"));
        }
        match parse_delta(args[1].as_slice(), true) {
            Ok(delta) => Command::Add { key: args[0].clone(), delta },
            Err(e) => Command::Reply(e),
        }
    } else {
        if args.len() < 2 {
            return Command::Reply(error("ERR wrong number of arguments for 'APPEND' command"));
        }
        Command::Append { key: args[0].clone(), value: args[1].clone() }
    }
}

/// The name of the user a connection acts as: the one it authenticated as,
/// else `default`.
pub open spec fn current_user(s: SocketConfig) -> Seq<u8> {
    match s.authenticated_user {
        Some(u) => u@,
        None => "default".spec_bytes(),
    }
}

/// What an `ACL` request does.
pub open spec fn acl_ok(c: Command, args: Seq<Seq<u8>>, s: SocketConfig) -> bool {
    match acl_request(args) {
        Err(Some(text)) => replies_error(c, text),
        Err(None) => c matches Command::Reply(f) && (f is Error && (valid_utf8(
            unknown_subcommand_text(args[0]),
        ) ==> is_error_text(f, decode_utf8(unknown_subcommand_text(args[0]))))),
        Ok(AclRequest::SetUser(user, password, rules)) => c matches Command::AclSetUser {
            user: u,
            password: pw,
            rules: r,
        } && u@ == user && pw@ == password && match rules {
            Some(x) => r matches Some(y) && y@ == x,
            None => r is None,
        },
        Ok(AclRequest::GetUser(user)) => c matches Command::AclGetUser { user: u } && u@ == user,
        Ok(AclRequest::DelUser(user)) => c matches Command::AclDelUser { user: u } && u@ == user,
        Ok(AclRequest::List) => c is AclList,
        Ok(AclRequest::WhoAmI) => c matches Command::Reply(f) && is_bulk(f, current_user(s)),
    }
}

/// Turn an `ACL` request into its command; `WHOAMI` is answered from the session.
fn acl_command(args: &Vec<Vec<u8>>, session: &SocketConfig) -> (r: Command)
    ensures
        acl_ok(r, vec_views(args@), *session),
{
    match parse_acl_command(args) {
        Err(e) => Command::Reply(Frame::Error(e)),
        Ok(ACLMethod::SetUser { user, password, rules }) => Command::AclSetUser { user, password, rules },
        Ok(ACLMethod::GetUser { user }) => Command::AclGetUser { user },
        Ok(ACLMethod::DelUser { user }) => Command::AclDelUser { user },
        Ok(ACLMethod::List) => Command::AclList,
        Ok(ACLMethod::WhoAmI) => match &session.authenticated_user {
            Some(u) => Command::Reply(Frame::BulkString(u.clone())),
            None => Command::Reply(Frame::BulkString(text_bytes("default"))),
        },
    }
}

/// The reply to a command that no handler takes, naming it and its text arguments.
fn unknown_command(name: &[u8], args: &Vec<Vec<u8>>) -> (r: Frame)
    ensures
        r is Error,
        valid_utf8(unknown_command_text(name@, vec_views(args@))) ==> is_error_text(
            r,
            decode_utf8(unknown_command_text(name@, vec_views(args@))),
        ),
{
    let ghost a = vec_views(args@);
    let mut text = text_bytes("ERR unknown command '");
    if is_utf8(name) {
        append_bytes(&mut text, name);
    }
    let middle = text_bytes("', with args beginning with: '");
    append_bytes(&mut text, middle.as_slice());
    let mut joined: Vec<u8> = Vec::new();
    let mut any = false;
    let mut i: usize = 0;
    while i < args.len()
        invariant
            a == vec_views(args@),
            i <= args@.len(),
            joined@ == joined_text_args(a.subrange(0, i as int)),
            any == has_text_arg(a.subrange(0, i as int)),
            !any ==> joined@ == Seq::<u8>::empty(),
        decreases args@.len() - i,
    {
        let arg = args[i].as_slice();
        proof {
            let s = a.subrange(0, i + 1);
            assert(s.drop_last() =~= a.subrange(0, i as int));
            assert(s.last() == arg@);
            if has_text_arg(a.subrange(0, i as int)) {
                let k = choose|k: int| 0 <= k < i && valid_utf8(#[trigger] a.subrange(0, i as int)[k]);
                assert(s[k] == a.subrange(0, i as int)[k]);
            }
            if valid_utf8(arg@) {
                assert(s[i as int] == arg@);
            }
            if has_text_arg(s) && !valid_utf8(arg@) {
                let k = choose|k: int| 0 <= k < i + 1 && valid_utf8(#[trigger] s[k]);
                assert(a.subrange(0, i as int)[k] == s[k]);
            }
        }
        if is_utf8(arg) {
            if any {
                joined.push(32u8);
            }
            append_bytes(&mut joined, arg);
            any = true;
        }
        i = i + 1;
        assert(joined@ =~= joined_text_args(a.subrange(0, i as int)));
    }
    assert(a.subrange(0, args@.len() as int) =~= a);
    append_bytes(&mut text, joined.as_slice());
    let quote = text_bytes("'");
    append_bytes(&mut text, quote.as_slice());
    assert(text@ =~= unknown_command_text(name@, a));
    Frame::Error(lossy_text(text.as_slice()))
}

/// What any request does: a command of the connection family updates the
/// session and is answered; string and `ACL` commands go to their models;
/// any other name gets the unknown-command error.
pub open spec fn dispatch_ok(
    c: Command,
    name: Seq<u8>,
    args: Seq<Seq<u8>>,
    s0: SocketConfig,
    s1: SocketConfig,
) -> bool {
    if is_connection_command(name) {
        connection_ok(c, name, args, s0, s1)
    } else if is_data_command(name) {
        s1 == s0 && data_ok(c, name, args)
    } else if named(name, "ACL") {
        s1 == s0 && acl_ok(c, args, s0)
    } else {
        s1 == s0 && (c matches Command::Reply(f) && f is Error && (valid_utf8(
            unknown_command_text(name, args),
        ) ==> is_error_text(f, decode_utf8(unknown_command_text(name, args)))))
    }
}

/// Dispatch one request on a connection whose state is `session`.
pub fn dispatch(req: &Request, session: &mut SocketConfig) -> (r: Command)
    ensures
        dispatch_ok(r, req.name@, vec_views(req.args@), *old(session), *final(session)),
{
    let name = req.name.as_slice();
    let is_conn = eq_ignore_case(name, "PING") || eq_ignore_case(name, "ECHO") || eq_ignore_case(name, "HELLO")
        || eq_ignore_case(name, "RESET") || eq_ignore_case(name, "SELECT") || eq_ignore_case(name, "CLIENT")
        || eq_ignore_case(name, "QUIT") || eq_ignore_case(name, "AUTH");
    if is_conn {
        return connection_command(name, &req.args, session);
    }
    let is_data = eq_ignore_case(name, "SET") || eq_ignore_case(name, "GET") || eq_ignore_case(name, "DEL")
        || eq_ignore_case(name, "GETDEL") || eq_ignore_case(name, "INCR") || eq_ignore_case(name, "DECR")
        || eq_ignore_case(name, "INCRBY") || eq_ignore_case(name, "DECRBY") || eq_ignore_case(name, "APPEND");
    if is_data {
        return data_command(name, &req.args);
    }
    if eq_ignore_case(name, "ACL") {
        return acl_command(&req.args, session);
    }
    Command::Reply(unknown_command(name, &req.args))
}

} // verus!

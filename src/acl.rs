//! ACL users: the stored record, the `ACL` subcommand grammar, password checks
//! and the replies of the ACL commands.
use vstd::prelude::*;
use vstd::string::StringSliceAdditionalSpecFns;
use vstd::utf8::{decode_utf8, valid_utf8};
use crate::bytes::{append_bytes, bytes_equal, copy_bytes, eq_ignore_case, starts_with, text_bytes, upper_seq};
use crate::frame::{error, is_error_text, is_simple_text, is_utf8, lossy_text, ok, vec_views, Frame};
use crate::keys::{pack_tag, pack_tag_key, tuple_tag, tuple_tag_key, MAX_KEY_LEN};

verus! {

/// The byte that ends the credential in a stored user record.
pub const RECORD_SEPARATOR: u8 = 10;

/// Whether bcrypt accepts `password` against the hash text `hash`; `None`
/// when the hash cannot be read.
pub uninterp spec fn bcrypt_verdict(password: Seq<u8>, hash: Seq<char>) -> Option<bool>;

/// Relies on `bcrypt::hash` at `bcrypt::DEFAULT_COST`: a fresh salt each
/// time; the result is the 60-byte `$2b$` text (base64 digits and `$`), which
/// `bcrypt::verify` accepts for the same password.
#[verifier::external_body]
fn bcrypt_hash(password: &[u8]) -> (r: Option<Vec<u8>>)
    ensures
        r.is_some() ==> r.unwrap()@.len() == 60 && r.unwrap()@.subrange(0, 2) == seq![36u8, 50u8],
        r.is_some() ==> valid_utf8(r.unwrap()@) && bcrypt_verdict(password@, decode_utf8(r.unwrap()@)) == Some(true),
        r.is_some() ==> forall|i: int| 0 <= i < r.unwrap()@.len() ==> r.unwrap()@[i] != RECORD_SEPARATOR,
{
    bcrypt::hash(password, bcrypt::DEFAULT_COST).ok().map(|h| h.into_bytes())
}

/// Relies on `bcrypt::verify`: whether the password matches the hash text.
#[verifier::external_body]
fn bcrypt_verify(password: &[u8], hash: &str) -> (r: Option<bool>)
    ensures
        r == bcrypt_verdict(password@, hash@),
{
    bcrypt::verify(password, hash).ok()
}

/// Namespace of ACL user records.
#[derive(Clone, Copy, Debug, PartialEq, Eq, Structural)]
pub enum AuthPrefix {
    User,
}

impl AuthPrefix {
    pub open spec fn tag(self) -> u64 {
        21
    }

    pub fn as_u64(self) -> (r: u64)
        ensures
            r == self.tag(),
    {
        21
    }

    /// The key range that holds every user record.
    pub fn range(self) -> (r: (Vec<u8>, Vec<u8>))
        ensures
            r.0@ == tuple_tag(self.tag()),
            r.1@ == tuple_tag(self.tag()).push(0xFFu8),
    {
        let start = pack_tag(self.as_u64());
        let mut end = copy_bytes(start.as_slice());
        end.push(0xFFu8);
        (start, end)
    }

    /// The backing-store key of user `name`.
    pub fn pack(self, name: &[u8]) -> (r: Vec<u8>)
        requires
            name@.len() <= MAX_KEY_LEN,
        ensures
            r@ == tuple_tag_key(self.tag(), name@),
    {
        pack_tag_key(self.as_u64(), name)
    }
}

/// A stored user: its credential and its optional rules text.
#[derive(Clone, Debug)]
pub struct UserInfo {
    pub hash: Vec<u8>,
    pub rules: Option<String>,
}

/// Index of the first separator in `s`, if any.
pub open spec fn first_separator(s: Seq<u8>) -> Option<int> {
    if exists|i: int| 0 <= i < s.len() && s[i] == RECORD_SEPARATOR {
        Some(choose|i: int| 0 <= i < s.len() && s[i] == RECORD_SEPARATOR && forall|j: int| 0 <= j < i ==> s[j] != RECORD_SEPARATOR)
    } else {
        None
    }
}

/// Whether `hash` is a record-safe bcrypt credential that accepts `password`:
/// UTF-8 text with no separator byte, which bcrypt verifies for the password.
pub open spec fn hash_accepts(hash: Seq<u8>, password: Seq<u8>) -> bool {
    &&& valid_utf8(hash)
    &&& forall|i: int| 0 <= i < hash.len() ==> hash[i] != RECORD_SEPARATOR
    &&& bcrypt_verdict(password, decode_utf8(hash)) == Some(true)
}

/// A record written for a credential without a separator byte reads back
/// that credential.
pub proof fn lemma_record_credential(hash: Seq<u8>, rules: Option<Seq<u8>>)
    requires
        forall|i: int| 0 <= i < hash.len() ==> hash[i] != RECORD_SEPARATOR,
    ensures
        first_separator(record_bytes(hash, rules)) == Some(hash.len() as int),
        record_bytes(hash, rules).subrange(0, hash.len() as int) == hash,
{
    let rec = record_bytes(hash, rules);
    let n = hash.len() as int;
    assert(rec[n] == RECORD_SEPARATOR);
    assert(forall|j: int| 0 <= j < n ==> rec[j] == hash[j]);
    let p = choose|i: int| 0 <= i < rec.len() && rec[i] == RECORD_SEPARATOR && forall|j: int| 0 <= j < i ==> rec[j] != RECORD_SEPARATOR;
    assert(exists|i: int| 0 <= i < rec.len() && rec[i] == RECORD_SEPARATOR && forall|j: int| 0 <= j < i ==> rec[j] != RECORD_SEPARATOR) by {
        assert(forall|j: int| 0 <= j < n ==> rec[j] != RECORD_SEPARATOR);
    }
    assert(p == n) by {
        if p < n {
            assert(rec[p] == hash[p]);
        } else if p > n {
            assert(rec[n] == RECORD_SEPARATOR);
        }
    }
    assert(rec.subrange(0, n) =~= hash);
}

/// A stored record: the credential, a separator, then the rules text.
pub open spec fn record_bytes(hash: Seq<u8>, rules: Option<Seq<u8>>) -> Seq<u8> {
    hash.push(RECORD_SEPARATOR) + match rules {
        Some(r) => r,
        None => Seq::empty(),
    }
}

/// Whether a credential is a bcrypt hash: it begins with `$2`.
pub open spec fn is_bcrypt_text(s: Seq<u8>) -> bool {
    s.len() >= 2 && s.subrange(0, 2) == seq![36u8, 50u8]
}

/// The record of a user with credential `hash` and rules `rules`.
pub fn encode_user_record(hash: &[u8], rules: Option<&[u8]>) -> (r: Vec<u8>)
    ensures
        r@ == record_bytes(
            hash@,
            match rules {
                Some(x) => Some(x@),
                None => None,
            },
        ),
{
    let mut r = copy_bytes(hash);
    r.push(RECORD_SEPARATOR);
    match rules {
        Some(x) => append_bytes(&mut r, x),
        None => {},
    }
    assert(r@ =~= record_bytes(
        hash@,
        match rules {
            Some(x) => Some(x@),
            None => None,
        },
    ));
    r
}

/// The user stored in `record`: the credential runs up to the first
/// separator, the rules text after it (none when empty); a record without a
/// separator is all credential.
pub fn decode_user_record(record: &[u8]) -> (r: UserInfo)
    ensures
        match first_separator(record@) {
            Some(p) => r.hash@ == record@.subrange(0, p) && (p + 1 == record@.len() <==> r.rules is None)
                && (r.rules is Some && valid_utf8(record@.subrange(p + 1, record@.len() as int))
                ==> r.rules.unwrap()@ == decode_utf8(record@.subrange(p + 1, record@.len() as int))),
            None => r.hash@ == record@ && r.rules is None,
        },
{
    let mut i: usize = 0;
    while i < record.len()
        invariant
            i <= record@.len(),
            forall|j: int| 0 <= j < i ==> record@[j] != RECORD_SEPARATOR,
        decreases record@.len() - i,
    {
        if record[i] == RECORD_SEPARATOR {
            let hash = copy_bytes(&record[0..i]);
            let tail = &record[i + 1..record.len()];
            let rules = if tail.len() == 0 {
                None
            } else {
                Some(lossy_text(tail))
            };
            proof {
                assert(hash@ =~= record@.subrange(0, i as int));
                assert(tail@ =~= record@.subrange(i + 1, record@.len() as int));
                let p = first_separator(record@).unwrap();
                assert(p == i as int) by {
                    if p < i {
                    } else if p > i {
                    }
                }
            }
            return UserInfo { hash, rules };
        }
        i = i + 1;
    }
    UserInfo { hash: copy_bytes(record), rules: None }
}

/// The credential that `ACL SETUSER` stores for `password`: a bcrypt hash
/// is kept as given; anything else is hashed with bcrypt. `None` when
/// hashing fails.
pub fn stored_credential(password: &[u8]) -> (r: Option<Vec<u8>>)
    ensures
        is_bcrypt_text(password@) ==> r.is_some() && r.unwrap()@ == password@,
        r.is_some() ==> is_bcrypt_text(r.unwrap()@),
        !is_bcrypt_text(password@) && r.is_some() ==> hash_accepts(r.unwrap()@, password@),
{
    let prefix: Vec<u8> = vec![36u8, 50u8];
    if starts_with(password, prefix.as_slice()) {
        Some(copy_bytes(password))
    } else {
        bcrypt_hash(password)
    }
}

/// The reply of `AUTH` once the user's record has been looked up.
pub open spec fn auth_reply_ok(f: Frame, user: Option<UserInfo>, password: Seq<u8>) -> bool {
    match user {
        None => is_error_text(f, "ERR no such user"@),
        Some(u) => if is_bcrypt_text(u.hash@) {
            valid_utf8(u.hash@) ==> match bcrypt_verdict(password, decode_utf8(u.hash@)) {
                Some(true) => is_simple_text(f, "OK"),
                Some(false) => is_error_text(f, "ERR invalid password"@),
                None => is_error_text(f, "ERR bcrypt verify error"@),
            }
        } else if u.hash@ == password {
            is_simple_text(f, "OK")
        } else {
            is_error_text(f, "ERR invalid password"@)
        },
    }
}

/// Check `password` for the user record `user` found (or not) under the name.
pub fn verify_user(user: Option<&UserInfo>, password: &[u8]) -> (r: Frame)
    ensures
        auth_reply_ok(
            r,
            match user {
                Some(u) => Some(*u),
                None => None,
            },
            password@,
        ),
{
    match user {
        None => error("ERR no such user"),
        Some(u) => {
            let prefix: Vec<u8> = vec![36u8, 50u8];
            if starts_with(u.hash.as_slice(), prefix.as_slice()) {
                let hash_text = lossy_text(u.hash.as_slice());
                match bcrypt_verify(password, hash_text.as_str()) {
                    Some(true) => ok(),
                    Some(false) => error("ERR invalid password"),
                    None => error("ERR bcrypt verify error"),
                }
            } else if bytes_equal(u.hash.as_slice(), password) {
                ok()
            } else {
                error("ERR invalid password")
            }
        },
    }
}

/// A parsed `ACL` subcommand.
pub enum ACLMethod {
    SetUser { user: Vec<u8>, password: Vec<u8>, rules: Option<Vec<u8>> },
    GetUser { user: Vec<u8> },
    DelUser { user: Vec<u8> },
    WhoAmI,
    List,
}

pub open spec fn acl_word(w: Seq<u8>, word: &str) -> bool {
    upper_seq(w) == word.spec_bytes()
}

/// The text of the error for an unknown subcommand `w`.
pub open spec fn unknown_subcommand_text(w: Seq<u8>) -> Seq<u8> {
    "ERR unknown ACL subcommand: ".spec_bytes() + upper_seq(w)
}

/// An `ACL` subcommand as the grammar reads it.
pub enum AclRequest {
    SetUser(Seq<u8>, Seq<u8>, Option<Seq<u8>>),
    GetUser(Seq<u8>),
    DelUser(Seq<u8>),
    WhoAmI,
    List,
}

/// The `ACL` grammar over the arguments after `ACL`. An error carries its
/// text, or none for an unknown subcommand, whose text is
/// `unknown_subcommand_text`.
pub open spec fn acl_request(args: Seq<Seq<u8>>) -> Result<AclRequest, Option<Seq<char>>> {
    if args.len() == 0 {
        Err(Some("ERR wrong number of arguments for 'ACL' command"@))
    } else if !valid_utf8(args[0]) {
        Err(Some("ERR invalid ACL subcommand"@))
    } else if acl_word(args[0], "SETUSER") {
        if args.len() < 3 {
            Err(Some("ERR wrong number of arguments for 'ACL SETUSER'"@))
        } else {
            Ok(AclRequest::SetUser(args[1], args[2], if args.len() >= 4 { Some(args[3]) } else { None }))
        }
    } else if acl_word(args[0], "GETUSER") {
        if args.len() < 2 {
            Err(Some("ERR wrong number of arguments for 'ACL GETUSER'"@))
        } else {
            Ok(AclRequest::GetUser(args[1]))
        }
    } else if acl_word(args[0], "DELUSER") {
        if args.len() < 2 {
            Err(Some("ERR wrong number of arguments for 'ACL DELUSER'"@))
        } else {
            Ok(AclRequest::DelUser(args[1]))
        }
    } else if acl_word(args[0], "LIST") {
        Ok(AclRequest::List)
    } else if acl_word(args[0], "WHOAMI") {
        Ok(AclRequest::WhoAmI)
    } else {
        Err(None)
    }
}

pub open spec fn method_is(m: ACLMethod, req: AclRequest) -> bool {
    match req {
        AclRequest::SetUser(user, password, rules) => m matches ACLMethod::SetUser {
            user: u,
            password: p,
            rules: r,
        } && u@ == user && p@ == password && match rules {
            Some(x) => r matches Some(y) && y@ == x,
            None => r is None,
        },
        AclRequest::GetUser(user) => m matches ACLMethod::GetUser { user: u } && u@ == user,
        AclRequest::DelUser(user) => m matches ACLMethod::DelUser { user: u } && u@ == user,
        AclRequest::WhoAmI => m is WhoAmI,
        AclRequest::List => m is List,
    }
}

/// `r` is the parse of `args` by the `ACL` grammar.
pub open spec fn acl_parse_ok(r: Result<ACLMethod, String>, args: Seq<Seq<u8>>) -> bool {
    match acl_request(args) {
        Ok(req) => r matches Ok(m) && method_is(m, req),
        Err(Some(text)) => r matches Err(e) && e@ == text,
        Err(None) => r matches Err(e) && (valid_utf8(unknown_subcommand_text(args[0])) ==> e@
            == decode_utf8(unknown_subcommand_text(args[0]))),
    }
}

/// Parse the arguments that follow `ACL`, the first being the subcommand.
pub fn parse_acl_command(args: &Vec<Vec<u8>>) -> (r: Result<ACLMethod, String>)
    ensures
        acl_parse_ok(r, vec_views(args@)),
{
    let ghost a = vec_views(args@);
    if args.len() == 0 {
        return Err("ERR wrong number of arguments for 'ACL' command".to_owned());
    }
    let sub = args[0].as_slice();
    assert(sub@ == a[0]);
    if !is_utf8(sub) {
        return Err("ERR invalid ACL subcommand".to_owned());
    }
    if eq_ignore_case(sub, "SETUSER") {
        if args.len() < 3 {
            return Err("ERR wrong number of arguments for 'ACL SETUSER'".to_owned());
        }
        let rules = if args.len() >= 4 {
            assert(args@[3]@ == a[3]);
            Some(args[3].clone())
        } else {
            None
        };
        assert(args@[1]@ == a[1] && args@[2]@ == a[2]);
        Ok(ACLMethod::SetUser { user: args[1].clone(), password: args[2].clone(), rules })
    } else if eq_ignore_case(sub, "GETUSER") {
        if args.len() < 2 {
            return Err("ERR wrong number of arguments for 'ACL GETUSER'".to_owned());
        }
        assert(args@[1]@ == a[1]);
        Ok(ACLMethod::GetUser { user: args[1].clone() })
    } else if eq_ignore_case(sub, "DELUSER") {
        if args.len() < 2 {
            return Err("ERR wrong number of arguments for 'ACL DELUSER'".to_owned());
        }
        assert(args@[1]@ == a[1]);
        Ok(ACLMethod::DelUser { user: args[1].clone() })
    } else if eq_ignore_case(sub, "LIST") {
        Ok(ACLMethod::List)
    } else if eq_ignore_case(sub, "WHOAMI") {
        Ok(ACLMethod::WhoAmI)
    } else {
        let mut text = text_bytes("ERR unknown ACL subcommand: ");
        let upper = crate::bytes::to_upper(sub);
        append_bytes(&mut text, upper.as_slice());
        Err(lossy_text(text.as_slice()))
    }
}

} // verus!

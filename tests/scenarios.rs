use std::collections::BTreeMap;

use redisgw::acl::{decode_user_record, encode_user_record, stored_credential, verify_user, AuthPrefix};
use redisgw::chunk::DataModel;
use redisgw::command::{dispatch, Command};
use redisgw::config::SocketConfig;
use redisgw::frame::{request_of, to_wire, Frame};
use redisgw::gateway::{append_reply, counter_reply, get_reply, getuser_reply, list_reply, record_auth, usernames_of};
use redisgw::lock::LockManager;
use redisgw::reader::ReadBuffer;
use redisgw::string::{bulk_or_null, GetOutcome, SetFlags, StringDataModel, StringPrefix, TtlWrite};

/// An ordered in-memory store standing in for the backing store.
struct Store {
    kv: BTreeMap<Vec<u8>, Vec<u8>>,
}

impl Store {
    fn new() -> Self {
        Store { kv: BTreeMap::new() }
    }

    fn scan(&self, start: &[u8], end: &[u8]) -> Vec<(Vec<u8>, Vec<u8>)> {
        self.kv
            .range(start.to_vec()..end.to_vec())
            .map(|(k, v)| (k.clone(), v.clone()))
            .collect()
    }

    fn clear_range(&mut self, start: &[u8], end: &[u8]) {
        let keys: Vec<Vec<u8>> = self.scan(start, end).into_iter().map(|(k, _)| k).collect();
        for k in keys {
            self.kv.remove(&k);
        }
    }
}

/// One client connection against the store, with a clock the test sets.
struct Node {
    store: Store,
    model: StringDataModel,
    now_ms: u128,
}

struct Conn {
    buf: ReadBuffer,
    session: SocketConfig,
}

impl Conn {
    fn new() -> Self {
        Conn { buf: ReadBuffer::new(), session: SocketConfig::default() }
    }
}

impl Node {
    fn new() -> Self {
        Node { store: Store::new(), model: StringDataModel::new(LockManager::standard()), now_ms: 1_700_000_000_000 }
    }

    fn stored(&self, key: &[u8]) -> (Vec<u8>, Vec<u8>, Option<Vec<u8>>) {
        let (data_key, bytes, _, row) = self.stored_full(key);
        (data_key, bytes, row)
    }

    fn stored_full(&self, key: &[u8]) -> (Vec<u8>, Vec<u8>, bool, Option<Vec<u8>>) {
        let data_key = StringPrefix::Data.pack(key);
        let end = DataModel::subspace_end(&data_key);
        let values: Vec<Vec<u8>> = self.store.scan(&data_key, &end).into_iter().map(|(_, v)| v).collect();
        let row = self.store.kv.get(&StringPrefix::Ttl.pack(key)).cloned();
        let present = !values.is_empty();
        (data_key, DataModel::reconstruct_bloc(&values), present, row)
    }

    fn delete(&mut self, key: &[u8]) {
        let data_key = StringPrefix::Data.pack(key);
        let end = DataModel::subspace_end(&data_key);
        self.store.clear_range(&data_key, &end);
        self.store.kv.remove(&StringPrefix::Ttl.pack(key));
    }

    fn get(&mut self, key: &[u8]) -> Option<Vec<u8>> {
        let (_, stored, present, row) = self.stored_full(key);
        match StringDataModel::get_outcome(stored, present, row.as_deref(), self.now_ms) {
            GetOutcome::Value(v) => Some(v),
            GetOutcome::Expired => {
                self.delete(key);
                None
            }
            GetOutcome::Absent => None,
        }
    }

    fn set(&mut self, key: &[u8], value: &[u8], flags: &SetFlags) -> Frame {
        let current = self.get(key);
        let (data_key, stored, present, _) = self.stored_full(key);
        let plan = self.model.plan_set(flags, current.as_deref(), present, stored.len(), value.len(), self.now_ms);
        if plan.write {
            if plan.clear_prior {
                let end = DataModel::subspace_end(&data_key);
                self.store.clear_range(&data_key, &end);
            }
            let wp = DataModel::plan_write(&data_key, value);
            for (start, end) in wp.batches.iter() {
                for i in *start..*end {
                    self.store.kv.insert(wp.keys[i].clone(), wp.chunks[i].clone());
                }
            }
            let ttl_key = StringPrefix::Ttl.pack(key);
            match plan.ttl {
                TtlWrite::Keep => {}
                TtlWrite::Clear => {
                    self.store.kv.remove(&ttl_key);
                }
                TtlWrite::Write(t) => {
                    self.store.kv.insert(ttl_key, StringDataModel::ttl_row(t));
                }
            }
        }
        plan.reply
    }

    fn execute(&mut self, cmd: Command, session: &mut SocketConfig) -> Frame {
        match cmd {
            Command::Reply(f) => f,
            Command::SetValue { key, value, flags } => self.set(&key, &value, &flags),
            Command::Get { key } => {
                let v = self.get(&key);
                get_reply(match v {
                    Some(v) => GetOutcome::Value(v),
                    None => GetOutcome::Absent,
                })
            }
            Command::Del { key } => {
                let existed = self.get(&key).is_some();
                self.delete(&key);
                StringDataModel::del_reply(existed)
            }
            Command::GetDel { key } => {
                let v = self.get(&key);
                self.delete(&key);
                bulk_or_null(v.as_deref())
            }
            Command::Add { key, delta } => {
                let (data_key, stored, _) = self.stored(&key);
                let result = StringDataModel::atomic_add(&stored, delta);
                if let Ok((_, text)) = &result {
                    let end = DataModel::subspace_end(&data_key);
                    self.store.clear_range(&data_key, &end);
                    self.store.kv.insert(DataModel::chunk_key(&data_key, 0), text.clone());
                }
                counter_reply(result)
            }
            Command::Append { key, value } => {
                let current = self.get(&key);
                let new_value = StringDataModel::appended(current.as_deref(), &value);
                self.set(&key, &new_value, &SetFlags::default());
                append_reply(new_value.len())
            }
            Command::Auth { user, password } => {
                let record = self.store.kv.get(&AuthPrefix::User.pack(&user)).cloned();
                let info = record.map(|r| decode_user_record(&r));
                let reply = verify_user(info.as_ref(), &password);
                record_auth(session, &user, &reply);
                reply
            }
            Command::AclSetUser { user, password, rules } => {
                let cred = stored_credential(&password).expect("hashing");
                let record = encode_user_record(&cred, rules.as_deref());
                self.store.kv.insert(AuthPrefix::User.pack(&user), record);
                Frame::SimpleString(b"OK".to_vec())
            }
            Command::AclGetUser { user } => {
                let record = self.store.kv.get(&AuthPrefix::User.pack(&user)).cloned();
                let info = record.map(|r| decode_user_record(&r));
                getuser_reply(&user, info.as_ref())
            }
            Command::AclDelUser { user } => {
                self.store.kv.remove(&AuthPrefix::User.pack(&user));
                Frame::SimpleString(b"OK".to_vec())
            }
            Command::AclList => {
                let (start, end) = AuthPrefix::User.range();
                let keys: Vec<Vec<u8>> = self.store.scan(&start, &end).into_iter().map(|(k, _)| k).collect();
                list_reply(&usernames_of(&keys))
            }
        }
    }

    /// Feed bytes to a connection as one read; the replies it writes back.
    fn feed(&mut self, conn: &mut Conn, bytes: &[u8]) -> Vec<u8> {
        let mut out = Vec::new();
        let mut rest = bytes;
        while !rest.is_empty() {
            assert!(conn.buf.make_room());
            let n = std::cmp::min(conn.buf.room(), rest.len());
            let absorbed = conn.buf.absorb(&rest[..n]);
            rest = &rest[n..];
            for frame in absorbed.frames {
                let reply = match request_of(&frame) {
                    Err(e) => e,
                    Ok(req) => {
                        let cmd = dispatch(&req, &mut conn.session);
                        self.execute(cmd, &mut conn.session)
                    }
                };
                out.extend_from_slice(&to_wire(&reply));
            }
        }
        out
    }
}

fn request(words: &[&[u8]]) -> Vec<u8> {
    let mut out = format!("*{}\r\n", words.len()).into_bytes();
    for w in words {
        out.extend_from_slice(format!("${}\r\n", w.len()).as_bytes());
        out.extend_from_slice(w);
        out.extend_from_slice(b"\r\n");
    }
    out
}

#[test]
fn set_then_get_over_the_wire() {
    let mut node = Node::new();
    let mut conn = Conn::new();
    let r1 = node.feed(&mut conn, b"*3\r\n$3\r\nSET\r\n$7\r\ne2e_key\r\n$5\r\nhello\r\n");
    assert_eq!(r1, b"+OK\r\n".to_vec());
    let r2 = node.feed(&mut conn, b"*2\r\n$3\r\nGET\r\n$7\r\ne2e_key\r\n");
    assert_eq!(r2, b"$5\r\nhello\r\n".to_vec());
}

#[test]
fn ping_with_and_without_message() {
    let mut node = Node::new();
    let mut conn = Conn::new();
    assert_eq!(node.feed(&mut conn, b"*1\r\n$4\r\nPING\r\n"), b"+PONG\r\n".to_vec());
    assert_eq!(node.feed(&mut conn, b"*2\r\n$4\r\nPING\r\n$5\r\nhello\r\n"), b"$5\r\nhello\r\n".to_vec());
}

#[test]
fn acl_setuser_getuser_auth_whoami_deluser() {
    let mut node = Node::new();
    let mut conn = Conn::new();
    let r = node.feed(&mut conn, &request(&[b"ACL", b"SETUSER", b"testuser", b"secret", b"on"]));
    assert_eq!(r, b"+OK\r\n".to_vec());
    let r = node.feed(&mut conn, &request(&[b"ACL", b"GETUSER", b"testuser"]));
    assert_eq!(r, b"*2\r\n$8\r\ntestuser\r\n$2\r\non\r\n".to_vec());
    let r = node.feed(&mut conn, &request(&[b"ACL", b"WHOAMI"]));
    assert_eq!(r, b"$7\r\ndefault\r\n".to_vec());
    let r = node.feed(&mut conn, &request(&[b"AUTH", b"testuser", b"secret"]));
    assert_eq!(r, b"+OK\r\n".to_vec());
    let r = node.feed(&mut conn, &request(&[b"ACL", b"WHOAMI"]));
    assert_eq!(r, b"$8\r\ntestuser\r\n".to_vec());
    let r = node.feed(&mut conn, &request(&[b"ACL", b"LIST"]));
    assert_eq!(r, b"*1\r\n$8\r\ntestuser\r\n".to_vec());
    let r = node.feed(&mut conn, &request(&[b"ACL", b"DELUSER", b"testuser"]));
    assert_eq!(r, b"+OK\r\n".to_vec());
    let r = node.feed(&mut conn, &request(&[b"ACL", b"GETUSER", b"testuser"]));
    assert_eq!(r, b"-ERR no such user\r\n".to_vec());
}

#[test]
fn auth_failures() {
    let mut node = Node::new();
    let mut conn = Conn::new();
    let r = node.feed(&mut conn, &request(&[b"AUTH", b"nobody", b"pw"]));
    assert_eq!(r, b"-ERR no such user\r\n".to_vec());
    let r = node.feed(&mut conn, &request(&[b"ACL", b"SETUSER", b"plain", b"$2notahash"]));
    assert_eq!(r, b"+OK\r\n".to_vec());
    let r = node.feed(&mut conn, &request(&[b"AUTH", b"plain", b"wrong"]));
    assert_eq!(r, b"-ERR bcrypt verify error\r\n".to_vec());
    assert!(conn.session.authenticated_user.is_none());
}

#[test]
fn pipelined_increments_count_exactly() {
    let mut node = Node::new();
    let mut conns: Vec<Conn> = (0..20).map(|_| Conn::new()).collect();
    node.feed(&mut conns[0], &request(&[b"SET", b"counter", b"0"]));
    for round in 0..10 {
        for (i, conn) in conns.iter_mut().enumerate() {
            let r = node.feed(conn, &request(&[b"INCR", b"counter"]));
            let expected = format!(":{}\r\n", round * 20 + i + 1).into_bytes();
            assert_eq!(r, expected);
        }
    }
    let r = node.feed(&mut conns[0], &request(&[b"GET", b"counter"]));
    assert_eq!(r, b"$3\r\n200\r\n".to_vec());
}

#[test]
fn ttl_in_seconds_expires() {
    let mut node = Node::new();
    let mut conn = Conn::new();
    node.feed(&mut conn, &request(&[b"SET", b"ttlkey", b"value", b"EX", b"1"]));
    assert_eq!(node.feed(&mut conn, &request(&[b"GET", b"ttlkey"])), b"$5\r\nvalue\r\n".to_vec());
    node.now_ms += 1200;
    assert_eq!(node.feed(&mut conn, &request(&[b"GET", b"ttlkey"])), b"$-1\r\n".to_vec());
    let (_, stored, row) = node.stored(b"ttlkey");
    assert!(stored.is_empty());
    assert!(row.is_none());
}

#[test]
fn quit_replies_ok_and_marks_close() {
    let mut node = Node::new();
    let mut conn = Conn::new();
    assert_eq!(node.feed(&mut conn, &request(&[b"QUIT"])), b"+OK\r\n".to_vec());
    assert!(conn.session.should_close);
}

#[test]
fn large_value_round_trip() {
    let mut node = Node::new();
    let mut conn = Conn::new();
    let value: Vec<u8> = (0..1_000_000u32).map(|i| (i.wrapping_mul(2654435761) >> 13) as u8).collect();
    let r = node.feed(&mut conn, &request(&[b"SET", b"big", &value]));
    assert_eq!(r, b"+OK\r\n".to_vec());
    assert_eq!(node.get(b"big"), Some(value.clone()));
    let (data_key, _, _) = node.stored(b"big");
    let end = DataModel::subspace_end(&data_key);
    assert_eq!(node.store.scan(&data_key, &end).len(), 10);
    let shorter = vec![1u8, 2, 3];
    node.feed(&mut conn, &request(&[b"SET", b"big", &shorter]));
    assert_eq!(node.get(b"big"), Some(shorter));
}

#[test]
fn del_twice_then_get() {
    let mut node = Node::new();
    let mut conn = Conn::new();
    node.feed(&mut conn, &request(&[b"SET", b"k", b"v"]));
    assert_eq!(node.feed(&mut conn, &request(&[b"DEL", b"k"])), b":1\r\n".to_vec());
    assert_eq!(node.feed(&mut conn, &request(&[b"DEL", b"k"])), b":0\r\n".to_vec());
    assert_eq!(node.feed(&mut conn, &request(&[b"GET", b"k"])), b"$-1\r\n".to_vec());
}

#[test]
fn nx_and_xx_conditions() {
    let mut node = Node::new();
    let mut conn = Conn::new();
    assert_eq!(node.feed(&mut conn, &request(&[b"SET", b"nxkey", b"v1", b"NX"])), b"+OK\r\n".to_vec());
    assert_eq!(node.feed(&mut conn, &request(&[b"SET", b"nxkey", b"v2", b"nx"])), b"$-1\r\n".to_vec());
    assert_eq!(node.get(b"nxkey"), Some(b"v1".to_vec()));
    assert_eq!(node.feed(&mut conn, &request(&[b"SET", b"xxkey", b"v1", b"XX"])), b"$-1\r\n".to_vec());
    assert_eq!(node.get(b"xxkey"), None);
    node.feed(&mut conn, &request(&[b"SET", b"xxkey", b"v0"]));
    assert_eq!(node.feed(&mut conn, &request(&[b"SET", b"xxkey", b"v1", b"XX"])), b"+OK\r\n".to_vec());
    assert_eq!(node.get(b"xxkey"), Some(b"v1".to_vec()));
}

#[test]
fn px_expiry_and_keepttl() {
    let mut node = Node::new();
    let mut conn = Conn::new();
    node.feed(&mut conn, &request(&[b"SET", b"ttl_key", b"vttl", b"PX", b"100"]));
    assert_eq!(node.get(b"ttl_key"), Some(b"vttl".to_vec()));
    node.now_ms += 200;
    assert_eq!(node.get(b"ttl_key"), None);

    node.feed(&mut conn, &request(&[b"SET", b"keep_ttl", b"v1", b"PX", b"300"]));
    node.feed(&mut conn, &request(&[b"SET", b"keep_ttl", b"v2", b"KEEPTTL"]));
    node.now_ms += 150;
    assert_eq!(node.get(b"keep_ttl"), Some(b"v2".to_vec()));
    node.now_ms += 200;
    assert_eq!(node.get(b"keep_ttl"), None);
}

#[test]
fn plain_set_clears_expiry() {
    let mut node = Node::new();
    let mut conn = Conn::new();
    node.feed(&mut conn, &request(&[b"SET", b"k", b"v1", b"PX", b"100"]));
    node.feed(&mut conn, &request(&[b"SET", b"k", b"v2"]));
    node.now_ms += 1000;
    assert_eq!(node.get(b"k"), Some(b"v2".to_vec()));
}

#[test]
fn set_with_get_flag_returns_old_value() {
    let mut node = Node::new();
    let mut conn = Conn::new();
    node.feed(&mut conn, &request(&[b"SET", b"getflag", b"old"]));
    assert_eq!(node.feed(&mut conn, &request(&[b"SET", b"getflag", b"new", b"GET"])), b"$3\r\nold\r\n".to_vec());
    assert_eq!(node.get(b"getflag"), Some(b"new".to_vec()));
    assert_eq!(node.feed(&mut conn, &request(&[b"SET", b"fresh", b"x", b"GET"])), b"$-1\r\n".to_vec());
}

#[test]
fn getdel_and_append() {
    let mut node = Node::new();
    let mut conn = Conn::new();
    node.feed(&mut conn, &request(&[b"SET", b"key", b"value"]));
    assert_eq!(node.feed(&mut conn, &request(&[b"GETDEL", b"key"])), b"$5\r\nvalue\r\n".to_vec());
    assert_eq!(node.feed(&mut conn, &request(&[b"GETDEL", b"key"])), b"$-1\r\n".to_vec());
    assert_eq!(node.feed(&mut conn, &request(&[b"APPEND", b"app_key", b"hello"])), b":5\r\n".to_vec());
    assert_eq!(node.feed(&mut conn, &request(&[b"APPEND", b"app_key", b", you"])), b":10\r\n".to_vec());
    assert_eq!(node.get(b"app_key"), Some(b"hello, you".to_vec()));
}

#[test]
fn incr_decr_and_by() {
    let mut node = Node::new();
    let mut conn = Conn::new();
    node.feed(&mut conn, &request(&[b"SET", b"counter", b"0"]));
    assert_eq!(node.feed(&mut conn, &request(&[b"INCR", b"counter"])), b":1\r\n".to_vec());
    assert_eq!(node.feed(&mut conn, &request(&[b"DECR", b"counter"])), b":0\r\n".to_vec());
    assert_eq!(node.feed(&mut conn, &request(&[b"DECR", b"counter"])), b":-1\r\n".to_vec());
    node.feed(&mut conn, &request(&[b"SET", b"counter", b"100"]));
    assert_eq!(node.feed(&mut conn, &request(&[b"INCRBY", b"counter", b"10"])), b":110\r\n".to_vec());
    assert_eq!(node.feed(&mut conn, &request(&[b"DECRBY", b"counter", b"109"])), b":1\r\n".to_vec());
    assert_eq!(node.feed(&mut conn, &request(&[b"DECRBY", b"counter", b"10"])), b":-9\r\n".to_vec());
    assert_eq!(
        node.feed(&mut conn, &request(&[b"INCRBY", b"counter", b"ten"])),
        b"-ERR value is not an integer or out of range\r\n".to_vec()
    );
    node.feed(&mut conn, &request(&[b"SET", b"word", b"abc"]));
    assert_eq!(
        node.feed(&mut conn, &request(&[b"INCR", b"word"])),
        b"-ERR value is not an integer or out of range\r\n".to_vec()
    );
    assert_eq!(node.feed(&mut conn, &request(&[b"INCR", b"missing"])), b":1\r\n".to_vec());
}

#[test]
fn fragmented_pipeline_gives_same_replies() {
    let mut stream = Vec::new();
    stream.extend_from_slice(&request(&[b"SET", b"a", b"1"]));
    stream.extend_from_slice(&request(&[b"INCR", b"a"]));
    stream.extend_from_slice(&request(&[b"GET", b"a"]));
    stream.extend_from_slice(&request(&[b"PING"]));
    let mut whole_node = Node::new();
    let whole = whole_node.feed(&mut Conn::new(), &stream);
    assert_eq!(whole, b"+OK\r\n:2\r\n$1\r\n2\r\n+PONG\r\n".to_vec());
    for step in [1usize, 2, 3, 5, 7, 11] {
        let mut node = Node::new();
        let mut conn = Conn::new();
        let mut out = Vec::new();
        for piece in stream.chunks(step) {
            out.extend_from_slice(&node.feed(&mut conn, piece));
        }
        assert_eq!(out, whole);
    }
}

#[test]
fn unknown_and_invalid_commands() {
    let mut node = Node::new();
    let mut conn = Conn::new();
    let r = node.feed(&mut conn, &request(&[b"FLY", b"a", b"b"]));
    assert_eq!(r, b"-ERR unknown command 'FLY', with args beginning with: 'a b'\r\n".to_vec());
    let r = node.feed(&mut conn, b"+PING\r\n");
    assert_eq!(r, b"-ERR invalid command\r\n".to_vec());
    let r = node.feed(&mut conn, &request(&[b"GET"]));
    assert_eq!(r, b"-ERR wrong number of arguments for 'GET' command\r\n".to_vec());
}

#[test]
fn connection_commands() {
    let mut node = Node::new();
    let mut conn = Conn::new();
    assert_eq!(node.feed(&mut conn, &request(&[b"echo", b"hi"])), b"$2\r\nhi\r\n".to_vec());
    assert_eq!(node.feed(&mut conn, &request(&[b"HELLO", b"3"])), b"+OK\r\n".to_vec());
    assert_eq!(node.feed(&mut conn, &request(&[b"SELECT", b"2"])), b"+OK\r\n".to_vec());
    assert_eq!(conn.session.selected_db, 2);
    assert_eq!(node.feed(&mut conn, &request(&[b"SELECT", b"x"])), b"-ERR invalid DB index\r\n".to_vec());
    assert_eq!(node.feed(&mut conn, &request(&[b"CLIENT", b"GETNAME"])), b"$-1\r\n".to_vec());
    assert_eq!(node.feed(&mut conn, &request(&[b"CLIENT", b"SETNAME", b"me"])), b"+OK\r\n".to_vec());
    assert_eq!(node.feed(&mut conn, &request(&[b"client", b"getname"])), b"$2\r\nme\r\n".to_vec());
    assert_eq!(
        node.feed(&mut conn, &request(&[b"CLIENT", b"KILL"])),
        b"-ERR CLIENT subcommand not implemented\r\n".to_vec()
    );
}

#[test]
fn chunk_keys_sort_in_index_order() {
    let mut store = Store::new();
    let data_key = StringPrefix::Data.pack(b"my_rand_key");
    let mut seed: u32 = 12345;
    let value: Vec<u8> = (0..26_000_000usize)
        .map(|_| {
            seed = seed.wrapping_mul(1103515245).wrapping_add(12345);
            (seed >> 16) as u8
        })
        .collect();
    let plan = DataModel::plan_write(&data_key, &value);
    assert_eq!(plan.chunks.len(), 260);
    assert_eq!(plan.batches, vec![(0, 90), (90, 180), (180, 260)]);
    for (start, end) in plan.batches.iter().rev() {
        for i in (*start..*end).rev() {
            store.kv.insert(plan.keys[i].clone(), plan.chunks[i].clone());
        }
    }
    let end = DataModel::subspace_end(&data_key);
    let mut values = Vec::new();
    let mut from = data_key.clone();
    loop {
        let page: Vec<(Vec<u8>, Vec<u8>)> = store.scan(&from, &end).into_iter().take(20).collect();
        match page.last() {
            None => break,
            Some((last, _)) => from = DataModel::next_page_start(last),
        }
        values.extend(page.into_iter().map(|(_, v)| v));
    }
    assert_eq!(values.len(), 260);
    assert_eq!(DataModel::reconstruct_bloc(&values), value);
}

#[test]
fn empty_value_round_trip_and_expiry() {
    let mut node = Node::new();
    let mut conn = Conn::new();
    assert_eq!(node.feed(&mut conn, &request(&[b"SET", b"e", b""])), b"+OK\r\n".to_vec());
    assert_eq!(node.feed(&mut conn, &request(&[b"GET", b"e"])), b"$0\r\n\r\n".to_vec());
    assert_eq!(node.feed(&mut conn, &request(&[b"SET", b"e", b"", b"NX"])), b"$-1\r\n".to_vec());
    assert_eq!(node.feed(&mut conn, &request(&[b"DEL", b"e"])), b":1\r\n".to_vec());
    assert_eq!(node.feed(&mut conn, &request(&[b"GET", b"e"])), b"$-1\r\n".to_vec());
    node.feed(&mut conn, &request(&[b"SET", b"e2", b"", b"PX", b"100"]));
    node.now_ms += 200;
    assert_eq!(node.feed(&mut conn, &request(&[b"GET", b"e2"])), b"$-1\r\n".to_vec());
    let (_, _, present, row) = node.stored_full(b"e2");
    assert!(!present);
    assert!(row.is_none());
}

#[test]
fn request_with_non_string_item_is_invalid() {
    let mut node = Node::new();
    let mut conn = Conn::new();
    let r = node.feed(&mut conn, b"*3\r\n$3\r\nSET\r\n$1\r\nk\r\n:5\r\n");
    assert_eq!(r, b"-ERR invalid command\r\n".to_vec());
    assert_eq!(node.get(b"k"), None);
}

#[test]
fn ping_echoes_any_bytes() {
    let mut node = Node::new();
    let mut conn = Conn::new();
    let r = node.feed(&mut conn, &request(&[b"PING", &[0xff, 0xfe]]));
    assert_eq!(r, vec![b'$', b'2', b'\r', b'\n', 0xff, 0xfe, b'\r', b'\n']);
}

#[test]
fn large_integers_on_the_wire() {
    let mut node = Node::new();
    let mut conn = Conn::new();
    let r = node.feed(&mut conn, &request(&[b"INCRBY", b"big", b"999999999999999"]));
    assert_eq!(r, b":999999999999999\r\n".to_vec());
    let r = node.feed(&mut conn, &request(&[b"INCRBY", b"min", b"-9223372036854775808"]));
    assert_eq!(r, b":-9223372036854775808\r\n".to_vec());
}

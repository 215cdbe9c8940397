use redisgw::acl::{
    decode_user_record, encode_user_record, parse_acl_command, stored_credential, verify_user, ACLMethod,
    AuthPrefix, UserInfo,
};
use redisgw::chunk::{BatchStep, DataModel, Prefix, MAX_RETRIES};
use redisgw::config::{ServerConfig, SocketConfig};
use redisgw::decimal::{format_i64, parse_i64, parse_u64};
use redisgw::bytes::{u128_from_be, u128_to_be};
use redisgw::frame::{to_wire, Frame};
use redisgw::gateway::usernames_of;
use redisgw::lock::{AcquireDecision, Backoff, LockManager, DEFAULT_TIMEOUT_MS, LOCK_TTL_MS};
use redisgw::reader::{ReadBuffer, INITIAL_BUF_SIZE, MAX_BUF_SIZE};
use redisgw::string::{parse_set_extra_args, GetOutcome, SetFlags, SetMethod, SetTTL, StringDataModel, StringPrefix};

fn words(ws: &[&str]) -> Vec<Vec<u8>> {
    ws.iter().map(|w| w.as_bytes().to_vec()).collect()
}

#[test]
fn set_options_parse_in_any_case() {
    let f = parse_set_extra_args(&words(&["nx", "GET", "px", "250"]));
    assert_eq!(f, SetFlags { method: Some(SetMethod::NX), ttl: Some(SetTTL::Px(250)), get: true });
    let f = parse_set_extra_args(&words(&["XX", "exat", "17", "KeepTtl"]));
    assert_eq!(f, SetFlags { method: Some(SetMethod::XX), ttl: Some(SetTTL::KeepTTL), get: false });
    let f = parse_set_extra_args(&words(&["EX", "ten", "PXAT", "99"]));
    assert_eq!(f, SetFlags { method: None, ttl: Some(SetTTL::PxAt(99)), get: false });
    let f = parse_set_extra_args(&words(&["whatever", "EX"]));
    assert_eq!(f, SetFlags::default());
    assert_eq!(parse_set_extra_args(&Vec::new()), SetFlags::plain());
}

#[test]
fn decimal_parsing_matches_std() {
    for s in ["0", "+7", "-0", "42", "9223372036854775807", "-9223372036854775808", "", "+", "-", "1a", " 1", "9223372036854775808", "-9223372036854775809"] {
        assert_eq!(parse_i64(s.as_bytes()), s.parse::<i64>().ok(), "{}", s);
    }
    for s in ["0", "+7", "18446744073709551615", "18446744073709551616", "-1", "", "007"] {
        assert_eq!(parse_u64(s.as_bytes()), s.parse::<u64>().ok(), "{}", s);
    }
}

#[test]
fn decimal_formatting_matches_std() {
    for n in [0i64, 7, -7, 10, 99, 100, i64::MAX, i64::MIN] {
        assert_eq!(format_i64(n), n.to_string().into_bytes());
    }
}

#[test]
fn big_endian_rows() {
    for v in [0u128, 1, 255, 256, 1_700_000_000_123, u128::MAX] {
        let b = u128_to_be(v);
        assert_eq!(b, v.to_be_bytes().to_vec());
        assert_eq!(u128_from_be(&b), v);
    }
    assert_eq!(StringDataModel::ttl_row(258), 258u128.to_be_bytes().to_vec());
}

#[test]
fn expiry_times() {
    assert_eq!(SetTTL::Ex(2).expiry_at(1000), 3000);
    assert_eq!(SetTTL::Px(5).expiry_at(1000), 1005);
    assert_eq!(SetTTL::ExAt(7).expiry_at(1000), 7000);
    assert_eq!(SetTTL::PxAt(7).expiry_at(1000), 7);
    assert_eq!(SetTTL::KeepTTL.expiry_at(1000), 0);
    assert_eq!(SetTTL::KeepTTL.unix_epoch_in_ms(), Ok(0));
    let soon = SetTTL::Px(60_000).unix_epoch_in_ms().unwrap();
    assert!(soon > 1_600_000_000_000 + 60_000);
}

#[test]
fn get_outcome_checks_expiry() {
    let row = StringDataModel::ttl_row(500);
    assert!(matches!(StringDataModel::get_outcome(b"v".to_vec(), true, Some(&row), 500), GetOutcome::Expired));
    assert!(matches!(StringDataModel::get_outcome(b"v".to_vec(), true, Some(&row), 499), GetOutcome::Value(_)));
    let never = StringDataModel::ttl_row(0);
    assert!(matches!(StringDataModel::get_outcome(b"v".to_vec(), true, Some(&never), 10_000), GetOutcome::Value(_)));
    assert!(matches!(StringDataModel::get_outcome(b"v".to_vec(), true, Some(b"short"), 10_000), GetOutcome::Value(_)));
    assert!(matches!(StringDataModel::get_outcome(Vec::new(), false, None, 0), GetOutcome::Absent));
    assert!(matches!(StringDataModel::get_outcome(Vec::new(), true, None, 0), GetOutcome::Value(v) if v.is_empty()));
}

#[test]
fn counter_steps() {
    assert_eq!(StringDataModel::atomic_add(b"", 5).unwrap(), (5, b"5".to_vec()));
    assert_eq!(StringDataModel::atomic_add(b"-3", 1).unwrap(), (-2, b"-2".to_vec()));
    let wrapped = StringDataModel::atomic_add(b"9223372036854775807", 1).unwrap();
    assert_eq!(wrapped.0, i64::MIN);
    assert!(StringDataModel::atomic_add(&[0xff, 0x31], 1).is_err());
    assert_eq!(
        StringDataModel::atomic_add(b"1.5", 1).unwrap_err(),
        Frame::Error("ERR value is not an integer or out of range".to_string())
    );
}

#[test]
fn lock_thresholds_and_schedule() {
    let lm = LockManager::standard();
    assert_eq!(lm.lock_ttl_ms, LOCK_TTL_MS);
    assert!(lm.should_lock_for_size(100_000));
    assert!(!lm.should_lock_for_size(99_999));
    assert_eq!(lm.timeout_or_default(None), DEFAULT_TIMEOUT_MS);
    assert_eq!(lm.timeout_or_default(Some(5)), 5);
    let arc = LockManager::new(1, 2, 3).into_arc();
    assert_eq!(arc.lock_size_threshold, 1);
    let mut b = Backoff::for_acquire();
    let delays: Vec<u64> = (0..8).map(|_| b.next_delay()).collect();
    assert_eq!(delays, vec![10, 20, 40, 80, 160, 320, 500, 500]);
    let mut w = Backoff::for_unlock_wait();
    let delays: Vec<u64> = (0..7).map(|_| w.next_delay()).collect();
    assert_eq!(delays, vec![5, 10, 20, 40, 80, 160, 200]);
    assert!(LockManager::may_try(30_000, 30_000));
    assert!(!LockManager::may_try(30_001, 30_000));
}

#[test]
fn lock_acquire_and_release_decisions() {
    let lm = LockManager::standard();
    let (value, text) = LockManager::new_token();
    assert_eq!(text.len(), 36);
    let owner_ms = LockManager::token_time_ms(value);
    assert!(owner_ms > 1_600_000_000_000);
    assert_eq!(lm.decide_acquire(None, owner_ms), AcquireDecision::Take);
    assert_eq!(lm.decide_acquire(Some(&text), owner_ms + 10_000), AcquireDecision::Wait);
    assert_eq!(lm.decide_acquire(Some(&text), owner_ms + 10_001), AcquireDecision::Take);
    assert_eq!(lm.decide_acquire(Some(b"garbage"), owner_ms + 99_999), AcquireDecision::Wait);
    assert!(LockManager::release_matches(Some(&text), &text));
    assert!(!LockManager::release_matches(Some(&text), b"0000"));
    assert!(!LockManager::release_matches(None, &text));
    assert!(!LockManager::release_matches(Some(&[0xff, 0xfe]), &[0xff]));
    assert_ne!(LockManager::lock_key(b"k"), b"k".to_vec());
}

#[test]
fn batch_retry_steps() {
    assert_eq!(DataModel::retry_step(1, true), BatchStep::Done);
    assert_eq!(DataModel::retry_step(1, false), BatchStep::Retry);
    assert_eq!(DataModel::retry_step(MAX_RETRIES, false), BatchStep::GiveUp);
}

#[test]
fn keys_are_tuple_packed() {
    assert_eq!(Prefix::Data.as_u64(), 11);
    assert_eq!(Prefix::Lock.as_u64(), 13);
    assert_eq!(StringPrefix::Ttl.as_u64(), 12);
    assert_eq!(AuthPrefix::User.as_u64(), 21);
    let data_key = StringPrefix::Data.pack(b"abc");
    assert_eq!(data_key, vec![0x15, 11, 0x01, b'a', b'b', b'c', 0x00]);
    let chunk = DataModel::chunk_key(&data_key, 3);
    assert_eq!(chunk, vec![0x15, 11, 0x01, b'a', b'b', b'c', 0x00, 0x15, 3]);
    assert_eq!(DataModel::next_page_start(&chunk).last(), Some(&0xFF));
    let names = usernames_of(&vec![AuthPrefix::User.pack(b"alice"), b"raw".to_vec()]);
    assert_eq!(names, vec![b"alice".to_vec(), b"raw".to_vec()]);
    let (start, end) = AuthPrefix::User.range();
    assert_eq!(start, vec![0x15, 21]);
    assert_eq!(end, vec![0x15, 21, 0xFF]);
}

#[test]
fn user_records() {
    let rec = encode_user_record(b"$2b$hash", Some(b"on"));
    assert_eq!(rec, b"$2b$hash\non".to_vec());
    let info = decode_user_record(&rec);
    assert_eq!(info.hash, b"$2b$hash".to_vec());
    assert_eq!(info.rules, Some("on".to_string()));
    let info = decode_user_record(b"plain\n");
    assert_eq!(info.rules, None);
    let info = decode_user_record(b"nosep");
    assert_eq!(info.hash, b"nosep".to_vec());
    let hashed = stored_credential(b"secret").unwrap();
    assert_eq!(hashed.len(), 60);
    assert!(!hashed.contains(&b'\n'));
    assert_eq!(decode_user_record(&encode_user_record(&hashed, Some(b"on"))).hash, hashed);
    assert!(hashed.starts_with(b"$2b$"));
    assert_eq!(stored_credential(b"$2y$kept").unwrap(), b"$2y$kept".to_vec());
    let user = UserInfo { hash: hashed, rules: None };
    assert_eq!(verify_user(Some(&user), b"secret"), Frame::SimpleString(b"OK".to_vec()));
    assert_eq!(verify_user(Some(&user), b"nope"), Frame::Error("ERR invalid password".to_string()));
    let literal = UserInfo { hash: b"pw".to_vec(), rules: None };
    assert_eq!(verify_user(Some(&literal), b"pw"), Frame::SimpleString(b"OK".to_vec()));
    assert_eq!(verify_user(None, b"pw"), Frame::Error("ERR no such user".to_string()));
}

#[test]
fn acl_grammar() {
    assert!(matches!(parse_acl_command(&words(&["setuser", "u", "p"])), Ok(ACLMethod::SetUser { rules: None, .. })));
    assert!(matches!(parse_acl_command(&words(&["SETUSER", "u", "p", "r"])), Ok(ACLMethod::SetUser { rules: Some(_), .. })));
    assert!(matches!(parse_acl_command(&words(&["whoami"])), Ok(ACLMethod::WhoAmI)));
    assert!(matches!(parse_acl_command(&words(&["List"])), Ok(ACLMethod::List)));
    assert_eq!(parse_acl_command(&Vec::new()).err(), Some("ERR wrong number of arguments for 'ACL' command".to_string()));
    assert_eq!(
        parse_acl_command(&words(&["SETUSER", "u"])).err(),
        Some("ERR wrong number of arguments for 'ACL SETUSER'".to_string())
    );
    assert_eq!(
        parse_acl_command(&words(&["GETUSER"])).err(),
        Some("ERR wrong number of arguments for 'ACL GETUSER'".to_string())
    );
    assert_eq!(
        parse_acl_command(&words(&["DELUSER"])).err(),
        Some("ERR wrong number of arguments for 'ACL DELUSER'".to_string())
    );
    assert_eq!(parse_acl_command(&vec![vec![0xff]]).err(), Some("ERR invalid ACL subcommand".to_string()));
    assert_eq!(parse_acl_command(&words(&["cat"])).err(), Some("ERR unknown ACL subcommand: CAT".to_string()));
}

#[test]
fn wire_forms() {
    assert_eq!(to_wire(&Frame::Integer(-12)), b":-12\r\n".to_vec());
    assert_eq!(to_wire(&Frame::Null), b"$-1\r\n".to_vec());
    assert_eq!(to_wire(&Frame::Error("ERR x".to_string())), b"-ERR x\r\n".to_vec());
    let arr = Frame::Array(vec![Frame::BulkString(b"a".to_vec()), Frame::Null]);
    assert_eq!(to_wire(&arr), b"*2\r\n$1\r\na\r\n$-1\r\n".to_vec());
    assert_eq!(to_wire(&Frame::Integer(999_999_999_999_999)), b":999999999999999\r\n".to_vec());
    assert_eq!(to_wire(&Frame::Integer(i64::MIN)), b":-9223372036854775808\r\n".to_vec());
    let nested = Frame::Array(vec![Frame::Array(vec![Frame::Integer(1)]), Frame::SimpleString(b"x".to_vec())]);
    assert_eq!(to_wire(&nested), b"*2\r\n*1\r\n:1\r\n+x\r\n".to_vec());
    assert_eq!(to_wire(&Frame::BulkString(Vec::new())), b"$0\r\n\r\n".to_vec());
}

#[test]
fn read_buffer_growth_and_overflow() {
    let mut buf = ReadBuffer::new();
    assert_eq!(buf.capacity(), INITIAL_BUF_SIZE);
    let partial = vec![b'*'; 5000];
    assert!(buf.make_room());
    let r = buf.absorb(b"*1\r\n$4\r\nPI");
    assert!(r.frames.is_empty());
    assert_eq!(buf.pending(), &b"*1\r\n$4\r\nPI".to_vec());
    let r = buf.absorb(b"NG\r\n");
    assert_eq!(r.frames.len(), 1);
    assert!(buf.pending().is_empty());
    let r = buf.absorb(&partial[..4]);
    assert!(r.invalid || r.frames.is_empty());
    let mut big = ReadBuffer::new();
    let head = b"$100000\r\n".to_vec();
    let r = big.absorb(&head);
    assert!(r.frames.is_empty());
    let body = vec![b'x'; INITIAL_BUF_SIZE - head.len()];
    let r = big.absorb(&body);
    assert!(r.frames.is_empty());
    assert_eq!(big.capacity(), 2 * INITIAL_BUF_SIZE);
    assert_eq!(big.room(), INITIAL_BUF_SIZE);
    assert!(big.make_room());
    assert_eq!(big.capacity(), 2 * INITIAL_BUF_SIZE);
    assert!(MAX_BUF_SIZE > big.capacity());
    let mut bad = ReadBuffer::new();
    let r = bad.absorb(b"?what\r\n");
    assert!(r.invalid);
    assert!(bad.pending().is_empty());
}

#[test]
fn configs_start_fresh() {
    let s = SocketConfig::default();
    assert!(!s.should_close && s.selected_db == 0 && s.authenticated_user.is_none() && s.client_name.is_none());
    let mut s2 = s.clone();
    s2.mark_close();
    assert!(s2.should_close);
    let c = ServerConfig::default();
    assert_eq!(c.bind, "127.0.0.1:6379");
    assert_eq!(c.default_db, 0);
}

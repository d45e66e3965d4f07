use miniredis::command::CommandError;
use miniredis::store::Server;
use miniredis::Value;

fn bulk(s: &[u8]) -> Value {
    Value::BulkString(s.to_vec())
}

#[test]
fn get_on_a_key_never_set_is_null() {
    let server = Server::new();
    let r = server.get(vec![bulk(b"missing")], 0).unwrap();
    assert_eq!(r, Value::NullBulkString);
}

#[test]
fn set_then_get_returns_the_value() {
    let mut server = Server::new();
    let ok = server.set(vec![bulk(b"k"), bulk(b"v")], 100).unwrap();
    assert_eq!(ok, Value::SimpleString(b"OK".to_vec()));
    let r = server.get(vec![bulk(b"k")], 150).unwrap();
    assert_eq!(r, Value::SimpleString(b"v".to_vec()));
}

#[test]
fn set_without_ttl_never_expires() {
    let mut server = Server::new();
    server.set(vec![bulk(b"k"), bulk(b"v")], 0).unwrap();
    for now in [0u64, 1, 1_000, 1_000_000, u64::MAX] {
        let r = server.get(vec![bulk(b"k")], now).unwrap();
        assert_eq!(r, Value::SimpleString(b"v".to_vec()));
    }
}

#[test]
fn set_overwrites_a_previous_value() {
    let mut server = Server::new();
    server.set(vec![bulk(b"k"), bulk(b"v1")], 0).unwrap();
    server.set(vec![bulk(b"k"), bulk(b"v2")], 10).unwrap();
    let r = server.get(vec![bulk(b"k")], 20).unwrap();
    assert_eq!(r, Value::SimpleString(b"v2".to_vec()));
}

#[test]
fn px_entry_lives_within_ttl_and_expires_after() {
    let mut server = Server::new();
    server
        .set(vec![bulk(b"k"), bulk(b"v"), bulk(b"px"), bulk(b"50")], 1_000)
        .unwrap();
    let live = server.get(vec![bulk(b"k")], 1_000).unwrap();
    assert_eq!(live, Value::SimpleString(b"v".to_vec()));
    let at_limit = server.get(vec![bulk(b"k")], 1_050).unwrap();
    assert_eq!(at_limit, Value::SimpleString(b"v".to_vec()));
    let expired = server.get(vec![bulk(b"k")], 1_051).unwrap();
    assert_eq!(expired, Value::NullBulkString);
}

#[test]
fn expired_entry_stays_present_rather_than_evicted() {
    let mut server = Server::new();
    server
        .set(vec![bulk(b"k"), bulk(b"v"), bulk(b"px"), bulk(b"50")], 1_000)
        .unwrap();
    let expired = server.get(vec![bulk(b"k")], 2_000).unwrap();
    assert_eq!(expired, Value::NullBulkString);
    // The entry was only read as absent: an earlier clock reading still
    // finds it in the table.
    let still_there = server.get(vec![bulk(b"k")], 1_025).unwrap();
    assert_eq!(still_there, Value::SimpleString(b"v".to_vec()));
}

#[test]
fn disjoint_keys_do_not_disturb_one_another() {
    let mut server = Server::new();
    server.set(vec![bulk(b"a"), bulk(b"1")], 0).unwrap();
    server.set(vec![bulk(b"b"), bulk(b"2")], 0).unwrap();
    server.set(vec![bulk(b"c"), bulk(b"3")], 0).unwrap();
    server.set(vec![bulk(b"b"), bulk(b"22")], 5).unwrap();
    assert_eq!(
        server.get(vec![bulk(b"a")], 10).unwrap(),
        Value::SimpleString(b"1".to_vec())
    );
    assert_eq!(
        server.get(vec![bulk(b"b")], 10).unwrap(),
        Value::SimpleString(b"22".to_vec())
    );
    assert_eq!(
        server.get(vec![bulk(b"c")], 10).unwrap(),
        Value::SimpleString(b"3".to_vec())
    );
}

#[test]
fn set_with_px_and_no_duration_stores_without_expiry() {
    let mut server = Server::new();
    server
        .set(vec![bulk(b"k"), bulk(b"v"), bulk(b"px")], 0)
        .unwrap();
    let r = server.get(vec![bulk(b"k")], u64::MAX).unwrap();
    assert_eq!(r, Value::SimpleString(b"v".to_vec()));
}

#[test]
fn set_with_a_wrong_option_token_is_refused() {
    let mut server = Server::new();
    let e = server
        .set(vec![bulk(b"k"), bulk(b"v"), bulk(b"ex"), bulk(b"50")], 0)
        .unwrap_err();
    assert_eq!(e, CommandError::InvalidExpiryOption);
}

#[test]
fn set_with_a_bad_duration_is_refused() {
    let mut server = Server::new();
    let e = server
        .set(vec![bulk(b"k"), bulk(b"v"), bulk(b"px"), bulk(b"soon")], 0)
        .unwrap_err();
    assert_eq!(e, CommandError::InvalidExpiryValue);
    let e2 = server
        .set(vec![bulk(b"k"), bulk(b"v"), bulk(b"px"), bulk(b"-5")], 0)
        .unwrap_err();
    assert_eq!(e2, CommandError::InvalidExpiryValue);
}

#[test]
fn set_with_too_few_arguments_is_refused() {
    let mut server = Server::new();
    let e = server.set(vec![bulk(b"k")], 0).unwrap_err();
    assert_eq!(e, CommandError::WrongArity);
    let e2 = server.set(Vec::new(), 0).unwrap_err();
    assert_eq!(e2, CommandError::WrongArity);
}

#[test]
fn set_with_a_non_bulk_argument_is_refused() {
    let mut server = Server::new();
    let e = server
        .set(vec![Value::NullBulkString, bulk(b"v")], 0)
        .unwrap_err();
    assert_eq!(e, CommandError::NotBulkString);
}

#[test]
fn get_with_no_arguments_is_refused() {
    let server = Server::new();
    let e = server.get(Vec::new(), 0).unwrap_err();
    assert_eq!(e, CommandError::WrongArity);
}

use bytes::{Bytes, BytesMut};
use respkv::redis::parse;
use respkv::table::Table;
use respkv::types::{
    RedisValue, ReturnError, ReturnValue, write_bulk_string_nil, write_simple_string,
};

fn bs(s: &[u8]) -> RedisValue {
    RedisValue::String(Bytes::copy_from_slice(s))
}

#[test]
fn encoders_produce_exact_wire_bytes() {
    let simple = write_simple_string(Bytes::copy_from_slice(b"OK"));
    assert_eq!(&simple[..], b"+OK\r\n");
    let bulk = respkv::types::write_bulk_string(Bytes::copy_from_slice(b"hello"));
    assert_eq!(&bulk[..], b"$5\r\nhello\r\n");
    let empty = respkv::types::write_bulk_string(Bytes::copy_from_slice(b""));
    assert_eq!(&empty[..], b"$0\r\n\r\n");
    let long = respkv::types::write_bulk_string(Bytes::copy_from_slice(&[7u8; 12]));
    assert_eq!(&long[..4], b"$12\r");
    let nil = write_bulk_string_nil();
    assert_eq!(&nil[..], b"$-1\r\n");
}

#[test]
fn string_command_ping_answers_pong() {
    match ReturnValue::handle_string(Bytes::copy_from_slice(b"PING")) {
        Ok(ReturnValue::StringRes(b)) => assert_eq!(&b[..], b"+PONG\r\n"),
        other => panic!("expected +PONG, got {:?}", other),
    }
}

#[test]
fn string_command_echo_echoes_its_own_name() {
    match ReturnValue::handle_string(Bytes::copy_from_slice(b"EcHo")) {
        Ok(ReturnValue::StringRes(b)) => assert_eq!(&b[..], b"+EcHo\r\n"),
        other => panic!("expected the echoed name, got {:?}", other),
    }
}

#[test]
fn string_command_unknown_is_rejected() {
    assert!(matches!(
        ReturnValue::handle_string(Bytes::copy_from_slice(b"FLUSH")),
        Err(ReturnError::UnknownCommand)
    ));
}

#[test]
fn echo_command_yields_bulk_string() {
    // the scenario of sending *2\r\n$4\r\nECHO\r\n$5\r\nhello\r\n end to end:
    // decode, materialize, dispatch
    let raw: &[u8] = b"*2\r\n$4\r\nECHO\r\n$5\r\nhello\r\n";
    let b = BytesMut::from(raw);
    let (next, frame) = parse(&b, 0).unwrap().unwrap();
    assert_eq!(next, raw.len());
    assert!(frame.fits_within(raw.len()));
    let data = Bytes::copy_from_slice(raw);
    let value = frame.redis_value(&data);
    let mut t = Table::new();
    match ReturnValue::parse_redis_value(value, &mut t) {
        Ok(ReturnValue::StringRes(out)) => assert_eq!(&out[..], b"$5\r\nhello\r\n"),
        other => panic!("expected the echoed bulk string, got {:?}", other),
    }
}

#[test]
fn set_then_get_returns_stored_value() {
    let mut t = Table::new();
    let r = ReturnValue::handle_array(vec![bs(b"SET"), bs(b"key"), bs(b"v1")], &mut t);
    assert!(matches!(r, Ok(ReturnValue::Okay)));
    // the same table serves every connection, so a get through it sees the set
    match ReturnValue::handle_array(vec![bs(b"get"), bs(b"key")], &mut t) {
        Ok(ReturnValue::StringRes(b)) => assert_eq!(&b[..], b"$2\r\nv1\r\n"),
        other => panic!("expected the stored value, got {:?}", other),
    }
}

#[test]
fn get_absent_key_is_nil() {
    let mut t = Table::new();
    match ReturnValue::handle_array(vec![bs(b"GET"), bs(b"missing")], &mut t) {
        Ok(ReturnValue::Nil) => {}
        other => panic!("expected nil, got {:?}", other),
    }
    // which the driver writes as the null bulk string
    assert_eq!(&write_bulk_string_nil()[..], b"$-1\r\n");
}

#[test]
fn second_set_returns_previous_value_as_bulk_string() {
    let mut t = Table::new();
    assert!(matches!(
        ReturnValue::handle_array(vec![bs(b"SET"), bs(b"k"), bs(b"first")], &mut t),
        Ok(ReturnValue::Okay)
    ));
    match ReturnValue::handle_array(vec![bs(b"SET"), bs(b"k"), bs(b"second")], &mut t) {
        Ok(ReturnValue::StringRes(b)) => assert_eq!(&b[..], b"$5\r\nfirst\r\n"),
        other => panic!("expected the previous value, got {:?}", other),
    }
    match ReturnValue::handle_array(vec![bs(b"GET"), bs(b"k")], &mut t) {
        Ok(ReturnValue::StringRes(b)) => assert_eq!(&b[..], b"$6\r\nsecond\r\n"),
        other => panic!("expected the overwritten value, got {:?}", other),
    }
}

#[test]
fn serialized_sets_store_one_of_the_two_values() {
    // the driver's lock serializes concurrent sets; in either order the
    // stored value is exactly one of the two written values
    for order in 0..2 {
        let mut t = Table::new();
        let (a, b): (&[u8], &[u8]) = if order == 0 {
            (b"alpha", b"beta")
        } else {
            (b"beta", b"alpha")
        };
        ReturnValue::handle_array(vec![bs(b"SET"), bs(b"k"), bs(a)], &mut t).unwrap();
        ReturnValue::handle_array(vec![bs(b"SET"), bs(b"k"), bs(b)], &mut t).unwrap();
        match ReturnValue::handle_array(vec![bs(b"GET"), bs(b"k")], &mut t) {
            Ok(ReturnValue::StringRes(out)) => {
                let stored = &out[..];
                assert!(stored == b"$5\r\nalpha\r\n" || stored == b"$4\r\nbeta\r\n");
                if order == 0 {
                    assert_eq!(stored, b"$4\r\nbeta\r\n");
                } else {
                    assert_eq!(stored, b"$5\r\nalpha\r\n");
                }
            }
            other => panic!("expected a stored value, got {:?}", other),
        }
    }
}

#[test]
fn set_stores_the_third_element() {
    // the value written must be the third array element, not the key
    let mut t = Table::new();
    ReturnValue::handle_array(vec![bs(b"SET"), bs(b"k"), bs(b"value")], &mut t).unwrap();
    match ReturnValue::handle_array(vec![bs(b"GET"), bs(b"k")], &mut t) {
        Ok(ReturnValue::StringRes(b)) => assert_eq!(&b[..], b"$5\r\nvalue\r\n"),
        other => panic!("expected the value, got {:?}", other),
    }
}

#[test]
fn arity_and_type_errors() {
    let mut t = Table::new();
    assert!(matches!(
        ReturnValue::handle_array(vec![], &mut t),
        Err(ReturnError::ArityError)
    ));
    assert!(matches!(
        ReturnValue::handle_array(vec![bs(b"SET"), bs(b"k")], &mut t),
        Err(ReturnError::ArityError)
    ));
    assert!(matches!(
        ReturnValue::handle_array(vec![bs(b"ECHO")], &mut t),
        Err(ReturnError::ArityError)
    ));
    assert!(matches!(
        ReturnValue::handle_array(vec![RedisValue::Int(3), bs(b"k")], &mut t),
        Err(ReturnError::UnknownType)
    ));
    assert!(matches!(
        ReturnValue::handle_array(vec![bs(b"ECHO"), RedisValue::Int(3)], &mut t),
        Err(ReturnError::UnknownType)
    ));
    assert!(matches!(
        ReturnValue::handle_array(vec![bs(b"NOSUCH"), bs(b"k")], &mut t),
        Err(ReturnError::UnknownCommand)
    ));
    assert!(matches!(
        ReturnValue::parse_redis_value(RedisValue::Int(7), &mut t),
        Err(ReturnError::UnknownType)
    ));
}

#[test]
fn ping_array_ignores_extra_elements() {
    let mut t = Table::new();
    match ReturnValue::handle_array(vec![bs(b"PING"), bs(b"extra")], &mut t) {
        Ok(ReturnValue::StringRes(b)) => assert_eq!(&b[..], b"+PONG\r\n"),
        other => panic!("expected +PONG, got {:?}", other),
    }
}

#[test]
fn table_interface_get_and_insert() {
    let mut t = Table::new();
    assert!(t.get(b"k").is_none());
    assert!(t.insert(b"k".to_vec(), b"v1".to_vec()).is_none());
    assert_eq!(t.get(b"k"), Some(b"v1".to_vec()));
    assert_eq!(t.insert(b"k".to_vec(), b"v2".to_vec()), Some(b"v1".to_vec()));
    assert_eq!(t.get(b"k"), Some(b"v2".to_vec()));
}

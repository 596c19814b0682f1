use powrelay::{
    bytes_to_hex, get_hash, get_leading_zeros, hex_to_bytes, i64_to_dec, parse_timestamp,
    required_threshold_exec, score_lt_exec, u128_to_dec, u64_to_dec, Message, MessageTable,
};

#[test]
fn hex_encodes_uppercase() {
    let v: Vec<u8> = vec![0xDE, 0xAD, 0xBE, 0xEF, 0x00, 0x0A];
    assert_eq!(bytes_to_hex(&v), "DEADBEEF000A");
}

#[test]
fn hex_decodes_both_cases() {
    assert_eq!(hex_to_bytes("deadBEEF"), Some(vec![0xDE, 0xAD, 0xBE, 0xEF]));
    assert_eq!(hex_to_bytes(""), Some(vec![]));
    assert_eq!(hex_to_bytes("abc"), None);
    assert_eq!(hex_to_bytes("zz"), None);
}

#[test]
fn hex_round_trips() {
    let v: Vec<u8> = (0u16..64).map(|i| (i * 3 % 256) as u8).collect();
    let h = bytes_to_hex(&v);
    assert_eq!(h.len(), 128);
    assert_eq!(hex_to_bytes(&h), Some(v));
}

#[test]
fn sha512_known_answer() {
    // SHA-512("abc"), fed as three fields: the digest sees the bare
    // concatenation, so field boundaries do not matter.
    let d = get_hash("a", "b", "c");
    let expect = "DDAF35A193617ABACC417349AE20413112E6FA4E89A97EA20A9EEEE64B55D39A\
2192992A274FC1A836BA3C23A3FEEBBD454D4423643CE80E2A9AC94FA54CA49F";
    assert_eq!(bytes_to_hex(&d), expect);
    let d2 = get_hash("ab", "", "c");
    assert_eq!(bytes_to_hex(&d2), expect);
}

#[test]
fn leading_zeros_counts_bits() {
    assert_eq!(get_leading_zeros(&vec![0x80]), 0);
    assert_eq!(get_leading_zeros(&vec![0x01]), 7);
    assert_eq!(get_leading_zeros(&vec![0x00, 0x20]), 10);
    assert_eq!(get_leading_zeros(&vec![0x00; 64]), 512);
    assert_eq!(get_leading_zeros(&vec![]), 0);
}

#[test]
fn timestamps_parse_to_epoch() {
    assert_eq!(parse_timestamp("1970-01-01T00:00:00"), Some(0));
    assert_eq!(parse_timestamp("2020-01-01T00:00:00"), Some(1577836800));
    assert_eq!(parse_timestamp("2020-02-29T00:00:00"), Some(1582934400));
    assert_eq!(parse_timestamp("1969-12-31T23:59:59"), Some(-1));
    assert_eq!(parse_timestamp("2038-01-19T03:14:08"), Some(2147483648));
}

#[test]
fn timestamps_reject_bad_format() {
    assert_eq!(parse_timestamp(""), None);
    assert_eq!(parse_timestamp("2020-01-01 00:00:00"), None);
    assert_eq!(parse_timestamp("2020-13-01T00:00:00"), None);
    assert_eq!(parse_timestamp("2020-02-30T00:00:00"), None);
    assert_eq!(parse_timestamp("2019-02-29T00:00:00"), None);
    assert_eq!(parse_timestamp("2020-01-01T24:00:00"), None);
    assert_eq!(parse_timestamp("2020-01-01T00:60:00"), None);
    assert_eq!(parse_timestamp("2020-01-01T00:00:0"), None);
    assert_eq!(parse_timestamp("x020-01-01T00:00:00"), None);
}

#[test]
fn decimals_render() {
    assert_eq!(u64_to_dec(0), "0");
    assert_eq!(u64_to_dec(1234567890), "1234567890");
    assert_eq!(u128_to_dec(340282366920938463463374607431768211455), "340282366920938463463374607431768211455");
    assert_eq!(i64_to_dec(-5), "-5");
    assert_eq!(i64_to_dec(42), "42");
    assert_eq!(i64_to_dec(i64::MIN), "-9223372036854775808");
}

#[test]
fn score_comparison_is_exact() {
    // score(p, d) = p - log2(d/10000); raw pow p is score(p, 10000)
    assert!(score_lt_exec(1, 10000, 2, 10000));
    assert!(!score_lt_exec(2, 10000, 2, 10000));
    // 5 - log2(2) == 4: equal scores in both orders
    assert!(!score_lt_exec(5, 20000, 4, 10000));
    assert!(!score_lt_exec(4, 10000, 5, 20000));
    // 5 - log2(2.0001) just below 4
    assert!(score_lt_exec(5, 20001, 4, 10000));
    // 5 - log2(1.9999) just above 4
    assert!(score_lt_exec(4, 10000, 5, 19999));
    // large exponent gaps decide without overflow
    assert!(score_lt_exec(0, 10000, 512, 10000));
    assert!(!score_lt_exec(512, 10000, 0, 10000));
}

#[test]
fn reported_threshold_is_ceiling() {
    assert_eq!(required_threshold_exec(5, 10000), 5);
    assert_eq!(required_threshold_exec(5, 19999), 5);
    assert_eq!(required_threshold_exec(5, 20000), 4);
    assert_eq!(required_threshold_exec(5, 40000), 3);
    assert_eq!(required_threshold_exec(0, 40000), -2);
}

#[test]
fn table_api_basics() {
    let ts = "2020-01-01T00:00:00";
    let mut t = MessageTable::new(1000);
    assert_eq!(t.list_keys().len(), 0);
    let msg = Message {
        nonce: "n".to_string(),
        timestamp: ts.to_string(),
        payload: "p".to_string(),
    };
    assert_eq!(msg.size(), 21);
    let key = bytes_to_hex(&get_hash("n", ts, "p"));
    assert!(!t.contains(&key));
    t.insert(key.clone(), msg);
    assert!(t.contains(&key));
    assert_eq!(t.find(&key), Some(0));
    let stored = t.get(&key).unwrap();
    assert_eq!(stored.nonce, "n");
    assert_eq!(stored.timestamp, ts);
    assert_eq!(stored.payload, "p");
    assert_eq!(t.list_keys(), vec![key.clone()]);
    // one entry: it is the weakest, and the total is key + message bytes
    let (weakest, total) = t.get_first_expired(1577836900);
    assert_eq!(weakest, key);
    assert_eq!(total, 149);
    t.remove(&key);
    assert!(!t.contains(&key));
    assert_eq!(t.get_first_expired(1577836900), (String::new(), 0));
}

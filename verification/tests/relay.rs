use powrelay::{
    bytes_to_hex, find_nonce, get_hash, get_leading_zeros, handle_request, make_set_line,
    required_threshold_exec, MessageTable,
};

const NOW: i64 = 1600000000;

fn table(cap: u64) -> MessageTable {
    MessageTable::new(cap)
}

#[test]
fn empty_table_responses() {
    let mut t = table(200);
    assert_eq!(handle_request("list", &mut t, 1, NOW), "empty");
    assert_eq!(
        handle_request("get ABCDEF", &mut t, 1, NOW),
        "no such hash"
    );
}

#[test]
fn grammar_and_help() {
    let mut t = table(200);
    assert_eq!(handle_request("", &mut t, 1, NOW), "no command given");
    assert_eq!(handle_request("   ", &mut t, 1, NOW), "no command given");
    assert_eq!(handle_request("help", &mut t, 1, NOW), "help, list, get, set");
    assert_eq!(handle_request("help help", &mut t, 1, NOW), "list supported commands");
    assert_eq!(handle_request("help list", &mut t, 1, NOW), "list hashes of stored messages");
    assert_eq!(
        handle_request("help get", &mut t, 1, NOW),
        "get hash: return message with given hash (in hex, without leading 0x)"
    );
    assert_eq!(
        handle_request("help set", &mut t, 1, NOW),
        "set nonce timestamp payload: add given message, timestamp must be in YYYY-MM-DDThh:mm:ss format"
    );
    assert_eq!(
        handle_request("help frobnicate", &mut t, 1, NOW),
        "error: no help for command 'frobnicate'"
    );
    assert_eq!(
        handle_request("frobnicate", &mut t, 1, NOW),
        "error: unknown command 'frobnicate'"
    );
    assert_eq!(handle_request("get", &mut t, 1, NOW), "error: get command requires 1 argument");
    assert_eq!(handle_request("set a b", &mut t, 1, NOW), "error: set command requires 3 arguments");
}

#[test]
fn example_set_then_get() {
    // capacity 200, minimum proof of work 1
    let mut t = table(200);
    let r = handle_request("set a 2020-01-01T00:00:00 hello", &mut t, 1, NOW);
    let d = get_hash("a", "2020-01-01T00:00:00", "hello");
    if get_leading_zeros(&d) >= 1 {
        assert_eq!(r, "ok");
        let key = bytes_to_hex(&d);
        let got = handle_request(&format!("get {}", key), &mut t, 1, NOW);
        assert_eq!(got, "a 2020-01-01T00:00:00 hello");
    } else {
        assert_eq!(
            r,
            "error: minimum proof of work is at least 1 leading zero bit(s) in SHA512 of nonce+timestamp+payload"
        );
    }
}

#[test]
fn round_trip_and_idempotence() {
    // minimum proof of work 0 admits every message deterministically
    let mut t = table(400);
    let line = "set n1 2020-01-01T00:00:00 payload";
    assert_eq!(handle_request(line, &mut t, 0, NOW), "ok");
    let key = bytes_to_hex(&get_hash("n1", "2020-01-01T00:00:00", "payload"));
    assert_eq!(
        handle_request(&format!("get {}", key), &mut t, 0, NOW),
        "n1 2020-01-01T00:00:00 payload"
    );
    // submitting the identical message again succeeds and stores nothing new
    assert_eq!(handle_request(line, &mut t, 0, NOW), "ok");
    assert_eq!(handle_request("list", &mut t, 0, NOW), format!("{} ", key));
}

#[test]
fn insufficient_pow_rejected() {
    let mut t = table(200);
    let r = handle_request("set a 2020-01-01T00:00:00 hello", &mut t, 513, NOW);
    assert_eq!(
        r,
        "error: minimum proof of work is at least 513 leading zero bit(s) in SHA512 of nonce+timestamp+payload"
    );
    assert_eq!(handle_request("list", &mut t, 513, NOW), "empty");
}

#[test]
fn oversized_message_rejected() {
    let mut t = table(200);
    let payload = "x".repeat(80);
    let line = format!("set abc 2020-01-01T00:00:00 {}", payload);
    // 128 key + 3 nonce + 19 timestamp + 80 payload = 230 bytes
    let r = handle_request(&line, &mut t, 0, NOW);
    assert_eq!(
        r,
        "error: message too large: 230, hash+nonce+timestamp+payload should be at most 200 byte(s)"
    );
}

#[test]
fn bad_timestamp_rejected() {
    let mut t = table(400);
    assert_eq!(
        handle_request("set a 2020-99-01T00:00:00 hello", &mut t, 0, NOW),
        "error: invalid timestamp '2020-99-01T00:00:00'"
    );
    assert_eq!(
        handle_request("set a yesterday hello", &mut t, 0, NOW),
        "error: invalid timestamp 'yesterday'"
    );
}

#[test]
fn future_timestamp_rejected() {
    let mut t = table(400);
    // one second past the evaluation time
    assert_eq!(
        handle_request("set a 2020-09-13T12:26:41 hello", &mut t, 0, 1600000000),
        "error: timestamp too far in future"
    );
    // exactly the evaluation time is accepted
    assert_eq!(
        handle_request("set a 2020-09-13T12:26:40 hello", &mut t, 0, 1600000000),
        "ok"
    );
}

#[test]
fn capacity_invariant_without_eviction() {
    let mut t = table(500);
    // each entry is 128 + 2 + 19 + 4 = 153 bytes
    assert_eq!(handle_request("set aa 2020-01-01T00:00:00 pay1", &mut t, 0, NOW), "ok");
    assert_eq!(handle_request("set bb 2020-01-01T00:00:00 pay2", &mut t, 0, NOW), "ok");
    assert_eq!(handle_request("set cc 2020-01-01T00:00:00 pay3", &mut t, 0, NOW), "ok");
    let keys = handle_request("list", &mut t, 0, NOW);
    assert_eq!(keys.split_whitespace().count(), 3);
}

#[test]
fn eviction_replaces_weakest() {
    let ts = "2020-01-01T00:00:00";
    // a stored entry with at least 12 leading zero bits
    let strong_nonce = find_nonce(ts, "hello", 12, u64::MAX).unwrap();
    let strong_key = bytes_to_hex(&get_hash(&strong_nonce, ts, "hello"));
    // entry size: 128 + 4 + 19 + 5 = 156; capacity 400
    let mut t = table(400);
    let line = make_set_line(&strong_nonce, ts, "hello");
    assert_eq!(handle_request(&line, &mut t, 0, NOW), "ok");

    // a weak candidate: raw proof of work below 12
    let payload = "y".repeat(100);
    let mut weak_nonce = String::new();
    let mut weak_pow = 0;
    for i in 0..10000u32 {
        let n = format!("w{}", i);
        let d = get_hash(&n, ts, &payload);
        weak_pow = get_leading_zeros(&d);
        if weak_pow < 12 {
            weak_nonce = n;
            break;
        }
    }
    assert!(!weak_nonce.is_empty());
    // candidate size 128 + nonce + 19 + 100 > 244, so it does not fit
    let line2 = make_set_line(&weak_nonce, ts, &payload);
    // evaluate just after the stored timestamp: no age decay, size decay
    // below one bit, so the stored score stays above the weak candidate
    let now = 1577836850;
    let strong_pow = get_leading_zeros(&get_hash(&strong_nonce, ts, "hello"));
    let threshold = required_threshold_exec(strong_pow, 156 * 100);
    let r = handle_request(&line2, &mut t, 0, now);
    assert_eq!(
        r,
        format!(
            "error: insufficient proof of work: {}, should be at least {}",
            weak_pow, threshold
        )
    );
    // the table still holds exactly the strong entry
    assert_eq!(handle_request("list", &mut t, 0, now), format!("{} ", strong_key));

    // a strong candidate displaces the stored entry once it has aged
    let old_now = 1577836800 + (1i64 << 40);
    let r2 = handle_request(&line2, &mut t, 0, old_now);
    assert_eq!(r2, "ok");
    let weak_key = bytes_to_hex(&get_hash(&weak_nonce, ts, &payload));
    assert_eq!(handle_request("list", &mut t, 0, old_now), format!("{} ", weak_key));
}

#[test]
fn single_eviction_can_exceed_capacity() {
    // Removing only the weakest entry may not free enough room; the
    // policy evicts at most one entry per insertion and still inserts,
    // transiently exceeding capacity.
    let ts = "2020-01-01T00:00:00";
    let mut t = table(500);
    assert_eq!(handle_request("set aa 2020-01-01T00:00:00 pay1", &mut t, 0, NOW), "ok");
    assert_eq!(handle_request("set bb 2020-01-01T00:00:00 pay2", &mut t, 0, NOW), "ok");
    assert_eq!(handle_request("set cc 2020-01-01T00:00:00 pay3", &mut t, 0, NOW), "ok");
    // candidate: 128 + 2 + 19 + 151 = 300 bytes; 459 + 300 > 500
    let payload = "z".repeat(151);
    let line = make_set_line("zz", ts, &payload);
    // evaluate far in the future: the stored scores have decayed away
    let old_now = 1577836800 + (1i64 << 40);
    assert_eq!(handle_request(&line, &mut t, 0, old_now), "ok");
    let keys = handle_request("list", &mut t, 0, old_now);
    assert_eq!(keys.split_whitespace().count(), 3);
    let new_key = bytes_to_hex(&get_hash("zz", ts, &payload));
    assert!(keys.split_whitespace().any(|k| k == new_key));
}

#[test]
fn live_clock_requests() {
    // through the jittered clock: responses that do not depend on the time
    let mut t = table(200);
    assert_eq!(powrelay::handle_request_now("list", &mut t, 1), "empty");
    assert_eq!(powrelay::handle_request_now("get ABCD", &mut t, 1), "no such hash");
    // a timestamp millennia ahead is in the future under any jitter
    assert_eq!(
        powrelay::handle_request_now("set a 9999-01-01T00:00:00 hello", &mut t, 0),
        "error: timestamp too far in future"
    );
}

#[test]
fn generator_finds_qualifying_nonce() {
    let ts = "2020-01-01T00:00:00";
    let nonce = find_nonce(ts, "msg", 4, u64::MAX).unwrap();
    assert_eq!(nonce.len(), 2);
    assert!(nonce.chars().all(|c| c.is_ascii_alphanumeric()));
    assert!(get_leading_zeros(&get_hash(&nonce, ts, "msg")) >= 4);
    assert_eq!(
        make_set_line(&nonce, ts, "msg"),
        format!("set {} {} msg", nonce, ts)
    );
}

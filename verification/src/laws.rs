//! Properties of the admission policy, stated and proved once for all
//! inputs: when `set` succeeds, that success is idempotent, that an
//! accepted message is retrievable, how capacity is preserved, and what
//! eviction does.
use vstd::prelude::*;
use crate::hexcode::{hex_upper, hex_char_of, lemma_hex_upper_len};
use crate::pow::leading_zero_bits;
use crate::strutil::{is_ws_char, spec_tokens, tok_len, lemma_tok_len_run};
use crate::score::{score_lt, required_threshold};
use crate::server::{
    spec_set,
    spec_get,
    spec_list,
    spec_digest,
    spec_response,
    cand_entry,
    err_minpow,
    err_insufficient,
};
use crate::table::{
    EntryV,
    entry_size,
    entry_pow,
    entry_d,
    total_size,
    weakest_idx,
    lemma_weakest_idx_in_range,
    has_key,
};
use crate::timeparse::parse_ts;

verus! {

/// Exactly when a `set` command succeeds: the proof of work meets the
/// minimum, the message fits the capacity on its own, and either the key
/// is already stored (idempotent no-op) or the timestamp is valid and not
/// in the future and the message either fits outright or outbids the
/// weakest stored entry.
pub open spec fn set_ok_conditions(
    tk: Seq<Seq<char>>,
    t: Seq<EntryV>,
    cap: int,
    minpow: int,
    now: int,
) -> bool {
    let p = leading_zero_bits(spec_digest(tk));
    let cand = cand_entry(tk);
    &&& tk.len() >= 4
    &&& p >= minpow
    &&& entry_size(cand) <= cap
    &&& (has_key(t, cand.key) || (parse_ts(tk[2]) is Some && parse_ts(tk[2])->Some_0 <= now && (
    total_size(t) + entry_size(cand) <= cap || !score_lt(
        p,
        10000,
        entry_pow(t[weakest_idx(t, now)]),
        entry_d(t[weakest_idx(t, now)], now),
    ))))
}

/// `set` answers `ok` exactly under `set_ok_conditions`.
pub proof fn lemma_set_ok_iff(tk: Seq<Seq<char>>, t: Seq<EntryV>, cap: int, minpow: int, now: int)
    requires
        tk.len() >= 4,
    ensures
        spec_set(tk, t, cap, minpow, now).0 == "ok"@ <==> set_ok_conditions(
            tk,
            t,
            cap,
            minpow,
            now,
        ),
{
    reveal_strlit("ok");
    reveal_strlit("error: minimum proof of work is at least ");
    reveal_strlit("error: message too large: ");
    reveal_strlit("error: invalid timestamp '");
    reveal_strlit("error: timestamp too far in future");
    reveal_strlit("error: insufficient proof of work: ");
    let p = leading_zero_bits(spec_digest(tk));
    let cand = cand_entry(tk);
    let r = spec_set(tk, t, cap, minpow, now).0;
    assert(("ok"@).len() == 2);
    if p < minpow {
        assert(r == err_minpow(minpow));
        assert(r.len() > 2);
    } else if entry_size(cand) > cap {
        assert(r.len() > 2);
    } else if has_key(t, cand.key) {
        assert(r == "ok"@);
    } else if parse_ts(tk[2]) is None {
        assert(r.len() > 2);
    } else if parse_ts(tk[2])->Some_0 > now {
        assert(r.len() > 2);
    } else if total_size(t) + entry_size(cand) <= cap {
        assert(r == "ok"@);
    } else if score_lt(
        p,
        10000,
        entry_pow(t[weakest_idx(t, now)]),
        entry_d(t[weakest_idx(t, now)], now),
    ) {
        assert(r == err_insufficient(
            p,
            required_threshold(entry_pow(t[weakest_idx(t, now)]), entry_d(t[weakest_idx(t, now)], now)),
        ));
        assert(r.len() > 2);
    } else {
        assert(r == "ok"@);
    }
}

/// Round trip: a message that `set` accepts under a fresh key is returned
/// by `get` on that key, as `nonce timestamp payload`.
pub proof fn lemma_set_get_round_trip(
    tk: Seq<Seq<char>>,
    t: Seq<EntryV>,
    cap: int,
    minpow: int,
    now: int,
)
    requires
        tk.len() >= 4,
        !has_key(t, cand_entry(tk).key),
        spec_set(tk, t, cap, minpow, now).0 == "ok"@,
    ensures
        spec_get(seq!["get"@, cand_entry(tk).key], spec_set(tk, t, cap, minpow, now).1) == tk[1]
            + " "@ + tk[2] + " "@ + tk[3],
{
    lemma_set_ok_iff(tk, t, cap, minpow, now);
    let cand = cand_entry(tk);
    let t1 = spec_set(tk, t, cap, minpow, now).1;
    let gtk = seq!["get"@, cand.key];
    assert(gtk.len() == 2);
    assert(gtk[1] == cand.key);
    if total_size(t) + entry_size(cand) <= cap {
        assert(t1 == t.push(cand));
        assert(t1[t1.len() - 1] == cand);
        assert(forall|i: int| 0 <= i < t.len() ==> t1[i] == #[trigger] t[i]);
    } else {
        assert(total_size(t) > 0);
        if t.len() == 0 {
            assert(total_size(t) == 0);
        }
        assert(t.len() > 0);
        lemma_weakest_idx_in_range(t, now);
        let w = weakest_idx(t, now);
        assert(t1 == t.remove(w).push(cand));
        assert(t1[t1.len() - 1] == cand);
        assert(forall|i: int|
            0 <= i < t1.len() - 1 ==> #[trigger] t1[i] == (if i < w {
                t[i]
            } else {
                t[i + 1]
            }));
    }
    assert(t1[t1.len() - 1] == cand);
    assert(has_key(t1, cand.key));
    assert(forall|i: int| 0 <= i < t1.len() - 1 ==> (#[trigger] t1[i]).key != cand.key);
    let ci = choose|i: int| 0 <= i < t1.len() && t1[i].key == gtk[1];
    assert(ci == t1.len() - 1);
    assert(t1[ci].msg.nonce == tk[1]);
}

/// Idempotence: a `set` that succeeded succeeds again on the identical
/// message, at any later evaluation time, and changes nothing.
pub proof fn lemma_set_idempotent(
    tk: Seq<Seq<char>>,
    t: Seq<EntryV>,
    cap: int,
    minpow: int,
    now: int,
    now2: int,
)
    requires
        tk.len() >= 4,
        spec_set(tk, t, cap, minpow, now).0 == "ok"@,
    ensures
        spec_set(tk, spec_set(tk, t, cap, minpow, now).1, cap, minpow, now2).0 == "ok"@,
        spec_set(tk, spec_set(tk, t, cap, minpow, now).1, cap, minpow, now2).1 == spec_set(
            tk,
            t,
            cap,
            minpow,
            now,
        ).1,
{
    lemma_set_ok_iff(tk, t, cap, minpow, now);
    let cand = cand_entry(tk);
    let t1 = spec_set(tk, t, cap, minpow, now).1;
    if has_key(t, cand.key) {
        assert(t1 == t);
    } else if total_size(t) + entry_size(cand) <= cap {
        assert(t1 == t.push(cand));
        assert(t1[t1.len() - 1] == cand);
    } else {
        assert(t.len() > 0) by {
            if t.len() == 0 {
                assert(total_size(t) == 0);
            }
        }
        lemma_weakest_idx_in_range(t, now);
        assert(t1 == t.remove(weakest_idx(t, now)).push(cand));
        assert(t1[t1.len() - 1] == cand);
    }
    assert(has_key(t1, cand.key));
}

/// Capacity: a completed `set` that did not displace an entry keeps the
/// aggregate size within capacity.  A displacing `set` can exceed it when
/// removing the single weakest entry does not free enough room: the policy
/// evicts at most one entry per insertion and inserts regardless.
pub proof fn lemma_set_capacity(tk: Seq<Seq<char>>, t: Seq<EntryV>, cap: int, minpow: int, now: int)
    requires
        total_size(t) <= cap,
    ensures
        ({
            let t1 = spec_set(tk, t, cap, minpow, now).1;
            (t1 == t || t1.len() > t.len()) ==> total_size(t1) <= cap
        }),
{
    let t1 = spec_set(tk, t, cap, minpow, now).1;
    if tk.len() < 4 {
    } else {
        let p = leading_zero_bits(spec_digest(tk));
        let cand = cand_entry(tk);
        if p < minpow || entry_size(cand) > cap || has_key(t, cand.key) || parse_ts(tk[2]) is None
            || parse_ts(tk[2])->Some_0 > now {
        } else if total_size(t) + entry_size(cand) <= cap {
            assert(t1 == t.push(cand));
            assert(t1.drop_last() =~= t);
            assert(t1.last() == cand);
            assert(total_size(t1) == total_size(t) + entry_size(cand));
        } else {
            if t.len() == 0 {
                assert(total_size(t) == 0);
            }
            lemma_weakest_idx_in_range(t, now);
            let w = weakest_idx(t, now);
            if !score_lt(p, 10000, entry_pow(t[w]), entry_d(t[w], now)) {
                assert(t1 == t.remove(w).push(cand));
                assert(t1.len() == t.len());
            }
        }
    }
}

/// Admission threshold: too little proof of work is rejected with the
/// error naming the configured minimum, and nothing changes.
pub proof fn lemma_admission_threshold(
    tk: Seq<Seq<char>>,
    t: Seq<EntryV>,
    cap: int,
    minpow: int,
    now: int,
)
    requires
        tk.len() >= 4,
        leading_zero_bits(spec_digest(tk)) < minpow,
    ensures
        spec_set(tk, t, cap, minpow, now).0 == err_minpow(minpow),
        spec_set(tk, t, cap, minpow, now).1 == t,
{
}

/// Eviction: when a valid, fresh candidate does not fit, it displaces
/// exactly the weakest entry if its raw proof of work is not below that
/// entry's decayed score, and is otherwise rejected with the ceiling of
/// that score as the reported threshold.
pub proof fn lemma_eviction_correctness(
    tk: Seq<Seq<char>>,
    t: Seq<EntryV>,
    cap: int,
    minpow: int,
    now: int,
)
    requires
        tk.len() >= 4,
        leading_zero_bits(spec_digest(tk)) >= minpow,
        entry_size(cand_entry(tk)) <= cap,
        !has_key(t, cand_entry(tk).key),
        parse_ts(tk[2]) is Some,
        parse_ts(tk[2])->Some_0 <= now,
        total_size(t) + entry_size(cand_entry(tk)) > cap,
    ensures
        t.len() > 0,
        ({
            let p = leading_zero_bits(spec_digest(tk));
            let w = weakest_idx(t, now);
            let r = spec_set(tk, t, cap, minpow, now);
            if score_lt(p, 10000, entry_pow(t[w]), entry_d(t[w], now)) {
                r.0 == err_insufficient(p, required_threshold(entry_pow(t[w]), entry_d(t[w], now)))
                    && r.1 == t
            } else {
                r.0 == "ok"@ && r.1 == t.remove(w).push(cand_entry(tk)) && r.1.len() == t.len()
            }
        }),
{
    if t.len() == 0 {
        assert(total_size(t) == 0);
    }
    lemma_weakest_idx_in_range(t, now);
}

/// An empty table lists as the literal `empty`.
pub proof fn lemma_empty_table_list()
    ensures
        spec_list(Seq::<EntryV>::empty()) == "empty"@,
{
}

/// `get` on an empty table misses for every key.
pub proof fn lemma_empty_table_get(tk: Seq<Seq<char>>)
    requires
        tk.len() >= 2,
    ensures
        spec_get(tk, Seq::<EntryV>::empty()) == "no such hash"@,
{
    assert(!has_key(Seq::<EntryV>::empty(), tk[1]));
}

/// No character of an uppercase hex rendering is whitespace.
proof fn lemma_hex_upper_not_ws(b: Seq<u8>)
    ensures
        forall|i: int| 0 <= i < hex_upper(b).len() ==> !is_ws_char(#[trigger] hex_upper(b)[i]),
    decreases b.len(),
{
    if b.len() > 0 {
        lemma_hex_upper_not_ws(b.drop_first());
        assert(!is_ws_char(hex_char_of(b[0] as int / 16)));
        assert(!is_ws_char(hex_char_of(b[0] as int % 16)));
        assert forall|i: int| 0 <= i < hex_upper(b).len() implies !is_ws_char(
            #[trigger] hex_upper(b)[i],
        ) by {
            if i >= 2 {
                assert(hex_upper(b)[i] == hex_upper(b.drop_first())[i - 2]);
            }
        }
    }
}

/// A line `get <key>` tokenizes to exactly those two tokens, for any
/// non-empty whitespace-free key.
proof fn lemma_get_line_tokens(key: Seq<char>)
    requires
        key.len() > 0,
        forall|i: int| 0 <= i < key.len() ==> !is_ws_char(#[trigger] key[i]),
    ensures
        spec_tokens("get "@ + key) =~= seq!["get"@, key],
{
    reveal_strlit("get ");
    reveal_strlit("get");
    let s = "get "@ + key;
    assert(s.len() == 4 + key.len());
    assert(!is_ws_char(s[0]) && !is_ws_char(s[1]) && !is_ws_char(s[2]));
    assert(is_ws_char(s[3]));
    lemma_tok_len_run(s, 3);
    assert(spec_tokens(s) =~= seq![s.take(3)] + spec_tokens(s.skip(3)));
    assert(s.take(3) =~= "get"@);
    let rest = s.skip(3);
    assert(is_ws_char(rest[0]));
    assert(spec_tokens(rest) == spec_tokens(rest.drop_first()));
    assert(rest.drop_first() =~= key);
    assert(forall|i: int| 0 <= i < key.len() ==> !is_ws_char(#[trigger] key[i]));
    lemma_tok_len_run(key, key.len() as int);
    assert(spec_tokens(key) =~= seq![key.take(key.len() as int)] + spec_tokens(
        key.skip(key.len() as int),
    ));
    assert(key.take(key.len() as int) =~= key);
    assert(key.skip(key.len() as int) =~= Seq::<char>::empty());
    assert(spec_tokens(Seq::<char>::empty()) =~= Seq::<Seq<char>>::empty());
    assert(spec_tokens(key) =~= seq![key]);
}

/// Round trip over the wire protocol: after a `set` accepted under a
/// fresh key, the request line `get <key>` answers exactly
/// `nonce timestamp payload`, whatever the evaluation time of the `get`.
pub proof fn lemma_round_trip_line(
    tk: Seq<Seq<char>>,
    t: Seq<EntryV>,
    cap: int,
    minpow: int,
    now: int,
    now2: int,
)
    requires
        tk.len() >= 4,
        spec_digest(tk).len() == 64,
        !has_key(t, cand_entry(tk).key),
        spec_set(tk, t, cap, minpow, now).0 == "ok"@,
    ensures
        spec_response(
            "get "@ + cand_entry(tk).key,
            spec_set(tk, t, cap, minpow, now).1,
            cap,
            minpow,
            now2,
        ).0 == tk[1] + " "@ + tk[2] + " "@ + tk[3],
{
    reveal_strlit("get");
    reveal_strlit("help");
    reveal_strlit("list");
    let key = cand_entry(tk).key;
    lemma_hex_upper_len(spec_digest(tk));
    lemma_hex_upper_not_ws(spec_digest(tk));
    lemma_get_line_tokens(key);
    let gtk = spec_tokens("get "@ + key);
    assert(gtk =~= seq!["get"@, key]);
    assert(gtk[0] == "get"@);
    assert(("get"@).len() == 3);
    assert(gtk[0] != "help"@ && gtk[0] != "list"@ && gtk[0] != "set"@) by {
        reveal_strlit("set");
        assert(("get"@)[0] == 'g' && ("set"@)[0] == 's' && ("list"@)[0] == 'l');
    }
    lemma_set_get_round_trip(tk, t, cap, minpow, now);
    assert(spec_get(gtk, spec_set(tk, t, cap, minpow, now).1) == spec_get(
        seq!["get"@, key],
        spec_set(tk, t, cap, minpow, now).1,
    ));
}

} // verus!

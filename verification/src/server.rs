//! The request dispatcher and admission policy.
//!
//! One request line in, one response line out.  Grammar: `help [command]`,
//! `list`, `get <hex-key>`, `set <nonce> <timestamp> <payload>`; extra
//! tokens beyond a command's arity are ignored.  `spec_response` is the
//! functional model: it gives, for every line, table state, capacity,
//! minimum proof of work and evaluation time, exactly the response line
//! and the table that follows, and `handle_request` is proved to return
//! precisely that.
use vstd::prelude::*;
use vstd::string::{StrSliceExecFns, StringExecFns, StringSliceAdditionalSpecFns};
use vstd::utf8::encode_utf8;
use vstd::arithmetic::mul::lemma_mul_upper_bound;
use crate::digest::{sha512_of, get_hash};
use crate::hexcode::{hex_upper, bytes_to_hex, lemma_hex_round_trip};
use crate::numfmt::{dec_nat, dec_int, u64_to_dec, u128_to_dec, i64_to_dec};
use crate::pow::{leading_zero_bits, get_leading_zeros};
use crate::score::{score_lt, score_lt_exec, required_threshold, required_threshold_exec};
use crate::strutil::{str_eq, spec_tokens, tokenize, lemma_tokens_nonempty};
use crate::table::{
    byte_len,
    lemma_byte_len_ge,
    Message,
    MessageV,
    Entry,
    EntryV,
    entry_size,
    wf_entry,
    entry_pow,
    entry_d,
    total_size,
    weakest_idx,
    lemma_weakest_idx_in_range,
    has_key,
    lemma_total_size_ge,
    lemma_total_size_le,
    MessageTable,
};
use crate::timeparse::parse_ts;

verus! {

/// The `list` rendering: each key followed by one space, in order.
pub open spec fn list_cat(s: Seq<EntryV>) -> Seq<char>
    decreases s.len(),
{
    if s.len() == 0 {
        Seq::<char>::empty()
    } else {
        list_cat(s.drop_last()) + s.last().key + " "@
    }
}

pub open spec fn spec_help(tk: Seq<Seq<char>>) -> Seq<char> {
    if tk.len() == 1 {
        "help, list, get, set"@
    } else if tk[1] == "help"@ {
        "list supported commands"@
    } else if tk[1] == "list"@ {
        "list hashes of stored messages"@
    } else if tk[1] == "get"@ {
        "get hash: return message with given hash (in hex, without leading 0x)"@
    } else if tk[1] == "set"@ {
        "set nonce timestamp payload: add given message, timestamp must be in YYYY-MM-DDThh:mm:ss format"@
    } else {
        "error: no help for command '"@ + tk[1] + "'"@
    }
}

pub open spec fn spec_list(t: Seq<EntryV>) -> Seq<char> {
    if t.len() == 0 {
        "empty"@
    } else {
        list_cat(t)
    }
}

pub open spec fn spec_get(tk: Seq<Seq<char>>, t: Seq<EntryV>) -> Seq<char> {
    if tk.len() < 2 {
        "error: get command requires 1 argument"@
    } else if !has_key(t, tk[1]) {
        "no such hash"@
    } else {
        let i = choose|i: int| 0 <= i < t.len() && t[i].key == tk[1];
        t[i].msg.nonce + " "@ + t[i].msg.timestamp + " "@ + t[i].msg.payload
    }
}

/// The digest of a candidate `set`: SHA-512 of the three fields' UTF-8
/// bytes, concatenated without separators.
pub open spec fn spec_digest(tk: Seq<Seq<char>>) -> Seq<u8>
    recommends
        tk.len() >= 4,
{
    sha512_of(encode_utf8(tk[1]) + encode_utf8(tk[2]) + encode_utf8(tk[3]))
}

/// The entry a successful `set` stores.
pub open spec fn cand_entry(tk: Seq<Seq<char>>) -> EntryV
    recommends
        tk.len() >= 4,
{
    EntryV {
        key: hex_upper(spec_digest(tk)),
        msg: MessageV { nonce: tk[1], timestamp: tk[2], payload: tk[3] },
    }
}

pub open spec fn err_minpow(m: int) -> Seq<char> {
    "error: minimum proof of work is at least "@ + dec_nat(m)
        + " leading zero bit(s) in SHA512 of nonce+timestamp+payload"@
}

pub open spec fn err_too_large(tot: int, cap: int) -> Seq<char> {
    "error: message too large: "@ + dec_nat(tot)
        + ", hash+nonce+timestamp+payload should be at most "@ + dec_nat(cap) + " byte(s)"@
}

pub open spec fn err_insufficient(p: int, th: int) -> Seq<char> {
    "error: insufficient proof of work: "@ + dec_nat(p) + ", should be at least "@ + dec_int(th)
}

/// The `set` command: proof-of-work gate, size gate, idempotent duplicate,
/// timestamp validation, future check, then insert or displace-weakest.
pub open spec fn spec_set(tk: Seq<Seq<char>>, t: Seq<EntryV>, cap: int, minpow: int, now: int) -> (
    Seq<char>,
    Seq<EntryV>,
) {
    if tk.len() < 4 {
        ("error: set command requires 3 arguments"@, t)
    } else {
        let digest = spec_digest(tk);
        let p = leading_zero_bits(digest);
        let key = hex_upper(digest);
        let cand = cand_entry(tk);
        if p < minpow {
            (err_minpow(minpow), t)
        } else if entry_size(cand) > cap {
            (err_too_large(entry_size(cand), cap), t)
        } else if has_key(t, key) {
            ("ok"@, t)
        } else if parse_ts(tk[2]) is None {
            ("error: invalid timestamp '"@ + tk[2] + "'"@, t)
        } else if parse_ts(tk[2])->Some_0 > now {
            ("error: timestamp too far in future"@, t)
        } else if total_size(t) + entry_size(cand) <= cap {
            ("ok"@, t.push(cand))
        } else {
            let w = weakest_idx(t, now);
            if score_lt(p, 10000, entry_pow(t[w]), entry_d(t[w], now)) {
                (err_insufficient(p, required_threshold(entry_pow(t[w]), entry_d(t[w], now))), t)
            } else {
                ("ok"@, t.remove(w).push(cand))
            }
        }
    }
}

/// One request against one table state: the response line and the table
/// that follows.  Everything but `set` leaves the table unchanged.
pub open spec fn spec_response(
    line: Seq<char>,
    t: Seq<EntryV>,
    cap: int,
    minpow: int,
    now: int,
) -> (Seq<char>, Seq<EntryV>) {
    let tk = spec_tokens(line);
    if tk.len() == 0 {
        ("no command given"@, t)
    } else if tk[0] == "help"@ {
        (spec_help(tk), t)
    } else if tk[0] == "list"@ {
        (spec_list(t), t)
    } else if tk[0] == "get"@ {
        (spec_get(tk, t), t)
    } else if tk[0] == "set"@ {
        spec_set(tk, t, cap, minpow, now)
    } else {
        ("error: unknown command '"@ + tk[0] + "'"@, t)
    }
}

/// Handles one request line against the shared table: parses it, applies
/// the command, and returns the single response line, exactly as
/// `spec_response` states.  `now` is the (possibly jittered) evaluation
/// time in seconds since 1970-01-01T00:00:00.
#[verifier::rlimit(90)]
pub fn handle_request(line: &str, table: &mut MessageTable, min_pow: u64, now: i64) -> (r: String)
    requires
        old(table).wf(),
    ensures
        final(table).wf(),
        final(table).max_size == old(table).max_size,
        r@ == spec_response(
            line@,
            old(table)@,
            old(table).max_size as int,
            min_pow as int,
            now as int,
        ).0,
        final(table)@ == spec_response(
            line@,
            old(table)@,
            old(table).max_size as int,
            min_pow as int,
            now as int,
        ).1,
{
    let ghost t0 = table@;
    let ghost cap = table.max_size as int;
    let tokens = tokenize(line);
    let ghost tk = spec_tokens(line@);
    proof {
        lemma_tokens_nonempty(line@);
        assert(tk =~= tokens@.map_values(|t: String| t@));
    }
    if tokens.len() == 0 {
        return String::from_str("no command given");
    }
    proof {
        assert(tk[0] == tokens@[0]@);
    }
    if str_eq(tokens[0].as_str(), "help") {
        if tokens.len() == 1 {
            return String::from_str("help, list, get, set");
        }
        proof {
            assert(tk[1] == tokens@[1]@);
        }
        if str_eq(tokens[1].as_str(), "help") {
            return String::from_str("list supported commands");
        }
        if str_eq(tokens[1].as_str(), "list") {
            return String::from_str("list hashes of stored messages");
        }
        if str_eq(tokens[1].as_str(), "get") {
            return String::from_str(
                "get hash: return message with given hash (in hex, without leading 0x)",
            );
        }
        if str_eq(tokens[1].as_str(), "set") {
            return String::from_str(
                "set nonce timestamp payload: add given message, timestamp must be in YYYY-MM-DDThh:mm:ss format",
            );
        }
        let mut s = String::from_str("error: no help for command '");
        s.append(tokens[1].as_str());
        s.append("'");
        return s;
    }
    if str_eq(tokens[0].as_str(), "list") {
        if table.entries.len() == 0 {
            return String::from_str("empty");
        }
        let mut s = String::new();
        let mut i: usize = 0;
        proof {
            assert(t0.take(0) =~= Seq::<EntryV>::empty());
        }
        while i < table.entries.len()
            invariant
                i <= t0.len(),
                t0 == table@,
                t0.len() == table.entries@.len(),
                s@ == list_cat(t0.take(i as int)),
            decreases t0.len() - i,
        {
            s.append(table.entries[i].key.as_str());
            s.append(" ");
            proof {
                assert(t0.take(i as int + 1).drop_last() =~= t0.take(i as int));
                assert(t0.take(i as int + 1).last() == t0[i as int]);
                assert(table.entries@[i as int]@ == t0[i as int]);
            }
            i += 1;
        }
        proof {
            assert(t0.take(t0.len() as int) =~= t0);
        }
        return s;
    }
    if str_eq(tokens[0].as_str(), "get") {
        if tokens.len() < 2 {
            return String::from_str("error: get command requires 1 argument");
        }
        proof {
            assert(tk[1] == tokens@[1]@);
        }
        match table.get(tokens[1].as_str()) {
            None => {
                return String::from_str("no such hash");
            },
            Some(m) => {
                proof {
                    let i = choose|i: int| 0 <= i < t0.len() && t0[i].key == tk[1];
                    let j = choose|j: int|
                        0 <= j < t0.len() && t0[j].key == tk[1] && t0[j].msg == m@;
                    assert(t0[j].key == tk[1]);
                    if i != j {
                        assert(t0[i].key != t0[j].key);
                        assert(false);
                    }
                }
                let mut s = m.nonce.clone();
                s.append(" ");
                s.append(m.timestamp.as_str());
                s.append(" ");
                s.append(m.payload.as_str());
                return s;
            },
        }
    }
    if str_eq(tokens[0].as_str(), "set") {
        if tokens.len() < 4 {
            return String::from_str("error: set command requires 3 arguments");
        }
        proof {
            assert(tk[1] == tokens@[1]@);
            assert(tk[2] == tokens@[2]@);
            assert(tk[3] == tokens@[3]@);
        }
        let digest = get_hash(tokens[1].as_str(), tokens[2].as_str(), tokens[3].as_str());
        let p = get_leading_zeros(&digest);
        proof {
            assert(digest@ == spec_digest(tk));
        }
        if p < min_pow {
            let mut s = String::from_str("error: minimum proof of work is at least ");
            s.append(u64_to_dec(min_pow).as_str());
            s.append(" leading zero bit(s) in SHA512 of nonce+timestamp+payload");
            return s;
        }
        let key = bytes_to_hex(&digest);
        let ghost cand = cand_entry(tk);
        let ks: &[u8] = key.as_str().as_bytes();
        let n1: &[u8] = tokens[1].as_str().as_bytes();
        let n2: &[u8] = tokens[2].as_str().as_bytes();
        let n3: &[u8] = tokens[3].as_str().as_bytes();
        let tot_new: u128 = ks.len() as u128 + n1.len() as u128 + n2.len() as u128 + n3.len()
            as u128;
        proof {
            assert(key@ == cand.key);
            assert(ks@ == encode_utf8(cand.key));
            assert(n1@ == encode_utf8(cand.msg.nonce));
            assert(n2@ == encode_utf8(cand.msg.timestamp));
            assert(n3@ == encode_utf8(cand.msg.payload));
            assert(tot_new == entry_size(cand));
        }
        if tot_new > table.max_size as u128 {
            let mut s = String::from_str("error: message too large: ");
            s.append(u128_to_dec(tot_new).as_str());
            s.append(", hash+nonce+timestamp+payload should be at most ");
            s.append(u64_to_dec(table.max_size).as_str());
            s.append(" byte(s)");
            return s;
        }
        if table.contains(key.as_str()) {
            return String::from_str("ok");
        }
        let ep = match crate::timeparse::parse_timestamp(tokens[2].as_str()) {
            None => {
                let mut s = String::from_str("error: invalid timestamp '");
                s.append(tokens[2].as_str());
                s.append("'");
                return s;
            },
            Some(ep) => ep,
        };
        if ep > now {
            return String::from_str("error: timestamp too far in future");
        }
        let (lowest_key, tot) = table.get_first_expired(now);
        proof {
            assert(forall|j: int| 0 <= j < t0.len() ==> entry_size(#[trigger] t0[j]) <= cap);
            lemma_total_size_le(t0, cap);
            lemma_mul_upper_bound(t0.len() as int, 0x1000000, cap, 0x80000000);
            lemma_hex_round_trip(digest@);
            lemma_byte_len_ge(cand.key);
            lemma_byte_len_ge(cand.msg.nonce);
            lemma_byte_len_ge(cand.msg.timestamp);
            lemma_byte_len_ge(cand.msg.payload);
            crate::hexcode::lemma_hex_upper_len(digest@);
            assert(parse_ts(tk[2]) is Some);
            assert(tk[2].len() == 19);
            assert(tk[1].len() >= 1);
            assert(tk[3].len() >= 1);
            assert(wf_entry(cand, cap));
            lemma_total_size_ge(t0, cap);
        }
        if tot + (tot_new as u64) <= table.max_size {
            let msg = Message {
                nonce: tokens[1].clone(),
                timestamp: tokens[2].clone(),
                payload: tokens[3].clone(),
            };
            proof {
                assert(149 * (t0.len() + 1) <= 149 * t0.len() + tot_new);
            }
            table.insert(key, msg);
            proof {
                assert(table@ == t0.push(cand));
            }
            return String::from_str("ok");
        }
        proof {
            if t0.len() == 0 {
                assert(total_size(t0) == 0);
                assert(false);
            }
            lemma_weakest_idx_in_range(t0, now as int);
        }
        let ghost w = weakest_idx(t0, now as int);
        proof {
            assert(0 <= w < t0.len() && t0[w].key == t0[w].key);
            assert(has_key(t0, t0[w].key));
        }
        let wi = table.find(lowest_key.as_str()).unwrap();
        proof {
            assert(t0[wi as int].key == t0[w].key);
            if wi as int != w {
                assert(t0[wi as int].key != t0[w].key);
                assert(false);
            }
            assert(table.entries@[wi as int]@ == t0[wi as int]);
        }
        let (wp, wd) = crate::table::entry_score(&table.entries[wi], now, Ghost(cap));
        if score_lt_exec(p, 10000, wp, wd) {
            let th = required_threshold_exec(wp, wd);
            let mut s = String::from_str("error: insufficient proof of work: ");
            s.append(u64_to_dec(p).as_str());
            s.append(", should be at least ");
            s.append(i64_to_dec(th).as_str());
            return s;
        }
        table.remove(lowest_key.as_str());
        proof {
            assert(has_key(t0, t0[w].key));
            let ri = choose|ri: int|
                0 <= ri < t0.len() && t0[ri].key == t0[w].key && table@ =~= t0.remove(ri);
            if ri != w {
                assert(t0[ri].key != t0[w].key);
                assert(false);
            }
            assert(table@ == t0.remove(w));
            assert(forall|j: int|
                0 <= j < table@.len() ==> #[trigger] table@[j] == (if j < w {
                    t0[j]
                } else {
                    t0[j + 1]
                }));
            assert(!has_key(table@, cand.key));
            assert(149 * (table@.len() + 1) <= table.max_size);
        }
        let msg = Message {
            nonce: tokens[1].clone(),
            timestamp: tokens[2].clone(),
            payload: tokens[3].clone(),
        };
        table.insert(key, msg);
        proof {
            assert(table@ == t0.remove(w).push(cand));
        }
        return String::from_str("ok");
    }
    let mut s = String::from_str("error: unknown command '");
    s.append(tokens[0].as_str());
    s.append("'");
    s
}

} // verus!

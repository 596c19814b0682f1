//! The capacity-bounded message table.
//!
//! Maps the 128-character uppercase hex digest of a message to the message
//! itself.  Raw mutation only; validation lives in the admission policy.
//! Well-formedness carries what every stored entry satisfies by
//! construction: the key decodes to a 64-byte digest, the timestamp parses,
//! nonce and payload are non-empty, no entry exceeds the configured
//! capacity, and keys are distinct.
use vstd::prelude::*;
use vstd::string::{StrSliceExecFns, StringExecFns, StringSliceAdditionalSpecFns};
use vstd::utf8::encode_utf8;
use vstd::arithmetic::mul::{lemma_mul_inequality, lemma_mul_upper_bound};
use crate::hexcode::hex_decode;
use crate::pow::{leading_zero_bits, get_leading_zeros};
use crate::score::{score_lt, score_lt_exec, d_limit};
use crate::timeparse::{parse_ts, parse_timestamp};

verus! {

/// Byte length of a string's UTF-8 encoding.
pub open spec fn byte_len(s: Seq<char>) -> int {
    encode_utf8(s).len() as int
}

/// Every character encodes to at least one byte.
pub proof fn lemma_byte_len_ge(s: Seq<char>)
    ensures
        byte_len(s) >= s.len(),
    decreases s.len(),
{
    if s.len() > 0 {
        lemma_byte_len_ge(s.drop_first());
    }
}

/// A stored message: three whitespace-free tokens, immutable once stored.
pub struct Message {
    pub nonce: String,
    pub timestamp: String,
    pub payload: String,
}

pub struct MessageV {
    pub nonce: Seq<char>,
    pub timestamp: Seq<char>,
    pub payload: Seq<char>,
}

impl View for Message {
    type V = MessageV;

    open spec fn view(&self) -> MessageV {
        MessageV { nonce: self.nonce@, timestamp: self.timestamp@, payload: self.payload@ }
    }
}

/// Serialized size of a message: the UTF-8 byte lengths of its fields.
pub open spec fn msg_size(m: MessageV) -> int {
    byte_len(m.nonce) + byte_len(m.timestamp) + byte_len(m.payload)
}

impl Message {
    /// Byte length of nonce, timestamp and payload together.
    pub fn size(&self) -> (r: usize)
        requires
            msg_size(self@) <= usize::MAX,
        ensures
            r == msg_size(self@),
    {
        self.nonce.as_str().len() + self.timestamp.as_str().len() + self.payload.as_str().len()
    }
}

/// One table slot: the hex key and the message it names.
pub struct Entry {
    pub key: String,
    pub msg: Message,
}

pub struct EntryV {
    pub key: Seq<char>,
    pub msg: MessageV,
}

impl View for Entry {
    type V = EntryV;

    open spec fn view(&self) -> EntryV {
        EntryV { key: self.key@, msg: self.msg@ }
    }
}

/// Size an entry counts toward capacity: key bytes plus message bytes.
pub open spec fn entry_size(e: EntryV) -> int {
    byte_len(e.key) + msg_size(e.msg)
}

/// What holds of every stored entry.
pub open spec fn wf_entry(e: EntryV, cap: int) -> bool {
    &&& hex_decode(e.key) matches Some(b) && b.len() == 64
    &&& parse_ts(e.msg.timestamp) is Some
    &&& e.msg.nonce.len() >= 1
    &&& e.msg.payload.len() >= 1
    &&& 149 <= entry_size(e) <= cap
}

/// Raw proof of work of a stored entry: leading zero bits of its digest.
pub open spec fn entry_pow(e: EntryV) -> int {
    leading_zero_bits(hex_decode(e.key)->Some_0)
}

/// Age of a stored entry at the evaluation time, in seconds.
pub open spec fn entry_age(e: EntryV, now: int) -> int {
    now - parse_ts(e.msg.timestamp)->Some_0
}

/// Decay denominator: `max(size, 100) * max(age, 100)`; the decayed score
/// of an entry is `pow - log2(decay_d / 10000)`.
pub open spec fn decay_d(size: int, age: int) -> int {
    (if size > 100 {
        size
    } else {
        100
    }) * (if age > 100 {
        age
    } else {
        100
    })
}

pub open spec fn entry_d(e: EntryV, now: int) -> int {
    decay_d(entry_size(e), entry_age(e, now))
}

/// Whether entry `a` currently scores strictly below entry `b`.
pub open spec fn entry_score_lt(a: EntryV, b: EntryV, now: int) -> bool {
    score_lt(entry_pow(a), entry_d(a, now), entry_pow(b), entry_d(b, now))
}

/// Aggregate serialized size of all entries.
pub open spec fn total_size(s: Seq<EntryV>) -> int
    decreases s.len(),
{
    if s.len() == 0 {
        0
    } else {
        total_size(s.drop_last()) + entry_size(s.last())
    }
}

/// Index of the entry with the lowest current score, first wins ties.
pub open spec fn weakest_idx(s: Seq<EntryV>, now: int) -> int
    decreases s.len(),
{
    if s.len() <= 1 {
        0
    } else {
        let w = weakest_idx(s.drop_last(), now);
        if entry_score_lt(s[s.len() - 1], s[w], now) {
            s.len() - 1
        } else {
            w
        }
    }
}

pub proof fn lemma_weakest_idx_in_range(s: Seq<EntryV>, now: int)
    requires
        s.len() > 0,
    ensures
        0 <= weakest_idx(s, now) < s.len(),
    decreases s.len(),
{
    if s.len() > 1 {
        lemma_weakest_idx_in_range(s.drop_last(), now);
    }
}

/// Whether some entry carries this key.
pub open spec fn has_key(s: Seq<EntryV>, k: Seq<char>) -> bool {
    exists|i: int| 0 <= i < s.len() && s[i].key == k
}

/// Entries are at least 149 bytes, so the count bounds the total.
pub proof fn lemma_total_size_ge(s: Seq<EntryV>, cap: int)
    requires
        forall|i: int| 0 <= i < s.len() ==> wf_entry(#[trigger] s[i], cap),
    ensures
        total_size(s) >= 149 * s.len(),
    decreases s.len(),
{
    if s.len() > 0 {
        assert(forall|i: int|
            0 <= i < s.drop_last().len() ==> s.drop_last()[i] == #[trigger] s[i]);
        lemma_total_size_ge(s.drop_last(), cap);
    }
}

pub proof fn lemma_total_size_le(s: Seq<EntryV>, cap: int)
    requires
        forall|i: int| 0 <= i < s.len() ==> entry_size(#[trigger] s[i]) <= cap,
        cap >= 0,
    ensures
        total_size(s) <= s.len() * cap,
    decreases s.len(),
{
    if s.len() == 0 {
    } else {
        assert(forall|i: int|
            0 <= i < s.drop_last().len() ==> s.drop_last()[i] == #[trigger] s[i]);
        lemma_total_size_le(s.drop_last(), cap);
        assert((s.len() - 1) * cap + cap == s.len() * cap) by (nonlinear_arith);
    }
}

/// The shared message table with its configured capacity in bytes.
pub struct MessageTable {
    pub entries: Vec<Entry>,
    pub max_size: u64,
}

impl View for MessageTable {
    type V = Seq<EntryV>;

    open spec fn view(&self) -> Seq<EntryV> {
        self.entries@.map_values(|e: Entry| e@)
    }
}

impl MessageTable {
    /// Well-formedness: every entry valid, keys distinct, count bounded.
    pub open spec fn wf(&self) -> bool {
        &&& forall|i: int| 0 <= i < self@.len() ==> wf_entry(#[trigger] self@[i], self.max_size as int)
        &&& forall|i: int, j: int|
            0 <= i < j < self@.len() ==> (#[trigger] self@[i]).key != (#[trigger] self@[j]).key
        &&& 149 * self@.len() <= self.max_size
        &&& self.max_size <= 0x80000000
    }

    /// An empty table with the given capacity (at most 2 GiB).
    pub fn new(max_size: u64) -> (r: Self)
        requires
            max_size <= 0x80000000,
        ensures
            r@ =~= Seq::<EntryV>::empty(),
            r.max_size == max_size,
            r.wf(),
    {
        MessageTable { entries: Vec::new(), max_size }
    }

    /// Index of the entry with this key, if any.
    pub fn find(&self, key: &str) -> (r: Option<usize>)
        ensures
            match r {
                Some(i) => i < self@.len() && self@[i as int].key == key@,
                None => !has_key(self@, key@),
            },
    {
        let mut i: usize = 0;
        while i < self.entries.len()
            invariant
                i <= self@.len(),
                self@.len() == self.entries@.len(),
                forall|j: int| 0 <= j < i ==> (#[trigger] self@[j]).key != key@,
            decreases self@.len() - i,
        {
            if crate::strutil::str_eq(self.entries[i].key.as_str(), key) {
                return Some(i);
            }
            i += 1;
        }
        None
    }

    /// Whether a message with this key is stored.
    pub fn contains(&self, key: &str) -> (r: bool)
        ensures
            r == has_key(self@, key@),
    {
        match self.find(key) {
            Some(_) => true,
            None => false,
        }
    }

    /// The stored message with this key, if any.
    pub fn get(&self, key: &str) -> (r: Option<&Message>)
        ensures
            match r {
                Some(m) => exists|i: int|
                    0 <= i < self@.len() && (#[trigger] self@[i]).key == key@ && self@[i].msg
                        == m@,
                None => !has_key(self@, key@),
            },
    {
        match self.find(key) {
            Some(i) => Some(&self.entries[i].msg),
            None => None,
        }
    }

    /// All stored keys, in iteration order.
    pub fn list_keys(&self) -> (r: Vec<String>)
        ensures
            r@.len() == self@.len(),
            forall|i: int| 0 <= i < r@.len() ==> (#[trigger] r@[i])@ == self@[i].key,
    {
        let mut out: Vec<String> = Vec::new();
        let mut i: usize = 0;
        while i < self.entries.len()
            invariant
                i <= self@.len(),
                self@.len() == self.entries@.len(),
                out@.len() == i,
                forall|j: int| 0 <= j < i ==> (#[trigger] out@[j])@ == self@[j].key,
            decreases self@.len() - i,
        {
            out.push(self.entries[i].key.clone());
            i += 1;
        }
        out
    }

    /// Appends an entry; the admission policy has already validated it.
    pub fn insert(&mut self, key: String, msg: Message)
        requires
            old(self).wf(),
            wf_entry(EntryV { key: key@, msg: msg@ }, old(self).max_size as int),
            !has_key(old(self)@, key@),
            149 * (old(self)@.len() + 1) <= old(self).max_size,
        ensures
            final(self)@ =~= old(self)@.push(EntryV { key: key@, msg: msg@ }),
            final(self).max_size == old(self).max_size,
            final(self).wf(),
    {
        self.entries.push(Entry { key, msg });
    }

    /// Removes the entry with this key, if present; order of the rest kept.
    pub fn remove(&mut self, key: &str)
        requires
            old(self).wf(),
        ensures
            final(self).max_size == old(self).max_size,
            final(self).wf(),
            has_key(old(self)@, key@) ==> exists|i: int|
                0 <= i < old(self)@.len() && (#[trigger] old(self)@[i]).key == key@
                    && final(self)@ =~= old(self)@.remove(i),
            !has_key(old(self)@, key@) ==> final(self)@ =~= old(self)@,
    {
        match self.find(key) {
            Some(i) => {
                self.entries.remove(i);
                proof {
                    assert(self@ =~= old(self)@.remove(i as int));
                    assert(forall|j: int|
                        0 <= j < self@.len() ==> wf_entry(
                            #[trigger] self@[j],
                            self.max_size as int,
                        ));
                }
            },
            None => {},
        }
    }
}

/// Raw score of one well-formed entry: its pow and decay denominator.
pub(crate) fn entry_score(e: &Entry, now: i64, Ghost(cap): Ghost<int>) -> (r: (u64, u128))
    requires
        wf_entry(e@, cap),
        cap <= 0x80000000,
    ensures
        r.0 == entry_pow(e@),
        r.1 == entry_d(e@, now as int),
        r.0 <= 512,
        10000 <= r.1 < d_limit(),
{
    let bytes = hex_to_bytes_checked(e.key.as_str());
    let p = get_leading_zeros(&bytes);
    let ep = parse_timestamp(e.msg.timestamp.as_str()).unwrap();
    let ksz = e.key.as_str().len() as u128;
    let msz = e.msg.nonce.as_str().len() as u128 + e.msg.timestamp.as_str().len() as u128
        + e.msg.payload.as_str().len() as u128;
    let size: u128 = ksz + msz;
    let age: i128 = now as i128 - ep as i128;
    let a: u128 = if size > 100 {
        size
    } else {
        100
    };
    let b: u128 = if age > 100 {
        age as u128
    } else {
        100
    };
    proof {
        assert(size == entry_size(e@));
        assert(a <= 0x80000000);
        assert(b <= 0xFFFFFFFFFFFFFFFF + 0x8000000000000000);
        lemma_mul_upper_bound(a as int, 0x80000000, b as int, 0x17FFFFFFFFFFFFFFFF);
        lemma_mul_inequality(100, a as int, b as int);
        assert(a as int * b as int >= 100 * b);
    }
    let dd: u128 = a * b;
    (p, dd)
}

/// Decodes a key that well-formedness guarantees decodes.
fn hex_to_bytes_checked(key: &str) -> (r: Vec<u8>)
    requires
        hex_decode(key@) is Some,
        (hex_decode(key@)->Some_0).len() == 64,
    ensures
        r@ == hex_decode(key@)->Some_0,
        r@.len() == 64,
{
    crate::hexcode::hex_to_bytes(key).unwrap()
}

/// Serialized size of one well-formed entry, in bytes.
fn entry_size_exec(e: &Entry, Ghost(cap): Ghost<int>) -> (r: u64)
    requires
        wf_entry(e@, cap),
        cap <= 0x80000000,
    ensures
        r == entry_size(e@),
        r <= cap,
{
    proof {
        assert(byte_len(e.key@) + byte_len(e.msg.nonce@) + byte_len(e.msg.timestamp@) + byte_len(
            e.msg.payload@,
        ) == entry_size(e@));
    }
    e.key.as_str().len() as u64 + e.msg.nonce.as_str().len() as u64
        + e.msg.timestamp.as_str().len() as u64 + e.msg.payload.as_str().len() as u64
}

impl MessageTable {
    /// One full scan: the key of the entry with the lowest current decayed
    /// score, and the aggregate size of all entries.  On an empty table the
    /// key is the empty string and the size 0.  Ties keep the earliest
    /// entry in iteration order.
    #[verifier::rlimit(60)]
    pub fn get_first_expired(&self, now: i64) -> (r: (String, u64))
        requires
            self.wf(),
        ensures
            self@.len() == 0 ==> r.0@ =~= Seq::<char>::empty() && r.1 == 0,
            self@.len() > 0 ==> r.0@ == self@[weakest_idx(self@, now as int)].key && r.1
                == total_size(self@),
    {
        if self.entries.len() == 0 {
            proof {
                reveal_strlit("");
            }
            return (String::from_str(""), 0);
        }
        let ghost cap = self.max_size as int;
        proof {
            assert(forall|j: int|
                0 <= j < self@.len() ==> entry_size(#[trigger] self@[j]) >= 0 && entry_size(
                    self@[j],
                ) <= cap);
            lemma_total_size_le(self@, cap);
            lemma_mul_upper_bound(self@.len() as int, 0x1000000, cap, 0x80000000);
            assert(self.entries@[0]@ == self@[0]);
            assert(wf_entry(self@[0], cap));
        }
        let (p0, d0) = entry_score(&self.entries[0], now, Ghost(cap));
        let mut cur: usize = 0;
        let mut cur_p: u64 = p0;
        let mut cur_d: u128 = d0;
        let mut tot: u64 = entry_size_exec(&self.entries[0], Ghost(cap));
        let mut i: usize = 1;
        proof {
            assert(self@.take(1).drop_last() =~= Seq::<EntryV>::empty());
            assert(self@.take(1).last() == self@[0]);
            assert(total_size(Seq::<EntryV>::empty()) == 0);
            assert(self@.take(1).len() == 1);
            assert(total_size(self@.take(1)) == total_size(self@.take(1).drop_last())
                + entry_size(self@.take(1).last()));
            assert(tot == total_size(self@.take(1)));
            lemma_total_size_prefix(self@, 1);
        }
        while i < self.entries.len()
            invariant
                1 <= i <= self@.len(),
                self@.len() == self.entries@.len(),
                self.wf(),
                cap == self.max_size as int,
                cur < i,
                cur == weakest_idx(self@.take(i as int), now as int),
                cur_p == entry_pow(self@[cur as int]),
                cur_d == entry_d(self@[cur as int], now as int),
                cur_p <= 512,
                10000 <= cur_d < d_limit(),
                tot == total_size(self@.take(i as int)),
                tot <= total_size(self@),
                total_size(self@) <= 0x1000000 * 0x80000000,
            decreases self@.len() - i,
        {
            proof {
                assert(self.entries@[i as int]@ == self@[i as int]);
                assert(wf_entry(self@[i as int], cap));
                assert(forall|j: int|
                    0 <= j < self@.len() ==> entry_size(#[trigger] self@[j]) >= 0);
                lemma_total_size_prefix(self@, i as int + 1);
            }
            let (p, d) = entry_score(&self.entries[i], now, Ghost(cap));
            let sz: u64 = entry_size_exec(&self.entries[i], Ghost(cap));
            proof {
                assert(self@.take(i as int + 1).drop_last() =~= self@.take(i as int));
                assert(self@.take(i as int + 1).last() == self@[i as int]);
                assert(total_size(self@.take(i as int + 1)) == tot + sz);
            }
            tot = tot + sz;
            if score_lt_exec(p, d, cur_p, cur_d) {
                cur = i;
                cur_p = p;
                cur_d = d;
            }
            proof {
                let t1 = self@.take(i as int + 1);
                assert(t1[t1.len() - 1] == self@[i as int]);
                assert(forall|j: int| 0 <= j < i ==> t1[j] == #[trigger] self@[j]);
            }
            i += 1;
        }
        proof {
            assert(self@.take(self@.len() as int) =~= self@);
        }
        (self.entries[cur].key.clone(), tot)
    }
}

/// A prefix's total never exceeds the whole's: sizes are non-negative.
pub proof fn lemma_total_size_prefix(s: Seq<EntryV>, i: int)
    requires
        0 <= i <= s.len(),
        forall|j: int| 0 <= j < s.len() ==> entry_size(#[trigger] s[j]) >= 0,
    ensures
        total_size(s.take(i)) <= total_size(s),
    decreases s.len() - i,
{
    if i < s.len() {
        lemma_total_size_prefix(s, i + 1);
        assert(s.take(i + 1).drop_last() =~= s.take(i));
        assert(s.take(i + 1).last() == s[i]);
    } else {
        assert(s.take(i) =~= s);
    }
}

} // verus!

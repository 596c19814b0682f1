//! A spam-resistant, capacity-bounded message relay.
//!
//! Clients submit short text messages gated by a proof-of-work requirement:
//! the count of leading zero bits in the SHA-512 digest of
//! `nonce ++ timestamp ++ payload`.  Messages live in a bounded in-memory
//! table keyed by the digest's uppercase hex rendering; when the table is
//! full, an admitted message displaces the stored entry whose decayed score
//! is currently weakest.
//!
//! The heart of the library is [`handle_request`], which turns one request
//! line and one table state into one response line and the next table
//! state, exactly as the specification function [`spec_response`] states;
//! the laws module proves the policy's properties once for all inputs.
mod clock;
mod digest;
mod hexcode;
mod laws;
mod noncegen;
mod numfmt;
mod pow;
mod score;
mod server;
mod strutil;
mod table;
mod timeparse;

pub use clock::handle_request_now;
pub use digest::{sha512_of, get_hash};
pub use hexcode::{
    hex_char_of, hex_upper, hex_val, hex_decode, bytes_to_hex, hex_to_bytes, lemma_hex_round_trip,
    lemma_hex_upper_len,
};
pub use laws::{
    set_ok_conditions, lemma_set_ok_iff, lemma_set_get_round_trip, lemma_round_trip_line,
    lemma_set_idempotent, lemma_set_capacity, lemma_admission_threshold,
    lemma_eviction_correctness, lemma_empty_table_list, lemma_empty_table_get,
};
pub use noncegen::{find_nonce, make_set_line};
pub use numfmt::{dec_digit, dec_nat, dec_int, u64_to_dec, u128_to_dec, i64_to_dec};
pub use pow::{lz_byte, leading_zero_bits, lemma_leading_zero_bits_bound, get_leading_zeros};
pub use score::{
    d_limit, score_lt, flog10k, score_lt_exec, flog10k_exec, required_threshold,
    required_threshold_exec,
};
pub use server::{
    list_cat, spec_help, spec_list, spec_get, spec_digest, cand_entry, err_minpow, err_too_large,
    err_insufficient, spec_set, spec_response, handle_request,
};
pub use strutil::{str_eq, is_ws_char, tok_len, spec_tokens, tokenize, lemma_tokens_nonempty};
pub use table::{
    byte_len, lemma_byte_len_ge, Message, MessageV, msg_size, Entry, EntryV, entry_size, wf_entry,
    entry_pow, entry_age, decay_d, entry_d, entry_score_lt, total_size, weakest_idx,
    lemma_weakest_idx_in_range, has_key, lemma_total_size_ge, lemma_total_size_le,
    lemma_total_size_prefix, MessageTable,
};
pub use timeparse::{
    is_digit_char, digit_val, is_leap_year, days_in_month, epoch_of, parse_ts, parse_timestamp,
};

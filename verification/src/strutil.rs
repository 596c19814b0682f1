//! Character-wise string comparison and whitespace tokenization.
//!
//! A request line is split on runs of ASCII whitespace; the tokens are the
//! maximal whitespace-free runs, so every token is non-empty.
use vstd::prelude::*;
use vstd::string::{StrSliceExecFns, StringExecFns};

verus! {

/// ASCII whitespace, the separators of the request grammar.
pub open spec fn is_ws_char(c: char) -> bool {
    c == ' ' || c == '\t' || c == '\n' || c == '\r' || c == '\u{b}' || c == '\u{c}'
}

/// Length of the whitespace-free run at the front.
pub open spec fn tok_len(s: Seq<char>) -> nat
    decreases s.len(),
{
    if s.len() == 0 || is_ws_char(s[0]) {
        0
    } else {
        1 + tok_len(s.drop_first())
    }
}

pub proof fn lemma_tok_len_le(s: Seq<char>)
    ensures
        tok_len(s) <= s.len(),
    decreases s.len(),
{
    if s.len() > 0 && !is_ws_char(s[0]) {
        lemma_tok_len_le(s.drop_first());
    }
}

/// The run length is the distance to the first whitespace character.
pub proof fn lemma_tok_len_run(s: Seq<char>, m: int)
    requires
        0 <= m <= s.len(),
        forall|k: int| 0 <= k < m ==> !is_ws_char(s[k]),
        m == s.len() || is_ws_char(s[m]),
    ensures
        tok_len(s) == m,
    decreases m,
{
    if m > 0 {
        assert(!is_ws_char(s[0]));
        assert(forall|k: int| 0 <= k < m - 1 ==> s.drop_first()[k] == s[k + 1]);
        lemma_tok_len_run(s.drop_first(), m - 1);
    }
}

/// The whitespace-separated tokens of a line, in order.
pub open spec fn spec_tokens(s: Seq<char>) -> Seq<Seq<char>>
    decreases s.len(),
    via spec_tokens_decreases
{
    if s.len() == 0 {
        Seq::<Seq<char>>::empty()
    } else if is_ws_char(s[0]) {
        spec_tokens(s.drop_first())
    } else {
        seq![s.take(tok_len(s) as int)] + spec_tokens(s.skip(tok_len(s) as int))
    }
}

#[via_fn]
proof fn spec_tokens_decreases(s: Seq<char>) {
    if s.len() > 0 && !is_ws_char(s[0]) {
        lemma_tok_len_le(s);
    }
}

/// Every token is a non-empty run of non-whitespace characters.
pub proof fn lemma_tokens_nonempty(s: Seq<char>)
    ensures
        forall|i: int|
            0 <= i < spec_tokens(s).len() ==> (#[trigger] spec_tokens(s)[i]).len() >= 1,
    decreases s.len(),
{
    if s.len() == 0 {
    } else if is_ws_char(s[0]) {
        lemma_tokens_nonempty(s.drop_first());
        assert forall|i: int| 0 <= i < spec_tokens(s).len() implies (#[trigger] spec_tokens(
            s,
        )[i]).len() >= 1 by {
            assert(spec_tokens(s)[i] == spec_tokens(s.drop_first())[i]);
            assert(spec_tokens(s.drop_first())[i].len() >= 1);
        }
    } else {
        lemma_tok_len_le(s);
        lemma_tokens_nonempty(s.skip(tok_len(s) as int));
        let tl = tok_len(s) as int;
        assert forall|i: int| 0 <= i < spec_tokens(s).len() implies (#[trigger] spec_tokens(
            s,
        )[i]).len() >= 1 by {
            if i == 0 {
                assert(spec_tokens(s)[0] == s.take(tl));
                assert(s.take(tl).len() == tl);
            } else {
                assert(spec_tokens(s)[i] == spec_tokens(s.skip(tl))[i - 1]);
            }
        }
    }
}

fn is_ws(c: char) -> (r: bool)
    ensures
        r == is_ws_char(c),
{
    c == ' ' || c == '\t' || c == '\n' || c == '\r' || c == '\u{b}' || c == '\u{c}'
}

/// Splits a line into its whitespace-separated tokens.
pub fn tokenize(line: &str) -> (r: Vec<String>)
    ensures
        r@.map_values(|t: String| t@) =~= spec_tokens(line@),
{
    let n = line.unicode_len();
    let mut out: Vec<String> = Vec::new();
    let mut i: usize = 0;
    proof {
        assert(line@.skip(0) =~= line@);
        assert(out@.map_values(|t: String| t@) + spec_tokens(line@) =~= spec_tokens(line@));
    }
    while i < n
        invariant
            i <= n,
            n == line@.len(),
            spec_tokens(line@) =~= out@.map_values(|t: String| t@) + spec_tokens(
                line@.skip(i as int),
            ),
        decreases n - i,
    {
        let c = line.get_char(i);
        if is_ws(c) {
            proof {
                assert(line@.skip(i as int)[0] == line@[i as int]);
                assert(line@.skip(i as int).drop_first() =~= line@.skip(i as int + 1));
            }
            i += 1;
        } else {
            let mut j: usize = i + 1;
            while j < n
                invariant
                    i < j <= n,
                    n == line@.len(),
                    forall|k: int| i <= k < j ==> !is_ws_char(#[trigger] line@[k]),
                ensures
                    i < j <= n,
                    forall|k: int| i <= k < j ==> !is_ws_char(#[trigger] line@[k]),
                    j == n || is_ws_char(line@[j as int]),
                decreases n - j,
            {
                if is_ws(line.get_char(j)) {
                    break ;
                }
                j += 1;
            }
            proof {
                let rest = line@.skip(i as int);
                assert(forall|k: int| 0 <= k < j - i ==> rest[k] == #[trigger] line@[k + i]);
                assert(j < n ==> is_ws_char(rest[j - i]));
                lemma_tok_len_run(rest, j - i);
                assert(rest.take(j - i) =~= line@.subrange(i as int, j as int));
                assert(rest.skip(j - i) =~= line@.skip(j as int));
            }
            let t: String = line.substring_char(i, j).to_owned();
            let ghost prev = out@;
            out.push(t);
            proof {
                let f = |t: String| t@;
                assert(out@ =~= prev.push(out@[prev.len() as int]));
                assert(out@.map_values(f) =~= prev.map_values(f) + seq![
                    line@.subrange(i as int, j as int),
                ]);
                assert(spec_tokens(line@.skip(i as int)) =~= seq![
                    line@.subrange(i as int, j as int),
                ] + spec_tokens(line@.skip(j as int)));
                assert((prev.map_values(f) + seq![line@.subrange(i as int, j as int)])
                    + spec_tokens(line@.skip(j as int)) =~= prev.map_values(f) + (seq![
                    line@.subrange(i as int, j as int),
                ] + spec_tokens(line@.skip(j as int))));
            }
            i = j;
        }
    }
    proof {
        assert(line@.skip(n as int) =~= Seq::<char>::empty());
        assert(spec_tokens(Seq::<char>::empty()) =~= Seq::<Seq<char>>::empty());
        assert(out@.map_values(|t: String| t@) + Seq::<Seq<char>>::empty() =~= out@.map_values(
            |t: String| t@,
        ));
    }
    out
}

/// Whether two strings hold the same characters.
pub fn str_eq(a: &str, b: &str) -> (r: bool)
    ensures
        r == (a@ == b@),
{
    let na = a.unicode_len();
    let nb = b.unicode_len();
    if na != nb {
        assert(a@ != b@);
        return false;
    }
    let mut i: usize = 0;
    while i < na
        invariant
            i <= na,
            na == a@.len(),
            na == b@.len(),
            forall|j: int| 0 <= j < i ==> a@[j] == b@[j],
        decreases na - i,
    {
        if a.get_char(i) != b.get_char(i) {
            assert(a@ != b@);
            return false;
        }
        i += 1;
    }
    assert(a@ =~= b@);
    true
}

} // verus!

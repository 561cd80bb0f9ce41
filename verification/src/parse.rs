//! Parsing of the whitespace-separated numeric arrays used by CLF.
//!
//! CLF stores a LUT's shape and its samples as one text blob of
//! space-separated numbers. This module splits such a blob into tokens and
//! parses each token as an unsigned decimal integer, in source order,
//! failing on the first token that does not parse and naming it in the
//! error. Splitting and sample parsing are kept separate so that a caller
//! whose sample type this crate does not model (the 32-bit float samples)
//! can still reuse the splitter and convert each token itself.

use vstd::prelude::*;
use vstd::string::StringSliceAdditionalSpecFns;

verus! {

/// The byte values treated as whitespace between tokens: space, tab,
/// line feed and carriage return (the XML white-space set).
pub open spec fn is_space(b: u8) -> bool {
    b == 32 || b == 9 || b == 10 || b == 13
}

/// The length of the leading run of non-whitespace bytes: how far the
/// first token of `s` extends.
pub open spec fn token_len(s: Seq<u8>) -> nat
    decreases s.len(),
{
    if s.len() == 0 || is_space(s[0]) {
        0
    } else {
        1 + token_len(s.skip(1))
    }
}

proof fn lemma_token_len_le(s: Seq<u8>)
    ensures
        token_len(s) <= s.len(),
    decreases s.len(),
{
    if s.len() > 0 && !is_space(s[0]) {
        lemma_token_len_le(s.skip(1));
    }
}

/// The tokens of `s` in source order: the maximal runs of non-whitespace
/// bytes, with the whitespace between them dropped.
pub open spec fn tokens_of(s: Seq<u8>) -> Seq<Seq<u8>>
    decreases s.len(),
    via tokens_of_decreases
{
    if s.len() == 0 {
        Seq::empty()
    } else if is_space(s[0]) {
        tokens_of(s.skip(1))
    } else {
        seq![s.take(token_len(s) as int)] + tokens_of(s.skip(token_len(s) as int))
    }
}

#[via_fn]
proof fn tokens_of_decreases(s: Seq<u8>) {
    lemma_token_len_le(s);
}

/// A token whose first `k` bytes are non-whitespace and which ends there
/// (at the end of `s` or at a whitespace byte) has length exactly `k`.
proof fn lemma_token_len_is(s: Seq<u8>, k: int)
    requires
        0 <= k <= s.len(),
        forall|i: int| 0 <= i < k ==> !is_space(#[trigger] s[i]),
        k == s.len() || is_space(s[k]),
    ensures
        token_len(s) == k,
    decreases k,
{
    if k > 0 {
        assert(!is_space(s[0]));
        let t = s.skip(1);
        assert(forall|i: int| 0 <= i < k - 1 ==> t[i] == s[i + 1]);
        assert(k - 1 == t.len() || is_space(t[k - 1]));
        lemma_token_len_is(t, k - 1);
    }
}

/// Splits a byte string into its whitespace-separated tokens, in source
/// order, exactly as [`tokens_of`] states.
fn split_bytes(b: &[u8]) -> (r: Vec<Vec<u8>>)
    ensures
        r@.len() == tokens_of(b@).len(),
        forall|k: int| 0 <= k < r@.len() ==> (#[trigger] r@[k])@ == tokens_of(b@)[k],
{
    let n: usize = b.len();
    let mut out: Vec<Vec<u8>> = Vec::new();
    let mut i: usize = 0;
    proof {
        assert(b@.skip(0) =~= b@);
        assert(tokens_of(b@).skip(0) =~= tokens_of(b@));
    }
    while i < n
        invariant
            0 <= i <= n,
            n == b@.len(),
            out@.len() <= tokens_of(b@).len(),
            forall|k: int| 0 <= k < out@.len() ==> (#[trigger] out@[k])@ == tokens_of(b@)[k],
            tokens_of(b@.skip(i as int)) == tokens_of(b@).skip(out@.len() as int),
        decreases n - i,
    {
        if b[i] == 32 || b[i] == 9 || b[i] == 10 || b[i] == 13 {
            proof {
                let rest = b@.skip(i as int);
                assert(rest.len() > 0 && is_space(rest[0]));
                assert(rest.skip(1) =~= b@.skip(i as int + 1));
            }
            i = i + 1;
        } else {
            let start: usize = i;
            let mut tok: Vec<u8> = Vec::new();
            while i < n && b[i] != 32 && b[i] != 9 && b[i] != 10 && b[i] != 13
                invariant
                    0 <= start <= i <= n,
                    n == b@.len(),
                    !is_space(b@[start as int]),
                    tok@ == b@.subrange(start as int, i as int),
                    forall|t: int| start <= t < i ==> !is_space(#[trigger] b@[t]),
                decreases n - i,
            {
                tok.push(b[i]);
                proof {
                    assert(tok@ =~= b@.subrange(start as int, i as int + 1));
                }
                i = i + 1;
            }
            proof {
                let rest = b@.skip(start as int);
                let k = i - start;
                assert(forall|t: int| 0 <= t < k ==> rest[t] == b@[start + t]);
                assert(k == rest.len() || is_space(rest[k as int]));
                lemma_token_len_is(rest, k as int);
                assert(rest.take(k as int) =~= b@.subrange(start as int, i as int));
                assert(rest.skip(k as int) =~= b@.skip(i as int));
                assert(tokens_of(rest) == seq![tok@] + tokens_of(b@.skip(i as int)));
                let done = out@.len() as int;
                let all = tokens_of(b@);
                assert(all.skip(done) == seq![tok@] + tokens_of(b@.skip(i as int)));
                assert(all.skip(done).len() > 0);
                assert(all[done] == all.skip(done)[0]);
                assert(tokens_of(b@.skip(i as int)) =~= all.skip(done + 1)) by {
                    assert(forall|t: int|
                        0 <= t < tokens_of(b@.skip(i as int)).len() ==> #[trigger] all.skip(
                            done + 1,
                        )[t] == (seq![tok@] + tokens_of(b@.skip(i as int)))[t + 1]);
                }
            }
            out.push(tok);
        }
    }
    proof {
        assert(b@.skip(n as int).len() == 0);
        assert(tokens_of(b@).skip(out@.len() as int).len() == 0);
    }
    out
}

/// Splits a string into its whitespace-separated tokens, each returned as
/// its UTF-8 bytes, in source order.
pub fn split_tokens(s: &str) -> (r: Vec<Vec<u8>>)
    ensures
        r@.len() == tokens_of(s.spec_bytes()).len(),
        forall|k: int| 0 <= k < r@.len() ==> (#[trigger] r@[k])@ == tokens_of(s.spec_bytes())[k],
{
    split_bytes(s.as_bytes())
}

/// An ASCII decimal digit.
pub open spec fn is_digit(b: u8) -> bool {
    48 <= b && b <= 57
}

pub open spec fn digit_val(b: u8) -> nat {
    if is_digit(b) {
        (b - 48) as nat
    } else {
        0
    }
}

/// The value of a digit string read in base 10, most significant first.
pub open spec fn digits_value(s: Seq<u8>) -> nat
    decreases s.len(),
{
    if s.len() == 0 {
        0
    } else {
        digits_value(s.drop_last()) * 10 + digit_val(s.last())
    }
}

/// The digits of a token: an unsigned decimal may carry one leading `+`,
/// as Rust's own unsigned parser accepts.
pub open spec fn numeric_part(t: Seq<u8>) -> Seq<u8> {
    if t.len() > 0 && t[0] == 43 {
        t.skip(1)
    } else {
        t
    }
}

/// A token that parses as a `u32`: at least one digit after the optional
/// sign, nothing but digits, and a value within range.
pub open spec fn is_u32_token(t: Seq<u8>) -> bool {
    let d = numeric_part(t);
    &&& d.len() > 0
    &&& forall|i: int| 0 <= i < d.len() ==> is_digit(#[trigger] d[i])
    &&& digits_value(d) <= u32::MAX
}

pub open spec fn u32_token_value(t: Seq<u8>) -> nat {
    digits_value(numeric_part(t))
}

/// Reading more digits never decreases the value: the value of a prefix
/// bounds the value of the whole from below.
proof fn lemma_digits_value_prefix(s: Seq<u8>, k: int)
    requires
        0 <= k <= s.len(),
    ensures
        digits_value(s.take(k)) <= digits_value(s),
    decreases s.len() - k,
{
    if k == s.len() {
        assert(s.take(k) =~= s);
    } else {
        lemma_digits_value_prefix(s, k + 1);
        let p = s.take(k + 1);
        assert(p.drop_last() =~= s.take(k));
        assert(digits_value(p) == digits_value(s.take(k)) * 10 + digit_val(p.last()));
    }
}

/// Parses one token as an unsigned decimal `u32`, accepting exactly the
/// tokens [`is_u32_token`] describes and returning the value
/// [`u32_token_value`] states.
fn parse_u32_token(t: &[u8]) -> (r: Option<u32>)
    ensures
        match r {
            Some(v) => is_u32_token(t@) && v as nat == u32_token_value(t@),
            None => !is_u32_token(t@),
        },
{
    let n: usize = t.len();
    let start: usize = if n > 0 && t[0] == 43 {
        1
    } else {
        0
    };
    proof {
        assert(numeric_part(t@) =~= t@.skip(start as int));
    }
    if start == n {
        return None;
    }
    let mut acc: u64 = 0;
    let mut j: usize = start;
    proof {
        assert(t@.subrange(start as int, start as int).len() == 0);
    }
    while j < n
        invariant
            start <= j <= n,
            n == t@.len(),
            numeric_part(t@) == t@.skip(start as int),
            forall|i: int| start <= i < j ==> is_digit(#[trigger] t@[i]),
            acc as nat == digits_value(t@.subrange(start as int, j as int)),
            acc <= u32::MAX,
        decreases n - j,
    {
        let b = t[j];
        if b < 48 || b > 57 {
            proof {
                let d = numeric_part(t@);
                assert(d[j - start] == t@[j as int]);
                assert(!is_digit(d[j - start]));
            }
            return None;
        }
        let next: u64 = acc * 10 + ((b - 48) as u64);
        proof {
            let sub = t@.subrange(start as int, j as int + 1);
            assert(sub.drop_last() =~= t@.subrange(start as int, j as int));
            assert(sub.last() == t@[j as int]);
            assert(next as nat == digits_value(sub));
        }
        if next > 0xffff_ffffu64 {
            proof {
                let d = numeric_part(t@);
                let prefix_len = j + 1 - start;
                assert(d.take(prefix_len as int) =~= t@.subrange(start as int, j as int + 1));
                lemma_digits_value_prefix(d, prefix_len as int);
                assert(digits_value(d) > u32::MAX);
            }
            return None;
        }
        acc = next;
        j = j + 1;
    }
    proof {
        assert(t@.subrange(start as int, n as int) =~= numeric_part(t@));
        assert(numeric_part(t@).len() > 0);
        assert(forall|i: int|
            0 <= i < numeric_part(t@).len() ==> is_digit(#[trigger] numeric_part(t@)[i]));
    }
    Some(acc as u32)
}

/// The error of [`parse_u32_array`]: the first token that does not parse
/// as an unsigned decimal, and its position among the tokens.
#[derive(Debug, Clone, PartialEq)]
pub struct ArrayParseError {
    pub index: usize,
    pub token: Vec<u8>,
}

/// Splits `s` on runs of whitespace and parses every token as an unsigned
/// decimal `u32`, in source order. An empty or whitespace-only string
/// yields an empty sequence. The first token that does not parse aborts
/// the whole operation, and the error names that token.
pub fn parse_u32_array(s: &str) -> (r: Result<Vec<u32>, ArrayParseError>)
    ensures
        ({
            let toks = tokens_of(s.spec_bytes());
            match r {
                Ok(v) => {
                    &&& v@.len() == toks.len()
                    &&& forall|i: int| 0 <= i < toks.len() ==> is_u32_token(#[trigger] toks[i])
                    &&& forall|i: int|
                        0 <= i < toks.len() ==> (#[trigger] v@[i]) as nat == u32_token_value(
                            toks[i],
                        )
                },
                Err(e) => {
                    &&& e.index < toks.len()
                    &&& !is_u32_token(toks[e.index as int])
                    &&& forall|i: int| 0 <= i < e.index ==> is_u32_token(#[trigger] toks[i])
                    &&& e.token@ == toks[e.index as int]
                },
            }
        }),
{
    let mut toks = split_tokens(s);
    let mut out: Vec<u32> = Vec::new();
    let mut k: usize = 0;
    let n: usize = toks.len();
    while k < n
        invariant
            0 <= k <= n,
            n == toks@.len(),
            toks@.len() == tokens_of(s.spec_bytes()).len(),
            forall|i: int|
                0 <= i < toks@.len() ==> (#[trigger] toks@[i])@ == tokens_of(s.spec_bytes())[i],
            out@.len() == k,
            forall|i: int| 0 <= i < k ==> is_u32_token(#[trigger] tokens_of(s.spec_bytes())[i]),
            forall|i: int|
                0 <= i < k ==> (#[trigger] out@[i]) as nat == u32_token_value(
                    tokens_of(s.spec_bytes())[i],
                ),
        decreases n - k,
    {
        match parse_u32_token(toks[k].as_slice()) {
            Some(v) => {
                out.push(v);
                k = k + 1;
            },
            None => {
                let token = toks.remove(k);
                return Err(ArrayParseError { index: k, token });
            },
        }
    }
    Ok(out)
}

} // verus!

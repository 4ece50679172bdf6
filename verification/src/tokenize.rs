//! The default tokenizer: splits a line at runs of whitespace.
//!
//! A token is a maximal run of non-whitespace characters; no token is ever
//! dropped or merged, and an empty line (or one of only whitespace) yields no
//! tokens.  A different separator rule can be supplied to the clusterer as a
//! split regex instead of using this default.

use vstd::prelude::*;
use vstd::string::StrSliceExecFns;

use crate::pattern::lemma_vec_deep_view_push;

verus! {

/// The whitespace characters of the default separator rule.
pub open spec fn is_space(c: char) -> bool {
    c == ' ' || c == '\t' || c == '\n' || c == '\r' || c == '\u{0b}' || c == '\u{0c}'
}

/// The first position at or after `i` holding a non-space character, or the
/// length if there is none.
pub open spec fn next_nonspace(s: Seq<char>, i: int) -> int
    decreases s.len() - i,
    when 0 <= i <= s.len()
{
    if i >= s.len() {
        s.len() as int
    } else if !is_space(s[i]) {
        i
    } else {
        next_nonspace(s, i + 1)
    }
}

/// The first position at or after `i` holding a space character, or the
/// length if there is none.
pub open spec fn next_space(s: Seq<char>, i: int) -> int
    decreases s.len() - i,
    when 0 <= i <= s.len()
{
    if i >= s.len() {
        s.len() as int
    } else if is_space(s[i]) {
        i
    } else {
        next_space(s, i + 1)
    }
}

pub proof fn lemma_next_nonspace(s: Seq<char>, i: int)
    requires
        0 <= i <= s.len(),
    ensures
        i <= next_nonspace(s, i) <= s.len(),
        next_nonspace(s, i) < s.len() ==> !is_space(s[next_nonspace(s, i)]),
    decreases s.len() - i,
{
    if i < s.len() && is_space(s[i]) {
        lemma_next_nonspace(s, i + 1);
    }
}

pub proof fn lemma_next_space(s: Seq<char>, i: int)
    requires
        0 <= i <= s.len(),
    ensures
        i <= next_space(s, i) <= s.len(),
        next_space(s, i) < s.len() ==> is_space(s[next_space(s, i)]),
        i < s.len() && !is_space(s[i]) ==> next_space(s, i) > i,
    decreases s.len() - i,
{
    if i < s.len() && !is_space(s[i]) {
        lemma_next_space(s, i + 1);
    }
}

/// The tokens of `s` from position `i` on: each maximal run of non-space
/// characters, in order.
pub open spec fn tokens_from(s: Seq<char>, i: int) -> Seq<Seq<char>>
    decreases s.len() - i,
    when 0 <= i <= s.len()
    via tokens_from_decreases
{
    let a = next_nonspace(s, i);
    if a >= s.len() {
        Seq::empty()
    } else {
        let b = next_space(s, a);
        seq![s.subrange(a, b)] + tokens_from(s, b)
    }
}

#[via_fn]
proof fn tokens_from_decreases(s: Seq<char>, i: int) {
    lemma_next_nonspace(s, i);
    let a = next_nonspace(s, i);
    if a < s.len() {
        lemma_next_space(s, a);
    }
}

/// The tokens of the whole line.
pub open spec fn spec_tokenize(s: Seq<char>) -> Seq<Seq<char>> {
    tokens_from(s, 0)
}

proof fn lemma_tokens_from_count(s: Seq<char>, i: int)
    requires
        0 <= i <= s.len(),
    ensures
        0 <= tokens_from(s, i).len() <= s.len() - i,
    decreases s.len() - i,
{
    lemma_next_nonspace(s, i);
    let a = next_nonspace(s, i);
    if a < s.len() {
        lemma_next_space(s, a);
        let b = next_space(s, a);
        lemma_tokens_from_count(s, b);
    }
}

/// A line has no more tokens than characters.
pub proof fn lemma_tokenize_count(s: Seq<char>)
    ensures
        0 <= spec_tokenize(s).len() <= s.len(),
{
    lemma_tokens_from_count(s, 0);
}

proof fn lemma_tokens_from_space(s: Seq<char>, i: int)
    requires
        0 <= i < s.len(),
        is_space(s[i]),
    ensures
        tokens_from(s, i) == tokens_from(s, i + 1),
{
}

proof fn lemma_tokens_from_token(s: Seq<char>, i: int)
    requires
        0 <= i < s.len(),
        !is_space(s[i]),
    ensures
        tokens_from(s, i) == seq![s.subrange(i, next_space(s, i))] + tokens_from(
            s,
            next_space(s, i),
        ),
{
    lemma_next_space(s, i);
    assert(next_nonspace(s, i) == i);
}

/// Whether `c` is one of the default separator's whitespace characters.
fn is_space_char(c: char) -> (r: bool)
    ensures
        r == is_space(c),
{
    c == ' ' || c == '\t' || c == '\n' || c == '\r' || c == '\u{0b}' || c == '\u{0c}'
}

fn token_end(line: &str, start: usize, n: usize) -> (j: usize)
    requires
        n == line@.len(),
        start <= n,
    ensures
        j == next_space(line@, start as int),
{
    let mut j = start;
    while j < n
        invariant
            start <= j <= n,
            n == line@.len(),
            next_space(line@, start as int) == next_space(line@, j as int),
        decreases n - j,
    {
        let c = line.get_char(j);
        if is_space_char(c) {
            return j;
        }
        j += 1;
    }
    j
}

/// Splits `line` into its tokens: the maximal runs of non-whitespace
/// characters, in order.
pub fn tokenize(line: &str) -> (r: Vec<String>)
    ensures
        r.deep_view() == spec_tokenize(line@),
{
    let n = line.unicode_len();
    let mut out: Vec<String> = Vec::new();
    proof {
        assert(out.deep_view() =~= Seq::<Seq<char>>::empty());
        assert(spec_tokenize(line@) =~= out.deep_view() + tokens_from(line@, 0));
    }
    let mut i: usize = 0;
    while i < n
        invariant
            n == line@.len(),
            i <= n,
            spec_tokenize(line@) == out.deep_view() + tokens_from(line@, i as int),
        decreases n - i,
    {
        let c = line.get_char(i);
        if is_space_char(c) {
            proof {
                lemma_tokens_from_space(line@, i as int);
            }
            i += 1;
        } else {
            let j = token_end(line, i, n);
            proof {
                lemma_next_space(line@, i as int);
                lemma_tokens_from_token(line@, i as int);
            }
            let piece = line.substring_char(i, j);
            let tok = piece.to_owned();
            let ghost prev_out = out;
            out.push(tok);
            proof {
                lemma_vec_deep_view_push(prev_out, out, out@.last());
                assert(out.deep_view() + tokens_from(line@, j as int) =~= prev_out.deep_view() + (
                seq![line@.subrange(i as int, j as int)] + tokens_from(line@, j as int)));
            }
            i = j;
        }
    }
    proof {
        assert(tokens_from(line@, n as int) =~= Seq::<Seq<char>>::empty());
        assert(out.deep_view() + tokens_from(line@, n as int) =~= out.deep_view());
    }
    out
}

} // verus!

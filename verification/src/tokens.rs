//! The mathematical model of tokenization: how a character stream splits
//! into delimiter-separated tokens, into lines, and into integer literals.

use vstd::prelude::*;

verus! {

/// The fixed delimiter set: space, tab, carriage return, line feed, comma.
pub open spec fn is_delim(c: char) -> bool {
    c == ' ' || c == '\t' || c == '\r' || c == '\n' || c == ','
}

/// `s` without its leading run of delimiters.
pub open spec fn trim_delims(s: Seq<char>) -> Seq<char>
    decreases s.len(),
{
    if s.len() > 0 && is_delim(s[0]) {
        trim_delims(s.drop_first())
    } else {
        s
    }
}

/// Length of the leading run of non-delimiter characters of `s`.
pub open spec fn token_run_len(s: Seq<char>) -> nat
    decreases s.len(),
{
    if s.len() > 0 && !is_delim(s[0]) {
        (1 + token_run_len(s.drop_first())) as nat
    } else {
        0
    }
}

/// The first token of `s`: skip leading delimiters, then take the maximal
/// delimiter-free run.  Empty exactly when `s` consists of delimiters only.
pub open spec fn next_token(s: Seq<char>) -> Seq<char> {
    trim_delims(s).take(token_run_len(trim_delims(s)) as int)
}

/// What remains of `s` once its first token (and the delimiters before it)
/// has been consumed.
pub open spec fn after_token(s: Seq<char>) -> Seq<char> {
    trim_delims(s).skip(token_run_len(trim_delims(s)) as int)
}

pub proof fn lemma_trim_delims_len(s: Seq<char>)
    ensures
        trim_delims(s).len() <= s.len(),
    decreases s.len(),
{
    if s.len() > 0 && is_delim(s[0]) {
        lemma_trim_delims_len(s.drop_first());
    }
}

pub proof fn lemma_token_run_len_le(s: Seq<char>)
    ensures
        token_run_len(s) <= s.len(),
    decreases s.len(),
{
    if s.len() > 0 && !is_delim(s[0]) {
        lemma_token_run_len_le(s.drop_first());
    }
}

/// The leading run of `s` is delimiter-free and maximal.
pub proof fn lemma_token_run_chars(s: Seq<char>)
    ensures
        token_run_len(s) <= s.len(),
        forall|j: int| 0 <= j < token_run_len(s) ==> !is_delim(#[trigger] s[j]),
        token_run_len(s) < s.len() ==> is_delim(s[token_run_len(s) as int]),
    decreases s.len(),
{
    if s.len() > 0 && !is_delim(s[0]) {
        lemma_token_run_chars(s.drop_first());
        assert forall|j: int| 0 <= j < token_run_len(s) implies !is_delim(#[trigger] s[j]) by {
            if j > 0 {
                assert(s[j] == s.drop_first()[j - 1]);
            }
        }
    }
}

/// A position that is delimiter-free up to `i` and ends at a delimiter or at
/// the end of `s` is exactly the leading-run length.
pub proof fn lemma_token_run_len_is(s: Seq<char>, i: int)
    requires
        0 <= i <= s.len(),
        forall|j: int| 0 <= j < i ==> !is_delim(#[trigger] s[j]),
        i == s.len() || is_delim(s[i]),
    ensures
        token_run_len(s) == i,
    decreases s.len(),
{
    if i == 0 {
    } else {
        assert(!is_delim(s[0]));
        assert forall|j: int| 0 <= j < i - 1 implies !is_delim(#[trigger] s.drop_first()[j]) by {
            assert(s.drop_first()[j] == s[j + 1]);
        }
        lemma_token_run_len_is(s.drop_first(), i - 1);
    }
}

pub proof fn lemma_after_token_shorter(s: Seq<char>)
    requires
        next_token(s).len() > 0,
    ensures
        after_token(s).len() < s.len(),
{
    lemma_trim_delims_len(s);
    lemma_token_run_len_le(trim_delims(s));
}

/// The full decomposition of `s` into its tokens, in left-to-right order.
pub open spec fn tokens(s: Seq<char>) -> Seq<Seq<char>>
    decreases s.len(),
    via tokens_decreases
{
    if next_token(s).len() == 0 {
        Seq::empty()
    } else {
        seq![next_token(s)] + tokens(after_token(s))
    }
}

#[via_fn]
proof fn tokens_decreases(s: Seq<char>) {
    if next_token(s).len() > 0 {
        lemma_after_token_shorter(s);
    }
}

/// What remains of `s` after consuming `n` tokens in order.
pub open spec fn after_tokens(s: Seq<char>, n: nat) -> Seq<char>
    decreases n,
{
    if n == 0 {
        s
    } else {
        after_tokens(after_token(s), (n - 1) as nat)
    }
}

/// The `i`-th token that repeated extraction yields on `s` (empty once the
/// stream holds no further token).
pub open spec fn nth_token(s: Seq<char>, i: nat) -> Seq<char> {
    next_token(after_tokens(s, i))
}

pub proof fn lemma_after_tokens_snoc(s: Seq<char>, i: nat)
    ensures
        after_tokens(s, (i + 1) as nat) == after_token(after_tokens(s, i)),
    decreases i,
{
    if i == 0 {
        assert(after_tokens(s, 1) == after_tokens(after_token(s), 0));
    } else {
        lemma_after_tokens_snoc(after_token(s), (i - 1) as nat);
        assert(after_tokens(s, (i + 1) as nat) == after_tokens(after_token(s), i));
        assert(after_tokens(s, i) == after_tokens(after_token(s), (i - 1) as nat));
    }
}

/// Repeated token extraction steps through `tokens(s)` one element at a
/// time: the first extraction yields `tokens(s)[0]`, and the rest of the
/// stream decomposes into the remaining tokens.
pub proof fn lemma_token_stream_step(s: Seq<char>)
    ensures
        tokens(s).len() > 0 ==> next_token(s) == tokens(s)[0],
        tokens(s).len() > 0 ==> tokens(after_token(s)) == tokens(s).drop_first(),
        tokens(s).len() == 0 ==> next_token(s).len() == 0,
{
    if next_token(s).len() > 0 {
        assert(tokens(s) == seq![next_token(s)] + tokens(after_token(s)));
        assert(tokens(s).drop_first() =~= tokens(after_token(s)));
    }
}

/// Every token of the decomposition is non-empty and contains no delimiter:
/// repeated extraction yields exactly the delimiter-free runs of `s`.
pub proof fn lemma_tokens_delimiter_free(s: Seq<char>)
    ensures
        forall|i: int|
            0 <= i < tokens(s).len() ==> (#[trigger] tokens(s)[i]).len() > 0,
        forall|i: int, j: int|
            0 <= i < tokens(s).len() && 0 <= j < tokens(s)[i].len() ==> !is_delim(
                #[trigger] tokens(s)[i][j],
            ),
    decreases s.len(),
{
    if next_token(s).len() > 0 {
        lemma_after_token_shorter(s);
        lemma_tokens_delimiter_free(after_token(s));
        lemma_token_run_chars(trim_delims(s));
        assert(tokens(s) == seq![next_token(s)] + tokens(after_token(s)));
        assert forall|i: int, j: int|
            0 <= i < tokens(s).len() && 0 <= j < tokens(s)[i].len() implies !is_delim(
            tokens(s)[i][j],
        ) by {
            if i == 0 {
                assert(tokens(s)[0] == next_token(s));
                assert(next_token(s)[j] == trim_delims(s)[j]);
            } else {
                assert(tokens(s)[i] == tokens(after_token(s))[i - 1]);
            }
        }
    }
}

/// Reading `n` tokens one by one walks the front of `tokens(s)`: the `i`-th
/// extraction yields `tokens(s)[i]`, and after `n` extractions the
/// decomposition of the rest is `tokens(s)` without its first `n` elements.
pub proof fn lemma_nth_token_indexes(s: Seq<char>, n: nat)
    requires
        n <= tokens(s).len(),
    ensures
        tokens(after_tokens(s, n)) == tokens(s).skip(n as int),
        forall|i: nat| i < n ==> nth_token(s, i) == tokens(s)[i as int],
    decreases n,
{
    if n == 0 {
        assert(tokens(s).skip(0) =~= tokens(s));
    } else {
        lemma_token_stream_step(s);
        lemma_nth_token_indexes(after_token(s), (n - 1) as nat);
        assert(tokens(after_token(s)).skip(n - 1) =~= tokens(s).skip(n as int));
        assert forall|i: nat| i < n implies nth_token(s, i) == tokens(s)[i as int] by {
            if i > 0 {
                assert(after_tokens(s, i) == after_tokens(after_token(s), (i - 1) as nat));
                assert(nth_token(after_token(s), (i - 1) as nat) == tokens(after_token(s))[i
                    - 1]);
                assert(tokens(after_token(s))[i - 1] == tokens(s).drop_first()[i - 1]);
            }
        }
    }
}

/// Once every token is consumed, further extraction yields only empty
/// tokens: the stream is exhausted.
pub proof fn lemma_tokens_exhausted(s: Seq<char>, n: nat)
    requires
        n >= tokens(s).len(),
    ensures
        nth_token(s, n).len() == 0,
    decreases n,
{
    if tokens(s).len() == 0 {
        lemma_token_stream_step(s);
        if n == 0 {
        } else {
            assert(trim_delims(s).take(token_run_len(trim_delims(s)) as int).len() == 0);
            lemma_token_run_len_le(trim_delims(s));
            assert(after_token(s) == trim_delims(s).skip(0));
            assert(trim_delims(s).skip(0) =~= trim_delims(s));
            lemma_trim_no_tokens(s, n);
        }
    } else {
        lemma_token_stream_step(s);
        lemma_tokens_exhausted(after_token(s), (n - 1) as nat);
        assert(after_tokens(s, n) == after_tokens(after_token(s), (n - 1) as nat));
    }
}

/// Helper: on an all-delimiter stream, extraction keeps yielding empty
/// tokens and never moves past the delimiters' trimmed form.
proof fn lemma_trim_no_tokens(s: Seq<char>, n: nat)
    requires
        next_token(s).len() == 0,
    ensures
        nth_token(s, n).len() == 0,
    decreases n,
{
    if n > 0 {
        lemma_token_run_len_le(trim_delims(s));
        assert(token_run_len(trim_delims(s)) == 0);
        assert(after_token(s) == trim_delims(s).skip(0));
        assert(trim_delims(s).skip(0) =~= trim_delims(s));
        lemma_trim_delims_idempotent(s);
        lemma_trim_no_tokens(trim_delims(s), (n - 1) as nat);
    }
}

proof fn lemma_trim_delims_idempotent(s: Seq<char>)
    ensures
        trim_delims(trim_delims(s)) == trim_delims(s),
    decreases s.len(),
{
    if s.len() > 0 && is_delim(s[0]) {
        lemma_trim_delims_idempotent(s.drop_first());
    }
}

/// Length of the leading run of characters that end no line (neither line
/// feed nor carriage return).
pub open spec fn line_run_len(s: Seq<char>) -> nat
    decreases s.len(),
{
    if s.len() > 0 && s[0] != '\n' && s[0] != '\r' {
        (1 + line_run_len(s.drop_first())) as nat
    } else {
        0
    }
}

/// The first line of `s`: everything before the first line feed or carriage
/// return, without skipping leading delimiters.
pub open spec fn first_line(s: Seq<char>) -> Seq<char> {
    s.take(line_run_len(s) as int)
}

/// What remains of `s` after its first line; the line terminator itself is
/// consumed and discarded.
pub open spec fn after_line(s: Seq<char>) -> Seq<char> {
    if line_run_len(s) < s.len() {
        s.skip(line_run_len(s) as int + 1)
    } else {
        s.skip(line_run_len(s) as int)
    }
}

pub proof fn lemma_line_run_len_le(s: Seq<char>)
    ensures
        line_run_len(s) <= s.len(),
    decreases s.len(),
{
    if s.len() > 0 && s[0] != '\n' && s[0] != '\r' {
        lemma_line_run_len_le(s.drop_first());
    }
}

/// A position that reaches no line end before `i` and stands at a line end
/// or at the end of `s` is exactly the first line's length.
pub proof fn lemma_line_run_len_is(s: Seq<char>, i: int)
    requires
        0 <= i <= s.len(),
        forall|j: int| 0 <= j < i ==> (#[trigger] s[j]) != '\n' && s[j] != '\r',
        i == s.len() || s[i] == '\n' || s[i] == '\r',
    ensures
        line_run_len(s) == i,
    decreases s.len(),
{
    if i == 0 {
    } else {
        assert forall|j: int| 0 <= j < i - 1 implies (#[trigger] s.drop_first()[j]) != '\n'
            && s.drop_first()[j] != '\r' by {
            assert(s.drop_first()[j] == s[j + 1]);
        }
        lemma_line_run_len_is(s.drop_first(), i - 1);
    }
}

/// Length of the leading run of characters other than line feed.
pub open spec fn nl_run_len(s: Seq<char>) -> nat
    decreases s.len(),
{
    if s.len() > 0 && s[0] != '\n' {
        (1 + nl_run_len(s.drop_first())) as nat
    } else {
        0
    }
}

pub proof fn lemma_nl_run_len_le(s: Seq<char>)
    ensures
        nl_run_len(s) <= s.len(),
    decreases s.len(),
{
    if s.len() > 0 && s[0] != '\n' {
        lemma_nl_run_len_le(s.drop_first());
    }
}

pub proof fn lemma_nl_run_len_is(s: Seq<char>, i: int)
    requires
        0 <= i <= s.len(),
        forall|j: int| 0 <= j < i ==> (#[trigger] s[j]) != '\n',
        i == s.len() || s[i] == '\n',
    ensures
        nl_run_len(s) == i,
    decreases s.len(),
{
    if i == 0 {
    } else {
        assert forall|j: int| 0 <= j < i - 1 implies (#[trigger] s.drop_first()[j]) != '\n' by {
            assert(s.drop_first()[j] == s[j + 1]);
        }
        lemma_nl_run_len_is(s.drop_first(), i - 1);
    }
}

/// A line-feed-terminated segment loses one trailing carriage return, so
/// that both line-feed and carriage-return-line-feed endings split alike.
pub open spec fn strip_cr(line: Seq<char>) -> Seq<char> {
    if line.len() > 0 && line.last() == '\r' {
        line.drop_last()
    } else {
        line
    }
}

/// The decomposition of `s` into lines: split at each line feed, strip one
/// carriage return before it, keep an unterminated final segment verbatim,
/// and produce nothing for empty content.
pub open spec fn lines_of(s: Seq<char>) -> Seq<Seq<char>>
    decreases s.len(),
    via lines_of_decreases
{
    if s.len() == 0 {
        Seq::empty()
    } else if nl_run_len(s) < s.len() {
        seq![strip_cr(s.take(nl_run_len(s) as int))] + lines_of(s.skip(nl_run_len(s) as int + 1))
    } else {
        seq![s]
    }
}

#[via_fn]
proof fn lines_of_decreases(s: Seq<char>) {
    lemma_nl_run_len_le(s);
}

/// Content that starts with a line free of line breaks and a line feed
/// splits as that line followed by the decomposition of the rest.
pub proof fn lemma_lines_of_step(l: Seq<char>, rest: Seq<char>)
    requires
        forall|i: int| 0 <= i < l.len() ==> (#[trigger] l[i]) != '\n' && l[i] != '\r',
    ensures
        lines_of(l + seq!['\n'] + rest) == seq![l] + lines_of(rest),
{
    let s = l + seq!['\n'] + rest;
    assert forall|j: int| 0 <= j < l.len() implies (#[trigger] s[j]) != '\n' by {
        assert(s[j] == l[j]);
    }
    assert(s[l.len() as int] == '\n');
    lemma_nl_run_len_is(s, l.len() as int);
    assert(s.take(l.len() as int) =~= l);
    assert(strip_cr(l) == l);
    assert(s.skip(l.len() as int + 1) =~= rest);
    assert(lines_of(s) =~= seq![l] + lines_of(rest));
}

/// A non-empty final segment without a line feed is one line, verbatim.
pub proof fn lemma_lines_of_last(l: Seq<char>)
    requires
        l.len() > 0,
        forall|i: int| 0 <= i < l.len() ==> (#[trigger] l[i]) != '\n',
    ensures
        lines_of(l) == seq![l],
{
    lemma_nl_run_len_is(l, l.len() as int);
}

/// Three-line content decomposes into exactly its three lines, so a
/// line-scoped split of it yields three children, child `i` holding line
/// `i`.  The last line must be non-empty: content that ends with its line
/// feed has no third line, and splits into two.
pub proof fn lemma_three_lines(l1: Seq<char>, l2: Seq<char>, l3: Seq<char>)
    requires
        forall|i: int| 0 <= i < l1.len() ==> (#[trigger] l1[i]) != '\n' && l1[i] != '\r',
        forall|i: int| 0 <= i < l2.len() ==> (#[trigger] l2[i]) != '\n' && l2[i] != '\r',
        forall|i: int| 0 <= i < l3.len() ==> (#[trigger] l3[i]) != '\n' && l3[i] != '\r',
        l3.len() > 0,
    ensures
        lines_of(l1 + seq!['\n'] + l2 + seq!['\n'] + l3) == seq![l1, l2, l3],
{
    let tail = l2 + seq!['\n'] + l3;
    lemma_lines_of_step(l2, l3);
    lemma_lines_of_last(l3);
    lemma_lines_of_step(l1, tail);
    assert(l1 + seq!['\n'] + l2 + seq!['\n'] + l3 =~= l1 + seq!['\n'] + tail);
    assert(lines_of(l1 + seq!['\n'] + l2 + seq!['\n'] + l3) =~= seq![l1, l2, l3]);
}

/// True of the ten decimal digit characters and of nothing else.
pub open spec fn is_digit(c: char) -> bool {
    48 <= c as u32 && c as u32 <= 57
}

/// Length of the leading run of decimal digits of `s`.
pub open spec fn digit_run_len(s: Seq<char>) -> nat
    decreases s.len(),
{
    if s.len() > 0 && is_digit(s[0]) {
        (1 + digit_run_len(s.drop_first())) as nat
    } else {
        0
    }
}

pub proof fn lemma_digit_run_len_le(s: Seq<char>)
    ensures
        digit_run_len(s) <= s.len(),
    decreases s.len(),
{
    if s.len() > 0 && is_digit(s[0]) {
        lemma_digit_run_len_le(s.drop_first());
    }
}

pub proof fn lemma_digit_run_len_is(s: Seq<char>, i: int)
    requires
        0 <= i <= s.len(),
        forall|j: int| 0 <= j < i ==> is_digit(#[trigger] s[j]),
        i == s.len() || !is_digit(s[i]),
    ensures
        digit_run_len(s) == i,
    decreases s.len(),
{
    if i == 0 {
    } else {
        assert forall|j: int| 0 <= j < i - 1 implies is_digit(#[trigger] s.drop_first()[j]) by {
            assert(s.drop_first()[j] == s[j + 1]);
        }
        lemma_digit_run_len_is(s.drop_first(), i - 1);
    }
}

/// Every maximal match of "an optional leading minus sign followed by one
/// or more decimal digits" in `s`, in left-to-right order, non-overlapping.
pub open spec fn int_literals(s: Seq<char>) -> Seq<Seq<char>>
    decreases s.len(),
    via int_literals_decreases
{
    if s.len() == 0 {
        Seq::empty()
    } else if is_digit(s[0]) {
        seq![s.take(digit_run_len(s) as int)] + int_literals(s.skip(digit_run_len(s) as int))
    } else if s[0] == '-' && s.len() > 1 && is_digit(s[1]) {
        seq![s.take(digit_run_len(s.drop_first()) as int + 1)] + int_literals(
            s.skip(digit_run_len(s.drop_first()) as int + 1),
        )
    } else {
        int_literals(s.drop_first())
    }
}

#[via_fn]
proof fn int_literals_decreases(s: Seq<char>) {
    if s.len() > 0 {
        lemma_digit_run_len_le(s);
        lemma_digit_run_len_le(s.drop_first());
    }
}

} // verus!

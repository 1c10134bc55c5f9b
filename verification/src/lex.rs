//! Text-scanning primitives that the parsers are built from.
//!
//! Texts are described by their characters: the contracts speak of `text@`, a `Seq<char>`.
//! Every primitive reads no further than the first character behind what it consumes, so
//! its cost is linear in the length of the text that it consumes.

use crate::syntax::{list_spec, tree_result, Tree};
use crate::text::{
    byte_len, byte_offset, lemma_byte_offset_ends, lemma_byte_offset_step, split_behind,
    utf8_width,
};
use vstd::prelude::*;
use vstd::std_specs::iter::IteratorSpec;
use vstd::utf8::encode_utf8;

verus! {

/// Why a piece of text could not be read.
#[derive(Debug, Clone, Copy, PartialEq, Eq)]
pub enum ParseErrorKind {
    /// The named literal or kind of text was required at the cursor but absent.
    Expected(&'static str),
    /// Inside a list, none of the child forms matched.
    SExpr,
    /// A run of digits does not denote a signed 64-bit integer.
    Integer,
}

/// The mathematical content of a [`ParseErrorKind`]: labels count by their characters.
pub enum ParseFailure {
    Expected(Seq<char>),
    SExpr,
    Integer,
}

impl View for ParseErrorKind {
    type V = ParseFailure;

    open spec fn view(&self) -> ParseFailure {
        match self {
            ParseErrorKind::Expected(label) => ParseFailure::Expected(label@),
            ParseErrorKind::SExpr => ParseFailure::SExpr,
            ParseErrorKind::Integer => ParseFailure::Integer,
        }
    }
}

/// A parsed value together with the text that follows it, or the reason for failure.
pub type ParseResult<'a, T> = Result<(T, &'a str), ParseErrorKind>;

/// Trees that can be read from the front of a text as one parenthesised list.
pub trait Parse<'a>: Tree<'a> {
    /// Reads one parenthesised list from the front of `input` and hands back the text
    /// behind it.
    fn parse(input: &'a str) -> (r: ParseResult<'a, Self>)
        ensures
            tree_result(r) == list_spec(input@),
    ;
}

/// ASCII whitespace: space, tab, line feed, form feed and carriage return.
pub open spec fn is_space(c: char) -> bool {
    c == ' ' || c == '\t' || c == '\n' || c == '\x0C' || c == '\r'
}

/// Length of the longest prefix of `s` all of whose characters satisfy `p`.
pub open spec fn run_len(s: Seq<char>, p: spec_fn(char) -> bool) -> nat
    decreases s.len(),
{
    if s.len() > 0 && p(s[0]) {
        1 + run_len(s.drop_first(), p)
    } else {
        0
    }
}

/// Number of whitespace characters at the front of `s`.
pub open spec fn space_run(s: Seq<char>) -> nat {
    run_len(s, |c: char| is_space(c))
}

/// The text behind a successful step, or the failure, as mathematical values.
pub open spec fn rest_result(r: Result<&str, ParseErrorKind>) -> Result<Seq<char>, ParseFailure> {
    match r {
        Ok(rest) => Ok(rest@),
        Err(e) => Err(e@),
    }
}

/// What [`expect`] yields on the text `s` for the literal `expected`.
pub open spec fn expect_spec(expected: Seq<char>, s: Seq<char>) -> Result<Seq<char>, ParseFailure> {
    if expected.is_prefix_of(s) {
        Ok(s.skip(expected.len() as int))
    } else {
        Err(ParseFailure::Expected(expected))
    }
}

/// `run_len(s, p)` lies within `s`, has only matching characters before it and no matching
/// character at it.
pub proof fn lemma_run_len(s: Seq<char>, p: spec_fn(char) -> bool)
    ensures
        run_len(s, p) <= s.len(),
        forall|i: int| 0 <= i < run_len(s, p) ==> p(#[trigger] s[i]),
        run_len(s, p) < s.len() ==> !p(s[run_len(s, p) as int]),
    decreases s.len(),
{
    if s.len() > 0 && p(s[0]) {
        let tail = s.drop_first();
        lemma_run_len(tail, p);
        assert forall|i: int| 0 <= i < run_len(s, p) implies p(#[trigger] s[i]) by {
            if i > 0 {
                assert(s[i] == tail[i - 1]);
            }
        }
    }
}

/// A position with only matching characters before it and none at it is `run_len(s, p)`.
pub proof fn lemma_run_len_unique(s: Seq<char>, p: spec_fn(char) -> bool, n: nat)
    requires
        n <= s.len(),
        forall|i: int| 0 <= i < n ==> p(#[trigger] s[i]),
        n < s.len() ==> !p(s[n as int]),
    ensures
        run_len(s, p) == n,
    decreases s.len(),
{
    if n > 0 {
        lemma_run_len_unique(s.drop_first(), p, (n - 1) as nat);
    }
}

/// A split of `s` into characters that all match and a rest that does not begin with a
/// matching character is the split at `run_len(s, p)`.
///
/// This ties what [`take_while`] promises for any predicate to `run_len` for a predicate
/// that computes `p`.
pub proof fn lemma_run_split(
    s: Seq<char>,
    taken: Seq<char>,
    rest: Seq<char>,
    p: spec_fn(char) -> bool,
)
    requires
        taken + rest == s,
        forall|i: int| 0 <= i < taken.len() ==> p(#[trigger] taken[i]),
        rest.len() > 0 ==> !p(rest[0]),
    ensures
        run_len(s, p) == taken.len(),
        taken == s.take(run_len(s, p) as int),
        rest == s.skip(run_len(s, p) as int),
{
    lemma_run_len_unique(s, p, taken.len());
}

/// The whitespace at the front of `s` ends within `s`, at its first other character.
pub proof fn lemma_space_run(s: Seq<char>)
    ensures
        space_run(s) <= s.len(),
        forall|i: int| 0 <= i < space_run(s) ==> is_space(#[trigger] s[i]),
        space_run(s) < s.len() ==> !is_space(s[space_run(s) as int]),
{
    lemma_run_len(s, |c: char| is_space(c));
}

/// Skipping whitespace twice skips no more than skipping it once.
pub proof fn lemma_skip_space_idempotent(s: Seq<char>)
    ensures
        space_run(s.skip(space_run(s) as int)) == 0,
{
    lemma_space_run(s);
}

/// A literal of one character is found exactly where the text begins with that character.
pub proof fn lemma_expect_char(c: char, s: Seq<char>)
    ensures
        expect_spec(seq![c], s) == if s.len() > 0 && s[0] == c {
            Ok::<Seq<char>, ParseFailure>(s.skip(1))
        } else {
            Err(ParseFailure::Expected(seq![c]))
        },
{
    if seq![c].is_prefix_of(s) {
        assert(seq![c][0] == s.subrange(0, 1)[0]);
    }
}

/// Tests for ASCII whitespace.
pub fn is_ascii_space(c: &char) -> (b: bool)
    ensures
        b == is_space(*c),
{
    let c = *c;
    c == ' ' || c == '\t' || c == '\n' || c == '\x0C' || c == '\r'
}

/// The first character of `input`, if it has one.
pub fn first_char(input: &str) -> (c: Option<char>)
    ensures
        c == if input@.len() > 0 {
            Some(input@[0])
        } else {
            None
        },
{
    let mut chars = input.chars();
    chars.next()
}

/// Tests whether two texts hold the same characters.
pub fn same_text(a: &str, b: &str) -> (same: bool)
    ensures
        same == (a@ == b@),
{
    let mut left = a.chars();
    let mut right = b.chars();
    let ghost mut n: int = 0;
    loop
        invariant
            0 <= n <= a@.len(),
            n <= b@.len(),
            left.remaining() == a@.skip(n),
            right.remaining() == b@.skip(n),
            forall|i: int| 0 <= i < n ==> a@[i] == b@[i],
        decreases a@.len() - n,
    {
        match (left.next(), right.next()) {
            (Some(x), Some(y)) => {
                if x != y {
                    return false;
                }
            },
            (None, None) => {
                assert(a@ =~= b@);
                return true;
            },
            _ => {
                return false;
            },
        }
        proof {
            n = n + 1;
        }
    }
}

/// Finds the end of the longest prefix of `input` whose characters `f` accepts: the number of
/// its characters and the number of bytes that they take.
fn run_end<F: Fn(&char) -> bool>(input: &str, f: F) -> (end: (Ghost<int>, usize))
    requires
        forall|i: int| 0 <= i < input@.len() ==> call_requires(f, (&#[trigger] input@[i],)),
    ensures
        0 <= end.0@ <= input@.len(),
        end.1 == byte_offset(input@, end.0@),
        forall|i: int| 0 <= i < end.0@ ==> call_ensures(f, (&#[trigger] input@[i],), true),
        end.0@ < input@.len() ==> call_ensures(f, (&input@[end.0@],), false),
{
    let total = byte_len(input);
    let mut chars = input.chars();
    let mut offset: usize = 0;
    let ghost mut n: int = 0;
    while offset < total
        invariant_except_break
            chars.remaining() == input@.skip(n),
        invariant
            total == encode_utf8(input@).len(),
            0 <= n <= input@.len(),
            offset == byte_offset(input@, n),
            offset <= total,
            offset == total <==> n == input@.len(),
            forall|i: int| 0 <= i < input@.len() ==> call_requires(f, (&#[trigger] input@[i],)),
            forall|i: int| 0 <= i < n ==> call_ensures(f, (&#[trigger] input@[i],), true),
        ensures
            n < input@.len() ==> call_ensures(f, (&input@[n],), false),
        decreases total - offset,
    {
        proof {
            lemma_byte_offset_step(input@, n);
        }
        match chars.next() {
            Some(c) => {
                if f(&c) {
                    offset = offset + utf8_width(c);
                    proof {
                        n = n + 1;
                        lemma_byte_offset_ends(input@, n);
                    }
                } else {
                    break;
                }
            },
            None => {
                break;
            },
        }
    }
    (Ghost(n), offset)
}

/// Skips the whitespace at the front of `input`.
pub fn skip_space(input: &str) -> (rest: &str)
    ensures
        rest@ == input@.skip(space_run(input@) as int),
{
    let (Ghost(n), offset) = run_end(input, is_ascii_space);
    proof {
        lemma_run_len_unique(input@, |c: char| is_space(c), n as nat);
    }
    let (_, rest) = split_behind(input, Ghost(n), offset);
    rest
}

/// Consumes the literal `expected` from the front of `input`, or reports that it was
/// expected.
pub fn expect<'a>(expected: &'static str, input: &'a str) -> (r: Result<&'a str, ParseErrorKind>)
    ensures
        rest_result(r) == expect_spec(expected@, input@),
{
    let needed = byte_len(expected);
    let mut want = expected.chars();
    let mut have = input.chars();
    let mut offset: usize = 0;
    let ghost mut n: int = 0;
    while offset < needed
        invariant
            needed == encode_utf8(expected@).len(),
            0 <= n <= expected@.len(),
            n <= input@.len(),
            offset == byte_offset(expected@, n),
            offset <= needed,
            offset == needed <==> n == expected@.len(),
            want.remaining() == expected@.skip(n),
            have.remaining() == input@.skip(n),
            expected@.take(n) == input@.take(n),
        decreases needed - offset,
    {
        proof {
            lemma_byte_offset_step(expected@, n);
        }
        match (want.next(), have.next()) {
            (Some(a), Some(b)) => {
                if a != b {
                    return Err(ParseErrorKind::Expected(expected));
                }
                offset = offset + utf8_width(a);
                proof {
                    n = n + 1;
                    lemma_byte_offset_ends(expected@, n);
                }
            },
            _ => {
                return Err(ParseErrorKind::Expected(expected));
            },
        }
    }
    let (_, rest) = split_behind(input, Ghost(n), offset);
    Ok(rest)
}

/// Splits `input` behind its longest prefix of characters that `f` accepts. The prefix must
/// not be empty: where `f` accepts no first character, the error names `what` as expected.
///
/// `f` is any function on characters, so the contract speaks of what `f` returned. For an `f`
/// that computes a predicate `p`, [`lemma_run_split`] shows that the split is at
/// `run_len(input@, p)`.
pub fn take_while<'a, F: Fn(&char) -> bool>(input: &'a str, what: &'static str, f: F) -> (r:
    ParseResult<'a, &'a str>)
    requires
        forall|i: int| 0 <= i < input@.len() ==> call_requires(f, (&#[trigger] input@[i],)),
    ensures
        match r {
            Ok((taken, rest)) => {
                &&& taken@.len() > 0
                &&& taken@ + rest@ == input@
                &&& forall|i: int|
                    0 <= i < taken@.len() ==> call_ensures(f, (&#[trigger] taken@[i],), true)
                &&& rest@.len() > 0 ==> call_ensures(f, (&rest@[0],), false)
            },
            Err(e) => {
                &&& e@ == ParseFailure::Expected(what@)
                &&& input@.len() > 0 ==> call_ensures(f, (&input@[0],), false)
            },
        },
{
    let (Ghost(n), offset) = run_end(input, f);
    if offset != 0 {
        Ok(split_behind(input, Ghost(n), offset))
    } else {
        Err(ParseErrorKind::Expected(what))
    }
}

} // verus!

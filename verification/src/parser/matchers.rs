//! The primitive matchers: `eof`, `tag`, `one_of`, `none_of`, `is_a`.
//!
//! Primitives never allocate, never produce a value, and fail only with a
//! recoverable `Mismatch` at the entry offset.

use vstd::prelude::*;

use super::{Match, MatchResult, Matcher};
use crate::input::{lemma_boundary_after_first_scalar, lemma_boundary_compose,
    lemma_valid_prefix_is_boundary, Input};
use crate::result::RawEzpcError;

verus! {

use vstd::std_specs::iter::IteratorSpec;
use vstd::string::StringSliceAdditionalSpecFns;
use vstd::utf8::length_of_first_scalar;

/// Matches only at the end of the input; consumes nothing.
pub struct Eof;

/// Matches only at the end of the input; consumes nothing.
pub fn eof() -> (r: Matcher<Eof>)
    ensures
        r.0 == Eof,
{
    Matcher(Eof)
}

/// Matches when the input starts with the literal; consumes its bytes.
pub struct Tag(pub &'static str);

/// Matches when the input starts with the literal `t`; consumes its bytes.
pub fn tag(t: &'static str) -> (r: Matcher<Tag>)
    ensures
        r.0 == Tag(t),
{
    Matcher(Tag(t))
}

/// Matches when the first character is contained in the bag; consumes it.
pub struct OneOf(pub &'static str);

/// Matches when the first character is contained in `bag`; consumes it.
pub fn one_of(bag: &'static str) -> (r: Matcher<OneOf>)
    ensures
        r.0 == OneOf(bag),
{
    Matcher(OneOf(bag))
}

/// Matches when the first character exists and is not in the bag.
pub struct NoneOf(pub &'static str);

/// Matches when the first character exists and is not in `bag`.
pub fn none_of(bag: &'static str) -> (r: Matcher<NoneOf>)
    ensures
        r.0 == NoneOf(bag),
{
    Matcher(NoneOf(bag))
}

/// Matches when the first character satisfies the predicate; consumes it.
pub struct IsA<F>(pub F);

/// Matches when the first character satisfies `predicate`; consumes it.
pub fn is_a<F: Fn(char) -> bool>(predicate: F) -> (r: Matcher<IsA<F>>)
    ensures
        r.0.0 == predicate,
{
    Matcher(IsA(predicate))
}

impl Match for Eof {
    open spec fn wf(&self) -> bool {
        true
    }

    open spec fn models<'a>(&self, input: Input<'a>, r: MatchResult<'a>) -> bool {
        if input.pos == input.sbytes().len() {
            r == Ok::<Input<'a>, RawEzpcError>(input)
        } else {
            r == Err::<Input<'a>, RawEzpcError>(RawEzpcError::Mismatch { pos: input.pos })
        }
    }

    proof fn lemma_sound<'a>(&self, input: Input<'a>, r: MatchResult<'a>) {
    }

    fn apply<'a>(&self, input: Input<'a>) -> (r: MatchResult<'a>)
    {
        if input.is_empty() {
            assert(input.pos == input.sbytes().len());
            Ok(input)
        } else {
            Err(RawEzpcError::Mismatch { pos: input.pos })
        }
    }
}

impl Match for Tag {
    open spec fn wf(&self) -> bool {
        true
    }

    open spec fn models<'a>(&self, input: Input<'a>, r: MatchResult<'a>) -> bool {
        let tb = self.0.spec_bytes();
        if input.rem().len() >= tb.len() && input.rem().subrange(0, tb.len() as int) == tb {
            r == Ok::<Input<'a>, RawEzpcError>(input.advanced(tb.len() as int))
        } else {
            r == Err::<Input<'a>, RawEzpcError>(RawEzpcError::Mismatch { pos: input.pos })
        }
    }

    proof fn lemma_sound<'a>(&self, input: Input<'a>, r: MatchResult<'a>) {
        let tb = self.0.spec_bytes();
        if input.rem().len() >= tb.len() && input.rem().subrange(0, tb.len() as int) == tb {
            lemma_tag_boundary(input, self.0);
        }
    }

    fn apply<'a>(&self, input: Input<'a>) -> (r: MatchResult<'a>)
    {
        if input.starts_with(self.0) {
            let b = self.0.as_bytes();
            proof {
                vstd::slice::axiom_spec_len(b);
                lemma_tag_boundary(input, self.0);
            }
            Ok(input.skip(self.0.len()))
        } else {
            Err(RawEzpcError::Mismatch { pos: input.pos })
        }
    }
}

/// When the remaining input starts with the bytes of `t`, the offset just
/// past them is a character boundary within the text.
proof fn lemma_tag_boundary<'a>(input: Input<'a>, t: &'static str)
    requires
        input.wf(),
        input.rem().len() >= t.spec_bytes().len(),
        input.rem().subrange(0, t.spec_bytes().len() as int) == t.spec_bytes(),
    ensures
        vstd::utf8::is_char_boundary(input.sbytes(), input.pos + t.spec_bytes().len()),
{
    broadcast use vstd::utf8::group_utf8_lib;

    let tb = t.spec_bytes();
    assert(vstd::utf8::valid_utf8(tb));
    assert(vstd::utf8::valid_utf8(input.rem()));
    lemma_valid_prefix_is_boundary(input.rem(), tb.len() as int);
    lemma_boundary_compose(input.sbytes(), input.pos as int, tb.len() as int);
}

/// True when `s` contains the character `c`.
pub fn str_contains_char(s: &str, c: char) -> (r: bool)
    ensures
        r == s@.contains(c),
{
    proof {
        broadcast use vstd::string::group_string_axioms;

    }
    let mut it = s.chars();
    let ghost mut i: int = 0;
    loop
        invariant
            0 <= i <= s@.len(),
            vstd::std_specs::iter::IteratorSpec::remaining(&it) == s@.subrange(i, s@.len() as int),
            it.obeys_prophetic_iter_laws(),
            forall|j: int| 0 <= j < i ==> s@[j] != c,
        decreases s@.len() - i,
    {
        proof {
            broadcast use vstd::string::group_string_axioms;

        }
        match it.next() {
            None => {
                assert(s@.subrange(i, s@.len() as int).len() == 0);
                assert(forall|j: int| 0 <= j < s@.len() ==> s@[j] != c);
                return false;
            },
            Some(x) => {
                assert(x == s@[i]);
                if x == c {
                    assert(s@.contains(c));
                    return true;
                }
                proof {
                    assert(s@.subrange(i, s@.len() as int).drop_first() =~= s@.subrange(
                        i + 1,
                        s@.len() as int,
                    ));
                    i = i + 1;
                }
            },
        }
    }
}

impl Match for OneOf {
    open spec fn wf(&self) -> bool {
        true
    }

    open spec fn models<'a>(&self, input: Input<'a>, r: MatchResult<'a>) -> bool {
        if input.rem_chars().len() > 0 && self.0@.contains(input.rem_chars()[0]) {
            r == Ok::<Input<'a>, RawEzpcError>(input.advanced(length_of_first_scalar(input.rem())))
        } else {
            r == Err::<Input<'a>, RawEzpcError>(RawEzpcError::Mismatch { pos: input.pos })
        }
    }

    proof fn lemma_sound<'a>(&self, input: Input<'a>, r: MatchResult<'a>) {
        if input.rem_chars().len() > 0 && self.0@.contains(input.rem_chars()[0]) {
            lemma_first_scalar_rest(input);
        }
    }

    fn apply<'a>(&self, input: Input<'a>) -> (r: MatchResult<'a>)
    {
        match input.pop_char() {
            Some((c, rest)) => {
                if str_contains_char(self.0, c) {
                    return Ok(rest);
                }
                Err(RawEzpcError::Mismatch { pos: input.pos })
            },
            None => Err(RawEzpcError::Mismatch { pos: input.pos }),
        }
    }
}

impl Match for NoneOf {
    open spec fn wf(&self) -> bool {
        true
    }

    open spec fn models<'a>(&self, input: Input<'a>, r: MatchResult<'a>) -> bool {
        if input.rem_chars().len() > 0 && !self.0@.contains(input.rem_chars()[0]) {
            r == Ok::<Input<'a>, RawEzpcError>(input.advanced(length_of_first_scalar(input.rem())))
        } else {
            r == Err::<Input<'a>, RawEzpcError>(RawEzpcError::Mismatch { pos: input.pos })
        }
    }

    proof fn lemma_sound<'a>(&self, input: Input<'a>, r: MatchResult<'a>) {
        if input.rem_chars().len() > 0 && !self.0@.contains(input.rem_chars()[0]) {
            lemma_first_scalar_rest(input);
        }
    }

    fn apply<'a>(&self, input: Input<'a>) -> (r: MatchResult<'a>)
    {
        match input.pop_char() {
            Some((c, rest)) => {
                if !str_contains_char(self.0, c) {
                    return Ok(rest);
                }
                Err(RawEzpcError::Mismatch { pos: input.pos })
            },
            None => Err(RawEzpcError::Mismatch { pos: input.pos }),
        }
    }
}

impl<F: Fn(char) -> bool> Match for IsA<F> {
    open spec fn wf(&self) -> bool {
        forall|c: char| #[trigger] call_requires(self.0, (c,))
    }

    open spec fn models<'a>(&self, input: Input<'a>, r: MatchResult<'a>) -> bool {
        if input.rem_chars().len() > 0 {
            exists|b: bool|
                #[trigger] call_ensures(self.0, (input.rem_chars()[0],), b) && r == (if b {
                    Ok::<Input<'a>, RawEzpcError>(
                        input.advanced(length_of_first_scalar(input.rem())),
                    )
                } else {
                    Err::<Input<'a>, RawEzpcError>(RawEzpcError::Mismatch { pos: input.pos })
                })
        } else {
            r == Err::<Input<'a>, RawEzpcError>(RawEzpcError::Mismatch { pos: input.pos })
        }
    }

    proof fn lemma_sound<'a>(&self, input: Input<'a>, r: MatchResult<'a>) {
        if input.rem_chars().len() > 0 {
            lemma_first_scalar_rest(input);
        }
    }

    fn apply<'a>(&self, input: Input<'a>) -> (r: MatchResult<'a>)
    {
        match input.pop_char() {
            Some((c, rest)) => {
                if (self.0)(c) {
                    Ok(rest)
                } else {
                    Err(RawEzpcError::Mismatch { pos: input.pos })
                }
            },
            None => Err(RawEzpcError::Mismatch { pos: input.pos }),
        }
    }
}

/// The cursor just past the first remaining character is well formed.
proof fn lemma_first_scalar_rest<'a>(input: Input<'a>)
    requires
        input.wf(),
        input.rem_chars().len() > 0,
    ensures
        ({
            let w = length_of_first_scalar(input.rem());
            &&& 1 <= w <= input.rem().len()
            &&& input.advanced(w).wf()
        }),
{
    broadcast use vstd::utf8::group_utf8_lib;

    assert(vstd::utf8::valid_utf8(input.rem()));
    assert(input.rem().len() > 0);
    lemma_boundary_after_first_scalar(input.sbytes(), input.pos as int);
}

} // verus!

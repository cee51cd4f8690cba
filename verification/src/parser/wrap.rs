//! Self-referential grammars.
//!
//! A grammar production may refer to itself: a JSON value contains arrays
//! that contain values. A recursion point is written as a named evaluation
//! function that rebuilds its combinator tree and applies it, and `wrap`
//! turns such a function into a node; the function may freely mention the
//! node made from itself, which ties the knot without owning a cycle.
//!
//! Every wrapped node guards the descent: the cursor carries the count of
//! wrapped nodes currently entered, the node increments it on entry and
//! restores it on exit, and once the count would exceed the node's
//! `max_depth` the node returns the `Recursion` error instead of entering.

use vstd::prelude::*;

use super::{Match, MatchResult, Parse, ParseResult, Parser, Matcher};
use crate::input::Input;
use crate::result::RawEzpcError;

verus! {

/// A parser around an evaluation function, entered only up to a maximum
/// recursion depth. `name` names the production in the `Recursion` error.
pub struct WrappedParser<O, F> {
    pub eval: F,
    pub max_depth: usize,
    pub name: &'static str,
    pub phantom: core::marker::PhantomData<O>,
}

/// A matcher around an evaluation function, entered only up to a maximum
/// recursion depth. `name` names the production in the `Recursion` error.
pub struct WrappedMatcher<F> {
    pub eval: F,
    pub max_depth: usize,
    pub name: &'static str,
}

/// The cursor `i` with its depth restored to `d`: what a wrapped node
/// returns for the rest of the input after an inner evaluation one level
/// deeper.
pub open spec fn at_depth<'a>(i: Input<'a>, d: usize) -> Input<'a> {
    Input { text: i.text, pos: i.pos, depth: d }
}

impl<O, F> WrappedParser<O, F> where F: for<'x> Fn(Input<'x>) -> ParseResult<'x, O> {
    /// How a result relates to what the evaluation function returned one
    /// level deeper: the rest cursor comes back at the entry depth.
    pub open spec fn step<'a>(
        &self,
        input: Input<'a>,
        ri: ParseResult<'a, O>,
        r: ParseResult<'a, O>,
    ) -> bool {
        match ri {
            Ok((v, rest)) => r == Ok::<(O, Input<'a>), RawEzpcError>(
                (v, at_depth(rest, input.depth)),
            ),
            Err(e) => r == Err::<(O, Input<'a>), RawEzpcError>(e),
        }
    }
}

impl<O, F> Parse for WrappedParser<O, F> where F: for<'x> Fn(Input<'x>) -> ParseResult<'x, O> {
    type Output = O;

    open spec fn wf(&self) -> bool {
        &&& self.max_depth < usize::MAX
        &&& forall|i: Input<'static>| i.wf() ==> #[trigger] call_requires(self.eval, (i,))
        &&& forall|i: Input<'static>, ri: ParseResult<'static, O>|
            #[trigger] call_ensures(self.eval, (i,), ri) && i.wf() ==> super::parse_result_ok(
                i,
                ri,
            )
    }

    open spec fn models<'a>(&self, input: Input<'a>, r: ParseResult<'a, Self::Output>) -> bool {
        if input.depth > self.max_depth {
            r == Err::<(O, Input<'a>), RawEzpcError>(
                RawEzpcError::Recursion {
                    max_depth: self.max_depth,
                    parser_name: self.name,
                    pos: input.pos,
                },
            )
        } else {
            exists|ri: ParseResult<'a, O>|
                #[trigger] call_ensures(self.eval, (input.spec_deeper(),), ri) && self.step(
                    input,
                    ri,
                    r,
                )
        }
    }

    proof fn lemma_sound<'a>(&self, input: Input<'a>, r: ParseResult<'a, Self::Output>) {
        if input.depth > self.max_depth {
        } else {
            let ri = choose|ri: ParseResult<'a, O>|
                #[trigger] call_ensures(self.eval, (input.spec_deeper(),), ri) && self.step(
                    input,
                    ri,
                    r,
                );
            assert(input.spec_deeper().wf());
            assert(super::parse_result_ok(input.spec_deeper(), ri));
        }
    }

    fn apply<'a>(&self, input: Input<'a>) -> (r: ParseResult<'a, Self::Output>)
    {
        if input.depth > self.max_depth {
            return Err(
                RawEzpcError::Recursion {
                    max_depth: self.max_depth,
                    parser_name: self.name,
                    pos: input.pos,
                },
            );
        }
        let deeper = input.deeper();
        match (self.eval)(deeper) {
            Ok((v, rest)) => Ok((v, Input { text: rest.text, pos: rest.pos, depth: input.depth })),
            Err(e) => Err(e),
        }
    }
}

impl<F> WrappedMatcher<F> where F: for<'x> Fn(Input<'x>) -> MatchResult<'x> {
    /// How a result relates to what the evaluation function returned one
    /// level deeper: the rest cursor comes back at the entry depth.
    pub open spec fn step<'a>(
        &self,
        input: Input<'a>,
        ri: MatchResult<'a>,
        r: MatchResult<'a>,
    ) -> bool {
        match ri {
            Ok(rest) => r == Ok::<Input<'a>, RawEzpcError>(at_depth(rest, input.depth)),
            Err(e) => r == Err::<Input<'a>, RawEzpcError>(e),
        }
    }
}

impl<F> Match for WrappedMatcher<F> where F: for<'x> Fn(Input<'x>) -> MatchResult<'x> {
    open spec fn wf(&self) -> bool {
        &&& self.max_depth < usize::MAX
        &&& forall|i: Input<'static>| i.wf() ==> #[trigger] call_requires(self.eval, (i,))
        &&& forall|i: Input<'static>, ri: MatchResult<'static>|
            #[trigger] call_ensures(self.eval, (i,), ri) && i.wf() ==> super::match_result_ok(
                i,
                ri,
            )
    }

    open spec fn models<'a>(&self, input: Input<'a>, r: MatchResult<'a>) -> bool {
        if input.depth > self.max_depth {
            r == Err::<Input<'a>, RawEzpcError>(
                RawEzpcError::Recursion {
                    max_depth: self.max_depth,
                    parser_name: self.name,
                    pos: input.pos,
                },
            )
        } else {
            exists|ri: MatchResult<'a>|
                #[trigger] call_ensures(self.eval, (input.spec_deeper(),), ri) && self.step(
                    input,
                    ri,
                    r,
                )
        }
    }

    proof fn lemma_sound<'a>(&self, input: Input<'a>, r: MatchResult<'a>) {
        if input.depth > self.max_depth {
        } else {
            let ri = choose|ri: MatchResult<'a>|
                #[trigger] call_ensures(self.eval, (input.spec_deeper(),), ri) && self.step(
                    input,
                    ri,
                    r,
                );
            assert(input.spec_deeper().wf());
            assert(super::match_result_ok(input.spec_deeper(), ri));
        }
    }

    fn apply<'a>(&self, input: Input<'a>) -> (r: MatchResult<'a>)
    {
        if input.depth > self.max_depth {
            return Err(
                RawEzpcError::Recursion {
                    max_depth: self.max_depth,
                    parser_name: self.name,
                    pos: input.pos,
                },
            );
        }
        let deeper = input.deeper();
        match (self.eval)(deeper) {
            Ok(rest) => Ok(Input { text: rest.text, pos: rest.pos, depth: input.depth }),
            Err(e) => Err(e),
        }
    }
}

/// Builds a recursion-guarded parser from an evaluation function.
pub trait WrapParser<O>: Sized + for<'x> Fn(Input<'x>) -> ParseResult<'x, O> {
    /// Wrap this evaluation function into a parser that enters at most
    /// `max_depth` nested times and then fails with `Recursion`, naming the
    /// production `name`.
    fn wrap(self, max_depth: usize, name: &'static str) -> (r: Parser<WrappedParser<O, Self>>)
        ensures
            r.0.eval == self,
            r.0.max_depth == max_depth,
            r.0.name == name,
    ;
}

impl<O, F> WrapParser<O> for F where F: for<'x> Fn(Input<'x>) -> ParseResult<'x, O> {
    fn wrap(self, max_depth: usize, name: &'static str) -> (r: Parser<WrappedParser<O, Self>>)
    {
        Parser(
            WrappedParser { eval: self, max_depth, name, phantom: core::marker::PhantomData },
        )
    }
}

/// Builds a recursion-guarded matcher from an evaluation function.
pub trait WrapMatcher: Sized + for<'x> Fn(Input<'x>) -> MatchResult<'x> {
    /// Wrap this evaluation function into a matcher that enters at most
    /// `max_depth` nested times and then fails with `Recursion`, naming the
    /// production `name`.
    fn wrap(self, max_depth: usize, name: &'static str) -> (r: Matcher<WrappedMatcher<Self>>)
        ensures
            r.0.eval == self,
            r.0.max_depth == max_depth,
            r.0.name == name,
    ;
}

impl<F> WrapMatcher for F where F: for<'x> Fn(Input<'x>) -> MatchResult<'x> {
    fn wrap(self, max_depth: usize, name: &'static str) -> (r: Matcher<WrappedMatcher<Self>>)
    {
        Matcher(WrappedMatcher { eval: self, max_depth, name })
    }
}

} // verus!

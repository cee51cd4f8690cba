//! The modifier nodes returned by `Parser` and `Matcher` methods: commit
//! controls (`fatal`, `reject`), repetition and optionality (`repeat`,
//! `opt`), and the value transformers (`val`, `map`, `convert`).

use vstd::prelude::*;

use super::{Match, MatchResult, Matcher, Parse, ParseResult, Parser};
use crate::input::Input;
use crate::result::RawEzpcError;

verus! {

use vstd::pervasive::cloned;
use vstd::utf8::decode_utf8;

/// Upgrades a recoverable `Mismatch` from the inner node into a committed
/// `Fatal` with the given message, at the mismatch's own position. All
/// other outcomes pass through unchanged.
pub struct Fatal<T> {
    pub parser_or_matcher: T,
    pub expected: &'static str,
}

/// Zero-width negative lookahead: succeeds without consuming input exactly
/// when the inner matcher mismatches; raises `Fatal` at the entry offset
/// when the inner matcher succeeds.
pub struct Reject<M> {
    pub matcher: M,
    pub expected: &'static str,
}

/// Greedy bounded repetition: applies the inner node between `start` and
/// `end` times (inclusive).
pub struct Repeat<T> {
    pub parser_or_matcher: T,
    pub start: usize,
    pub end: usize,
}

/// Optionality: a mismatch of the inner node becomes success at the
/// original position.
pub struct Opt<T>(pub T);

/// On match, yields a clone of a fixed value.
pub struct ValMatch<M, T> {
    pub matcher: M,
    pub value: T,
}

/// Discards the produced value and yields a clone of a fixed one.
pub struct ValParse<P, T> {
    pub parser: P,
    pub value: T,
}

/// Maps the consumed substring through a callback of type `F`, which
/// produces the output type `O`.
pub struct MapMatch<M, F, O> {
    pub matcher: M,
    pub map_func: F,
    pub phantom: core::marker::PhantomData<O>,
}

/// Maps the produced value through a callback of type `F`, which produces
/// the output type `O`.
pub struct MapParse<P, F, O> {
    pub parser: P,
    pub map_func: F,
    pub phantom: core::marker::PhantomData<O>,
}

/// Maps the consumed substring through a fallible callback of type `F`,
/// which produces `Result<O, E>`; its failure raises `Fatal` at the end of
/// the consumed span.
pub struct ConvertMatch<M, F, O, E> {
    pub matcher: M,
    pub map_func: F,
    pub error_msg: &'static str,
    pub phantom: core::marker::PhantomData<(O, E)>,
}

/// Maps the produced value through a fallible callback of type `F`, which
/// produces `Result<O, E>`; its failure raises `Fatal` at the end of the
/// consumed span.
pub struct ConvertParse<P, F, O, E> {
    pub parser: P,
    pub map_func: F,
    pub error_msg: &'static str,
    pub phantom: core::marker::PhantomData<(O, E)>,
}

/// How `fatal` rewrites a failure: a `Mismatch` becomes `Fatal` with the
/// given message at the same position; anything else is kept.
pub open spec fn fatal_map(e: RawEzpcError, msg: &'static str) -> RawEzpcError {
    match e {
        RawEzpcError::Mismatch { pos } => RawEzpcError::Fatal { message: msg, pos },
        _ => e,
    }
}

/// The characters consumed between the entry cursor and the rest cursor.
pub open spec fn consumed_chars<'a>(input: Input<'a>, rest: Input<'a>) -> Seq<char> {
    decode_utf8(input.sbytes().subrange(input.pos as int, rest.pos as int))
}

// Commit control: fatal.

impl<P: Parse> Fatal<P> {
    /// How a result of the node relates to the inner node's result.
    pub open spec fn step<'a>(
        &self,
        r1: ParseResult<'a, P::Output>,
        r: ParseResult<'a, P::Output>,
    ) -> bool {
        match r1 {
            Ok(x) => r == Ok::<_, RawEzpcError>(x),
            Err(e) => r == Err::<(P::Output, Input<'a>), _>(fatal_map(e, self.expected)),
        }
    }
}

impl<P: Parse> Parse for Fatal<P> {
    type Output = P::Output;

    open spec fn wf(&self) -> bool {
        self.parser_or_matcher.wf()
    }

    open spec fn models<'a>(&self, input: Input<'a>, r: ParseResult<'a, Self::Output>) -> bool {
        exists|r1: ParseResult<'a, P::Output>|
            #[trigger] self.parser_or_matcher.models(input, r1) && self.step(r1, r)
    }

    proof fn lemma_sound<'a>(&self, input: Input<'a>, r: ParseResult<'a, Self::Output>) {
        let r1 = choose|r1: ParseResult<'a, P::Output>|
            #[trigger] self.parser_or_matcher.models(input, r1) && self.step(r1, r);
        self.parser_or_matcher.lemma_sound(input, r1);
    }

    fn apply<'a>(&self, input: Input<'a>) -> (r: ParseResult<'a, Self::Output>)
    {
        let r1 = self.parser_or_matcher.apply(input);
        match r1 {
            Ok(x) => {
                proof {
                    assert(self.parser_or_matcher.models(input, Ok(x)) && self.step(Ok(x), Ok(x)));
                }
                Ok(x)
            },
            Err(e) => {
                let e2 = match e {
                    RawEzpcError::Mismatch { pos } => RawEzpcError::Fatal {
                        message: self.expected,
                        pos,
                    },
                    _ => e,
                };
                proof {
                    assert(self.parser_or_matcher.models(
                        input,
                        Err::<(P::Output, Input<'a>), _>(e),
                    ) && self.step(
                        Err::<(P::Output, Input<'a>), _>(e),
                        Err::<(P::Output, Input<'a>), _>(e2),
                    ));
                }
                Err(e2)
            },
        }
    }
}

impl<M: Match> Fatal<M> {
    /// How a result of the node relates to the inner node's result.
    pub open spec fn m_step<'a>(&self, r1: MatchResult<'a>, r: MatchResult<'a>) -> bool {
        match r1 {
            Ok(x) => r == Ok::<_, RawEzpcError>(x),
            Err(e) => r == Err::<Input<'a>, _>(fatal_map(e, self.expected)),
        }
    }
}

impl<M: Match> Match for Fatal<M> {
    open spec fn wf(&self) -> bool {
        self.parser_or_matcher.wf()
    }

    open spec fn models<'a>(&self, input: Input<'a>, r: MatchResult<'a>) -> bool {
        exists|r1: MatchResult<'a>|
            #[trigger] self.parser_or_matcher.models(input, r1) && self.m_step(r1, r)
    }

    proof fn lemma_sound<'a>(&self, input: Input<'a>, r: MatchResult<'a>) {
        let r1 = choose|r1: MatchResult<'a>|
            #[trigger] self.parser_or_matcher.models(input, r1) && self.m_step(r1, r);
        self.parser_or_matcher.lemma_sound(input, r1);
    }

    fn apply<'a>(&self, input: Input<'a>) -> (r: MatchResult<'a>)
    {
        let r1 = self.parser_or_matcher.apply(input);
        match r1 {
            Ok(x) => {
                proof {
                    assert(self.parser_or_matcher.models(input, Ok(x)) && self.m_step(
                        Ok(x),
                        Ok(x),
                    ));
                }
                Ok(x)
            },
            Err(e) => {
                let e2 = match e {
                    RawEzpcError::Mismatch { pos } => RawEzpcError::Fatal {
                        message: self.expected,
                        pos,
                    },
                    _ => e,
                };
                proof {
                    assert(self.parser_or_matcher.models(input, Err::<Input<'a>, _>(e))
                        && self.m_step(Err::<Input<'a>, _>(e), Err::<Input<'a>, _>(e2)));
                }
                Err(e2)
            },
        }
    }
}

// Commit control: reject.

impl<M: Match> Reject<M> {
    /// How a result of the node relates to the inner matcher's result.
    pub open spec fn step<'a>(
        &self,
        input: Input<'a>,
        r1: MatchResult<'a>,
        r: MatchResult<'a>,
    ) -> bool {
        match r1 {
            Ok(_) => r == Err::<Input<'a>, _>(
                RawEzpcError::Fatal { message: self.expected, pos: input.pos },
            ),
            Err(RawEzpcError::Mismatch { pos }) => r == Ok::<_, RawEzpcError>(input),
            Err(e) => r == Err::<Input<'a>, _>(e),
        }
    }
}

impl<M: Match> Match for Reject<M> {
    open spec fn wf(&self) -> bool {
        self.matcher.wf()
    }

    open spec fn models<'a>(&self, input: Input<'a>, r: MatchResult<'a>) -> bool {
        exists|r1: MatchResult<'a>|
            #[trigger] self.matcher.models(input, r1) && self.step(input, r1, r)
    }

    proof fn lemma_sound<'a>(&self, input: Input<'a>, r: MatchResult<'a>) {
        let r1 = choose|r1: MatchResult<'a>| #[trigger] self.matcher.models(input, r1)
            && self.step(input, r1, r);
        self.matcher.lemma_sound(input, r1);
    }

    fn apply<'a>(&self, input: Input<'a>) -> (r: MatchResult<'a>)
    {
        let r1 = self.matcher.apply(input);
        match r1 {
            Ok(_) => {
                let e = RawEzpcError::Fatal { message: self.expected, pos: input.pos };
                proof {
                    assert(self.matcher.models(input, r1) && self.step(
                        input,
                        r1,
                        Err::<Input<'a>, _>(e),
                    ));
                }
                Err(e)
            },
            Err(RawEzpcError::Mismatch { pos }) => {
                proof {
                    assert(self.matcher.models(
                        input,
                        Err::<Input<'a>, _>(RawEzpcError::Mismatch { pos }),
                    ) && self.step(
                        input,
                        Err::<Input<'a>, _>(RawEzpcError::Mismatch { pos }),
                        Ok::<_, RawEzpcError>(input),
                    ));
                }
                Ok(input)
            },
            Err(e) => {
                proof {
                    assert(self.matcher.models(input, Err::<Input<'a>, _>(e)) && self.step(
                        input,
                        Err::<Input<'a>, _>(e),
                        Err::<Input<'a>, _>(e),
                    ));
                }
                Err(e)
            },
        }
    }
}

// Optionality.

impl<P: Parse> Opt<P> {
    /// How a result of the node relates to the inner node's result.
    pub open spec fn step<'a>(
        &self,
        input: Input<'a>,
        r1: ParseResult<'a, P::Output>,
        r: ParseResult<'a, Option<P::Output>>,
    ) -> bool {
        match r1 {
            Ok((v, rest)) => r == Ok::<_, RawEzpcError>((Some(v), rest)),
            Err(RawEzpcError::Mismatch { pos }) => r == Ok::<_, RawEzpcError>(
                (None::<P::Output>, input),
            ),
            Err(e) => r == Err::<(Option<P::Output>, Input<'a>), _>(e),
        }
    }
}

impl<P: Parse> Parse for Opt<P> {
    type Output = Option<P::Output>;

    open spec fn wf(&self) -> bool {
        self.0.wf()
    }

    open spec fn models<'a>(&self, input: Input<'a>, r: ParseResult<'a, Self::Output>) -> bool {
        exists|r1: ParseResult<'a, P::Output>|
            #[trigger] self.0.models(input, r1) && self.step(input, r1, r)
    }

    proof fn lemma_sound<'a>(&self, input: Input<'a>, r: ParseResult<'a, Self::Output>) {
        let r1 = choose|r1: ParseResult<'a, P::Output>|
            #[trigger] self.0.models(input, r1) && self.step(input, r1, r);
        self.0.lemma_sound(input, r1);
    }

    fn apply<'a>(&self, input: Input<'a>) -> (r: ParseResult<'a, Self::Output>)
    {
        let r1 = self.0.apply(input);
        match r1 {
            Ok((v, rest)) => {
                proof {
                    assert(self.0.models(input, Ok((v, rest))) && self.step(
                        input,
                        Ok((v, rest)),
                        Ok((Some(v), rest)),
                    ));
                }
                Ok((Some(v), rest))
            },
            Err(RawEzpcError::Mismatch { pos }) => {
                proof {
                    assert(self.0.models(
                        input,
                        Err::<(P::Output, Input<'a>), _>(RawEzpcError::Mismatch { pos }),
                    ) && self.step(
                        input,
                        Err::<(P::Output, Input<'a>), _>(RawEzpcError::Mismatch { pos }),
                        Ok((None::<P::Output>, input)),
                    ));
                }
                Ok((None, input))
            },
            Err(e) => {
                proof {
                    assert(self.0.models(input, Err::<(P::Output, Input<'a>), _>(e))
                        && self.step(
                        input,
                        Err::<(P::Output, Input<'a>), _>(e),
                        Err::<(Self::Output, Input<'a>), _>(e),
                    ));
                }
                Err(e)
            },
        }
    }
}

impl<M: Match> Opt<M> {
    /// How a result of the node relates to the inner node's result.
    pub open spec fn m_step<'a>(
        &self,
        input: Input<'a>,
        r1: MatchResult<'a>,
        r: MatchResult<'a>,
    ) -> bool {
        match r1 {
            Ok(rest) => r == Ok::<_, RawEzpcError>(rest),
            Err(RawEzpcError::Mismatch { pos }) => r == Ok::<_, RawEzpcError>(input),
            Err(e) => r == Err::<Input<'a>, _>(e),
        }
    }
}

impl<M: Match> Match for Opt<M> {
    open spec fn wf(&self) -> bool {
        self.0.wf()
    }

    open spec fn models<'a>(&self, input: Input<'a>, r: MatchResult<'a>) -> bool {
        exists|r1: MatchResult<'a>|
            #[trigger] self.0.models(input, r1) && self.m_step(input, r1, r)
    }

    proof fn lemma_sound<'a>(&self, input: Input<'a>, r: MatchResult<'a>) {
        let r1 = choose|r1: MatchResult<'a>| #[trigger] self.0.models(input, r1) && self.m_step(
            input,
            r1,
            r,
        );
        self.0.lemma_sound(input, r1);
    }

    fn apply<'a>(&self, input: Input<'a>) -> (r: MatchResult<'a>)
    {
        let r1 = self.0.apply(input);
        match r1 {
            Ok(rest) => {
                proof {
                    assert(self.0.models(input, Ok(rest)) && self.m_step(input, Ok(rest), Ok(rest)));
                }
                Ok(rest)
            },
            Err(RawEzpcError::Mismatch { pos }) => {
                proof {
                    assert(self.0.models(
                        input,
                        Err::<Input<'a>, _>(RawEzpcError::Mismatch { pos }),
                    ) && self.m_step(
                        input,
                        Err::<Input<'a>, _>(RawEzpcError::Mismatch { pos }),
                        Ok::<_, RawEzpcError>(input),
                    ));
                }
                Ok(input)
            },
            Err(e) => {
                proof {
                    assert(self.0.models(input, Err::<Input<'a>, _>(e)) && self.m_step(
                        input,
                        Err::<Input<'a>, _>(e),
                        Err::<Input<'a>, _>(e),
                    ));
                }
                Err(e)
            },
        }
    }
}

// Fixed values.

impl<M: Match, T: Clone> ValMatch<M, T> {
    /// How a result of the node relates to the inner matcher's result.
    pub open spec fn step<'a>(&self, r1: MatchResult<'a>, r: ParseResult<'a, T>) -> bool {
        match r1 {
            Ok(rest) => exists|v: T|
                #[trigger] cloned::<T>(self.value, v) && r == Ok::<_, RawEzpcError>((v, rest)),
            Err(e) => r == Err::<(T, Input<'a>), _>(e),
        }
    }
}

impl<M: Match, T: Clone> Parse for ValMatch<M, T> {
    type Output = T;

    open spec fn wf(&self) -> bool {
        self.matcher.wf()
    }

    open spec fn models<'a>(&self, input: Input<'a>, r: ParseResult<'a, Self::Output>) -> bool {
        exists|r1: MatchResult<'a>|
            #[trigger] self.matcher.models(input, r1) && self.step(r1, r)
    }

    proof fn lemma_sound<'a>(&self, input: Input<'a>, r: ParseResult<'a, Self::Output>) {
        let r1 = choose|r1: MatchResult<'a>| #[trigger] self.matcher.models(input, r1)
            && self.step(r1, r);
        self.matcher.lemma_sound(input, r1);
    }

    fn apply<'a>(&self, input: Input<'a>) -> (r: ParseResult<'a, Self::Output>)
    {
        let r1 = self.matcher.apply(input);
        match r1 {
            Ok(rest) => {
                let v = self.value.clone();
                proof {
                    assert(cloned::<T>(self.value, v));
                    assert(self.matcher.models(input, Ok(rest)) && self.step(
                        Ok(rest),
                        Ok((v, rest)),
                    ));
                }
                Ok((v, rest))
            },
            Err(e) => {
                proof {
                    assert(self.matcher.models(input, Err::<Input<'a>, _>(e)) && self.step(
                        Err::<Input<'a>, _>(e),
                        Err::<(T, Input<'a>), _>(e),
                    ));
                }
                Err(e)
            },
        }
    }
}

impl<P: Parse, T: Clone> ValParse<P, T> {
    /// How a result of the node relates to the inner parser's result.
    pub open spec fn step<'a>(
        &self,
        r1: ParseResult<'a, P::Output>,
        r: ParseResult<'a, T>,
    ) -> bool {
        match r1 {
            Ok((_, rest)) => exists|v: T|
                #[trigger] cloned::<T>(self.value, v) && r == Ok::<_, RawEzpcError>((v, rest)),
            Err(e) => r == Err::<(T, Input<'a>), _>(e),
        }
    }
}

impl<P: Parse, T: Clone> Parse for ValParse<P, T> {
    type Output = T;

    open spec fn wf(&self) -> bool {
        self.parser.wf()
    }

    open spec fn models<'a>(&self, input: Input<'a>, r: ParseResult<'a, Self::Output>) -> bool {
        exists|r1: ParseResult<'a, P::Output>|
            #[trigger] self.parser.models(input, r1) && self.step(r1, r)
    }

    proof fn lemma_sound<'a>(&self, input: Input<'a>, r: ParseResult<'a, Self::Output>) {
        let r1 = choose|r1: ParseResult<'a, P::Output>|
            #[trigger] self.parser.models(input, r1) && self.step(r1, r);
        self.parser.lemma_sound(input, r1);
    }

    fn apply<'a>(&self, input: Input<'a>) -> (r: ParseResult<'a, Self::Output>)
    {
        let r1 = self.parser.apply(input);
        match r1 {
            Ok((out, rest)) => {
                let v = self.value.clone();
                proof {
                    assert(cloned::<T>(self.value, v));
                    assert(self.parser.models(input, Ok((out, rest))) && self.step(
                        Ok((out, rest)),
                        Ok((v, rest)),
                    ));
                }
                Ok((v, rest))
            },
            Err(e) => {
                proof {
                    assert(self.parser.models(input, Err::<(P::Output, Input<'a>), _>(e))
                        && self.step(
                        Err::<(P::Output, Input<'a>), _>(e),
                        Err::<(T, Input<'a>), _>(e),
                    ));
                }
                Err(e)
            },
        }
    }
}

// Mapping.

impl<M: Match, F, O> MapMatch<M, F, O> where F: Fn(&str) -> O {
    /// How a result of the node relates to the inner matcher's result: on a
    /// match, the callback receives exactly the consumed span.
    pub open spec fn step<'a>(
        &self,
        input: Input<'a>,
        r1: MatchResult<'a>,
        r: ParseResult<'a, O>,
    ) -> bool {
        match r1 {
            Ok(rest) => exists|s: &str, out: O|
                s@ == consumed_chars(input, rest) && #[trigger] call_ensures(
                    self.map_func,
                    (s,),
                    out,
                ) && r == Ok::<(O, Input<'a>), RawEzpcError>((out, rest)),
            Err(e) => r == Err::<(O, Input<'a>), RawEzpcError>(e),
        }
    }
}

impl<M: Match, F, O> Parse for MapMatch<M, F, O> where F: Fn(&str) -> O {
    type Output = O;

    open spec fn wf(&self) -> bool {
        &&& self.matcher.wf()
        &&& forall|s: &str| #[trigger] call_requires(self.map_func, (s,))
    }

    open spec fn models<'a>(&self, input: Input<'a>, r: ParseResult<'a, Self::Output>) -> bool {
        exists|r1: MatchResult<'a>|
            #[trigger] self.matcher.models(input, r1) && self.step(input, r1, r)
    }

    proof fn lemma_sound<'a>(&self, input: Input<'a>, r: ParseResult<'a, Self::Output>) {
        let r1 = choose|r1: MatchResult<'a>| #[trigger] self.matcher.models(input, r1)
            && self.step(input, r1, r);
        self.matcher.lemma_sound(input, r1);
    }

    fn apply<'a>(&self, input: Input<'a>) -> (r: ParseResult<'a, Self::Output>)
    {
        let r1 = self.matcher.apply(input);
        match r1 {
            Ok(rest) => {
                proof {
                    self.matcher.lemma_sound(input, Ok(rest));
                }
                let consumed = rest.get_consumed(&input);
                let out = (self.map_func)(consumed);
                proof {
                    assert(consumed@ == consumed_chars(input, rest));
                    assert(self.matcher.models(input, Ok(rest)) && self.step(
                        input,
                        Ok(rest),
                        Ok((out, rest)),
                    ));
                }
                Ok((out, rest))
            },
            Err(e) => {
                proof {
                    assert(self.matcher.models(input, Err::<Input<'a>, RawEzpcError>(e))
                        && self.step(
                        input,
                        Err::<Input<'a>, RawEzpcError>(e),
                        Err::<(O, Input<'a>), RawEzpcError>(e),
                    ));
                }
                Err(e)
            },
        }
    }
}

impl<P: Parse, F, O> MapParse<P, F, O> where F: Fn(P::Output) -> O {
    /// How a result of the node relates to the inner parser's result.
    pub open spec fn step<'a>(
        &self,
        r1: ParseResult<'a, P::Output>,
        r: ParseResult<'a, O>,
    ) -> bool {
        match r1 {
            Ok((tmp, rest)) => exists|out: O|
                #[trigger] call_ensures(self.map_func, (tmp,), out) && r == Ok::<
                    (O, Input<'a>),
                    RawEzpcError,
                >((out, rest)),
            Err(e) => r == Err::<(O, Input<'a>), RawEzpcError>(e),
        }
    }
}

impl<P: Parse, F, O> Parse for MapParse<P, F, O> where F: Fn(P::Output) -> O {
    type Output = O;

    open spec fn wf(&self) -> bool {
        &&& self.parser.wf()
        &&& forall|v: P::Output| #[trigger] call_requires(self.map_func, (v,))
    }

    open spec fn models<'a>(&self, input: Input<'a>, r: ParseResult<'a, Self::Output>) -> bool {
        exists|r1: ParseResult<'a, P::Output>|
            #[trigger] self.parser.models(input, r1) && self.step(r1, r)
    }

    proof fn lemma_sound<'a>(&self, input: Input<'a>, r: ParseResult<'a, Self::Output>) {
        let r1 = choose|r1: ParseResult<'a, P::Output>|
            #[trigger] self.parser.models(input, r1) && self.step(r1, r);
        self.parser.lemma_sound(input, r1);
    }

    fn apply<'a>(&self, input: Input<'a>) -> (r: ParseResult<'a, Self::Output>)
    {
        let r1 = self.parser.apply(input);
        match r1 {
            Ok((tmp, rest)) => {
                let ghost tmp0: P::Output = tmp;
                let out = (self.map_func)(tmp);
                proof {
                    assert(self.parser.models(input, Ok((tmp0, rest))) && self.step(
                        Ok((tmp0, rest)),
                        Ok((out, rest)),
                    ));
                }
                Ok((out, rest))
            },
            Err(e) => {
                proof {
                    assert(self.parser.models(input, Err::<(P::Output, Input<'a>), RawEzpcError>(e))
                        && self.step(
                        Err::<(P::Output, Input<'a>), RawEzpcError>(e),
                        Err::<(O, Input<'a>), RawEzpcError>(e),
                    ));
                }
                Err(e)
            },
        }
    }
}

// Fallible conversion.

impl<M: Match, F, O, E> ConvertMatch<M, F, O, E> where F: Fn(&str) -> Result<O, E> {
    /// How a result of the node relates to the inner matcher's result: on a
    /// match, the callback receives exactly the consumed span, and its
    /// failure raises `Fatal` at the end of that span.
    pub open spec fn step<'a>(
        &self,
        input: Input<'a>,
        r1: MatchResult<'a>,
        r: ParseResult<'a, O>,
    ) -> bool {
        match r1 {
            Ok(rest) => exists|s: &str, res: Result<O, E>|
                s@ == consumed_chars(input, rest) && #[trigger] call_ensures(
                    self.map_func,
                    (s,),
                    res,
                ) && match res {
                    Ok(out) => r == Ok::<(O, Input<'a>), RawEzpcError>((out, rest)),
                    Err(_) => r == Err::<(O, Input<'a>), RawEzpcError>(
                        RawEzpcError::Fatal { message: self.error_msg, pos: rest.pos },
                    ),
                },
            Err(e) => r == Err::<(O, Input<'a>), RawEzpcError>(e),
        }
    }
}

impl<M: Match, F, O, E> Parse for ConvertMatch<M, F, O, E> where F: Fn(&str) -> Result<O, E> {
    type Output = O;

    open spec fn wf(&self) -> bool {
        &&& self.matcher.wf()
        &&& forall|s: &str| #[trigger] call_requires(self.map_func, (s,))
    }

    open spec fn models<'a>(&self, input: Input<'a>, r: ParseResult<'a, Self::Output>) -> bool {
        exists|r1: MatchResult<'a>|
            #[trigger] self.matcher.models(input, r1) && self.step(input, r1, r)
    }

    proof fn lemma_sound<'a>(&self, input: Input<'a>, r: ParseResult<'a, Self::Output>) {
        let r1 = choose|r1: MatchResult<'a>| #[trigger] self.matcher.models(input, r1)
            && self.step(input, r1, r);
        self.matcher.lemma_sound(input, r1);
    }

    fn apply<'a>(&self, input: Input<'a>) -> (r: ParseResult<'a, Self::Output>)
    {
        let r1 = self.matcher.apply(input);
        match r1 {
            Ok(rest) => {
                proof {
                    self.matcher.lemma_sound(input, Ok(rest));
                }
                let consumed = rest.get_consumed(&input);
                let res = (self.map_func)(consumed);
                proof {
                    assert(consumed@ == consumed_chars(input, rest));
                }
                match res {
                    Ok(out) => {
                        proof {
                            assert(self.matcher.models(input, Ok(rest)) && self.step(
                                input,
                                Ok(rest),
                                Ok((out, rest)),
                            ));
                        }
                        Ok((out, rest))
                    },
                    Err(_) => {
                        let e = RawEzpcError::Fatal { message: self.error_msg, pos: rest.pos };
                        proof {
                            assert(self.matcher.models(input, Ok(rest)) && self.step(
                                input,
                                Ok(rest),
                                Err::<(O, Input<'a>), RawEzpcError>(e),
                            ));
                        }
                        Err(e)
                    },
                }
            },
            Err(e) => {
                proof {
                    assert(self.matcher.models(input, Err::<Input<'a>, RawEzpcError>(e))
                        && self.step(
                        input,
                        Err::<Input<'a>, RawEzpcError>(e),
                        Err::<(O, Input<'a>), RawEzpcError>(e),
                    ));
                }
                Err(e)
            },
        }
    }
}

impl<P: Parse, F, O, E> ConvertParse<P, F, O, E> where F: Fn(P::Output) -> Result<O, E> {
    /// How a result of the node relates to the inner parser's result: the
    /// callback's failure raises `Fatal` at the end of the consumed span.
    pub open spec fn step<'a>(
        &self,
        r1: ParseResult<'a, P::Output>,
        r: ParseResult<'a, O>,
    ) -> bool {
        match r1 {
            Ok((tmp, rest)) => exists|res: Result<O, E>|
                #[trigger] call_ensures(self.map_func, (tmp,), res) && match res {
                    Ok(out) => r == Ok::<(O, Input<'a>), RawEzpcError>((out, rest)),
                    Err(_) => r == Err::<(O, Input<'a>), RawEzpcError>(
                        RawEzpcError::Fatal { message: self.error_msg, pos: rest.pos },
                    ),
                },
            Err(e) => r == Err::<(O, Input<'a>), RawEzpcError>(e),
        }
    }
}

impl<P: Parse, F, O, E> Parse for ConvertParse<P, F, O, E> where F: Fn(P::Output) -> Result<O, E> {
    type Output = O;

    open spec fn wf(&self) -> bool {
        &&& self.parser.wf()
        &&& forall|v: P::Output| #[trigger] call_requires(self.map_func, (v,))
    }

    open spec fn models<'a>(&self, input: Input<'a>, r: ParseResult<'a, Self::Output>) -> bool {
        exists|r1: ParseResult<'a, P::Output>|
            #[trigger] self.parser.models(input, r1) && self.step(r1, r)
    }

    proof fn lemma_sound<'a>(&self, input: Input<'a>, r: ParseResult<'a, Self::Output>) {
        let r1 = choose|r1: ParseResult<'a, P::Output>|
            #[trigger] self.parser.models(input, r1) && self.step(r1, r);
        self.parser.lemma_sound(input, r1);
    }

    fn apply<'a>(&self, input: Input<'a>) -> (r: ParseResult<'a, Self::Output>)
    {
        let r1 = self.parser.apply(input);
        match r1 {
            Ok((tmp, rest)) => {
                let ghost tmp0: P::Output = tmp;
                let res = (self.map_func)(tmp);
                match res {
                    Ok(out) => {
                        proof {
                            assert(self.parser.models(input, Ok((tmp0, rest))) && self.step(
                                Ok((tmp0, rest)),
                                Ok((out, rest)),
                            ));
                        }
                        Ok((out, rest))
                    },
                    Err(_) => {
                        let e = RawEzpcError::Fatal { message: self.error_msg, pos: rest.pos };
                        proof {
                            assert(self.parser.models(input, Ok((tmp0, rest))) && self.step(
                                Ok((tmp0, rest)),
                                Err::<(O, Input<'a>), RawEzpcError>(e),
                            ));
                        }
                        Err(e)
                    },
                }
            },
            Err(e) => {
                proof {
                    assert(self.parser.models(input, Err::<(P::Output, Input<'a>), RawEzpcError>(e))
                        && self.step(
                        Err::<(P::Output, Input<'a>), RawEzpcError>(e),
                        Err::<(O, Input<'a>), RawEzpcError>(e),
                    ));
                }
                Err(e)
            },
        }
    }
}

// Repetition.

/// `k` successful applications of `m` in a row, starting at `input` and
/// ending at `rest`.
pub open spec fn match_steps<'a, M: Match>(
    m: &M,
    input: Input<'a>,
    k: nat,
    rest: Input<'a>,
) -> bool
    decreases k,
{
    if k == 0 {
        rest == input
    } else {
        exists|mid: Input<'a>|
            match_steps(m, input, (k - 1) as nat, mid) && #[trigger] m.models(
                mid,
                Ok::<Input<'a>, RawEzpcError>(rest),
            )
    }
}

/// `k` successful applications of `p` in a row, starting at `input`,
/// ending at `rest` and producing `items` in order.
pub open spec fn parse_steps<'a, P: Parse>(
    p: &P,
    input: Input<'a>,
    k: nat,
    items: Seq<P::Output>,
    rest: Input<'a>,
) -> bool
    decreases k,
{
    if k == 0 {
        items.len() == 0 && rest == input
    } else {
        exists|mid: Input<'a>, prev: Seq<P::Output>, v: P::Output|
            #![trigger p.models(mid, Ok::<(P::Output, Input<'a>), RawEzpcError>((v, rest))), prev.push(v)]
            parse_steps(p, input, (k - 1) as nat, prev, mid) && p.models(
                mid,
                Ok::<(P::Output, Input<'a>), RawEzpcError>((v, rest)),
            ) && items == prev.push(v)
    }
}

/// One more successful application extends a chain of matches.
pub proof fn lemma_match_steps_snoc<'a, M: Match>(
    m: &M,
    input: Input<'a>,
    k: nat,
    mid: Input<'a>,
    rest: Input<'a>,
)
    requires
        match_steps(m, input, k, mid),
        m.models(mid, Ok::<Input<'a>, RawEzpcError>(rest)),
    ensures
        match_steps(m, input, k + 1, rest),
{
    assert(((k + 1) as nat - 1) as nat == k);
}

/// One more successful application extends a chain of parses.
pub proof fn lemma_parse_steps_snoc<'a, P: Parse>(
    p: &P,
    input: Input<'a>,
    k: nat,
    items: Seq<P::Output>,
    mid: Input<'a>,
    v: P::Output,
    rest: Input<'a>,
)
    requires
        parse_steps(p, input, k, items, mid),
        p.models(mid, Ok::<(P::Output, Input<'a>), RawEzpcError>((v, rest))),
    ensures
        parse_steps(p, input, k + 1, items.push(v), rest),
{
    assert(((k + 1) as nat - 1) as nat == k);
}

/// The end of a chain of matches never lies behind its start.
pub proof fn lemma_match_steps_sound<'a, M: Match>(m: &M, input: Input<'a>, k: nat, rest: Input<'a>)
    requires
        m.wf(),
        input.wf(),
        match_steps(m, input, k, rest),
    ensures
        super::rest_ok(input, rest),
    decreases k,
{
    if k == 0 {
    } else {
        let mid = choose|mid: Input<'a>|
            match_steps(m, input, (k - 1) as nat, mid) && #[trigger] m.models(
                mid,
                Ok::<Input<'a>, RawEzpcError>(rest),
            );
        lemma_match_steps_sound(m, input, (k - 1) as nat, mid);
        m.lemma_sound(mid, Ok::<Input<'a>, RawEzpcError>(rest));
    }
}

/// The end of a chain of parses never lies behind its start, and the chain
/// produces one item per step.
pub proof fn lemma_parse_steps_sound<'a, P: Parse>(
    p: &P,
    input: Input<'a>,
    k: nat,
    items: Seq<P::Output>,
    rest: Input<'a>,
)
    requires
        p.wf(),
        input.wf(),
        parse_steps(p, input, k, items, rest),
    ensures
        super::rest_ok(input, rest),
        items.len() == k,
    decreases k,
{
    if k == 0 {
    } else {
        let (mid, prev, v) = choose|mid: Input<'a>, prev: Seq<P::Output>, v: P::Output|
            #![trigger p.models(mid, Ok::<(P::Output, Input<'a>), RawEzpcError>((v, rest))), prev.push(v)]
            parse_steps(p, input, (k - 1) as nat, prev, mid) && p.models(
                mid,
                Ok::<(P::Output, Input<'a>), RawEzpcError>((v, rest)),
            ) && items == prev.push(v);
        lemma_parse_steps_sound(p, input, (k - 1) as nat, prev, mid);
        p.lemma_sound(mid, Ok::<(P::Output, Input<'a>), RawEzpcError>((v, rest)));
    }
}

impl<M: Match> Repeat<M> {
    /// The verdict once iteration has stopped after `k` successes ending at
    /// `rest`: a mismatch at `rest` when too few, else success at `rest`.
    pub open spec fn m_outcome<'a>(&self, k: nat, rest: Input<'a>, r: MatchResult<'a>) -> bool {
        if k < self.start {
            r == Err::<Input<'a>, RawEzpcError>(RawEzpcError::Mismatch { pos: rest.pos })
        } else {
            r == Ok::<Input<'a>, RawEzpcError>(rest)
        }
    }

    /// Iteration stops at `rest` after `k` successes: either the bound is
    /// reached, or the inner node fails there — a mismatch merely ends the
    /// iteration, any other failure is forwarded.
    pub open spec fn m_stop<'a>(&self, k: nat, rest: Input<'a>, r: MatchResult<'a>) -> bool {
        if k == self.end {
            self.m_outcome(k, rest, r)
        } else {
            exists|e: RawEzpcError|
                #[trigger] self.parser_or_matcher.models(
                    rest,
                    Err::<Input<'a>, RawEzpcError>(e),
                ) && if e.is_mismatch() {
                    self.m_outcome(k, rest, r)
                } else {
                    r == Err::<Input<'a>, RawEzpcError>(e)
                }
        }
    }
}

impl<M: Match> Match for Repeat<M> {
    open spec fn wf(&self) -> bool {
        self.parser_or_matcher.wf()
    }

    open spec fn models<'a>(&self, input: Input<'a>, r: MatchResult<'a>) -> bool {
        exists|k: nat, rest: Input<'a>|
            #[trigger] match_steps(&self.parser_or_matcher, input, k, rest) && k <= self.end
                && self.m_stop(k, rest, r)
    }

    proof fn lemma_sound<'a>(&self, input: Input<'a>, r: MatchResult<'a>) {
        let (k, rest) = choose|k: nat, rest: Input<'a>|
            #[trigger] match_steps(&self.parser_or_matcher, input, k, rest) && k <= self.end
                && self.m_stop(k, rest, r);
        lemma_match_steps_sound(&self.parser_or_matcher, input, k, rest);
        if k != self.end {
            let e = choose|e: RawEzpcError|
                #[trigger] self.parser_or_matcher.models(rest, Err::<Input<'a>, RawEzpcError>(e))
                    && if e.is_mismatch() {
                    self.m_outcome(k, rest, r)
                } else {
                    r == Err::<Input<'a>, RawEzpcError>(e)
                };
            self.parser_or_matcher.lemma_sound(rest, Err::<Input<'a>, RawEzpcError>(e));
        }
    }

    fn apply<'a>(&self, input: Input<'a>) -> (r: MatchResult<'a>)
    {
        let mut cur = input;
        let mut count: usize = 0;
        while count < self.end
            invariant
                self.wf(),
                input.wf(),
                count <= self.end,
                match_steps(&self.parser_or_matcher, input, count as nat, cur),
                super::rest_ok(input, cur),
            decreases self.end - count,
        {
            match self.parser_or_matcher.apply(cur) {
                Ok(rest) => {
                    proof {
                        self.parser_or_matcher.lemma_sound(
                            cur,
                            Ok::<Input<'a>, RawEzpcError>(rest),
                        );
                        lemma_match_steps_snoc(
                            &self.parser_or_matcher,
                            input,
                            count as nat,
                            cur,
                            rest,
                        );
                    }
                    cur = rest;
                    count += 1;
                },
                Err(e) => {
                    match e {
                        RawEzpcError::Mismatch { .. } => {
                            if count < self.start {
                                let res = Err::<Input<'a>, RawEzpcError>(
                                    RawEzpcError::Mismatch { pos: cur.pos },
                                );
                                proof {
                                    assert(self.m_stop(count as nat, cur, res));
                                }
                                return res;
                            }
                            proof {
                                assert(self.m_stop(
                                    count as nat,
                                    cur,
                                    Ok::<Input<'a>, RawEzpcError>(cur),
                                ));
                            }
                            return Ok(cur);
                        },
                        _ => {
                            proof {
                                assert(self.m_stop(
                                    count as nat,
                                    cur,
                                    Err::<Input<'a>, RawEzpcError>(e),
                                ));
                            }
                            return Err(e);
                        },
                    }
                },
            }
        }
        if count < self.start {
            Err(RawEzpcError::Mismatch { pos: cur.pos })
        } else {
            Ok(cur)
        }
    }
}

impl<P: Parse> Repeat<P> {
    /// The verdict once iteration has stopped after `k` successes producing
    /// `items` and ending at `rest`.
    pub open spec fn p_outcome<'a>(
        &self,
        k: nat,
        items: Seq<P::Output>,
        rest: Input<'a>,
        r: ParseResult<'a, Vec<P::Output>>,
    ) -> bool {
        if k < self.start {
            r == Err::<(Vec<P::Output>, Input<'a>), RawEzpcError>(
                RawEzpcError::Mismatch { pos: rest.pos },
            )
        } else {
            match r {
                Ok((v, rest2)) => v@ == items && rest2 == rest,
                Err(_) => false,
            }
        }
    }

    /// Iteration stops at `rest` after `k` successes: either the bound is
    /// reached, or the inner node fails there — a mismatch merely ends the
    /// iteration, any other failure is forwarded.
    pub open spec fn p_stop<'a>(
        &self,
        k: nat,
        items: Seq<P::Output>,
        rest: Input<'a>,
        r: ParseResult<'a, Vec<P::Output>>,
    ) -> bool {
        if k == self.end {
            self.p_outcome(k, items, rest, r)
        } else {
            exists|e: RawEzpcError|
                #[trigger] self.parser_or_matcher.models(
                    rest,
                    Err::<(P::Output, Input<'a>), RawEzpcError>(e),
                ) && if e.is_mismatch() {
                    self.p_outcome(k, items, rest, r)
                } else {
                    r == Err::<(Vec<P::Output>, Input<'a>), RawEzpcError>(e)
                }
        }
    }
}

impl<P: Parse> Parse for Repeat<P> {
    type Output = Vec<P::Output>;

    open spec fn wf(&self) -> bool {
        self.parser_or_matcher.wf()
    }

    open spec fn models<'a>(&self, input: Input<'a>, r: ParseResult<'a, Self::Output>) -> bool {
        exists|k: nat, items: Seq<P::Output>, rest: Input<'a>|
            #[trigger] parse_steps(&self.parser_or_matcher, input, k, items, rest) && k <= self.end
                && self.p_stop(k, items, rest, r)
    }

    proof fn lemma_sound<'a>(&self, input: Input<'a>, r: ParseResult<'a, Self::Output>) {
        let (k, items, rest) = choose|k: nat, items: Seq<P::Output>, rest: Input<'a>|
            #[trigger] parse_steps(&self.parser_or_matcher, input, k, items, rest) && k <= self.end
                && self.p_stop(k, items, rest, r);
        lemma_parse_steps_sound(&self.parser_or_matcher, input, k, items, rest);
        if k != self.end {
            let e = choose|e: RawEzpcError|
                #[trigger] self.parser_or_matcher.models(
                    rest,
                    Err::<(P::Output, Input<'a>), RawEzpcError>(e),
                ) && if e.is_mismatch() {
                    self.p_outcome(k, items, rest, r)
                } else {
                    r == Err::<(Vec<P::Output>, Input<'a>), RawEzpcError>(e)
                };
            self.parser_or_matcher.lemma_sound(
                rest,
                Err::<(P::Output, Input<'a>), RawEzpcError>(e),
            );
        }
    }

    fn apply<'a>(&self, input: Input<'a>) -> (r: ParseResult<'a, Self::Output>)
    {
        let mut cur = input;
        let mut count: usize = 0;
        let mut items: Vec<P::Output> = Vec::new();
        while count < self.end
            invariant
                self.wf(),
                input.wf(),
                count <= self.end,
                parse_steps(&self.parser_or_matcher, input, count as nat, items@, cur),
                super::rest_ok(input, cur),
            decreases self.end - count,
        {
            match self.parser_or_matcher.apply(cur) {
                Ok((v, rest)) => {
                    proof {
                        self.parser_or_matcher.lemma_sound(
                            cur,
                            Ok::<(P::Output, Input<'a>), RawEzpcError>((v, rest)),
                        );
                        lemma_parse_steps_snoc(
                            &self.parser_or_matcher,
                            input,
                            count as nat,
                            items@,
                            cur,
                            v,
                            rest,
                        );
                    }
                    items.push(v);
                    cur = rest;
                    count += 1;
                },
                Err(e) => {
                    match e {
                        RawEzpcError::Mismatch { .. } => {
                            if count < self.start {
                                let res = Err::<(Vec<P::Output>, Input<'a>), RawEzpcError>(
                                    RawEzpcError::Mismatch { pos: cur.pos },
                                );
                                proof {
                                    assert(self.p_stop(count as nat, items@, cur, res));
                                }
                                return res;
                            }
                            proof {
                                assert(self.p_stop(
                                    count as nat,
                                    items@,
                                    cur,
                                    Ok::<(Vec<P::Output>, Input<'a>), RawEzpcError>((items, cur)),
                                ));
                            }
                            return Ok((items, cur));
                        },
                        _ => {
                            proof {
                                assert(self.p_stop(
                                    count as nat,
                                    items@,
                                    cur,
                                    Err::<(Vec<P::Output>, Input<'a>), RawEzpcError>(e),
                                ));
                            }
                            return Err(e);
                        },
                    }
                },
            }
        }
        if count < self.start {
            Err(RawEzpcError::Mismatch { pos: cur.pos })
        } else {
            Ok((items, cur))
        }
    }
}

} // verus!

//! Sequencing (`a + b`) and ordered choice (`a | b`).
//!
//! A sequence applies its left node, then its right node on the remainder;
//! every failure is forwarded unchanged. The result capability is a parser
//! when either side produces a value — the value is the pair when both do —
//! and a matcher when neither does.
//!
//! An ordered choice applies its left node and, only on a recoverable
//! `Mismatch`, retries the right node at the original position. Any other
//! failure is forwarded: a committed failure never enables the alternative.

use vstd::prelude::*;

use super::{Match, MatchResult, Matcher, Parse, ParseResult, Parser};
use crate::input::Input;
use crate::result::RawEzpcError;

verus! {

/// A sequence of two parsers; produces the pair of their values.
pub struct AndPP<P1: Parse, P2: Parse>(pub P1, pub P2);

/// A parser followed by a matcher; produces the parser's value.
pub struct AndPM<P1: Parse, M2: Match>(pub P1, pub M2);

/// A matcher followed by a parser; produces the parser's value.
pub struct AndMP<M1: Match, P2: Parse>(pub M1, pub P2);

/// A sequence of two matchers.
pub struct AndMM<M1: Match, M2: Match>(pub M1, pub M2);

/// An ordered choice of two parsers with equal output type.
pub struct OrPP<P1: Parse, P2: Parse>(pub P1, pub P2);

/// An ordered choice of two matchers.
pub struct OrMM<M1: Match, M2: Match>(pub M1, pub M2);

// Sequence of two parsers.

impl<P1: Parse, P2: Parse> AndPP<P1, P2> {
    /// How a result of the whole sequence relates to the first node's result.
    pub open spec fn step<'a>(
        &self,
        r1: ParseResult<'a, P1::Output>,
        r: ParseResult<'a, (P1::Output, P2::Output)>,
    ) -> bool {
        match r1 {
            Ok((out1, mid)) => exists|r2: ParseResult<'a, P2::Output>|
                #[trigger] self.1.models(mid, r2) && match r2 {
                    Ok((out2, rest)) => r == Ok::<_, RawEzpcError>(((out1, out2), rest)),
                    Err(e) => r == Err::<((P1::Output, P2::Output), Input<'a>), _>(e),
                },
            Err(e) => r == Err::<((P1::Output, P2::Output), Input<'a>), _>(e),
        }
    }
}

impl<P1: Parse, P2: Parse> Parse for AndPP<P1, P2> {
    type Output = (P1::Output, P2::Output);

    open spec fn wf(&self) -> bool {
        self.0.wf() && self.1.wf()
    }

    open spec fn models<'a>(&self, input: Input<'a>, r: ParseResult<'a, Self::Output>) -> bool {
        exists|r1: ParseResult<'a, P1::Output>|
            #[trigger] self.0.models(input, r1) && self.step(r1, r)
    }

    proof fn lemma_sound<'a>(&self, input: Input<'a>, r: ParseResult<'a, Self::Output>) {
        let r1 = choose|r1: ParseResult<'a, P1::Output>|
            #[trigger] self.0.models(input, r1) && self.step(r1, r);
        self.0.lemma_sound(input, r1);
        if let Ok((out1, mid)) = r1 {
            let r2 = choose|r2: ParseResult<'a, P2::Output>|
                #[trigger] self.1.models(mid, r2) && match r2 {
                    Ok((out2, rest)) => r == Ok::<_, RawEzpcError>(((out1, out2), rest)),
                    Err(e) => r == Err::<(Self::Output, Input<'a>), _>(e),
                };
            self.1.lemma_sound(mid, r2);
        }
    }

    fn apply<'a>(&self, input: Input<'a>) -> (r: ParseResult<'a, Self::Output>)
    {
        match self.0.apply(input) {
            Ok((out1, mid)) => {
                proof {
                    self.0.lemma_sound(input, Ok((out1, mid)));
                }
                match self.1.apply(mid) {
                    Ok((out2, rest)) => {
                        proof {
                            assert(self.0.models(input, Ok((out1, mid))) && self.step(
                                Ok((out1, mid)),
                                Ok(((out1, out2), rest)),
                            ));
                        }
                        Ok(((out1, out2), rest))
                    },
                    Err(e) => {
                        proof {
                            assert(self.0.models(input, Ok((out1, mid))) && self.step(
                                Ok((out1, mid)),
                                Err::<(Self::Output, Input<'a>), _>(e),
                            ));
                        }
                        Err(e)
                    },
                }
            },
            Err(e) => {
                proof {
                    assert(self.0.models(input, Err::<(P1::Output, Input<'a>), _>(e))
                        && self.step(
                        Err::<(P1::Output, Input<'a>), _>(e),
                        Err::<(Self::Output, Input<'a>), _>(e),
                    ));
                }
                Err(e)
            },
        }
    }
}

// Parser followed by matcher.

impl<P1: Parse, M2: Match> AndPM<P1, M2> {
    /// How a result of the whole sequence relates to the first node's result.
    pub open spec fn step<'a>(
        &self,
        r1: ParseResult<'a, P1::Output>,
        r: ParseResult<'a, P1::Output>,
    ) -> bool {
        match r1 {
            Ok((out1, mid)) => exists|r2: MatchResult<'a>|
                #[trigger] self.1.models(mid, r2) && match r2 {
                    Ok(rest) => r == Ok::<_, RawEzpcError>((out1, rest)),
                    Err(e) => r == Err::<(P1::Output, Input<'a>), _>(e),
                },
            Err(e) => r == Err::<(P1::Output, Input<'a>), _>(e),
        }
    }
}

impl<P1: Parse, M2: Match> Parse for AndPM<P1, M2> {
    type Output = P1::Output;

    open spec fn wf(&self) -> bool {
        self.0.wf() && self.1.wf()
    }

    open spec fn models<'a>(&self, input: Input<'a>, r: ParseResult<'a, Self::Output>) -> bool {
        exists|r1: ParseResult<'a, P1::Output>|
            #[trigger] self.0.models(input, r1) && self.step(r1, r)
    }

    proof fn lemma_sound<'a>(&self, input: Input<'a>, r: ParseResult<'a, Self::Output>) {
        let r1 = choose|r1: ParseResult<'a, P1::Output>|
            #[trigger] self.0.models(input, r1) && self.step(r1, r);
        self.0.lemma_sound(input, r1);
        if let Ok((out1, mid)) = r1 {
            let r2 = choose|r2: MatchResult<'a>|
                #[trigger] self.1.models(mid, r2) && match r2 {
                    Ok(rest) => r == Ok::<_, RawEzpcError>((out1, rest)),
                    Err(e) => r == Err::<(P1::Output, Input<'a>), _>(e),
                };
            self.1.lemma_sound(mid, r2);
        }
    }

    fn apply<'a>(&self, input: Input<'a>) -> (r: ParseResult<'a, Self::Output>)
    {
        match self.0.apply(input) {
            Ok((out1, mid)) => {
                proof {
                    self.0.lemma_sound(input, Ok((out1, mid)));
                }
                match self.1.apply(mid) {
                    Ok(rest) => {
                        proof {
                            assert(self.0.models(input, Ok((out1, mid))) && self.step(
                                Ok((out1, mid)),
                                Ok((out1, rest)),
                            ));
                        }
                        Ok((out1, rest))
                    },
                    Err(e) => {
                        proof {
                            assert(self.0.models(input, Ok((out1, mid))) && self.step(
                                Ok((out1, mid)),
                                Err::<(Self::Output, Input<'a>), _>(e),
                            ));
                        }
                        Err(e)
                    },
                }
            },
            Err(e) => {
                proof {
                    assert(self.0.models(input, Err::<(P1::Output, Input<'a>), _>(e))
                        && self.step(
                        Err::<(P1::Output, Input<'a>), _>(e),
                        Err::<(Self::Output, Input<'a>), _>(e),
                    ));
                }
                Err(e)
            },
        }
    }
}

// Matcher followed by parser.

impl<M1: Match, P2: Parse> AndMP<M1, P2> {
    /// How a result of the whole sequence relates to the first node's result.
    pub open spec fn step<'a>(
        &self,
        r1: MatchResult<'a>,
        r: ParseResult<'a, P2::Output>,
    ) -> bool {
        match r1 {
            Ok(mid) => self.1.models(mid, r),
            Err(e) => r == Err::<(P2::Output, Input<'a>), _>(e),
        }
    }
}

impl<M1: Match, P2: Parse> Parse for AndMP<M1, P2> {
    type Output = P2::Output;

    open spec fn wf(&self) -> bool {
        self.0.wf() && self.1.wf()
    }

    open spec fn models<'a>(&self, input: Input<'a>, r: ParseResult<'a, Self::Output>) -> bool {
        exists|r1: MatchResult<'a>| #[trigger] self.0.models(input, r1) && self.step(r1, r)
    }

    proof fn lemma_sound<'a>(&self, input: Input<'a>, r: ParseResult<'a, Self::Output>) {
        let r1 = choose|r1: MatchResult<'a>| #[trigger] self.0.models(input, r1) && self.step(
            r1,
            r,
        );
        self.0.lemma_sound(input, r1);
        if let Ok(mid) = r1 {
            self.1.lemma_sound(mid, r);
        }
    }

    fn apply<'a>(&self, input: Input<'a>) -> (r: ParseResult<'a, Self::Output>)
    {
        match self.0.apply(input) {
            Ok(mid) => {
                proof {
                    self.0.lemma_sound(input, Ok(mid));
                }
                let r = self.1.apply(mid);
                proof {
                    assert(self.0.models(input, Ok(mid)) && self.step(Ok(mid), r));
                }
                r
            },
            Err(e) => {
                proof {
                    assert(self.0.models(input, Err::<Input<'a>, _>(e)) && self.step(
                        Err::<Input<'a>, _>(e),
                        Err::<(Self::Output, Input<'a>), _>(e),
                    ));
                }
                Err(e)
            },
        }
    }
}

// Sequence of two matchers.

impl<M1: Match, M2: Match> AndMM<M1, M2> {
    /// How a result of the whole sequence relates to the first node's result.
    pub open spec fn step<'a>(&self, r1: MatchResult<'a>, r: MatchResult<'a>) -> bool {
        match r1 {
            Ok(mid) => self.1.models(mid, r),
            Err(e) => r == Err::<Input<'a>, RawEzpcError>(e),
        }
    }
}

impl<M1: Match, M2: Match> Match for AndMM<M1, M2> {
    open spec fn wf(&self) -> bool {
        self.0.wf() && self.1.wf()
    }

    open spec fn models<'a>(&self, input: Input<'a>, r: MatchResult<'a>) -> bool {
        exists|r1: MatchResult<'a>| #[trigger] self.0.models(input, r1) && self.step(r1, r)
    }

    proof fn lemma_sound<'a>(&self, input: Input<'a>, r: MatchResult<'a>) {
        let r1 = choose|r1: MatchResult<'a>| #[trigger] self.0.models(input, r1) && self.step(
            r1,
            r,
        );
        self.0.lemma_sound(input, r1);
        if let Ok(mid) = r1 {
            self.1.lemma_sound(mid, r);
        }
    }

    fn apply<'a>(&self, input: Input<'a>) -> (r: MatchResult<'a>)
    {
        match self.0.apply(input) {
            Ok(mid) => {
                proof {
                    self.0.lemma_sound(input, Ok(mid));
                }
                let r = self.1.apply(mid);
                proof {
                    assert(self.0.models(input, Ok(mid)) && self.step(Ok(mid), r));
                }
                r
            },
            Err(e) => {
                proof {
                    assert(self.0.models(input, Err::<Input<'a>, _>(e)) && self.step(
                        Err::<Input<'a>, _>(e),
                        Err::<Input<'a>, _>(e),
                    ));
                }
                Err(e)
            },
        }
    }
}

// Ordered choice of two parsers.

impl<P1: Parse, P2: Parse<Output = P1::Output>> OrPP<P1, P2> {
    /// How a result of the choice relates to the first alternative's result:
    /// only a recoverable mismatch enables the second alternative, at the
    /// original position.
    pub open spec fn step<'a>(
        &self,
        input: Input<'a>,
        r1: ParseResult<'a, P1::Output>,
        r: ParseResult<'a, P1::Output>,
    ) -> bool {
        match r1 {
            Err(RawEzpcError::Mismatch { pos }) => self.1.models(input, r),
            _ => r == r1,
        }
    }
}

impl<P1: Parse, P2: Parse<Output = P1::Output>> Parse for OrPP<P1, P2> {
    type Output = P1::Output;

    open spec fn wf(&self) -> bool {
        self.0.wf() && self.1.wf()
    }

    open spec fn models<'a>(&self, input: Input<'a>, r: ParseResult<'a, Self::Output>) -> bool {
        exists|r1: ParseResult<'a, P1::Output>|
            #[trigger] self.0.models(input, r1) && self.step(input, r1, r)
    }

    proof fn lemma_sound<'a>(&self, input: Input<'a>, r: ParseResult<'a, Self::Output>) {
        let r1 = choose|r1: ParseResult<'a, P1::Output>|
            #[trigger] self.0.models(input, r1) && self.step(input, r1, r);
        self.0.lemma_sound(input, r1);
        if let Err(RawEzpcError::Mismatch { .. }) = r1 {
            self.1.lemma_sound(input, r);
        }
    }

    fn apply<'a>(&self, input: Input<'a>) -> (r: ParseResult<'a, Self::Output>)
    {
        let r1 = self.0.apply(input);
        match r1 {
            Err(RawEzpcError::Mismatch { pos }) => {
                let r = self.1.apply(input);
                proof {
                    assert(self.0.models(
                        input,
                        Err::<(P1::Output, Input<'a>), _>(RawEzpcError::Mismatch { pos }),
                    ) && self.step(
                        input,
                        Err::<(P1::Output, Input<'a>), _>(RawEzpcError::Mismatch { pos }),
                        r,
                    ));
                }
                r
            },
            _ => {
                proof {
                    assert(self.0.models(input, r1) && self.step(input, r1, r1));
                }
                r1
            },
        }
    }
}

// Ordered choice of two matchers.

impl<M1: Match, M2: Match> OrMM<M1, M2> {
    /// How a result of the choice relates to the first alternative's result:
    /// only a recoverable mismatch enables the second alternative, at the
    /// original position.
    pub open spec fn step<'a>(
        &self,
        input: Input<'a>,
        r1: MatchResult<'a>,
        r: MatchResult<'a>,
    ) -> bool {
        match r1 {
            Err(RawEzpcError::Mismatch { pos }) => self.1.models(input, r),
            _ => r == r1,
        }
    }
}

impl<M1: Match, M2: Match> Match for OrMM<M1, M2> {
    open spec fn wf(&self) -> bool {
        self.0.wf() && self.1.wf()
    }

    open spec fn models<'a>(&self, input: Input<'a>, r: MatchResult<'a>) -> bool {
        exists|r1: MatchResult<'a>|
            #[trigger] self.0.models(input, r1) && self.step(input, r1, r)
    }

    proof fn lemma_sound<'a>(&self, input: Input<'a>, r: MatchResult<'a>) {
        let r1 = choose|r1: MatchResult<'a>| #[trigger] self.0.models(input, r1) && self.step(
            input,
            r1,
            r,
        );
        self.0.lemma_sound(input, r1);
        if let Err(RawEzpcError::Mismatch { .. }) = r1 {
            self.1.lemma_sound(input, r);
        }
    }

    fn apply<'a>(&self, input: Input<'a>) -> (r: MatchResult<'a>)
    {
        let r1 = self.0.apply(input);
        match r1 {
            Err(RawEzpcError::Mismatch { pos }) => {
                let r = self.1.apply(input);
                proof {
                    assert(self.0.models(
                        input,
                        Err::<Input<'a>, _>(RawEzpcError::Mismatch { pos }),
                    ) && self.step(input, Err::<Input<'a>, _>(RawEzpcError::Mismatch { pos }), r));
                }
                r
            },
            _ => {
                proof {
                    assert(self.0.models(input, r1) && self.step(input, r1, r1));
                }
                r1
            },
        }
    }
}

// The `+` operator builds a sequence; the capability of the result is the
// least that preserves information.

impl<P1: Parse, P2: Parse> std::ops::Add<Parser<P2>> for Parser<P1> {
    type Output = Parser<AndPP<P1, P2>>;

    /// Sequence: this parser, then `rhs` on the remainder.
    fn add(self, rhs: Parser<P2>) -> (r: Parser<AndPP<P1, P2>>)
    {
        Parser(AndPP(self.0, rhs.0))
    }
}

impl<P1: Parse, P2: Parse> vstd::std_specs::ops::AddSpecImpl<Parser<P2>> for Parser<P1> {
    open spec fn obeys_add_spec() -> bool {
        true
    }

    open spec fn add_req(self, rhs: Parser<P2>) -> bool {
        true
    }

    open spec fn add_spec(self, rhs: Parser<P2>) -> Parser<AndPP<P1, P2>> {
        Parser(AndPP(self.0, rhs.0))
    }
}

impl<P1: Parse, M2: Match> std::ops::Add<Matcher<M2>> for Parser<P1> {
    type Output = Parser<AndPM<P1, M2>>;

    /// Sequence: this parser, then `rhs` on the remainder.
    fn add(self, rhs: Matcher<M2>) -> (r: Parser<AndPM<P1, M2>>)
    {
        Parser(AndPM(self.0, rhs.0))
    }
}

impl<P1: Parse, M2: Match> vstd::std_specs::ops::AddSpecImpl<Matcher<M2>> for Parser<P1> {
    open spec fn obeys_add_spec() -> bool {
        true
    }

    open spec fn add_req(self, rhs: Matcher<M2>) -> bool {
        true
    }

    open spec fn add_spec(self, rhs: Matcher<M2>) -> Parser<AndPM<P1, M2>> {
        Parser(AndPM(self.0, rhs.0))
    }
}

impl<M1: Match, P2: Parse> std::ops::Add<Parser<P2>> for Matcher<M1> {
    type Output = Parser<AndMP<M1, P2>>;

    /// Sequence: this matcher, then `rhs` on the remainder.
    fn add(self, rhs: Parser<P2>) -> (r: Parser<AndMP<M1, P2>>)
    {
        Parser(AndMP(self.0, rhs.0))
    }
}

impl<M1: Match, P2: Parse> vstd::std_specs::ops::AddSpecImpl<Parser<P2>> for Matcher<M1> {
    open spec fn obeys_add_spec() -> bool {
        true
    }

    open spec fn add_req(self, rhs: Parser<P2>) -> bool {
        true
    }

    open spec fn add_spec(self, rhs: Parser<P2>) -> Parser<AndMP<M1, P2>> {
        Parser(AndMP(self.0, rhs.0))
    }
}

impl<M1: Match, M2: Match> std::ops::Add<Matcher<M2>> for Matcher<M1> {
    type Output = Matcher<AndMM<M1, M2>>;

    /// Sequence: this matcher, then `rhs` on the remainder.
    fn add(self, rhs: Matcher<M2>) -> (r: Matcher<AndMM<M1, M2>>)
    {
        Matcher(AndMM(self.0, rhs.0))
    }
}

impl<M1: Match, M2: Match> vstd::std_specs::ops::AddSpecImpl<Matcher<M2>> for Matcher<M1> {
    open spec fn obeys_add_spec() -> bool {
        true
    }

    open spec fn add_req(self, rhs: Matcher<M2>) -> bool {
        true
    }

    open spec fn add_spec(self, rhs: Matcher<M2>) -> Matcher<AndMM<M1, M2>> {
        Matcher(AndMM(self.0, rhs.0))
    }
}

// The `|` operator builds an ordered choice of nodes of the same capability.

impl<P1: Parse, P2: Parse<Output = P1::Output>> std::ops::BitOr<Parser<P2>> for Parser<P1> {
    type Output = Parser<OrPP<P1, P2>>;

    /// Ordered choice: this parser or, on mismatch only, `rhs`.
    fn bitor(self, rhs: Parser<P2>) -> (r: Parser<OrPP<P1, P2>>)
    {
        Parser(OrPP(self.0, rhs.0))
    }
}

impl<P1: Parse, P2: Parse<Output = P1::Output>> vstd::std_specs::ops::BitOrSpecImpl<Parser<P2>> for Parser<P1> {
    open spec fn obeys_bitor_spec() -> bool {
        true
    }

    open spec fn bitor_req(self, rhs: Parser<P2>) -> bool {
        true
    }

    open spec fn bitor_spec(self, rhs: Parser<P2>) -> Parser<OrPP<P1, P2>> {
        Parser(OrPP(self.0, rhs.0))
    }
}

impl<M1: Match, M2: Match> std::ops::BitOr<Matcher<M2>> for Matcher<M1> {
    type Output = Matcher<OrMM<M1, M2>>;

    /// Ordered choice: this matcher or, on mismatch only, `rhs`.
    fn bitor(self, rhs: Matcher<M2>) -> (r: Matcher<OrMM<M1, M2>>)
    {
        Matcher(OrMM(self.0, rhs.0))
    }
}

impl<M1: Match, M2: Match> vstd::std_specs::ops::BitOrSpecImpl<Matcher<M2>> for Matcher<M1> {
    open spec fn obeys_bitor_spec() -> bool {
        true
    }

    open spec fn bitor_req(self, rhs: Matcher<M2>) -> bool {
        true
    }

    open spec fn bitor_spec(self, rhs: Matcher<M2>) -> Matcher<OrMM<M1, M2>> {
        Matcher(OrMM(self.0, rhs.0))
    }
}

} // verus!

//! The combinator algebra: the `Parse` and `Match` capability traits, the
//! `Parser` and `Matcher` value types around them, and their operations.
//!
//! A `Matcher` recognizes a prefix of the input and produces no value; a
//! `Parser` recognizes a prefix and produces a typed value. Both report
//! failure as a recoverable `Mismatch` or a committed `Fatal`/`Recursion`.
//!
//! Every node's behaviour is captured by a `models` relation between the
//! entry cursor and the results the node may return there. The relation is
//! exact for the deterministic nodes; where a node holds a user callback,
//! it speaks of the callback through `call_ensures`.

pub mod combinators;
pub mod laws;
pub mod combine_ops;
pub mod matchers;
pub mod modifiers;
pub mod wrap;

use vstd::prelude::*;

use crate::input::Input;
use crate::result::{EzpcError, Position, RawEzpcError};

verus! {

use vstd::string::StringSliceAdditionalSpecFns;

/// The result of applying a parser node: the produced value and the cursor
/// after the consumed prefix, or a failure.
pub type ParseResult<'a, O> = Result<(O, Input<'a>), RawEzpcError>;

/// The result of applying a matcher node: the cursor after the consumed
/// prefix, or a failure.
pub type MatchResult<'a> = Result<Input<'a>, RawEzpcError>;

/// What every well-formed node guarantees of a failure: it points between
/// the entry offset and the end of the text, on a character boundary.
pub open spec fn err_in_range<'a>(input: Input<'a>, e: RawEzpcError) -> bool {
    &&& input.pos <= e.spec_pos() <= input.sbytes().len()
    &&& vstd::utf8::is_char_boundary(input.sbytes(), e.spec_pos() as int)
}

/// What every well-formed node guarantees of a success: the rest cursor
/// walks the same text at the same depth and never retreats.
pub open spec fn rest_ok<'a>(input: Input<'a>, rest: Input<'a>) -> bool {
    &&& rest.text == input.text
    &&& rest.depth == input.depth
    &&& input.pos <= rest.pos
    &&& rest.wf()
}

/// Soundness of a parser outcome: see `rest_ok` and `err_in_range`.
pub open spec fn parse_result_ok<'a, O>(input: Input<'a>, r: ParseResult<'a, O>) -> bool {
    match r {
        Ok((_, rest)) => rest_ok(input, rest),
        Err(e) => err_in_range(input, e),
    }
}

/// Soundness of a matcher outcome: see `rest_ok` and `err_in_range`.
pub open spec fn match_result_ok<'a>(input: Input<'a>, r: MatchResult<'a>) -> bool {
    match r {
        Ok(rest) => rest_ok(input, rest),
        Err(e) => err_in_range(input, e),
    }
}

/// The capability of a parser node: recognize a prefix of the input and
/// produce a value of type `Output`.
pub trait Parse: Sized {
    type Output;

    /// Construction-time obligations, chiefly that every stored callback
    /// may be called on whatever the node hands it.
    spec fn wf(&self) -> bool;

    /// The relation between an entry cursor and the results this node may
    /// return there.
    spec fn models<'a>(&self, input: Input<'a>, r: ParseResult<'a, Self::Output>) -> bool;

    /// Soundness: a possible result never retreats behind the entry offset,
    /// stays within the text, and keeps offsets on character boundaries.
    proof fn lemma_sound<'a>(&self, input: Input<'a>, r: ParseResult<'a, Self::Output>)
        requires
            self.wf(),
            input.wf(),
            self.models(input, r),
        ensures
            parse_result_ok(input, r),
    ;

    /// Apply the node to the input at the cursor.
    fn apply<'a>(&self, input: Input<'a>) -> (r: ParseResult<'a, Self::Output>)
        requires
            self.wf(),
            input.wf(),
        ensures
            self.models(input, r),
    ;
}

/// The capability of a matcher node: recognize a prefix of the input,
/// producing no value.
pub trait Match: Sized {
    /// Construction-time obligations, chiefly that every stored callback
    /// may be called on whatever the node hands it.
    spec fn wf(&self) -> bool;

    /// The relation between an entry cursor and the results this node may
    /// return there.
    spec fn models<'a>(&self, input: Input<'a>, r: MatchResult<'a>) -> bool;

    /// Soundness: a possible result never retreats behind the entry offset,
    /// stays within the text, and keeps offsets on character boundaries.
    proof fn lemma_sound<'a>(&self, input: Input<'a>, r: MatchResult<'a>)
        requires
            self.wf(),
            input.wf(),
            self.models(input, r),
        ensures
            match_result_ok(input, r),
    ;

    /// Apply the node to the input at the cursor.
    fn apply<'a>(&self, input: Input<'a>) -> (r: MatchResult<'a>)
        requires
            self.wf(),
            input.wf(),
        ensures
            self.models(input, r),
    ;
}

/// A parser: a node with the `Parse` capability.
pub struct Parser<T: Parse>(pub T);

/// A matcher: a node with the `Match` capability.
pub struct Matcher<M: Match>(pub M);

/// How the outcome of a whole-input parse relates to the raw result of the
/// root node: success must reach the end of the input, a leftover remainder
/// is a `PartialParse` at its offset, and every raw failure is rendered.
pub open spec fn finalize_parse_rel<'a, O>(
    source: &'a str,
    rr: ParseResult<'a, O>,
    r: Result<O, EzpcError>,
) -> bool {
    match rr {
        Ok((out, rest)) => if rest.pos == source.spec_bytes().len() {
            r == Ok::<O, EzpcError>(out)
        } else {
            r matches Err(EzpcError::PartialParse { pos: p }) && crate::result::position_rel(
                source,
                rest.pos as int,
                p,
            )
        },
        Err(raw) => r matches Err(e) && crate::result::from_raw_rel(source, raw, e),
    }
}

/// How the outcome of a whole-input match relates to the raw result of the
/// root node: success must reach the end of the input, a leftover remainder
/// is a `PartialParse` at its offset, and every raw failure is rendered.
pub open spec fn finalize_match_rel<'a>(
    source: &'a str,
    rr: MatchResult<'a>,
    r: Result<(), EzpcError>,
) -> bool {
    match rr {
        Ok(rest) => if rest.pos == source.spec_bytes().len() {
            r == Ok::<(), EzpcError>(())
        } else {
            r matches Err(EzpcError::PartialParse { pos: p }) && crate::result::position_rel(
                source,
                rest.pos as int,
                p,
            )
        },
        Err(raw) => r matches Err(e) && crate::result::from_raw_rel(source, raw, e),
    }
}

impl<P: Parse> Parser<P> {
    /// Applies the parser to the whole of `source`: the parse must consume
    /// every byte, and any failure comes back with its position rendered as
    /// line and column.
    pub fn parse_all<'a>(&self, source: &'a str) -> (r: Result<P::Output, EzpcError>)
        requires
            self.0.wf(),
            source.spec_bytes().len() < usize::MAX,
        ensures
            exists|rr: ParseResult<'a, P::Output>|
                #[trigger] self.0.models(
                    Input { text: source, pos: 0usize, depth: 0usize },
                    rr,
                ) && finalize_parse_rel(source, rr, r),
    {
        let input = Input::new(source);
        match self.0.apply(input) {
            Ok((out, rest)) => {
                proof {
                    self.0.lemma_sound(
                        input,
                        Ok::<(P::Output, Input<'a>), RawEzpcError>((out, rest)),
                    );
                }
                if rest.is_empty() {
                    Ok(out)
                } else {
                    Err(EzpcError::PartialParse { pos: Position::from_ptr(source, rest.pos) })
                }
            },
            Err(raw) => {
                proof {
                    self.0.lemma_sound(input, Err::<(P::Output, Input<'a>), RawEzpcError>(raw));
                }
                Err(EzpcError::from_raw(raw, source))
            },
        }
    }

    /// Upgrades a `Mismatch` of this parser into `Fatal` with the message
    /// `expected`, at the mismatch's position.
    pub fn fatal(self, expected: &'static str) -> (r: Parser<modifiers::Fatal<P>>)
        ensures
            r.0.parser_or_matcher == self.0,
            r.0.expected == expected,
    {
        Parser(modifiers::Fatal { parser_or_matcher: self.0, expected })
    }

    /// Greedy repetition of this parser within the bounds of `range`; the
    /// value is the collected items.
    pub fn repeat<R: crate::range::RangeArgument>(self, range: R) -> (r: Parser<
        modifiers::Repeat<P>,
    >)
        requires
            range.wf(),
        ensures
            r.0.parser_or_matcher == self.0,
            r.0.start == range.spec_start(),
            r.0.end == range.spec_end(),
    {
        let start = range.lower();
        let end = range.upper();
        Parser(modifiers::Repeat { parser_or_matcher: self.0, start, end })
    }

    /// Optionality: a mismatch of this parser becomes `None` at the
    /// original position.
    pub fn opt(self) -> (r: Parser<modifiers::Opt<P>>)
        ensures
            r.0.0 == self.0,
    {
        Parser(modifiers::Opt(self.0))
    }

    /// Discards the produced value and yields a clone of `value` instead.
    pub fn val<O: Clone>(self, value: O) -> (r: Parser<modifiers::ValParse<P, O>>)
        ensures
            r.0.parser == self.0,
            r.0.value == value,
    {
        Parser(modifiers::ValParse { parser: self.0, value })
    }

    /// Maps the produced value through `f`.
    pub fn map<F, O>(self, f: F) -> (r: Parser<modifiers::MapParse<P, F, O>>) where
        F: Fn(P::Output) -> O,

        ensures
            r.0.parser == self.0,
            r.0.map_func == f,
    {
        Parser(modifiers::MapParse { parser: self.0, map_func: f, phantom: core::marker::PhantomData })
    }

    /// Maps the produced value through the fallible `f`; its failure raises
    /// `Fatal` with the message `error_msg` at the end of the consumed span.
    pub fn convert<F, O, E>(self, f: F, error_msg: &'static str) -> (r: Parser<
        modifiers::ConvertParse<P, F, O, E>,
    >) where F: Fn(P::Output) -> Result<O, E>
        ensures
            r.0.parser == self.0,
            r.0.map_func == f,
            r.0.error_msg == error_msg,
    {
        Parser(
            modifiers::ConvertParse {
                parser: self.0,
                map_func: f,
                error_msg,
                phantom: core::marker::PhantomData,
            },
        )
    }
}

impl<M: Match> Matcher<M> {
    /// Applies the matcher to the whole of `source`: the match must consume
    /// every byte, and any failure comes back with its position rendered as
    /// line and column.
    pub fn match_all<'a>(&self, source: &'a str) -> (r: Result<(), EzpcError>)
        requires
            self.0.wf(),
            source.spec_bytes().len() < usize::MAX,
        ensures
            exists|rr: MatchResult<'a>|
                #[trigger] self.0.models(
                    Input { text: source, pos: 0usize, depth: 0usize },
                    rr,
                ) && finalize_match_rel(source, rr, r),
    {
        let input = Input::new(source);
        match self.0.apply(input) {
            Ok(rest) => {
                proof {
                    self.0.lemma_sound(input, Ok::<Input<'a>, RawEzpcError>(rest));
                }
                if rest.is_empty() {
                    Ok(())
                } else {
                    Err(EzpcError::PartialParse { pos: Position::from_ptr(source, rest.pos) })
                }
            },
            Err(raw) => {
                proof {
                    self.0.lemma_sound(input, Err::<Input<'a>, RawEzpcError>(raw));
                }
                Err(EzpcError::from_raw(raw, source))
            },
        }
    }

    /// Upgrades a `Mismatch` of this matcher into `Fatal` with the message
    /// `expected`, at the mismatch's position.
    pub fn fatal(self, expected: &'static str) -> (r: Matcher<modifiers::Fatal<M>>)
        ensures
            r.0.parser_or_matcher == self.0,
            r.0.expected == expected,
    {
        Matcher(modifiers::Fatal { parser_or_matcher: self.0, expected })
    }

    /// Zero-width negative lookahead: succeeds exactly when this matcher
    /// mismatches; a match raises `Fatal` with the message `expected` at
    /// the entry offset.
    pub fn reject(self, expected: &'static str) -> (r: Matcher<modifiers::Reject<M>>)
        ensures
            r.0.matcher == self.0,
            r.0.expected == expected,
    {
        Matcher(modifiers::Reject { matcher: self.0, expected })
    }

    /// Greedy repetition of this matcher within the bounds of `range`.
    pub fn repeat<R: crate::range::RangeArgument>(self, range: R) -> (r: Matcher<
        modifiers::Repeat<M>,
    >)
        requires
            range.wf(),
        ensures
            r.0.parser_or_matcher == self.0,
            r.0.start == range.spec_start(),
            r.0.end == range.spec_end(),
    {
        let start = range.lower();
        let end = range.upper();
        Matcher(modifiers::Repeat { parser_or_matcher: self.0, start, end })
    }

    /// Optionality: a mismatch of this matcher becomes success at the
    /// original position.
    pub fn opt(self) -> (r: Matcher<modifiers::Opt<M>>)
        ensures
            r.0.0 == self.0,
    {
        Matcher(modifiers::Opt(self.0))
    }

    /// On match, yields a clone of `value`.
    pub fn val<O: Clone>(self, value: O) -> (r: Parser<modifiers::ValMatch<M, O>>)
        ensures
            r.0.matcher == self.0,
            r.0.value == value,
    {
        Parser(modifiers::ValMatch { matcher: self.0, value })
    }

    /// Maps the consumed substring through `map_func`.
    pub fn map<F, O>(self, map_func: F) -> (r: Parser<modifiers::MapMatch<M, F, O>>) where
        F: Fn(&str) -> O,

        ensures
            r.0.matcher == self.0,
            r.0.map_func == map_func,
    {
        Parser(
            modifiers::MapMatch { matcher: self.0, map_func, phantom: core::marker::PhantomData },
        )
    }

    /// Maps the consumed substring through the fallible `map_func`; its
    /// failure raises `Fatal` with the message `error_msg` at the end of
    /// the consumed span.
    pub fn convert<F, O, E>(self, map_func: F, error_msg: &'static str) -> (r: Parser<
        modifiers::ConvertMatch<M, F, O, E>,
    >) where F: Fn(&str) -> Result<O, E>
        ensures
            r.0.matcher == self.0,
            r.0.map_func == map_func,
            r.0.error_msg == error_msg,
    {
        Parser(
            modifiers::ConvertMatch {
                matcher: self.0,
                map_func,
                error_msg,
                phantom: core::marker::PhantomData,
            },
        )
    }
}

} // verus!

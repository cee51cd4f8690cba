//! The algebraic laws of the combinators, stated over the `models`
//! relations and proved once for every well-formed node.

use vstd::prelude::*;

use super::combine_ops::{OrMM, OrPP};
use super::combinators::{list_steps, List};
use super::matchers::Tag;
use super::modifiers::{
    consumed_chars, parse_steps, MapMatch, MapParse, Opt, Repeat, ValMatch, ValParse,
};
use super::wrap::WrappedParser;
use super::{Match, MatchResult, Parse, ParseResult};
use crate::input::Input;
use crate::result::RawEzpcError;

verus! {

use vstd::string::StringSliceAdditionalSpecFns;
use vstd::utf8::{decode_utf8, encode_utf8, valid_utf8};

/// Prefix non-retreat: when any well-formed parser succeeds, what remains
/// is a suffix of its input — the same text from an offset no earlier than
/// the entry offset, so that the input splits into the consumed span
/// followed by the remainder.
pub proof fn lemma_prefix_non_retreat_parse<'a, P: Parse>(
    p: &P,
    input: Input<'a>,
    out: P::Output,
    rest: Input<'a>,
)
    requires
        p.wf(),
        input.wf(),
        p.models(input, Ok::<(P::Output, Input<'a>), RawEzpcError>((out, rest))),
    ensures
        rest.text == input.text,
        input.pos <= rest.pos <= input.sbytes().len(),
        input.rem() == input.sbytes().subrange(input.pos as int, rest.pos as int) + rest.rem(),
{
    p.lemma_sound(input, Ok::<(P::Output, Input<'a>), RawEzpcError>((out, rest)));
    assert(input.rem() =~= input.sbytes().subrange(input.pos as int, rest.pos as int)
        + rest.rem());
}

/// Prefix non-retreat for matchers: when any well-formed matcher succeeds,
/// what remains is a suffix of its input.
pub proof fn lemma_prefix_non_retreat_match<'a, M: Match>(
    m: &M,
    input: Input<'a>,
    rest: Input<'a>,
)
    requires
        m.wf(),
        input.wf(),
        m.models(input, Ok::<Input<'a>, RawEzpcError>(rest)),
    ensures
        rest.text == input.text,
        input.pos <= rest.pos <= input.sbytes().len(),
        input.rem() == input.sbytes().subrange(input.pos as int, rest.pos as int) + rest.rem(),
{
    m.lemma_sound(input, Ok::<Input<'a>, RawEzpcError>(rest));
    assert(input.rem() =~= input.sbytes().subrange(input.pos as int, rest.pos as int)
        + rest.rem());
}

/// Alternative locality: an ordered choice behaves exactly as its first
/// alternative wherever that alternative does not mismatch, and exactly as
/// its second alternative, at the original position, wherever the first
/// mismatches.
pub proof fn lemma_alternative_locality_parse<'a, P1: Parse, P2: Parse<Output = P1::Output>>(
    o: &OrPP<P1, P2>,
    input: Input<'a>,
    r: ParseResult<'a, P1::Output>,
)
    ensures
        o.models(input, r) <==> ((exists|r1: ParseResult<'a, P1::Output>|
            #[trigger] o.0.models(input, r1) && !(r1 matches Err(RawEzpcError::Mismatch { .. }))
                && r == r1) || (exists|p: usize|
            o.0.models(
                input,
                Err::<(P1::Output, Input<'a>), RawEzpcError>(RawEzpcError::Mismatch { pos: p }),
            ) && o.1.models(input, r))),
{
    if o.models(input, r) {
        let r1 = choose|r1: ParseResult<'a, P1::Output>|
            #[trigger] o.0.models(input, r1) && o.step(input, r1, r);
        if let Err(RawEzpcError::Mismatch { pos }) = r1 {
            assert(o.0.models(
                input,
                Err::<(P1::Output, Input<'a>), RawEzpcError>(RawEzpcError::Mismatch { pos }),
            ) && o.1.models(input, r));
        }
    }
    if (exists|r1: ParseResult<'a, P1::Output>|
        #[trigger] o.0.models(input, r1) && !(r1 matches Err(RawEzpcError::Mismatch { .. })) && r
            == r1) {
        let r1 = choose|r1: ParseResult<'a, P1::Output>|
            #[trigger] o.0.models(input, r1) && !(r1 matches Err(
                RawEzpcError::Mismatch { .. },
            )) && r == r1;
        assert(o.step(input, r1, r));
    }
    if (exists|p: usize|
        o.0.models(
            input,
            Err::<(P1::Output, Input<'a>), RawEzpcError>(RawEzpcError::Mismatch { pos: p }),
        ) && o.1.models(input, r)) {
        let p = choose|p: usize|
            o.0.models(
                input,
                Err::<(P1::Output, Input<'a>), RawEzpcError>(RawEzpcError::Mismatch { pos: p }),
            ) && o.1.models(input, r);
        assert(o.step(
            input,
            Err::<(P1::Output, Input<'a>), RawEzpcError>(RawEzpcError::Mismatch { pos: p }),
            r,
        ));
    }
}

/// Alternative locality for matchers: as for parsers.
pub proof fn lemma_alternative_locality_match<'a, M1: Match, M2: Match>(
    o: &OrMM<M1, M2>,
    input: Input<'a>,
    r: MatchResult<'a>,
)
    ensures
        o.models(input, r) <==> ((exists|r1: MatchResult<'a>|
            #[trigger] o.0.models(input, r1) && !(r1 matches Err(RawEzpcError::Mismatch { .. }))
                && r == r1) || (exists|p: usize|
            o.0.models(input, Err::<Input<'a>, RawEzpcError>(RawEzpcError::Mismatch { pos: p }))
                && o.1.models(input, r))),
{
    if o.models(input, r) {
        let r1 = choose|r1: MatchResult<'a>| #[trigger] o.0.models(input, r1) && o.step(
            input,
            r1,
            r,
        );
        if let Err(RawEzpcError::Mismatch { pos }) = r1 {
            assert(o.0.models(
                input,
                Err::<Input<'a>, RawEzpcError>(RawEzpcError::Mismatch { pos }),
            ) && o.1.models(input, r));
        }
    }
    if (exists|r1: MatchResult<'a>|
        #[trigger] o.0.models(input, r1) && !(r1 matches Err(RawEzpcError::Mismatch { .. })) && r
            == r1) {
        let r1 = choose|r1: MatchResult<'a>|
            #[trigger] o.0.models(input, r1) && !(r1 matches Err(RawEzpcError::Mismatch { .. }))
                && r == r1;
        assert(o.step(input, r1, r));
    }
    if (exists|p: usize|
        o.0.models(input, Err::<Input<'a>, RawEzpcError>(RawEzpcError::Mismatch { pos: p }))
            && o.1.models(input, r)) {
        let p = choose|p: usize|
            o.0.models(input, Err::<Input<'a>, RawEzpcError>(RawEzpcError::Mismatch { pos: p }))
                && o.1.models(input, r);
        assert(o.step(
            input,
            Err::<Input<'a>, RawEzpcError>(RawEzpcError::Mismatch { pos: p }),
            r,
        ));
    }
}

/// Fatal opacity at an ordered choice: a committed failure of the first
/// alternative is a result of the whole choice, unchanged — it never
/// enables the second alternative.
pub proof fn lemma_fatal_opaque_or<'a, P1: Parse, P2: Parse<Output = P1::Output>>(
    o: &OrPP<P1, P2>,
    input: Input<'a>,
    e: RawEzpcError,
)
    requires
        o.0.models(input, Err::<(P1::Output, Input<'a>), RawEzpcError>(e)),
        !e.is_mismatch(),
    ensures
        o.models(input, Err::<(P1::Output, Input<'a>), RawEzpcError>(e)),
{
    assert(o.step(
        input,
        Err::<(P1::Output, Input<'a>), RawEzpcError>(e),
        Err::<(P1::Output, Input<'a>), RawEzpcError>(e),
    ));
}

/// Fatal opacity at an ordered choice of matchers: as for parsers.
pub proof fn lemma_fatal_opaque_or_match<'a, M1: Match, M2: Match>(
    o: &OrMM<M1, M2>,
    input: Input<'a>,
    e: RawEzpcError,
)
    requires
        o.0.models(input, Err::<Input<'a>, RawEzpcError>(e)),
        !e.is_mismatch(),
    ensures
        o.models(input, Err::<Input<'a>, RawEzpcError>(e)),
{
    assert(o.step(input, Err::<Input<'a>, RawEzpcError>(e), Err::<Input<'a>, RawEzpcError>(e)));
}

/// Fatal opacity at optionality: a committed failure of the inner parser
/// is a result of `opt`, unchanged.
pub proof fn lemma_fatal_opaque_opt<'a, P: Parse>(o: &Opt<P>, input: Input<'a>, e: RawEzpcError)
    requires
        o.0.models(input, Err::<(P::Output, Input<'a>), RawEzpcError>(e)),
        !e.is_mismatch(),
    ensures
        o.models(input, Err::<(Option<P::Output>, Input<'a>), RawEzpcError>(e)),
{
    assert(o.step(
        input,
        Err::<(P::Output, Input<'a>), RawEzpcError>(e),
        Err::<(Option<P::Output>, Input<'a>), RawEzpcError>(e),
    ));
}

/// Fatal opacity at repetition: once a chain of successes has reached some
/// position within the bound, a committed failure of the next application
/// is a result of the whole repetition, unchanged.
pub proof fn lemma_fatal_opaque_repeat<'a, P: Parse>(
    rep: &Repeat<P>,
    input: Input<'a>,
    k: nat,
    items: Seq<P::Output>,
    rest: Input<'a>,
    e: RawEzpcError,
)
    requires
        parse_steps(&rep.parser_or_matcher, input, k, items, rest),
        k < rep.end,
        rep.parser_or_matcher.models(rest, Err::<(P::Output, Input<'a>), RawEzpcError>(e)),
        !e.is_mismatch(),
    ensures
        rep.models(input, Err::<(Vec<P::Output>, Input<'a>), RawEzpcError>(e)),
{
    assert(rep.p_stop(k, items, rest, Err::<(Vec<P::Output>, Input<'a>), RawEzpcError>(e)));
}

/// Fatal opacity at a value transformer: every failure of the inner parser
/// is a result of `map`, unchanged, and `map` fails no other way.
pub proof fn lemma_fatal_opaque_map<'a, P: Parse, F, O>(
    m: &MapParse<P, F, O>,
    input: Input<'a>,
    e: RawEzpcError,
) where F: Fn(P::Output) -> O
    ensures
        m.parser.models(input, Err::<(P::Output, Input<'a>), RawEzpcError>(e)) ==> m.models(
            input,
            Err::<(O, Input<'a>), RawEzpcError>(e),
        ),
        m.models(input, Err::<(O, Input<'a>), RawEzpcError>(e)) ==> m.parser.models(
            input,
            Err::<(P::Output, Input<'a>), RawEzpcError>(e),
        ),
{
    if m.parser.models(input, Err::<(P::Output, Input<'a>), RawEzpcError>(e)) {
        assert(m.step(
            Err::<(P::Output, Input<'a>), RawEzpcError>(e),
            Err::<(O, Input<'a>), RawEzpcError>(e),
        ));
    }
    if m.models(input, Err::<(O, Input<'a>), RawEzpcError>(e)) {
        let r1 = choose|r1: ParseResult<'a, P::Output>|
            #[trigger] m.parser.models(input, r1) && m.step(
                r1,
                Err::<(O, Input<'a>), RawEzpcError>(e),
            );
    }
}

/// Fatal opacity at a fixed value: every failure of the inner parser is a
/// result of `val`, unchanged, and `val` fails no other way.
pub proof fn lemma_fatal_opaque_val<'a, P: Parse, T: Clone>(
    v: &ValParse<P, T>,
    input: Input<'a>,
    e: RawEzpcError,
)
    ensures
        v.parser.models(input, Err::<(P::Output, Input<'a>), RawEzpcError>(e)) ==> v.models(
            input,
            Err::<(T, Input<'a>), RawEzpcError>(e),
        ),
        v.models(input, Err::<(T, Input<'a>), RawEzpcError>(e)) ==> v.parser.models(
            input,
            Err::<(P::Output, Input<'a>), RawEzpcError>(e),
        ),
{
    if v.parser.models(input, Err::<(P::Output, Input<'a>), RawEzpcError>(e)) {
        assert(v.step(
            Err::<(P::Output, Input<'a>), RawEzpcError>(e),
            Err::<(T, Input<'a>), RawEzpcError>(e),
        ));
    }
    if v.models(input, Err::<(T, Input<'a>), RawEzpcError>(e)) {
        let r1 = choose|r1: ParseResult<'a, P::Output>|
            #[trigger] v.parser.models(input, r1) && v.step(
                r1,
                Err::<(T, Input<'a>), RawEzpcError>(e),
            );
    }
}

/// Fatal opacity at a list: once the first element and a chain of
/// separator-and-element rounds have succeeded, a committed failure of the
/// element owed after one more separator is a result of the whole list,
/// unchanged.
pub proof fn lemma_fatal_opaque_list<'a, P: Parse, M: Match>(
    l: &List<P, M>,
    input: Input<'a>,
    v0: P::Output,
    i0: Input<'a>,
    k: nat,
    items: Seq<P::Output>,
    rest: Input<'a>,
    mid: Input<'a>,
    e: RawEzpcError,
)
    requires
        l.element.models(input, Ok::<(P::Output, Input<'a>), RawEzpcError>((v0, i0))),
        list_steps(&l.element, &l.separator, i0, k, items, rest),
        l.separator.models(rest, Ok::<Input<'a>, RawEzpcError>(mid)),
        l.element.models(mid, Err::<(P::Output, Input<'a>), RawEzpcError>(e)),
        !e.is_mismatch(),
    ensures
        l.models(input, Err::<(Vec<P::Output>, Input<'a>), RawEzpcError>(e)),
{
    let r = Err::<(Vec<P::Output>, Input<'a>), RawEzpcError>(e);
    assert(l.stop_elem(v0, items, rest, Err::<(P::Output, Input<'a>), RawEzpcError>(e), r));
    assert(l.stop_sep(v0, items, rest, Ok::<Input<'a>, RawEzpcError>(mid), r));
    assert(l.stop(v0, items, rest, r));
}

/// A list is greedy and maximal: whenever it succeeds, the separator does
/// not match at the returned remainder — every result it can have there is
/// a recoverable mismatch, so no further round was possible.
pub proof fn lemma_list_separator_mismatch_at_end<'a, P: Parse, M: Match>(
    l: &List<P, M>,
    input: Input<'a>,
    v: Vec<P::Output>,
    rest: Input<'a>,
)
    requires
        l.models(input, Ok::<(Vec<P::Output>, Input<'a>), RawEzpcError>((v, rest))),
    ensures
        exists|p: usize|
            #[trigger] l.separator.models(
                rest,
                Err::<Input<'a>, RawEzpcError>(RawEzpcError::Mismatch { pos: p }),
            ),
{
    let r = Ok::<(Vec<P::Output>, Input<'a>), RawEzpcError>((v, rest));
    let r0 = choose|r0: ParseResult<'a, P::Output>|
        #[trigger] l.element.models(input, r0) && match r0 {
            Err(e) => r == Err::<(Vec<P::Output>, Input<'a>), RawEzpcError>(e),
            Ok((v0, i0)) => l.continues(v0, i0, r),
        };
    match r0 {
        Err(_) => {
            assert(false);
        },
        Ok((v0, i0)) => {
            let (k, items, rest1) = choose|k: nat, items: Seq<P::Output>, rest1: Input<'a>|
                #[trigger] list_steps(&l.element, &l.separator, i0, k, items, rest1) && l.stop(
                    v0,
                    items,
                    rest1,
                    r,
                );
            let rs = choose|rs: MatchResult<'a>|
                #[trigger] l.separator.models(rest1, rs) && l.stop_sep(v0, items, rest1, rs, r);
            match rs {
                Err(RawEzpcError::Mismatch { pos }) => {
                    assert(rest1 == rest);
                    assert(l.separator.models(
                        rest,
                        Err::<Input<'a>, RawEzpcError>(RawEzpcError::Mismatch { pos }),
                    ));
                },
                Err(_) => {
                    assert(false);
                },
                Ok(mid) => {
                    let re = choose|re: ParseResult<'a, P::Output>|
                        #[trigger] l.element.models(mid, re) && l.stop_elem(
                            v0,
                            items,
                            rest1,
                            re,
                            r,
                        );
                    assert(false);
                },
            }
        },
    }
}

/// Repeat bounds: when a repetition succeeds, the number of items it
/// collected lies between its lower and upper bound; on too few items it
/// would have mismatched instead.
pub proof fn lemma_repeat_bounds<'a, P: Parse>(
    rep: &Repeat<P>,
    input: Input<'a>,
    v: Vec<P::Output>,
    rest: Input<'a>,
)
    requires
        rep.wf(),
        input.wf(),
        rep.models(input, Ok::<(Vec<P::Output>, Input<'a>), RawEzpcError>((v, rest))),
    ensures
        rep.start <= v@.len() <= rep.end,
{
    let r = Ok::<(Vec<P::Output>, Input<'a>), RawEzpcError>((v, rest));
    let (k, items, rest2) = choose|k: nat, items: Seq<P::Output>, rest2: Input<'a>|
        #[trigger] parse_steps(&rep.parser_or_matcher, input, k, items, rest2) && k <= rep.end
            && rep.p_stop(k, items, rest2, r);
    super::modifiers::lemma_parse_steps_sound(&rep.parser_or_matcher, input, k, items, rest2);
}

/// Map and val are infallible: a mismatch of the transformed parser is a
/// mismatch of the inner parser at the same position — the transformer
/// raises none of its own.
pub proof fn lemma_map_infallible<'a, P: Parse, F, O>(
    m: &MapParse<P, F, O>,
    input: Input<'a>,
    p: usize,
) where F: Fn(P::Output) -> O
    ensures
        m.models(
            input,
            Err::<(O, Input<'a>), RawEzpcError>(RawEzpcError::Mismatch { pos: p }),
        ) ==> m.parser.models(
            input,
            Err::<(P::Output, Input<'a>), RawEzpcError>(RawEzpcError::Mismatch { pos: p }),
        ),
{
    lemma_fatal_opaque_map(m, input, RawEzpcError::Mismatch { pos: p });
}

/// Map and val are infallible: a mismatch of the value-producing matcher is
/// a mismatch of the inner matcher at the same position.
pub proof fn lemma_val_match_infallible<'a, M: Match, T: Clone>(
    v: &ValMatch<M, T>,
    input: Input<'a>,
    p: usize,
)
    ensures
        v.models(
            input,
            Err::<(T, Input<'a>), RawEzpcError>(RawEzpcError::Mismatch { pos: p }),
        ) ==> v.matcher.models(
            input,
            Err::<Input<'a>, RawEzpcError>(RawEzpcError::Mismatch { pos: p }),
        ),
{
    let e = RawEzpcError::Mismatch { pos: p };
    if v.models(input, Err::<(T, Input<'a>), RawEzpcError>(e)) {
        let r1 = choose|r1: MatchResult<'a>| #[trigger] v.matcher.models(input, r1) && v.step(
            r1,
            Err::<(T, Input<'a>), RawEzpcError>(e),
        );
    }
}

/// Map on a matcher is infallible too: a mismatch of the transformed
/// matcher is a mismatch of the inner matcher at the same position.
pub proof fn lemma_map_match_infallible<'a, M: Match, F, O>(
    m: &MapMatch<M, F, O>,
    input: Input<'a>,
    p: usize,
) where F: Fn(&str) -> O
    ensures
        m.models(
            input,
            Err::<(O, Input<'a>), RawEzpcError>(RawEzpcError::Mismatch { pos: p }),
        ) ==> m.matcher.models(
            input,
            Err::<Input<'a>, RawEzpcError>(RawEzpcError::Mismatch { pos: p }),
        ),
{
    let e = RawEzpcError::Mismatch { pos: p };
    if m.models(input, Err::<(O, Input<'a>), RawEzpcError>(e)) {
        let r1 = choose|r1: MatchResult<'a>| #[trigger] m.matcher.models(input, r1) && m.step(
            input,
            r1,
            Err::<(O, Input<'a>), RawEzpcError>(e),
        );
    }
}

/// UTF-8 encoding concatenates: the encoding of two character sequences in
/// a row is the two encodings in a row.
pub proof fn lemma_encode_utf8_concat(a: Seq<char>, b: Seq<char>)
    ensures
        encode_utf8(a + b) == encode_utf8(a) + encode_utf8(b),
    decreases a.len(),
{
    if a.len() == 0 {
        assert(a + b =~= b);
        assert(encode_utf8(a) =~= Seq::<u8>::empty());
        assert(encode_utf8(a) + encode_utf8(b) =~= encode_utf8(b));
    } else {
        assert((a + b).len() > 0);
        assert((a + b)[0] == a[0]);
        assert((a + b).drop_first() =~= a.drop_first() + b);
        lemma_encode_utf8_concat(a.drop_first(), b);
        assert(encode_utf8(a + b) =~= encode_utf8(a) + encode_utf8(b));
    }
}

/// Round trip: a tag matches any input whose remaining characters start
/// with the tag's own text, consumes exactly the tag's bytes, and leaves
/// exactly the following characters.
pub proof fn lemma_tag_round_trip<'a>(t: &'static str, input: Input<'a>, tail: Seq<char>)
    requires
        input.wf(),
        input.rem_chars() == t@ + tail,
    ensures
        Tag(t).models(
            input,
            Ok::<Input<'a>, RawEzpcError>(input.advanced(t.spec_bytes().len() as int)),
        ),
        decode_utf8(input.advanced(t.spec_bytes().len() as int).rem()) == tail,
{
    broadcast use vstd::utf8::group_utf8_lib;

    let tb = t.spec_bytes();
    assert(valid_utf8(input.rem()));
    assert(encode_utf8(decode_utf8(input.rem())) == input.rem());
    lemma_encode_utf8_concat(t@, tail);
    assert(input.rem() == tb + encode_utf8(tail));
    assert(input.rem().len() == tb.len() + encode_utf8(tail).len());
    assert(input.rem().subrange(0, tb.len() as int) =~= tb);
    let rest = input.advanced(tb.len() as int);
    assert(input.pos + tb.len() <= input.sbytes().len());
    assert(rest.pos == input.pos + tb.len());
    assert(Tag(t).models(input, Ok::<Input<'a>, RawEzpcError>(rest)));
    assert forall|i: int| 0 <= i < rest.rem().len() implies rest.rem()[i] == encode_utf8(tail)[i] by {
        assert(rest.rem()[i] == input.rem()[tb.len() + i]);
        assert(input.rem()[tb.len() + i] == (tb + encode_utf8(tail))[tb.len() + i]);
    }
    assert(rest.rem() =~= encode_utf8(tail));
}

/// Round trip, the failing side: a tag mismatches, at the entry offset, any
/// input whose remaining characters do not start with the tag's text.
pub proof fn lemma_tag_mismatch<'a>(t: &'static str, input: Input<'a>)
    requires
        input.wf(),
        !(input.rem_chars().len() >= t@.len() && input.rem_chars().subrange(0, t@.len() as int)
            == t@),
    ensures
        Tag(t).models(
            input,
            Err::<Input<'a>, RawEzpcError>(RawEzpcError::Mismatch { pos: input.pos }),
        ),
{
    broadcast use vstd::utf8::group_utf8_lib;

    let tb = t.spec_bytes();
    let rem = input.rem();
    assert(valid_utf8(rem));
    if rem.len() >= tb.len() && rem.subrange(0, tb.len() as int) == tb {
        crate::input::lemma_valid_prefix_is_boundary(rem, tb.len() as int);
        vstd::utf8::decode_utf8_split(rem, tb.len() as int);
        assert(decode_utf8(rem) == t@ + decode_utf8(
            rem.subrange(tb.len() as int, rem.len() as int),
        ));
        assert(input.rem_chars().len() >= t@.len());
        assert(input.rem_chars().subrange(0, t@.len() as int) =~= t@);
    }
}

/// Recursion guarding: past the depth bound, a wrapped parser returns the
/// recursion error at the entry offset and nothing else — in particular it
/// does not enter its evaluation function.
pub proof fn lemma_wrap_depth_guard<'a, O, F>(
    w: &WrappedParser<O, F>,
    input: Input<'a>,
    r: ParseResult<'a, O>,
) where F: for<'x> Fn(Input<'x>) -> ParseResult<'x, O>
    requires
        input.depth > w.max_depth,
        w.models(input, r),
    ensures
        r == Err::<(O, Input<'a>), RawEzpcError>(
            RawEzpcError::Recursion {
                max_depth: w.max_depth,
                parser_name: w.name,
                pos: input.pos,
            },
        ),
{
}

/// Consumed-span exactness: when a mapped matcher succeeds, its callback
/// received a string holding exactly the characters between the offset at
/// entry and the offset at exit.
pub proof fn lemma_map_consumed_span<'a, M: Match, F, O>(
    m: &MapMatch<M, F, O>,
    input: Input<'a>,
    out: O,
    rest: Input<'a>,
) where F: Fn(&str) -> O
    requires
        m.models(input, Ok::<(O, Input<'a>), RawEzpcError>((out, rest))),
    ensures
        exists|s: &str|
            s@ == consumed_chars(input, rest) && #[trigger] call_ensures(m.map_func, (s,), out),
{
    let r = Ok::<(O, Input<'a>), RawEzpcError>((out, rest));
    let r1 = choose|r1: MatchResult<'a>| #[trigger] m.matcher.models(input, r1) && m.step(
        input,
        r1,
        r,
    );
}

} // verus!


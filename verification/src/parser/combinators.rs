//! The list combinator: one or more elements separated by a separator.
//!
//! The first element is required; its failure is forwarded unchanged. After
//! an element, a mismatching separator ends the list normally, but once a
//! separator has matched, the next element is owed: its mismatch is
//! upgraded to a committed `Fatal` at its own position. Any other failure
//! is forwarded.
//!
//! A round whose separator and element together consume no input would
//! repeat forever: such a round raises `Fatal` at its own position, since a
//! list whose rounds make no progress cannot be meant.

use vstd::prelude::*;

use super::{Match, MatchResult, Parse, ParseResult, Parser, Matcher};
use crate::input::Input;
use crate::result::RawEzpcError;

verus! {

/// One or more `element`s separated by `separator`; the value is the
/// collected elements.
pub struct List<P, M> where P: Parse, M: Match {
    pub element: P,
    pub separator: M,
    pub item_mismatch_error_msg: &'static str,
}

/// One or more `element`s separated by `separator`. A separator commits the
/// grammar to another element: an element missing after a separator raises
/// `Fatal` with the message `item_mismatch_error_msg`.
pub fn list<P, M>(
    element: Parser<P>,
    separator: Matcher<M>,
    item_mismatch_error_msg: &'static str,
) -> (r: Parser<List<P, M>>) where P: Parse, M: Match
    ensures
        r.0.element == element.0,
        r.0.separator == separator.0,
        r.0.item_mismatch_error_msg == item_mismatch_error_msg,
{
    Parser(List { element: element.0, separator: separator.0, item_mismatch_error_msg })
}

/// `k` further rounds of separator-then-element, starting at `input`,
/// ending at `rest` and producing `items` in order.
pub open spec fn list_steps<'a, P: Parse, M: Match>(
    elem: &P,
    sep: &M,
    input: Input<'a>,
    k: nat,
    items: Seq<P::Output>,
    rest: Input<'a>,
) -> bool
    decreases k,
{
    if k == 0 {
        items.len() == 0 && rest == input
    } else {
        exists|mid0: Input<'a>, mid1: Input<'a>, prev: Seq<P::Output>, v: P::Output|
            #![trigger sep.models(mid0, Ok::<Input<'a>, RawEzpcError>(mid1)), prev.push(v)]
            list_steps(elem, sep, input, (k - 1) as nat, prev, mid0) && sep.models(
                mid0,
                Ok::<Input<'a>, RawEzpcError>(mid1),
            ) && elem.models(mid1, Ok::<(P::Output, Input<'a>), RawEzpcError>((v, rest))) && items
                == prev.push(v)
    }
}

/// One more separator-and-element round extends a chain.
pub proof fn lemma_list_steps_snoc<'a, P: Parse, M: Match>(
    elem: &P,
    sep: &M,
    input: Input<'a>,
    k: nat,
    items: Seq<P::Output>,
    mid0: Input<'a>,
    mid1: Input<'a>,
    v: P::Output,
    rest: Input<'a>,
)
    requires
        list_steps(elem, sep, input, k, items, mid0),
        sep.models(mid0, Ok::<Input<'a>, RawEzpcError>(mid1)),
        elem.models(mid1, Ok::<(P::Output, Input<'a>), RawEzpcError>((v, rest))),
    ensures
        list_steps(elem, sep, input, k + 1, items.push(v), rest),
{
    assert(((k + 1) as nat - 1) as nat == k);
}

/// The end of a chain of rounds never lies behind its start, and the chain
/// produces one item per round.
pub proof fn lemma_list_steps_sound<'a, P: Parse, M: Match>(
    elem: &P,
    sep: &M,
    input: Input<'a>,
    k: nat,
    items: Seq<P::Output>,
    rest: Input<'a>,
)
    requires
        elem.wf(),
        sep.wf(),
        input.wf(),
        list_steps(elem, sep, input, k, items, rest),
    ensures
        super::rest_ok(input, rest),
        items.len() == k,
    decreases k,
{
    if k == 0 {
    } else {
        let (mid0, mid1, prev, v) = choose|
            mid0: Input<'a>,
            mid1: Input<'a>,
            prev: Seq<P::Output>,
            v: P::Output,
        |
            #![trigger sep.models(mid0, Ok::<Input<'a>, RawEzpcError>(mid1)), prev.push(v)]
            list_steps(elem, sep, input, (k - 1) as nat, prev, mid0) && sep.models(
                mid0,
                Ok::<Input<'a>, RawEzpcError>(mid1),
            ) && elem.models(mid1, Ok::<(P::Output, Input<'a>), RawEzpcError>((v, rest))) && items
                == prev.push(v);
        lemma_list_steps_sound(elem, sep, input, (k - 1) as nat, prev, mid0);
        sep.lemma_sound(mid0, Ok::<Input<'a>, RawEzpcError>(mid1));
        elem.lemma_sound(mid1, Ok::<(P::Output, Input<'a>), RawEzpcError>((v, rest)));
    }
}

impl<P, M> List<P, M> where P: Parse, M: Match {
    /// The result when the list ends normally after the items `v0`, then
    /// `items`, at `rest`.
    pub open spec fn finish<'a>(
        &self,
        v0: P::Output,
        items: Seq<P::Output>,
        rest: Input<'a>,
        r: ParseResult<'a, Vec<P::Output>>,
    ) -> bool {
        match r {
            Ok((v, rest2)) => v@ == seq![v0] + items && rest2 == rest,
            Err(_) => false,
        }
    }

    /// The verdict when the element owed after a matching separator came
    /// back as `re`: a round that consumed nothing raises `Fatal` at the
    /// round's own position; a mismatching element raises `Fatal` at its
    /// position; every other failure is forwarded.
    pub open spec fn stop_elem<'a>(
        &self,
        v0: P::Output,
        items: Seq<P::Output>,
        rest: Input<'a>,
        re: ParseResult<'a, P::Output>,
        r: ParseResult<'a, Vec<P::Output>>,
    ) -> bool {
        match re {
            Ok((_, rest2)) => rest2.pos == rest.pos && r == Err::<
                (Vec<P::Output>, Input<'a>),
                RawEzpcError,
            >(RawEzpcError::Fatal { message: "list makes no progress", pos: rest.pos }),
            Err(RawEzpcError::Mismatch { pos }) => r == Err::<
                (Vec<P::Output>, Input<'a>),
                RawEzpcError,
            >(RawEzpcError::Fatal { message: self.item_mismatch_error_msg, pos }),
            Err(e) => r == Err::<(Vec<P::Output>, Input<'a>), RawEzpcError>(e),
        }
    }

    /// Iteration stops at `rest` because the separator matched there,
    /// reaching `mid`, and the element owed after it did not continue the
    /// list.
    pub open spec fn stop_after_sep<'a>(
        &self,
        v0: P::Output,
        items: Seq<P::Output>,
        rest: Input<'a>,
        mid: Input<'a>,
        r: ParseResult<'a, Vec<P::Output>>,
    ) -> bool {
        exists|re: ParseResult<'a, P::Output>|
            #[trigger] self.element.models(mid, re) && self.stop_elem(v0, items, rest, re, r)
    }

    /// The verdict when the separator tried at `rest` came back as `rs`: a
    /// mismatching separator ends the list normally; a matching separator
    /// owes an element; every other failure is forwarded.
    pub open spec fn stop_sep<'a>(
        &self,
        v0: P::Output,
        items: Seq<P::Output>,
        rest: Input<'a>,
        rs: MatchResult<'a>,
        r: ParseResult<'a, Vec<P::Output>>,
    ) -> bool {
        match rs {
            Err(RawEzpcError::Mismatch { pos }) => self.finish(v0, items, rest, r),
            Err(e) => r == Err::<(Vec<P::Output>, Input<'a>), RawEzpcError>(e),
            Ok(mid) => self.stop_after_sep(v0, items, rest, mid, r),
        }
    }

    /// The verdict once iteration has stopped at `rest` with the items
    /// `v0`, then `items`.
    pub open spec fn stop<'a>(
        &self,
        v0: P::Output,
        items: Seq<P::Output>,
        rest: Input<'a>,
        r: ParseResult<'a, Vec<P::Output>>,
    ) -> bool {
        exists|rs: MatchResult<'a>|
            #[trigger] self.separator.models(rest, rs) && self.stop_sep(v0, items, rest, rs, r)
    }

    /// After its first element, the list ran some chain of rounds and then
    /// stopped.
    pub open spec fn continues<'a>(
        &self,
        v0: P::Output,
        i0: Input<'a>,
        r: ParseResult<'a, Vec<P::Output>>,
    ) -> bool {
        exists|k: nat, items: Seq<P::Output>, rest: Input<'a>|
            #[trigger] list_steps(&self.element, &self.separator, i0, k, items, rest) && self.stop(
                v0,
                items,
                rest,
                r,
            )
    }
}

/// Introduction of `stop` from its witnesses: the separator matched at
/// `rest` and the element owed after it came back as `re`.
pub proof fn lemma_list_stop_intro<'a, P: Parse, M: Match>(
    l: &List<P, M>,
    v0: P::Output,
    items: Seq<P::Output>,
    rest: Input<'a>,
    mid: Input<'a>,
    re: ParseResult<'a, P::Output>,
    r: ParseResult<'a, Vec<P::Output>>,
)
    requires
        l.separator.models(rest, Ok::<Input<'a>, RawEzpcError>(mid)),
        l.element.models(mid, re),
        l.stop_elem(v0, items, rest, re, r),
    ensures
        l.stop(v0, items, rest, r),
{
    assert(l.stop_after_sep(v0, items, rest, mid, r));
    assert(l.stop_sep(v0, items, rest, Ok::<Input<'a>, RawEzpcError>(mid), r));
}

/// Introduction of `stop` when the separator itself failed at `rest`.
pub proof fn lemma_list_stop_intro_sep_err<'a, P: Parse, M: Match>(
    l: &List<P, M>,
    v0: P::Output,
    items: Seq<P::Output>,
    rest: Input<'a>,
    e: RawEzpcError,
    r: ParseResult<'a, Vec<P::Output>>,
)
    requires
        l.separator.models(rest, Err::<Input<'a>, RawEzpcError>(e)),
        l.stop_sep(v0, items, rest, Err::<Input<'a>, RawEzpcError>(e), r),
    ensures
        l.stop(v0, items, rest, r),
{
}

/// Introduction of the whole list relation from its witnesses: the first
/// element succeeded, a chain of rounds followed, and iteration stopped.
pub proof fn lemma_list_models_intro<'a, P: Parse, M: Match>(
    l: &List<P, M>,
    input: Input<'a>,
    v0: P::Output,
    i0: Input<'a>,
    k: nat,
    items: Seq<P::Output>,
    rest: Input<'a>,
    r: ParseResult<'a, Vec<P::Output>>,
)
    requires
        l.element.models(input, Ok::<(P::Output, Input<'a>), RawEzpcError>((v0, i0))),
        list_steps(&l.element, &l.separator, i0, k, items, rest),
        l.stop(v0, items, rest, r),
    ensures
        l.models(input, r),
{
    assert(l.continues(v0, i0, r));
}

impl<P, M> Parse for List<P, M> where P: Parse, M: Match {
    type Output = Vec<P::Output>;

    open spec fn wf(&self) -> bool {
        self.element.wf() && self.separator.wf()
    }

    open spec fn models<'a>(&self, input: Input<'a>, r: ParseResult<'a, Self::Output>) -> bool {
        exists|r0: ParseResult<'a, P::Output>|
            #[trigger] self.element.models(input, r0) && match r0 {
                Err(e) => r == Err::<(Vec<P::Output>, Input<'a>), RawEzpcError>(e),
                Ok((v0, i0)) => self.continues(v0, i0, r),
            }
    }

    proof fn lemma_sound<'a>(&self, input: Input<'a>, r: ParseResult<'a, Self::Output>) {
        let r0 = choose|r0: ParseResult<'a, P::Output>|
            #[trigger] self.element.models(input, r0) && match r0 {
                Err(e) => r == Err::<(Vec<P::Output>, Input<'a>), RawEzpcError>(e),
                Ok((v0, i0)) => self.continues(v0, i0, r),
            };
        self.element.lemma_sound(input, r0);
        if let Ok((v0, i0)) = r0 {
            let (k, items, rest) = choose|k: nat, items: Seq<P::Output>, rest: Input<'a>|
                #[trigger] list_steps(&self.element, &self.separator, i0, k, items, rest)
                    && self.stop(v0, items, rest, r);
            lemma_list_steps_sound(&self.element, &self.separator, i0, k, items, rest);
            let rs = choose|rs: MatchResult<'a>|
                #[trigger] self.separator.models(rest, rs) && self.stop_sep(
                    v0,
                    items,
                    rest,
                    rs,
                    r,
                );
            self.separator.lemma_sound(rest, rs);
            if let Ok(mid) = rs {
                let re = choose|re: ParseResult<'a, P::Output>|
                    #[trigger] self.element.models(mid, re) && self.stop_elem(
                        v0,
                        items,
                        rest,
                        re,
                        r,
                    );
                self.element.lemma_sound(mid, re);
            }
        }
    }

    #[verifier::loop_isolation(false)]
    fn apply<'a>(&self, input: Input<'a>) -> (r: ParseResult<'a, Self::Output>)
    {
        let first = self.element.apply(input);
        match first {
            Err(e) => {
                proof {
                    assert(self.element.models(
                        input,
                        Err::<(P::Output, Input<'a>), RawEzpcError>(e),
                    ));
                }
                Err(e)
            },
            Ok((v0, i0)) => {
                let ghost gv0: P::Output = v0;
                let ghost gi0: Input<'a> = i0;
                proof {
                    self.element.lemma_sound(
                        input,
                        Ok::<(P::Output, Input<'a>), RawEzpcError>((v0, i0)),
                    );
                }
                let mut items: Vec<P::Output> = Vec::new();
                items.push(v0);
                let mut cur = i0;
                let ghost mut chain: Seq<P::Output> = Seq::empty();
                let ghost mut k: nat = 0;
                loop
                    invariant
                        self.wf(),
                        input.wf(),
                        gi0.wf(),
                        self.element.models(
                            input,
                            Ok::<(P::Output, Input<'a>), RawEzpcError>((gv0, gi0)),
                        ),
                        list_steps(&self.element, &self.separator, gi0, k, chain, cur),
                        super::rest_ok(gi0, cur),
                        items@ == seq![gv0] + chain,
                    decreases input.sbytes().len() - cur.pos,
                {
                    let rs = self.separator.apply(cur);
                    match rs {
                        Err(e) => {
                            match e {
                                RawEzpcError::Mismatch { .. } => {
                                    proof {
                                        let res = Ok::<
                                            (Vec<P::Output>, Input<'a>),
                                            RawEzpcError,
                                        >((items, cur));
                                        assert(self.stop_sep(
                                            gv0,
                                            chain,
                                            cur,
                                            Err::<Input<'a>, RawEzpcError>(e),
                                            res,
                                        ));
                                        lemma_list_stop_intro_sep_err(self, gv0, chain, cur, e, res);
                                        lemma_list_models_intro(
                                            self, input, gv0, gi0, k, chain, cur, res,
                                        );
                                    }
                                    return Ok((items, cur));
                                },
                                _ => {
                                    proof {
                                        let res = Err::<(Vec<P::Output>, Input<'a>), RawEzpcError>(
                                            e,
                                        );
                                        assert(self.stop_sep(
                                            gv0,
                                            chain,
                                            cur,
                                            Err::<Input<'a>, RawEzpcError>(e),
                                            res,
                                        ));
                                        lemma_list_stop_intro_sep_err(self, gv0, chain, cur, e, res);
                                        lemma_list_models_intro(
                                            self, input, gv0, gi0, k, chain, cur, res,
                                        );
                                    }
                                    return Err(e);
                                },
                            }
                        },
                        Ok(mid) => {
                            proof {
                                self.separator.lemma_sound(
                                    cur,
                                    Ok::<Input<'a>, RawEzpcError>(mid),
                                );
                            }
                            let re = self.element.apply(mid);
                            match re {
                                Ok((v, rest)) => {
                                    proof {
                                        self.element.lemma_sound(
                                            mid,
                                            Ok::<(P::Output, Input<'a>), RawEzpcError>((v, rest)),
                                        );
                                    }
                                    if rest.pos == cur.pos {
                                        let e2 = RawEzpcError::Fatal {
                                            message: "list makes no progress",
                                            pos: cur.pos,
                                        };
                                        proof {
                                            let res = Err::<
                                                (Vec<P::Output>, Input<'a>),
                                                RawEzpcError,
                                            >(e2);
                                            let re0 = Ok::<(P::Output, Input<'a>), RawEzpcError>(
                                                (v, rest),
                                            );
                                            assert(self.stop_elem(gv0, chain, cur, re0, res));
                                            lemma_list_stop_intro(
                                                self, gv0, chain, cur, mid, re0, res,
                                            );
                                            lemma_list_models_intro(
                                                self, input, gv0, gi0, k, chain, cur, res,
                                            );
                                        }
                                        return Err(e2);
                                    }
                                    proof {
                                        lemma_list_steps_snoc(
                                            &self.element,
                                            &self.separator,
                                            gi0,
                                            k,
                                            chain,
                                            cur,
                                            mid,
                                            v,
                                            rest,
                                        );
                                    }
                                    items.push(v);
                                    proof {
                                        chain = chain.push(v);
                                        k = k + 1;
                                        assert(items@ =~= seq![gv0] + chain);
                                    }
                                    cur = rest;
                                },
                                Err(e) => {
                                    match e {
                                        RawEzpcError::Mismatch { pos } => {
                                            let e2 = RawEzpcError::Fatal {
                                                message: self.item_mismatch_error_msg,
                                                pos,
                                            };
                                            proof {
                                                let res = Err::<
                                                    (Vec<P::Output>, Input<'a>),
                                                    RawEzpcError,
                                                >(e2);
                                                let re0 = Err::<
                                                    (P::Output, Input<'a>),
                                                    RawEzpcError,
                                                >(e);
                                                assert(self.stop_elem(gv0, chain, cur, re0, res));
                                                lemma_list_stop_intro(
                                                    self, gv0, chain, cur, mid, re0, res,
                                                );
                                                lemma_list_models_intro(
                                                    self, input, gv0, gi0, k, chain, cur, res,
                                                );
                                            }
                                            return Err(e2);
                                        },
                                        _ => {
                                            proof {
                                                let res = Err::<
                                                    (Vec<P::Output>, Input<'a>),
                                                    RawEzpcError,
                                                >(e);
                                                let re0 = Err::<
                                                    (P::Output, Input<'a>),
                                                    RawEzpcError,
                                                >(e);
                                                assert(self.stop_elem(gv0, chain, cur, re0, res));
                                                lemma_list_stop_intro(
                                                    self, gv0, chain, cur, mid, re0, res,
                                                );
                                                lemma_list_models_intro(
                                                    self, input, gv0, gi0, k, chain, cur, res,
                                                );
                                            }
                                            return Err(e);
                                        },
                                    }
                                },
                            }
                        },
                    }
                }
            },
        }
    }
}

} // verus!

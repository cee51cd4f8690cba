//! End-to-end grammars: the combinator algebra seen through `parse_all`
//! and `match_all`.

use ezpc::{eof, is_a, list, none_of, one_of, tag};
use ezpc::{EzpcError, Input, Match, Parse, RawEzpcError, WrapMatcher, WrapParser};
use ezpc::{MatchResult, ParseResult};

#[test]
fn tag_matches_prefix() {
    assert!(tag("ab").match_all("ab").is_ok());
    let err = tag("ab").match_all("ac").unwrap_err();
    assert!(matches!(err, EzpcError::PartialParse { .. }));
}

#[test]
fn tag_round_trip_consumes_exactly_the_tag() {
    // P6 on concrete values: tag(s) applied to s + t leaves exactly t.
    let m = tag("ab");
    let r = m.0.apply(Input::new("abcd"));
    match r {
        Ok(rest) => {
            assert_eq!(rest.pos, 2);
            assert_eq!(rest.as_str(), "cd");
        }
        Err(_) => panic!("tag must match its own text"),
    }
    let r2 = m.0.apply(Input::new("ba"));
    assert!(matches!(r2, Err(RawEzpcError::Mismatch { pos: 0 })));
}

#[test]
fn eof_only_at_end() {
    assert!(eof().match_all("").is_ok());
    assert!(eof().match_all("x").is_err());
}

#[test]
fn one_of_none_of_is_a() {
    assert!(one_of("abc").match_all("b").is_ok());
    assert!(one_of("abc").match_all("d").is_err());
    assert!(one_of("abc").match_all("").is_err());
    assert!(none_of("abc").match_all("d").is_ok());
    assert!(none_of("abc").match_all("a").is_err());
    assert!(none_of("abc").match_all("").is_err());
    assert!(is_a(|c: char| c.is_ascii_digit()).match_all("7").is_ok());
    assert!(is_a(|c: char| c.is_ascii_digit()).match_all("x").is_err());
}

#[test]
fn one_of_consumes_multibyte_characters() {
    let m = one_of("äö");
    let r = m.0.apply(Input::new("äx"));
    match r {
        Ok(rest) => assert_eq!(rest.pos, 2),
        Err(_) => panic!("ä is in the bag"),
    }
}

#[test]
fn ordered_choice_tries_second_on_mismatch() {
    // S3: tries "ab", gets a mismatch, then matches "ac".
    let p = tag("ab") | tag("ac");
    assert!(p.match_all("ac").is_ok());
    assert!(p.match_all("ab").is_ok());
    assert!(p.match_all("ad").is_err());
}

#[test]
fn choice_does_not_swallow_fatal() {
    // P3 on concrete values: a committed failure of the first alternative
    // aborts the choice even though the second would match.
    let p = tag("a").fatal("boom") | tag("b");
    let err = p.match_all("b").unwrap_err();
    match err {
        EzpcError::Fatal { expected, .. } => assert_eq!(expected, "boom"),
        other => panic!("expected the committed failure, got {:?}", other),
    }
}

#[test]
fn opt_swallows_mismatch_only() {
    assert!(tag("a").opt().match_all("a").is_ok());
    assert!(tag("a").opt().match_all("").is_ok());
    // P3: a fatal inside opt propagates.
    let p = tag("a").fatal("need a").opt();
    assert!(matches!(
        p.match_all("b").unwrap_err(),
        EzpcError::Fatal { expected: "need a", .. }
    ));
}

#[test]
fn repeat_is_greedy_within_bounds() {
    // P4 on concrete values: the number of iterations stays in the range.
    let p = one_of("ab").repeat(2..=3);
    assert!(p.match_all("ab").is_ok());
    assert!(p.match_all("aba").is_ok());
    // One item is too few: a mismatch after the last success.
    assert!(matches!(
        p.match_all("a").unwrap_err(),
        EzpcError::PartialParse { .. }
    ));
    // Four items are too many for the greedy bound of three: one is left.
    assert!(matches!(
        p.match_all("abab").unwrap_err(),
        EzpcError::PartialParse { .. }
    ));
}

#[test]
fn repeat_range_kinds() {
    // Exactly n.
    assert!(one_of("x").repeat(2).match_all("xx").is_ok());
    assert!(one_of("x").repeat(2).match_all("x").is_err());
    // Half-open a..b includes b - 1 and excludes b.
    assert!(one_of("x").repeat(0..2).match_all("x").is_ok());
    assert!(one_of("x").repeat(0..2).match_all("xx").is_err());
    // Unbounded a.. .
    assert!(one_of("x").repeat(1..).match_all("xxxxxx").is_ok());
    assert!(one_of("x").repeat(1..).match_all("").is_err());
}

#[test]
fn repeat_zero_max_succeeds_consuming_nothing() {
    let m = tag("a").repeat(0usize);
    let r = m.0.apply(Input::new("aaa"));
    match r {
        Ok(rest) => assert_eq!(rest.pos, 0),
        Err(_) => panic!("a zero-bound repeat always succeeds"),
    }
}

#[test]
fn repeat_zero_width_body_stops_at_max() {
    let m = tag("").repeat(3usize);
    let r = m.0.apply(Input::new("ab"));
    match r {
        Ok(rest) => assert_eq!(rest.pos, 0),
        Err(_) => panic!("a zero-width body still meets the bound"),
    }
}

#[test]
fn repeat_collects_values() {
    let p = one_of("ab").val(1u32).repeat(1..);
    assert_eq!(p.parse_all("aba").unwrap(), vec![1, 1, 1]);
}

#[test]
fn val_replaces_the_value() {
    assert_eq!(tag("true").val(1u8).parse_all("true").unwrap(), 1);
    let p = tag("n").val(0u8).val(7u8);
    assert_eq!(p.parse_all("n").unwrap(), 7);
}

#[test]
fn map_receives_exactly_the_consumed_span() {
    // P8 on concrete values: the callback sees the consumed bytes.
    let p = one_of("abc").repeat(1..).map(|s: &str| s.to_string());
    assert_eq!(p.parse_all("cab").unwrap(), "cab");
    let q = (tag("x") + one_of("abc").repeat(1..).map(|s: &str| s.to_string())).map(|v| v);
    assert_eq!(q.parse_all("xab").unwrap(), "ab");
}

#[test]
fn map_and_val_do_not_introduce_mismatch() {
    // P5 on concrete values: where the matcher succeeds, map and val do too.
    let m = one_of("abc");
    assert!(m.map(|s: &str| s.len()).parse_all("a").is_ok());
    let m2 = one_of("abc");
    assert!(m2.val(0u8).parse_all("a").is_ok());
    // Where the matcher mismatches, so does the transformed parser, at the
    // same position.
    let m3 = one_of("abc").map(|s: &str| s.len());
    let r = m3.0.apply(Input::new("z"));
    assert!(matches!(r, Err(RawEzpcError::Mismatch { pos: 0 })));
}

#[test]
fn map_value_transformation() {
    let p = one_of("0123456789").repeat(1..).map(|s: &str| s.len()).map(|n| n * 2);
    assert_eq!(p.parse_all("123").unwrap(), 6);
}

#[test]
fn convert_ok_and_fatal_position() {
    let p = one_of("0123456789").repeat(1..).convert(|s: &str| s.parse::<u32>(), "bad number");
    assert_eq!(p.parse_all("42").unwrap(), 42);
    // 999 does not fit in a u8: the conversion fails with a committed
    // failure at the end of the consumed span.
    let q = one_of("0123456789").repeat(1..).convert(|s: &str| s.parse::<u8>(), "too large");
    match q.parse_all("999").unwrap_err() {
        EzpcError::Fatal { expected, pos } => {
            assert_eq!(expected, "too large");
            assert_eq!(pos.column, 4);
        }
        other => panic!("expected the conversion failure, got {:?}", other),
    }
}

#[test]
fn convert_on_parser_value() {
    let p = one_of("0123456789")
        .repeat(1..)
        .map(|s: &str| s.to_string())
        .convert(|s: String| s.parse::<u16>(), "overflow");
    assert_eq!(p.parse_all("777").unwrap(), 777);
}

#[test]
fn sequence_value_shapes() {
    // Parser + Parser gives the pair of values.
    let pp = one_of("1").val(1u8) + one_of("2").val(2u8);
    assert_eq!(pp.parse_all("12").unwrap(), (1, 2));
    // Parser + Matcher and Matcher + Parser keep the one value.
    let pm = one_of("1").val(1u8) + tag(";");
    assert_eq!(pm.parse_all("1;").unwrap(), 1);
    let mp = tag(";") + one_of("1").val(1u8);
    assert_eq!(mp.parse_all(";1").unwrap(), 1);
    // Matcher + Matcher stays a matcher.
    assert!((tag("a") + tag("b")).match_all("ab").is_ok());
}

#[test]
fn fatal_commits_a_branch() {
    // S4: once past the opening bracket the expression is owed.
    let expr = one_of("0123456789");
    let p = tag("[") + expr.fatal("expected expression") + tag("]");
    match p.match_all("[]").unwrap_err() {
        EzpcError::Fatal { expected, pos } => {
            assert_eq!(expected, "expected expression");
            assert_eq!(pos.line, 1);
            assert_eq!(pos.column, 2);
        }
        other => panic!("expected the committed failure, got {:?}", other),
    }
    assert!(p.match_all("[7]").is_ok());
}

#[test]
fn reject_is_zero_width_negative_lookahead() {
    // S1, the leading-zero rule: after a zero no digit may follow.
    let number = tag("0") + one_of("0123456789").reject("leading zero");
    match number.match_all("00").unwrap_err() {
        EzpcError::Fatal { expected, pos } => {
            assert_eq!(expected, "leading zero");
            assert_eq!(pos.column, 2);
        }
        other => panic!("expected the committed failure, got {:?}", other),
    }
    assert!(number.match_all("0").is_ok());
}

fn number() -> ezpc::Parser<impl Parse<Output = f64>> {
    let int_part = tag("0") | (one_of("123456789") + one_of("0123456789").repeat(0..));
    let frac = (tag(".") + one_of("0123456789").repeat(1..)).opt();
    (tag("-").opt() + int_part + frac).map(|s: &str| s.parse::<f64>().unwrap())
}

#[test]
fn number_scenario_parses_a_float() {
    // S1: the full number grammar.
    assert_eq!(number().parse_all("-12.94").unwrap(), -12.94);
    assert_eq!(number().parse_all("0").unwrap(), 0.0);
}

#[test]
fn number_scenario_partial_parse() {
    // S1: without an exponent branch, parsing stops after the first digit.
    match number().parse_all("1E2").unwrap_err() {
        EzpcError::PartialParse { pos } => {
            assert_eq!(pos.line, 1);
            assert_eq!(pos.column, 2);
        }
        other => panic!("expected a partial parse, got {:?}", other),
    }
}

fn member() -> ezpc::Matcher<impl Match> {
    tag("\"") + none_of("\"").repeat(0..) + tag("\"") + tag(":") + one_of("0123456789").repeat(1..)
}

#[test]
fn list_scenario_single_member() {
    // S2: a JSON-like object with one member.
    let obj = tag("{") + list(member().val(()), tag(","), "expected member")
        + tag("}").fatal("unclosed object");
    assert_eq!(obj.parse_all("{\"a\":1}").unwrap().len(), 1);
    assert_eq!(obj.parse_all("{\"a\":1,\"b\":2}").unwrap().len(), 2);
}

#[test]
fn list_scenario_separator_commits() {
    // S2: a separator owes another member.
    let obj = tag("{") + list(member().val(()), tag(","), "expected member")
        + tag("}").fatal("unclosed object");
    match obj.parse_all("{\"a\":1,}").unwrap_err() {
        EzpcError::Fatal { expected, pos } => {
            assert_eq!(expected, "expected member");
            assert_eq!(pos.column, 8);
        }
        other => panic!("expected the committed failure, got {:?}", other),
    }
}

#[test]
fn list_scenario_unclosed_object() {
    // S2: the missing closing brace is a committed failure.
    let obj = tag("{") + list(member().val(()), tag(","), "expected member")
        + tag("}").fatal("unclosed object");
    match obj.parse_all("{\"a\":1").unwrap_err() {
        EzpcError::Fatal { expected, pos } => {
            assert_eq!(expected, "unclosed object");
            assert_eq!(pos.column, 7);
        }
        other => panic!("expected the committed failure, got {:?}", other),
    }
}

#[test]
fn list_rejects_a_round_without_progress() {
    // A separator and element that both consume nothing can never end:
    // such a round is a committed failure at its own position.
    let p = list(tag("").val(()), tag(""), "expected item");
    match p.parse_all("").unwrap_err() {
        EzpcError::Fatal { expected, pos } => {
            assert_eq!(expected, "list makes no progress");
            assert_eq!(pos.column, 1);
        }
        other => panic!("expected the committed failure, got {:?}", other),
    }
}

#[test]
fn list_stall_after_progress_is_committed() {
    // Rounds that consume input are fine; the first round that consumes
    // nothing is the committed failure, at the offset it stalled.
    let p = list(one_of("ab").repeat(0..2).val(()), tag(""), "expected item");
    match p.parse_all("ab").unwrap_err() {
        EzpcError::Fatal { expected, pos } => {
            assert_eq!(expected, "list makes no progress");
            assert_eq!(pos.column, 3);
        }
        other => panic!("expected the committed failure, got {:?}", other),
    }
}

#[test]
fn list_forwards_a_first_element_mismatch() {
    let p = list(one_of("123").val(()), tag(","), "expected item");
    let r = p.0.apply(Input::new("x"));
    assert!(matches!(r, Err(RawEzpcError::Mismatch { pos: 0 })));
}

fn value_eval(input: Input<'_>) -> MatchResult<'_> {
    let value = value_eval.wrap(3, "value");
    let array = tag("[") + value + tag("]");
    let p = array | one_of("0123456789");
    p.0.apply(input)
}

#[test]
fn wrap_scenario_within_depth() {
    // S5: three nested arrays stay within a depth bound of three.
    let value = value_eval.wrap(3, "value");
    assert!(value.match_all("[[[1]]]").is_ok());
    assert!(value.match_all("7").is_ok());
}

#[test]
fn wrap_scenario_exceeds_depth() {
    // S5: four nested arrays trip the recursion guard.
    let value = value_eval.wrap(3, "value");
    match value.match_all("[[[[1]]]]").unwrap_err() {
        EzpcError::Recursion { max_depth, parser_name, pos } => {
            assert_eq!(max_depth, 3);
            assert_eq!(parser_name, "value");
            assert_eq!(pos.column, 5);
        }
        other => panic!("expected the recursion guard, got {:?}", other),
    }
}

fn depth_eval(input: Input<'_>) -> ParseResult<'_, u32> {
    let nested = depth_eval.wrap(8, "depth");
    let deeper = (tag("(") + nested + tag(")")).map(|n| n + 1);
    let leaf = tag("o").val(0u32);
    let p = deeper | leaf;
    p.0.apply(input)
}

#[test]
fn wrap_parser_produces_values() {
    let p = depth_eval.wrap(8, "depth");
    assert_eq!(p.parse_all("(((o)))").unwrap(), 3);
    assert_eq!(p.parse_all("o").unwrap(), 0);
}

#[test]
fn partial_parse_reports_the_leftover() {
    let err = tag("ab").match_all("abc").unwrap_err();
    match err {
        EzpcError::PartialParse { pos } => {
            assert_eq!(pos.line, 1);
            assert_eq!(pos.column, 3);
        }
        other => panic!("expected a partial parse, got {:?}", other),
    }
}

#[test]
fn alternative_locality_concrete() {
    // P2 on concrete values: where the first alternative succeeds, the
    // choice returns its result; where it mismatches, the second runs at
    // the original position.
    let p = tag("ab") | tag("a");
    let r = p.0.apply(Input::new("abx"));
    match r {
        Ok(rest) => assert_eq!(rest.pos, 2),
        Err(_) => panic!("the first alternative matches"),
    }
    let q = tag("zz") | tag("a");
    let r2 = q.0.apply(Input::new("abx"));
    match r2 {
        Ok(rest) => assert_eq!(rest.pos, 1),
        Err(_) => panic!("the second alternative matches"),
    }
}

#[test]
fn prefix_non_retreat_concrete() {
    // P1 on concrete values: the remainder is a suffix of the input.
    let p = one_of("abc").repeat(1..);
    let r = p.0.apply(Input::new("abcab!"));
    match r {
        Ok(rest) => {
            assert_eq!(rest.pos, 5);
            assert_eq!(rest.as_str(), "!");
        }
        Err(_) => panic!("at least one item matches"),
    }
}

use syslog_sd::element::StructuredElement;
use syslog_sd::parser::param;
use syslog_sd::parser::param_value;
use syslog_sd::parser::parse_lenient;
use syslog_sd::parser::parse_strict;
use syslog_sd::parser::ParseFailure;

fn cv(s: &str) -> Vec<char> {
    s.chars().collect()
}

fn elem(id: &str, params: &[(&str, &str)]) -> StructuredElement {
    StructuredElement {
        id: cv(id),
        params: params.iter().map(|(n, v)| (cv(n), cv(v))).collect(),
    }
}

#[test]
fn nilvalue_yields_empty_list_both_profiles() {
    assert_eq!(parse_lenient(&cv("-")).unwrap(), (cv(""), vec![]));
    assert_eq!(parse_strict(&cv("-")).unwrap(), (cv(""), vec![]));
}

#[test]
fn nilvalue_consumes_one_character() {
    assert_eq!(parse_lenient(&cv("-abc")).unwrap(), (cv("abc"), vec![]));
}

#[test]
fn back_to_back_elements_in_source_order() {
    assert_eq!(
        parse_lenient(&cv(r#"[a k="1"][b k="2"]"#)).unwrap(),
        (
            cv(""),
            vec![elem("a", &[("k", "1")]), elem("b", &[("k", "2")])]
        )
    );
}

#[test]
fn render_reproduces_canonical_input() {
    let input = cv(r#"[id aa="x\]y" bb=""]"#);
    let (rest, elements) = parse_lenient(&input).unwrap();
    assert_eq!(rest, cv(""));
    assert_eq!(elements.len(), 1);
    assert_eq!(elements[0].render(), input);
}

#[test]
fn render_of_bare_element() {
    let input = cv("[WAN_LOCAL-default-D]");
    let (_, elements) = parse_lenient(&input).unwrap();
    assert_eq!(elements[0].render(), input);
}

#[test]
fn decoded_params_repeat_identically() {
    let (_, elements) = parse_lenient(&cv(r#"[id aa="one\ntwo" bb="q\"q"]"#)).unwrap();
    let first = elements[0].decoded_params();
    let second = elements[0].decoded_params();
    assert_eq!(first, second);

    let mut it = elements[0].params();
    let mut walked = Vec::new();
    while let Some(p) = it.next() {
        walked.push(p);
    }
    assert_eq!(walked, first);
    assert_eq!(
        first,
        vec![(cv("aa"), cv("one\ntwo")), (cv("bb"), cv("q\"q"))]
    );
}

#[test]
fn equality_ignores_parameter_order() {
    let a = elem("id", &[("a", "1"), ("b", "2")]);
    let b = elem("id", &[("b", "2"), ("a", "1")]);
    assert_eq!(a, b);
    assert_eq!(b, a);
}

#[test]
fn equality_requires_same_id() {
    let a = elem("one", &[("a", "1")]);
    let b = elem("two", &[("a", "1")]);
    assert_ne!(a, b);
}

#[test]
fn equality_counts_repeated_pairs() {
    let once = elem("id", &[("a", "1")]);
    let twice = elem("id", &[("a", "1"), ("a", "1")]);
    assert_ne!(once, twice);
    assert_ne!(twice, once);

    let swapped = elem("id", &[("a", "1"), ("b", "2"), ("a", "1")]);
    let same_counts = elem("id", &[("b", "2"), ("a", "1"), ("a", "1")]);
    assert_eq!(swapped, same_counts);
}

#[test]
fn strict_profile_reports_failure() {
    assert_eq!(parse_strict(&cv("[abc] message")), Err(ParseFailure));
    assert_eq!(parse_lenient(&cv("no brackets here")), Err(ParseFailure));
    assert_eq!(parse_strict(&cv("[id unterminated=\"oops]")), Err(ParseFailure));
}

#[test]
fn remainder_is_returned() {
    assert_eq!(
        parse_strict(&cv(r#"[a b="c"] tail"#)).unwrap(),
        (cv(" tail"), vec![elem("a", &[("b", "c")])])
    );
}

#[test]
fn lenient_profile_accepts_bare_bracket() {
    assert_eq!(
        parse_lenient(&cv("[WAN_LOCAL-default-D]")).unwrap(),
        (cv(""), vec![elem("WAN_LOCAL-default-D", &[])])
    );
}

#[test]
fn trailing_lone_backslash_is_dropped_when_decoding() {
    let e = StructuredElement {
        id: cv("x"),
        params: vec![(cv("k"), cv("abc\\"))],
    };
    assert_eq!(e.decoded_params(), vec![(cv("k"), cv("abc"))]);
}

#[test]
fn to_owned_is_a_deep_equal_copy() {
    let (_, elements) = parse_lenient(&cv(r#"[id aa="1" bb="2"]"#)).unwrap();
    let copy = elements[0].to_owned();
    assert_eq!(copy, elements[0]);
    assert_eq!(copy.id, elements[0].id);
    assert_eq!(copy.params, elements[0].params);
    drop(elements);
    assert_eq!(copy.render(), cv(r#"[id aa="1" bb="2"]"#));
}

#[test]
fn value_must_start_with_quote() {
    assert!(param_value(&cv("noquote")).is_none());
    assert!(param_value(&cv("")).is_none());
}

#[test]
fn name_may_contain_spaces() {
    assert_eq!(
        parse_lenient(&cv(r#"[id a b="c"]"#)).unwrap(),
        (cv(""), vec![elem("id", &[("a b", "c")])])
    );
}

#[test]
fn tab_is_accepted_as_padding() {
    assert_eq!(
        parse_strict(&cv("[id\tk=\t\"v\"]")).unwrap(),
        (cv(""), vec![elem("id", &[("k", "v")])])
    );
}

#[test]
fn empty_input_fails_both_profiles() {
    assert!(parse_lenient(&cv("")).is_err());
    assert!(parse_strict(&cv("")).is_err());
}

#[test]
fn padding_after_id_is_consumed() {
    assert_eq!(
        parse_lenient(&cv("[id ]")).unwrap(),
        (cv(""), vec![elem("id", &[])])
    );
    assert!(parse_strict(&cv("[id ]")).is_err());
}

#[test]
fn param_returns_pair_and_remainder() {
    let (rest, pair) = param(&cv(r#"key= "value" tail"#)).unwrap();
    assert_eq!(rest, cv(" tail"));
    assert_eq!(pair, (cv("key"), cv("value")));
    assert!(param(&cv(r#"=nothing"#)).is_none());
    assert!(param(&cv(r#"key="unterminated"#)).is_none());
}

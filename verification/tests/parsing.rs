use syslog_sd::element::StructuredElement;
use syslog_sd::parser::param_value;
use syslog_sd::parser::parse_lenient;
use syslog_sd::parser::parse_strict;
use syslog_sd::parser::StructuredDatumParser;

fn cv(s: &str) -> Vec<char> {
    s.chars().collect()
}

fn elem(id: &str, params: &[(&str, &str)]) -> StructuredElement {
    StructuredElement {
        id: cv(id),
        params: params.iter().map(|(n, v)| (cv(n), cv(v))).collect(),
    }
}

#[test]
fn parse_param_value() {
    assert_eq!(
        param_value(&cv("\"Some \\\"lovely\\\" string\"")).unwrap(),
        (cv(""), cv("Some \\\"lovely\\\" string"))
    );
}

#[test]
fn parse_empty_param_value() {
    assert_eq!(param_value(&cv(r#""""#)).unwrap(), (cv(""), cv("")));
}

#[test]
fn parse_structured_data() {
    assert_eq!(
        StructuredDatumParser {
            allow_empty: false,
            allow_failure: true,
        }
        .parse(&cv(
            "[exampleSDID@32473 iut=\"3\" eventSource=\"Application\" eventID=\"1011\"]"
        ))
        .unwrap(),
        (
            cv(""),
            Some(elem(
                "exampleSDID@32473",
                &[
                    ("iut", "3"),
                    ("eventSource", "Application"),
                    ("eventID", "1011"),
                ]
            ))
        )
    );
}

#[test]
fn parse_structured_data_no_values() {
    assert_eq!(
        StructuredDatumParser {
            allow_failure: false,
            allow_empty: true,
        }
        .parse(&cv("[exampleSDID@32473]"))
        .unwrap(),
        (cv(""), Some(elem("exampleSDID@32473", &[])))
    );
}

#[test]
fn parse_structured_data_with_space() {
    assert_eq!(
        StructuredDatumParser {
            allow_empty: false,
            allow_failure: true,
        }
        .parse(&cv(
            "[exampleSDID@32473 iut=\"3\" eventSource= \"Application\" eventID=\"1011\"]"
        ))
        .unwrap(),
        (
            cv(""),
            Some(elem(
                "exampleSDID@32473",
                &[
                    ("iut", "3"),
                    ("eventSource", "Application"),
                    ("eventID", "1011"),
                ]
            ))
        )
    );
}

#[test]
fn parse_invalid_structured_data() {
    assert_eq!(
        StructuredDatumParser {
            allow_empty: true,
            allow_failure: true,
        }
        .parse(&cv("[exampleSDID@32473 iut=]")),
        Ok((cv(""), None))
    );
}

#[test]
fn parse_multiple_structured_data() {
    assert_eq!(
        parse_lenient(&cv(
            "[exampleSDID@32473 iut=\"3\" eventSource= \"Application\" eventID=\"1011\"][sproink onk=\"ponk\" zork=\"shnork\"]"
        ))
        .unwrap(),
        (
            cv(""),
            vec![
                elem(
                    "exampleSDID@32473",
                    &[
                        ("iut", "3"),
                        ("eventSource", "Application"),
                        ("eventID", "1011"),
                    ]
                ),
                elem("sproink", &[("onk", "ponk"), ("zork", "shnork")]),
            ]
        )
    );
}

#[test]
fn parse_structured_data_dont_keep_empty_elements() {
    assert!(parse_strict(&cv("[abc] message")).is_err())
}

#[test]
fn parse_structured_data_ignores_invalid_elements() {
    assert_eq!(
        parse_lenient(&cv("[abc][id aa=]")).unwrap(),
        (cv(""), vec![elem("abc", &[])])
    )
}

#[test]
fn parse_multiple_structured_data_first_item_id_only() {
    assert_eq!(
        parse_lenient(&cv("[abc][id aa=\"bb\"]")).unwrap(),
        (cv(""), vec![elem("abc", &[]), elem("id", &[("aa", "bb")])])
    )
}

#[test]
fn params_remove_escapes() {
    let data = parse_lenient(&cv(
        r#"[id aa="hullo \"there\"" bb="let's \\\\do this\\\\" cc="hello [bye\]" dd="hello\nbye" ee="not \esc\aped"]"#,
    ))
    .unwrap();
    let mut it = data.1[0].params();
    let mut params = Vec::new();
    while let Some(p) = it.next() {
        params.push(p);
    }

    assert_eq!(
        params,
        vec![
            (cv("aa"), cv(r#"hullo "there""#)),
            (cv("bb"), cv(r#"let's \\do this\\"#)),
            (cv("cc"), cv(r#"hello [bye]"#)),
            (
                cv("dd"),
                cv(r#"hello
bye"#)
            ),
            (cv("ee"), cv(r#"not \esc\aped"#)),
        ]
    );
}

#[test]
fn sd_param_escapes() {
    let (_, value) = param_value(&cv(r#""Here are some escaped characters -> \"\\\]""#)).unwrap();
    assert_eq!(cv(r#"Here are some escaped characters -> \"\\\]"#), value);

    let (_, value) = param_value(&cv(r#""These should not be escaped -> \n\m\o""#)).unwrap();
    assert_eq!(cv(r#"These should not be escaped -> \n\m\o"#), value);
}

#[test]
fn parse_empty_structured_data() {
    assert_eq!(
        StructuredDatumParser {
            allow_failure: true,
            allow_empty: true,
        }
        .parse(&cv("[WAN_LOCAL-default-D]")),
        Ok((cv(""), Some(elem("WAN_LOCAL-default-D", &[]))))
    );

    assert!(StructuredDatumParser {
        allow_failure: true,
        allow_empty: false,
    }
    .parse(&cv("[WAN_LOCAL-default-D]"))
    .is_err());
}

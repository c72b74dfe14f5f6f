use tiny_browserbook::css::parser::{
    declaration, declarations, rule, rules, selectors, simple_selector, GrammarError,
    GrammarErrorKind,
};
use tiny_browserbook::css::{
    parse, AttributeSelectorOp, CSSValue, Declaration, Rule, SimpleSelector, Stylesheet,
};
use tiny_browserbook::dom::{AttrMap, Element, Node, Text};

fn attribute_selector(tag: &str, op: AttributeSelectorOp, attribute: &str, value: &str) -> SimpleSelector {
    SimpleSelector::AttributeSelector {
        tag_name: tag.to_string(),
        op,
        attribute: attribute.to_string(),
        value: value.to_string(),
    }
}

fn keyword(name: &str, value: &str) -> Declaration {
    Declaration { name: name.to_string(), value: CSSValue::Keyword(value.to_string()) }
}

fn sample_element() -> Box<Node> {
    let mut attributes = AttrMap::new();
    attributes.insert("id".to_string(), "test".to_string());
    attributes.insert("class".to_string(), "testclass".to_string());
    Element::new("p".to_string(), attributes, vec![])
}

fn syntax_at(position: usize) -> GrammarError {
    GrammarError { kind: GrammarErrorKind::Syntax, position }
}

#[test]
fn test_rules() {
    assert_eq!(
        rules("test [foo=bar] { aa: bb; cc: dd; } rule { ee: dd; }"),
        Ok((
            vec![
                Rule {
                    selectors: vec![SimpleSelector::AttributeSelector {
                        tag_name: "test".to_string(),
                        op: AttributeSelectorOp::Eq,
                        attribute: "foo".to_string(),
                        value: "bar".to_string()
                    }],
                    declarations: vec![
                        Declaration {
                            name: "aa".to_string(),
                            value: CSSValue::Keyword("bb".to_string())
                        },
                        Declaration {
                            name: "cc".to_string(),
                            value: CSSValue::Keyword("dd".to_string())
                        }
                    ]
                },
                Rule {
                    selectors: vec![SimpleSelector::TypeSelector {
                        tag_name: "rule".to_string()
                    }],
                    declarations: vec![Declaration {
                        name: "ee".to_string(),
                        value: CSSValue::Keyword("dd".to_string())
                    }]
                }
            ],
            ""
        ))
    );
}

#[test]
fn test_rule() {
    assert_eq!(
        rule("test [foo=bar] {}"),
        Ok((
            Rule {
                selectors: vec![SimpleSelector::AttributeSelector {
                    tag_name: "test".to_string(),
                    attribute: "foo".to_string(),
                    op: AttributeSelectorOp::Eq,
                    value: "bar".to_string()
                }],
                declarations: vec![]
            },
            ""
        ))
    );
}

#[test]
fn test_rule_multiple() {
    assert_eq!(
        rule("test [foo=bar], testtest[piyo~=guoo] {}"),
        Ok((
            Rule {
                selectors: vec![
                    SimpleSelector::AttributeSelector {
                        tag_name: "test".to_string(),
                        attribute: "foo".to_string(),
                        op: AttributeSelectorOp::Eq,
                        value: "bar".to_string()
                    },
                    SimpleSelector::AttributeSelector {
                        tag_name: "testtest".to_string(),
                        attribute: "piyo".to_string(),
                        op: AttributeSelectorOp::Contain,
                        value: "guoo".to_string()
                    }
                ],
                declarations: vec![]
            },
            ""
        ))
    );
}

#[test]
fn test_rule_value() {
    assert_eq!(
        rule("test [foo=bar] { aa: bb; cc: dd; }"),
        Ok((
            Rule {
                selectors: vec![SimpleSelector::AttributeSelector {
                    tag_name: "test".to_string(),
                    attribute: "foo".to_string(),
                    op: AttributeSelectorOp::Eq,
                    value: "bar".to_string()
                }],
                declarations: vec![
                    Declaration {
                        name: "aa".to_string(),
                        value: CSSValue::Keyword("bb".to_string())
                    },
                    Declaration {
                        name: "cc".to_string(),
                        value: CSSValue::Keyword("dd".to_string()),
                    }
                ]
            },
            ""
        ))
    );
}

#[test]
fn test_selectors() {
    assert_eq!(
        selectors("test [foo=bar], a"),
        Ok((
            vec![
                SimpleSelector::AttributeSelector {
                    tag_name: "test".to_string(),
                    attribute: "foo".to_string(),
                    op: AttributeSelectorOp::Eq,
                    value: "bar".to_string()
                },
                SimpleSelector::TypeSelector {
                    tag_name: "a".to_string(),
                }
            ],
            ""
        ))
    );
}

#[test]
fn test_simple_selector_universal() {
    assert_eq!(
        simple_selector("*"),
        Ok((SimpleSelector::UniversalSelector, ""))
    );
}

#[test]
fn test_simple_selector_type() {
    assert_eq!(
        simple_selector("test"),
        Ok((
            SimpleSelector::TypeSelector {
                tag_name: "test".to_string(),
            },
            ""
        ))
    );
}

#[test]
fn test_simple_selector_attribute() {
    assert_eq!(
        simple_selector("test [foo=bar]"),
        Ok((
            SimpleSelector::AttributeSelector {
                tag_name: "test".to_string(),
                attribute: "foo".to_string(),
                op: AttributeSelectorOp::Eq,
                value: "bar".to_string()
            },
            ""
        ))
    );
}

#[test]
fn test_simple_selector_class() {
    assert_eq!(
        simple_selector(".test"),
        Ok((
            SimpleSelector::ClassSelector {
                class_name: "test".to_string(),
            },
            ""
        ))
    );
}

#[test]
fn test_declarations() {
    assert_eq!(
        declarations("foo: bar; piyo: piyopiyo;"),
        Ok((
            vec![
                Declaration {
                    name: "foo".to_string(),
                    value: CSSValue::Keyword("bar".to_string())
                },
                Declaration {
                    name: "piyo".to_string(),
                    value: CSSValue::Keyword("piyopiyo".to_string())
                }
            ],
            ""
        ))
    );
}

#[test]
fn test_universal_selector_behaviour() {
    let e = &sample_element();
    assert_eq!(SimpleSelector::UniversalSelector.matches(e), true);
}

#[test]
fn test_universal_selector_behaviour_with_tag() {
    let e = &sample_element();
    assert_eq!(
        (SimpleSelector::TypeSelector {
            tag_name: "p".into()
        })
        .matches(e),
        true
    );
    assert_eq!(
        (SimpleSelector::TypeSelector {
            tag_name: "invalid".into(),
        })
        .matches(e),
        false
    );
}

#[test]
fn test_attribute_selector_behaviour() {
    let e = &sample_element();

    assert_eq!(
        (SimpleSelector::AttributeSelector {
            tag_name: "p".into(),
            attribute: "id".into(),
            value: "test".into(),
            op: AttributeSelectorOp::Eq,
        })
        .matches(e),
        true
    );
}

#[test]
fn parse_reads_one_rule() {
    assert_eq!(
        parse("p { display: block; }"),
        Ok(Stylesheet::new(vec![Rule {
            selectors: vec![SimpleSelector::TypeSelector { tag_name: "p".to_string() }],
            declarations: vec![keyword("display", "block")],
        }]))
    );
}

#[test]
fn parse_reads_the_documented_example() {
    let css = "\ntest [foo=bar] {\n  aa: bb;\n  cc: dd;\n}\nrule {\n  ee: dd;\n}\n";
    let sheet = parse(css).unwrap();
    assert_eq!(sheet.rules.len(), 2);
    assert_eq!(sheet.rules[1].declarations, vec![keyword("ee", "dd")]);
}

#[test]
fn parse_ignores_white_space_around_rules() {
    assert_eq!(parse(""), Ok(Stylesheet::new(vec![])));
    assert_eq!(parse(" \n\t "), Ok(Stylesheet::new(vec![])));
    let sheet = parse("\n  * {}\n\n  a{b:c}\n").unwrap();
    assert_eq!(sheet.rules.len(), 2);
    assert_eq!(sheet.rules[0].selectors, vec![SimpleSelector::UniversalSelector]);
    assert_eq!(sheet.rules[1].declarations, vec![keyword("b", "c")]);
}

#[test]
fn parse_rejects_what_is_left_after_the_rules() {
    assert_eq!(parse("p {} 123"), Err(syntax_at(5)));
    assert_eq!(parse("p { display: block; } }"), Err(syntax_at(22)));
    assert_eq!(rules("p {} 123").map(|(found, rest)| (found.len(), rest)), Ok((1, "123")));
}

#[test]
fn parse_rejects_broken_rules_where_they_break() {
    assert_eq!(parse("p { display block }"), Err(syntax_at(12)));
    assert_eq!(parse("p { display: }"), Err(syntax_at(13)));
    assert_eq!(parse("p { display: block"), Err(syntax_at(18)));
    assert_eq!(parse("p display: block; }"), Err(syntax_at(2)));
    assert_eq!(parse("p, { a: b }"), Err(syntax_at(3)));
    assert_eq!(parse(". { a: b }"), Err(syntax_at(1)));
    assert_eq!(parse("p { a: b;; }"), Err(syntax_at(9)));
    assert_eq!(parse("{ a: b }"), Err(syntax_at(0)));
    assert_eq!(parse("a1 {}"), Err(syntax_at(1)));
}

#[test]
fn invalid_attribute_operator_is_told_apart() {
    let expected = GrammarError { kind: GrammarErrorKind::InvalidAttributeSelectorOp, position: 6 };
    assert_eq!(parse("a [foo^=bar] {}"), Err(expected));
    assert_eq!(simple_selector("a [foo^=bar]"), Err(expected));
    assert_eq!(expected.message(), "invalid attribute selector op");
    assert_eq!(simple_selector("a [foo~bar]").unwrap_err().kind, GrammarErrorKind::InvalidAttributeSelectorOp);
    assert_eq!(syntax_at(0).message(), "unexpected input");
}

#[test]
fn attribute_selector_failures() {
    assert_eq!(simple_selector("a [=bar]"), Err(syntax_at(3)));
    assert_eq!(simple_selector("a [foo=]"), Err(syntax_at(7)));
    assert_eq!(simple_selector("a [foo=bar"), Err(syntax_at(10)));
    assert_eq!(simple_selector("a [foo=bar x]"), Err(syntax_at(10)));
    assert_eq!(
        simple_selector("a[ foo~=bar]x"),
        Ok((attribute_selector("a", AttributeSelectorOp::Contain, "foo", "bar"), "x"))
    );
}

#[test]
fn selectors_hand_back_the_rest() {
    assert_eq!(simple_selector("*x"), Ok((SimpleSelector::UniversalSelector, "x")));
    assert_eq!(
        simple_selector("div  {"),
        Ok((SimpleSelector::TypeSelector { tag_name: "div".to_string() }, "{"))
    );
    assert_eq!(simple_selector(""), Err(syntax_at(0)));
    assert_eq!(simple_selector("{"), Err(syntax_at(0)));
    assert_eq!(
        selectors("a , .b,* {").map(|(found, rest)| (found.len(), rest)),
        Ok((3, "{"))
    );
    assert_eq!(selectors("a, "), Err(syntax_at(3)));
}

#[test]
fn declarations_may_end_without_a_separator() {
    assert_eq!(
        declarations("foo: bar; piyo : piyopiyo }"),
        Ok((vec![keyword("foo", "bar"), keyword("piyo", "piyopiyo")], "}"))
    );
    assert_eq!(declarations("}"), Ok((vec![], "}")));
    assert_eq!(declarations(""), Ok((vec![], "")));
    assert_eq!(declaration("a:b;"), Ok((keyword("a", "b"), ";")));
    assert_eq!(declaration(": b"), Err(syntax_at(0)));
    assert_eq!(declarations("a: b; c"), Err(syntax_at(7)));
}

#[test]
fn letters_are_not_only_ascii() {
    assert_eq!(
        simple_selector("\u{e9}t\u{e9} x"),
        Ok((SimpleSelector::TypeSelector { tag_name: "\u{e9}t\u{e9}".to_string() }, "x"))
    );
    assert_eq!(parse("\u{3000}p\u{a0}{}\u{2003}"), parse("p{}"));
}

#[test]
fn rule_with_two_selectors_matches_either() {
    let rule = Rule {
        selectors: vec![
            SimpleSelector::TypeSelector { tag_name: "a".to_string() },
            SimpleSelector::TypeSelector { tag_name: "b".to_string() },
        ],
        declarations: vec![],
    };
    assert!(rule.matches(&Element::new("b".to_string(), AttrMap::new(), vec![])));
    assert!(rule.matches(&Element::new("a".to_string(), AttrMap::new(), vec![])));
    assert!(!rule.matches(&Element::new("c".to_string(), AttrMap::new(), vec![])));
    assert!(!rule.matches(&Text::new("b".to_string())));
    let none = Rule { selectors: vec![], declarations: vec![] };
    assert!(!none.matches(&Element::new("b".to_string(), AttrMap::new(), vec![])));
}

#[test]
fn selectors_match_by_tag_name_only() {
    let e = &sample_element();
    let text = &Text::new("p".to_string());
    assert!(SimpleSelector::UniversalSelector.matches(text));
    assert!(!SimpleSelector::TypeSelector { tag_name: "p".to_string() }.matches(text));
    assert!(!SimpleSelector::ClassSelector { class_name: "testclass".to_string() }.matches(e));
    assert!(attribute_selector("p", AttributeSelectorOp::Eq, "id", "other").matches(e));
    assert!(attribute_selector("p", AttributeSelectorOp::Contain, "missing", "x").matches(e));
    assert!(!attribute_selector("div", AttributeSelectorOp::Eq, "id", "test").matches(e));
    assert!(!attribute_selector("p", AttributeSelectorOp::Eq, "id", "test").matches(text));
}

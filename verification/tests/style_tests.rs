use tiny_browserbook::css::{
    parse, AttributeSelectorOp, CSSValue, Declaration, Rule, SimpleSelector, Stylesheet,
};
use tiny_browserbook::dom::{AttrMap, Element, Node};
use tiny_browserbook::style::{resolve_properties, to_styled_node, PropertyMap, StyledNode};

fn keyword(name: &str, value: &str) -> Declaration {
    Declaration { name: name.to_string(), value: CSSValue::Keyword(value.to_string()) }
}

fn properties(entries: &[(&str, &str)]) -> PropertyMap {
    let mut map = PropertyMap::new();
    for (name, value) in entries {
        map.insert(name.to_string(), CSSValue::Keyword(value.to_string()));
    }
    map
}

fn with_id(tag: &str, children: Vec<Box<Node>>) -> Box<Node> {
    let mut attributes = AttrMap::new();
    attributes.insert("id".to_string(), "test".to_string());
    Element::new(tag.to_string(), attributes, children)
}

fn universal_block() -> Rule {
    Rule {
        selectors: vec![SimpleSelector::UniversalSelector],
        declarations: vec![keyword("display", "block")],
    }
}

fn check_single(stylesheet: Stylesheet, expected: &[(&str, &str)]) {
    let e = &with_id("p", vec![]);
    assert_eq!(
        to_styled_node(e, &stylesheet),
        Some(StyledNode {
            node_type: &e.node_type,
            properties: properties(expected),
            children: vec![],
        })
    )
}

fn check_nested(stylesheet: Stylesheet, expected: &[(&str, &str)]) {
    let parent = &with_id("div", vec![with_id("p", vec![])]);
    let child_node_type = with_id("p", vec![]).node_type;
    assert_eq!(
        to_styled_node(parent, &stylesheet),
        Some(StyledNode {
            node_type: &parent.node_type,
            properties: properties(expected),
            children: vec![StyledNode {
                node_type: &child_node_type,
                properties: properties(&[("display", "block")]),
                children: vec![],
            }],
        })
    );
}

#[test]
fn test_to_styled_node_single_universal() {
    check_single(Stylesheet::new(vec![universal_block()]), &[("display", "block")]);
}

#[test]
fn test_to_styled_node_single_other_tag() {
    check_single(
        Stylesheet::new(vec![Rule {
            selectors: vec![SimpleSelector::TypeSelector { tag_name: "div".into() }],
            declarations: vec![keyword("display", "block")],
        }]),
        &[],
    );
}

#[test]
fn test_to_styled_node_single_later_rule_for_other_tag() {
    check_single(
        Stylesheet::new(vec![
            universal_block(),
            Rule {
                selectors: vec![SimpleSelector::TypeSelector { tag_name: "div".into() }],
                declarations: vec![keyword("display", "inline")],
            },
        ]),
        &[("display", "block")],
    );
}

#[test]
fn test_to_styled_node_single_later_rule_overrides() {
    check_single(
        Stylesheet::new(vec![
            universal_block(),
            Rule {
                selectors: vec![SimpleSelector::TypeSelector { tag_name: "p".into() }],
                declarations: vec![keyword("display", "inline"), keyword("testname", "testvalue")],
            },
        ]),
        &[("display", "inline"), ("testname", "testvalue")],
    );
}

#[test]
fn test_to_styled_node_single_attribute_selector_other_value() {
    // Only the tag name of an attribute selector is tested, so this rule
    // applies although the id of the node is another one.
    check_single(
        Stylesheet::new(vec![
            universal_block(),
            Rule {
                selectors: vec![SimpleSelector::AttributeSelector {
                    tag_name: "p".into(),
                    op: AttributeSelectorOp::Eq,
                    attribute: "id".into(),
                    value: "hello".into(),
                }],
                declarations: vec![keyword("testname", "testvalue")],
            },
        ]),
        &[("display", "block"), ("testname", "testvalue")],
    );
}

#[test]
fn test_to_styled_node_single_attribute_selector() {
    check_single(
        Stylesheet::new(vec![
            universal_block(),
            Rule {
                selectors: vec![SimpleSelector::AttributeSelector {
                    tag_name: "p".into(),
                    op: AttributeSelectorOp::Eq,
                    attribute: "id".into(),
                    value: "test".into(),
                }],
                declarations: vec![keyword("testname", "testvalue")],
            },
        ]),
        &[("display", "block"), ("testname", "testvalue")],
    );
}

#[test]
fn test_to_styled_node_nested_universal() {
    check_nested(Stylesheet::new(vec![universal_block()]), &[("display", "block")]);
}

#[test]
fn test_to_styled_node_nested_child_only() {
    check_nested(
        Stylesheet::new(vec![Rule {
            selectors: vec![SimpleSelector::TypeSelector { tag_name: "p".into() }],
            declarations: vec![keyword("display", "block")],
        }]),
        &[],
    );
}

#[test]
fn later_rule_decides_display() {
    let node = with_id("p", vec![]);
    let sheet = parse("p { display: block; } * { display: inline; }").unwrap();
    assert_eq!(resolve_properties(&node.node_type, &sheet), properties(&[("display", "inline")]));
    let sheet = parse("* { display: inline; } p { display: block; } div { display: none; }").unwrap();
    assert_eq!(resolve_properties(&node.node_type, &sheet), properties(&[("display", "block")]));
}

#[test]
fn later_declaration_of_one_rule_decides() {
    let node = with_id("p", vec![]);
    let sheet = parse("p { display: block; color: red; display: none }").unwrap();
    assert_eq!(
        resolve_properties(&node.node_type, &sheet),
        properties(&[("color", "red"), ("display", "none")])
    );
}

#[test]
fn no_rule_gives_no_property() {
    let node = with_id("p", vec![]);
    let styled = to_styled_node(&node, &Stylesheet::new(vec![])).unwrap();
    assert_eq!(styled.properties.len(), 0);
    assert_eq!(styled.properties, PropertyMap::new());
    assert_eq!(styled.children.len(), 0);
}

#[test]
fn children_are_styled_in_document_order() {
    let root = tiny_browserbook::html::parse("<div><a></a>x<b></b></div>").unwrap();
    let sheet = parse("a { k: first; } b { k: third; } * { all: yes; }").unwrap();
    let styled = to_styled_node(&root, &sheet).unwrap();
    assert_eq!(styled.properties, properties(&[("all", "yes")]));
    assert_eq!(styled.children.len(), 3);
    assert_eq!(styled.children[0].properties, properties(&[("k", "first"), ("all", "yes")]));
    assert_eq!(styled.children[1].properties, properties(&[("all", "yes")]));
    assert_eq!(styled.children[1].node_type, &root.children[1].node_type);
    assert_eq!(styled.children[2].properties, properties(&[("all", "yes"), ("k", "third")]));
}

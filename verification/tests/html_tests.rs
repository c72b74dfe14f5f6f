use tiny_browserbook::dom::{collect_tag_inners, AttrMap, Element, Node, NodeType, Text};
use tiny_browserbook::html::{
    attribute, attributes, close_tag, element, nodes, open_tag, parse, parse_nodes, text,
    StructuralError, StructuralErrorKind,
};

fn unexpected_at(position: usize) -> StructuralError {
    StructuralError { kind: StructuralErrorKind::UnexpectedInput, position }
}

fn mismatch_at(position: usize) -> StructuralError {
    StructuralError { kind: StructuralErrorKind::TagMismatch, position }
}

fn trailing_at(position: usize) -> StructuralError {
    StructuralError { kind: StructuralErrorKind::TrailingInput, position }
}

fn plain(tag: &str, children: Vec<Box<Node>>) -> Box<Node> {
    Element::new(tag.to_string(), AttrMap::new(), children)
}

#[test]
fn html_test_parse_attribut() {
    assert_eq!(
        attribute("test=\"foobar\""),
        Ok((("test".to_string(), "foobar".to_string()), ""))
    );
}

#[test]
fn html_test_parse_attribut_has_space() {
    assert_eq!(
        attribute("test = \"foobar\""),
        Ok((("test".to_string(), "foobar".to_string()), ""))
    );
}

#[test]
fn html_test_parse_attributes() {
    let mut expected_map = AttrMap::new();
    expected_map.insert("test".to_string(), "foobar".to_string());
    expected_map.insert("abc".to_string(), "def".to_string());
    assert_eq!(
        attributes("test=\"foobar\" abc=\"def\""),
        Ok((expected_map, ""))
    )
}

#[test]
fn html_test_parse_non_attributes() {
    assert_eq!(attributes(""), Ok((AttrMap::new(), "")))
}

#[test]
fn html_test_parse_open_tag() {
    assert_eq!(
        open_tag("<p>aaaa"),
        Ok((("p".to_string(), AttrMap::new()), "aaaa"))
    );
}

#[test]
fn html_test_parse_open_tag_has_an_attribute() {
    let mut attributes = AttrMap::new();
    attributes.insert("id".to_string(), "test".to_string());
    assert_eq!(
        open_tag("<p id=\"test\">"),
        Ok((("p".to_string(), attributes), ""))
    )
}

#[test]
fn html_test_parse_open_tag_has_attributes() {
    let result = open_tag("<p id=\"test\" class=\"sample\">");
    let mut attributes = AttrMap::new();
    attributes.insert("id".to_string(), "test".to_string());
    attributes.insert("class".to_string(), "sample".to_string());
    assert_eq!(result, Ok((("p".to_string(), attributes), "")));
}

#[test]
fn html_test_parse_open_tag_invalid() {
    assert!(open_tag("<p id>").is_err());
}

#[test]
fn html_test_parse_close_tag() {
    let result = close_tag("</p>");
    assert_eq!(result, Ok(("p".to_string(), "")));
}

#[test]
fn test_parse_element_is_empty() {
    assert_eq!(
        element("<p></p>"),
        Ok((Element::new("p".to_string(), AttrMap::new(), vec![]), ""))
    );
}

#[test]
fn test_parse_element_has_value() {
    assert_eq!(
        element("<p>hello world</p>"),
        Ok((
            Element::new(
                "p".to_string(),
                AttrMap::new(),
                vec![Text::new("hello world".to_string())]
            ),
            ""
        ))
    );
}

#[test]
fn test_parse_text() {
    assert_eq!(
        text("hello world"),
        Ok((Text::new("hello world".to_string()), ""))
    );
}

#[test]
fn test_parse_text_with_tag() {
    assert_eq!(
        text("hello world<"),
        Ok((Text::new("hello world".to_string()), "<"))
    );
}

#[test]
fn crossed_tags_are_a_tag_mismatch() {
    assert_eq!(parse("<a><b></a></b>"), Err(mismatch_at(3)));
    assert_eq!(parse_nodes("<a><b></a></b>"), Err(mismatch_at(3)));
    assert_eq!(element("<a><b></a></b>"), Err(mismatch_at(3)));
    assert_eq!(element("<a></b>"), Err(mismatch_at(0)));
    assert_eq!(parse("x<a>y</b>z"), Err(mismatch_at(1)));
    assert_eq!(parse("<a><b><c></d></b></a>"), Err(mismatch_at(6)));
    assert_eq!(mismatch_at(0).message(), "tag name of open tag and close tag mismatched");
}

#[test]
fn input_that_is_left_is_trailing_input() {
    assert_eq!(parse("<p>hi</p></q>"), Err(trailing_at(9)));
    assert_eq!(parse("<p>hi"), Err(trailing_at(0)));
    assert_eq!(parse("text<"), Err(trailing_at(4)));
    assert_eq!(parse("<p id>x</p>"), Err(trailing_at(0)));
    assert_eq!(parse("<div><p>x</p></div\n<q></q>"), Err(trailing_at(0)));
    assert_eq!(trailing_at(0).message(), "input left after the document");
    assert_eq!(unexpected_at(0).message(), "unexpected input");
}

#[test]
fn nodes_stop_where_nothing_can_be_read() {
    assert_eq!(
        nodes("a<b></b>c</d>"),
        (
            vec![Text::new("a".to_string()), plain("b", vec![]), Text::new("c".to_string())],
            "</d>"
        )
    );
    assert_eq!(nodes(""), (vec![], ""));
    assert_eq!(nodes("<a>"), (vec![], "<a>"));
}

#[test]
fn parse_hands_back_the_only_node_or_wraps_the_nodes() {
    assert_eq!(
        parse("<div class=\"x\"><p>hi</p></div>").map(|root| root.children.len()),
        Ok(1)
    );
    assert_eq!(parse("hello"), Ok(Text::new("hello".to_string())));
    assert_eq!(parse(""), Ok(plain("html", vec![])));
    assert_eq!(
        parse("<a></a>b"),
        Ok(plain("html", vec![plain("a", vec![]), Text::new("b".to_string())]))
    );
    assert_eq!(
        parse_nodes("<a></a>b"),
        Ok(vec![plain("a", vec![]), Text::new("b".to_string())])
    );
}

#[test]
fn nested_markup_keeps_document_order() {
    let mut attributes = AttrMap::new();
    attributes.insert("class".to_string(), "x".to_string());
    let expected = Element::new(
        "div".to_string(),
        attributes,
        vec![
            Text::new(" a ".to_string()),
            plain("p", vec![Text::new("hi".to_string()), plain("b", vec![])]),
            Text::new("\n".to_string()),
        ],
    );
    assert_eq!(parse("<div class=\"x\"> a <p>hi<b></b></p>\n</div>"), Ok(expected));
}

#[test]
fn tag_names_and_text_survive_writing_and_reading_again() {
    fn write(node: &Node, out: &mut String) {
        match &node.node_type {
            NodeType::Text(t) => out.push_str(&t.data),
            NodeType::Element(e) => {
                out.push_str(&format!("<{}>", e.tag_name));
                for child in &node.children {
                    write(child, out);
                }
                out.push_str(&format!("</{}>", e.tag_name));
            }
        }
    }
    let source = "<body>\n <p>hello</p><p>wor ld</p>:)<div><p>x</p>y</div></body>";
    let root = parse(source).unwrap();
    let mut written = String::new();
    write(&root, &mut written);
    assert_eq!(written, source);
    assert_eq!(parse(&written), Ok(root));
}

#[test]
fn attributes_need_white_space_between_them() {
    let mut both = AttrMap::new();
    both.insert("a".to_string(), "x".to_string());
    both.insert("b".to_string(), "y".to_string());
    assert_eq!(attributes("a=\"x\" \n b = \"y\">"), Ok((both, ">")));
    let mut first = AttrMap::new();
    first.insert("a".to_string(), "x".to_string());
    assert_eq!(attributes("a=\"x\"b=\"y\""), Ok((first, "b=\"y\"")));
    assert_eq!(open_tag("<p a=\"x\"b=\"y\">"), Err(unexpected_at(8)));
    assert_eq!(open_tag("<p a=\"x\" >"), Err(unexpected_at(9)));
    assert_eq!(
        open_tag("<p >").map(|((name, found), rest)| (name, found.len(), rest)),
        Ok(("p".to_string(), 0, ""))
    );
}

#[test]
fn later_attribute_of_the_same_name_stays() {
    let ((_, found), _) = open_tag("<p id=\"a\" x=\"1\" id=\"b\">").unwrap();
    assert_eq!(found.len(), 2);
    assert_eq!(found.get("id"), Some(&"b".to_string()));
    assert_eq!(found.get("x"), Some(&"1".to_string()));
    assert_eq!(found.get("y"), None);
    assert!(found.contains_key("x"));
    assert!(!found.contains_key("i"));
}

#[test]
fn attribute_maps_compare_without_order() {
    let mut one = AttrMap::new();
    one.insert("a".to_string(), "x".to_string());
    one.insert("b".to_string(), "y".to_string());
    let mut other = AttrMap::new();
    other.insert("b".to_string(), "y".to_string());
    other.insert("a".to_string(), "z".to_string());
    assert_ne!(one, other);
    other.insert("a".to_string(), "x".to_string());
    assert_eq!(one, other);
    assert!(one.same_entries(&other));
    other.insert("c".to_string(), "x".to_string());
    assert_ne!(one, other);
    assert_ne!(other, one);
    assert_eq!(other.len(), 3);
}

#[test]
fn attribute_failures() {
    assert_eq!(attribute("=\"x\""), Err(unexpected_at(0)));
    assert_eq!(attribute("a \"x\""), Err(unexpected_at(2)));
    assert_eq!(attribute("a=x"), Err(unexpected_at(2)));
    assert_eq!(attribute("a=\"\""), Err(unexpected_at(3)));
    assert_eq!(attribute("a=\"x"), Err(unexpected_at(4)));
    assert_eq!(attribute("a=\"x y<z\" b"), Ok((("a".to_string(), "x y<z".to_string()), " b")));
}

#[test]
fn tag_failures() {
    assert_eq!(open_tag("p>"), Err(unexpected_at(0)));
    assert_eq!(open_tag("<>"), Err(unexpected_at(1)));
    assert_eq!(open_tag("<1>"), Err(unexpected_at(1)));
    assert_eq!(open_tag("<p"), Err(unexpected_at(2)));
    assert_eq!(open_tag("</p>"), Err(unexpected_at(1)));
    assert_eq!(close_tag("<p>"), Err(unexpected_at(1)));
    assert_eq!(close_tag("</>"), Err(unexpected_at(2)));
    assert_eq!(close_tag("</p >"), Err(unexpected_at(3)));
    assert_eq!(close_tag("x"), Err(unexpected_at(0)));
    assert_eq!(text("<"), Err(unexpected_at(0)));
    assert_eq!(text(""), Err(unexpected_at(0)));
    assert_eq!(element("<p>x"), Err(unexpected_at(4)));
    assert_eq!(element("x"), Err(unexpected_at(0)));
}

#[test]
fn inner_text_joins_the_text_below() {
    let root = parse("<div>a<p>b<i>c</i></p><q></q>d</div>").unwrap();
    assert_eq!(root.inner_text(), "abcd");
    assert_eq!(Text::new("x".to_string()).inner_text(), "");
    let node = Node {
        node_type: NodeType::Element(tiny_browserbook::dom::Element {
            tag_name: "p".to_string(),
            attributes: AttrMap::new(),
        }),
        children: vec![Text::new("hello world".to_string())],
    };
    assert_eq!(node.inner_text(), "hello world");
}

#[test]
fn tag_inners_are_collected_in_document_order() {
    let root = parse("<body><style>a</style><div><style>b<i>c</i></style></div><p>d</p><style><style>e</style></style></body>").unwrap();
    assert_eq!(collect_tag_inners(&root, "style"), vec!["a", "bc", "e"]);
    assert_eq!(collect_tag_inners(&root, "body"), vec!["abcde"]);
    assert_eq!(collect_tag_inners(&root, "script"), Vec::<String>::new());
    assert_eq!(collect_tag_inners(&Text::new("style".to_string()), "style"), Vec::<String>::new());
}

use tiny_browserbook::dom::{AttrMap, Element, Text};
use tiny_browserbook::html::markup::{to_markup, to_markup_all};
use tiny_browserbook::html::round_trip::{canonical_markup, markup_characters_are_plain};
use tiny_browserbook::html::{parse, parse_nodes};

#[test]
fn markup_characters_are_no_letters_and_no_white_space() {
    assert!(markup_characters_are_plain());
}

#[test]
fn markup_of_a_tree_holds_tags_attributes_and_text() {
    let mut attributes = AttrMap::new();
    attributes.insert("id".to_string(), "x".to_string());
    attributes.insert("class".to_string(), "a b".to_string());
    attributes.insert("id".to_string(), "y".to_string());
    let tree = Element::new(
        "div".to_string(),
        attributes,
        vec![
            Text::new(" a ".to_string()),
            Element::new("p".to_string(), AttrMap::new(), vec![Text::new("b".to_string())]),
            Element::new("i".to_string(), AttrMap::new(), vec![]),
        ],
    );
    assert_eq!(to_markup(&tree), "<div id=\"y\" class=\"a b\"> a <p>b</p><i></i></div>");
    assert_eq!(to_markup(&Text::new("just text".to_string())), "just text");
    assert_eq!(parse(&to_markup(&tree)), Ok(tree));
}

#[test]
fn reading_writing_and_reading_again_round_trips() {
    let source = "<body class=\"c\">\n<p id = \"a\"\n k=\"v\">hello</p> world <div><p>:)</p></div>\n</body>";
    let first = parse(source).unwrap();
    let written = to_markup(&first);
    assert_eq!(
        written,
        "<body class=\"c\">\n<p id=\"a\" k=\"v\">hello</p> world <div><p>:)</p></div>\n</body>"
    );
    let second = parse(&written).unwrap();
    assert_eq!(second, first);
    assert_eq!(to_markup(&second), written);
}

#[test]
fn round_trip_of_a_list_of_nodes() {
    let source = "a<b></b>c<d x=\"1\">e<f></f></d>";
    let nodes = parse_nodes(source).unwrap();
    let written = to_markup_all(&nodes);
    assert_eq!(written, source);
    assert_eq!(parse_nodes(&written), Ok(nodes));
    assert_eq!(to_markup_all(&vec![]), "");
}

#[test]
fn canonical_markup_reads_as_its_source() {
    let source = "<p b=\"2\"   a=\"1\" b=\"3\">x</p>tail";
    let text = canonical_markup(source).unwrap();
    assert_eq!(text, "<p b=\"3\" a=\"1\">x</p>tail");
    assert_eq!(parse_nodes(&text), parse_nodes(source));
    assert_eq!(canonical_markup(&text), Some(text));
    assert_eq!(canonical_markup("<a><b></a></b>"), None);
    assert_eq!(canonical_markup("<p>"), None);
    assert_eq!(canonical_markup(""), Some(String::new()));
}

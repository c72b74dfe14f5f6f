use tiny_browserbook::css::{parse as parse_css, CSSValue};
use tiny_browserbook::dom::{NodeType, Text};
use tiny_browserbook::html::parse as parse_html;
use tiny_browserbook::layout::{display, to_layout_box, BoxProps, BoxType, Display, LayoutBox};
use tiny_browserbook::render::{
    new_element_container, text_to_display, to_element_container, ElementContainer, Orientation,
};
use tiny_browserbook::renderer::{
    document_stylesheet, inline_scripts, layout_document, stylesheet_source, DEFAULT_STYLESHEET,
};
use tiny_browserbook::style::{to_styled_node, PropertyMap};

fn properties(entries: &[(&str, &str)]) -> PropertyMap {
    let mut map = PropertyMap::new();
    for (name, value) in entries {
        map.insert(name.to_string(), CSSValue::Keyword(value.to_string()));
    }
    map
}

fn tag_of<'a>(b: &'a LayoutBox) -> &'a str {
    match &b.box_type {
        BoxType::BlockBox(BoxProps { node_type: NodeType::Element(e), .. }) => &e.tag_name,
        BoxType::InlineBox(BoxProps { node_type: NodeType::Element(e), .. }) => &e.tag_name,
        BoxType::BlockBox(BoxProps { node_type: NodeType::Text(t), .. }) => &t.data,
        BoxType::InlineBox(BoxProps { node_type: NodeType::Text(t), .. }) => &t.data,
        BoxType::AnonymousBox => "",
    }
}

fn tags(b: &LayoutBox, out: &mut Vec<String>) {
    out.push(tag_of(b).to_string());
    for child in &b.children {
        tags(child, out);
    }
}

#[test]
fn display_follows_the_keyword() {
    assert_eq!(display(&properties(&[])), Display::Block);
    assert_eq!(display(&properties(&[("display", "block")])), Display::Block);
    assert_eq!(display(&properties(&[("display", "inline")])), Display::Inline);
    assert_eq!(display(&properties(&[("display", "none")])), Display::Hidden);
    assert_eq!(display(&properties(&[("display", "flex")])), Display::Block);
    assert_eq!(display(&properties(&[("other", "none")])), Display::Block);
    assert_eq!(display(&properties(&[("display", "none"), ("display", "inline")])), Display::Inline);
}

#[test]
fn end_to_end_nested_blocks_with_text() {
    let root = parse_html("<div class=\"x\"><p>hi</p></div>").unwrap();
    let sheet = parse_css("div, p { display: block; }").unwrap();
    let styled = to_styled_node(&root, &sheet).unwrap();
    let layout = to_layout_box(styled);
    let block = properties(&[("display", "block")]);
    let text = Text::new("hi".to_string());
    let expected = LayoutBox {
        box_type: BoxType::BlockBox(BoxProps { node_type: &root.node_type, properties: block }),
        children: vec![LayoutBox {
            box_type: BoxType::BlockBox(BoxProps {
                node_type: &root.children[0].node_type,
                properties: properties(&[("display", "block")]),
            }),
            children: vec![LayoutBox {
                box_type: BoxType::BlockBox(BoxProps {
                    node_type: &text.node_type,
                    properties: properties(&[]),
                }),
                children: vec![],
            }],
        }],
    };
    assert_eq!(layout, expected);
    match &layout.children[0].children[0].box_type {
        BoxType::BlockBox(BoxProps { node_type: NodeType::Text(t), .. }) => assert_eq!(t.data, "hi"),
        other => panic!("no text box: {:?}", other),
    }
}

#[test]
fn hidden_nodes_and_what_is_below_them_get_no_box() {
    let root = parse_html(
        "<div><p>a</p><div class=\"none\"><p>hidden</p><b>too</b></div><i>b</i><style>x</style></div>",
    )
    .unwrap();
    let sheet = parse_css("div { display: none; } p { display: block; } style { display: none; }").unwrap();
    // The root itself is a div: seen from outside it leaves an empty anonymous box.
    let layout = layout_document(&root, &sheet);
    assert_eq!(layout, LayoutBox { box_type: BoxType::AnonymousBox, children: vec![] });

    let root = parse_html(
        "<body><p>a</p><div><p>hidden</p><b>too</b></div><i>b</i><style>x</style></body>",
    )
    .unwrap();
    let layout = layout_document(&root, &sheet);
    let mut found = Vec::new();
    tags(&layout, &mut found);
    assert_eq!(found, vec!["body", "p", "a", "i", "b"]);
}

#[test]
fn text_keeps_its_white_space() {
    let root = parse_html("<p>  hi \n there </p>").unwrap();
    let layout = layout_document(&root, &parse_css("").unwrap());
    assert_eq!(tag_of(&layout.children[0]), "  hi \n there ");
}

#[test]
fn inline_children_are_not_grouped() {
    let root = parse_html("<div><a>x</a><b>y</b><p>z</p><i>w</i></div>").unwrap();
    let sheet = parse_css("a, b, i { display: inline; }").unwrap();
    let layout = layout_document(&root, &sheet);
    assert_eq!(layout.children.len(), 4);
    assert!(matches!(layout.box_type, BoxType::BlockBox(_)));
    assert!(matches!(layout.children[0].box_type, BoxType::InlineBox(_)));
    assert!(matches!(layout.children[1].box_type, BoxType::InlineBox(_)));
    assert!(matches!(layout.children[2].box_type, BoxType::BlockBox(_)));
    assert!(matches!(layout.children[3].box_type, BoxType::InlineBox(_)));
    assert!(matches!(layout.children[0].children[0].box_type, BoxType::BlockBox(_)));
}

#[test]
fn two_passes_give_the_same_trees() {
    let root = parse_html("<body><p>hello</p><p class=\"inline\">world</p><div><p>x</p></div></body>").unwrap();
    let sheet = parse_css("p { display: inline; } div { display: none; }").unwrap();
    let first_styled = to_styled_node(&root, &sheet);
    let second_styled = to_styled_node(&root, &sheet);
    assert_eq!(first_styled, second_styled);
    let first = to_layout_box(first_styled.unwrap());
    let second = to_layout_box(second_styled.unwrap());
    assert_eq!(first, second);
    assert_eq!(layout_document(&root, &sheet), first);
}

#[test]
fn document_style_sheet_is_the_default_and_the_style_elements() {
    let root = parse_html("<body><style>a { display: inline; }</style><p>x</p><style>\nb{}</style></body>").unwrap();
    assert_eq!(
        stylesheet_source(&root),
        format!("{}\n{}", DEFAULT_STYLESHEET, "a { display: inline; }\n\nb{}")
    );
    let sheet = document_stylesheet(&root).unwrap();
    assert_eq!(sheet.rules.len(), 4);
    assert_eq!(sheet.rules[0].declarations[0].value, CSSValue::Keyword("none".to_string()));
    let plain = parse_html("<p>x</p>").unwrap();
    assert_eq!(stylesheet_source(&plain), format!("{}\n", DEFAULT_STYLESHEET));
    assert_eq!(document_stylesheet(&plain), parse_css(DEFAULT_STYLESHEET));
    let broken = parse_html("<style>p {</style>").unwrap();
    assert!(document_stylesheet(&broken).is_err());
}

#[test]
fn inline_scripts_are_joined_by_line() {
    let root = parse_html("<body><script>a()</script><p><script>b()</script></p><script>c</script></body>").unwrap();
    assert_eq!(inline_scripts(&root), "a()\nb()\nc");
    assert_eq!(inline_scripts(&parse_html("<p></p>").unwrap()), "");
    assert_eq!(inline_scripts(&parse_html("<script>x</script>").unwrap()), "x");
}

#[test]
fn shown_text_is_trimmed_and_unbroken() {
    assert_eq!(text_to_display("  hello\n world \n"), "hello world");
    assert_eq!(text_to_display("hello"), "hello");
    assert_eq!(text_to_display(" \n\t "), "");
    assert_eq!(text_to_display(""), "");
    assert_eq!(text_to_display("\u{3000}a b\u{a0}"), "a b");
    assert_eq!(text_to_display("a\n\nb"), "ab");
}

#[test]
fn boxes_are_drawn_as_panels_and_labels() {
    let root = parse_html("<body>\n  <p>hello\n</p><div></div> \n</body>").unwrap();
    let layout = layout_document(&root, &parse_css(DEFAULT_STYLESHEET).unwrap());
    let drawn = to_element_container(layout_document(&root, &parse_css(DEFAULT_STYLESHEET).unwrap()));
    assert_eq!(
        drawn,
        ElementContainer::Titled {
            title: "body".to_string(),
            children: vec![
                ElementContainer::Empty,
                ElementContainer::Titled {
                    title: "p".to_string(),
                    children: vec![ElementContainer::Label { text: "hello".to_string() }],
                },
                ElementContainer::Titled { title: "div".to_string(), children: vec![] },
                ElementContainer::Empty,
            ],
        }
    );
    assert_eq!(drawn.orientation(), Some(Orientation::Vertical));
    let anonymous = LayoutBox { box_type: BoxType::AnonymousBox, children: vec![layout] };
    let row = to_element_container(anonymous);
    assert_eq!(row.orientation(), Some(Orientation::Horizontal));
    assert_eq!(row, ElementContainer::Row { children: vec![drawn] });
    assert_eq!(new_element_container(), ElementContainer::Empty);
    assert_eq!(new_element_container().orientation(), None);
}

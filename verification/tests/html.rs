use docfetch::html::{build_tree, tokenize, tree_text, HTMLParser};
use docfetch::layout::text::{Node, NodeType, Token};

fn shown(tokens: &[Token]) -> Vec<String> {
    tokens
        .iter()
        .map(|token| match token {
            Token::Text(text) => format!("Text({})", text),
            Token::Tag(tag) => format!("Tag({})", tag),
        })
        .collect()
}

fn tag_of(node: &Node) -> Option<&str> {
    match &node.node_type {
        NodeType::Element { tag } => Some(tag.as_str()),
        NodeType::Text { .. } => None,
    }
}

fn text_of(node: &Node) -> Option<&str> {
    match &node.node_type {
        NodeType::Text { text } => Some(text.as_str()),
        NodeType::Element { .. } => None,
    }
}

#[test]
fn test_tree() {
    let html =
        "<div><p>Hello, you have a nice... <b>world</b>!</p><p>Goodbye.</p></div>".to_string();
    let mut parser = HTMLParser::new(html);
    let tree = parser.parse();
    println!("{}", tree_text(&tree, 1, 0));
}

#[test]
fn tree_text_shows_each_node_on_its_line() {
    let html =
        "<div><p>Hello, you have a nice... <b>world</b>!</p><p>Goodbye.</p></div>".to_string();
    let tree = HTMLParser::new(html).parse();
    assert_eq!(tree.len(), 8);
    assert_eq!(tree_text(&tree, 1, 0), "<p>\n  Hello, you have a nice...\n  <b>\n    world\n  !\n");
    assert_eq!(
        tree_text(&tree, 0, 1),
        " <div>\n   <p>\n     Hello, you have a nice...\n     <b>\n       world\n     !\n   <p>\n     Goodbye.\n"
    );
    assert_eq!(tree_text(&tree, 7, 3), "   Goodbye.\n");
}

#[test]
fn tokens_of_nested_elements() {
    let tokens = tokenize("<div><p>Hi</p></div>");
    assert_eq!(shown(&tokens), ["Tag(div)", "Tag(p)", "Text(Hi)", "Tag(/p)", "Tag(/div)"]);
    assert!(tokens[0].is_tag());
    assert!(!tokens[0].is_text());
    assert!(tokens[2].is_text());
    assert!(!tokens[2].is_tag());
}

#[test]
fn tree_of_nested_elements() {
    let tree = build_tree(&tokenize("<div><p>Hi</p></div>"));
    assert_eq!(tree.len(), 3);
    assert_eq!(tag_of(&tree[0]), Some("div"));
    assert_eq!(tag_of(&tree[1]), Some("p"));
    assert_eq!(text_of(&tree[2]), Some("Hi"));
    assert_eq!(tree[0].parent, None);
    assert_eq!(tree[1].parent, Some(0));
    assert_eq!(tree[2].parent, Some(1));
    assert_eq!(tree[0].children, [1]);
    assert_eq!(tree[1].children, [2]);
    assert!(tree[2].children.is_empty());
}

#[test]
fn entities_and_tabs_are_decoded_before_scanning() {
    let tokens = tokenize("<p>a &amp; b\tc</p>");
    assert_eq!(shown(&tokens), ["Tag(p)", "Text(a & b    c)", "Tag(/p)"]);
    let tokens = tokenize("x &quot;y&quot; &amp;lt; z");
    assert_eq!(shown(&tokens), ["Text(x \"y\" &lt; z)"]);
    let tokens = tokenize("&lt;b&gt;bold&lt;/b&gt;");
    assert_eq!(shown(&tokens), ["Tag(b)", "Text(bold)", "Tag(/b)"]);
}

#[test]
fn stray_end_tag_closes_the_open_element() {
    let tokens = tokenize("<i>x</b>y");
    assert_eq!(shown(&tokens), ["Tag(i)", "Text(x)", "Tag(/b)", "Text(y)"]);
    let tree = HTMLParser::new("<i>x</b>y".to_string()).parse();
    assert_eq!(tree.len(), 2);
    assert_eq!(tag_of(&tree[0]), Some("i"));
    assert_eq!(text_of(&tree[1]), Some("x"));
    assert_eq!(tree[0].children, [1]);
    assert_eq!(tree[1].parent, Some(0));
}

#[test]
fn tokens_are_trimmed_and_blank_text_is_dropped() {
    let tokens = tokenize("  <  div class=\"x\"  >  hello world \n </div>   ");
    assert_eq!(shown(&tokens), ["Tag(div class=\"x\")", "Text(hello world)", "Tag(/div)"]);
    let tokens = tokenize("<a>\u{a0}\u{3000}\t</a>");
    assert_eq!(shown(&tokens), ["Tag(a)", "Tag(/a)"]);
}

#[test]
fn text_gathered_inside_a_tag_is_not_given_out() {
    assert_eq!(shown(&tokenize("<a<b>")), ["Tag(b)"]);
    assert_eq!(shown(&tokenize("a>b<c>")), ["Text(b)", "Tag(c)"]);
    assert_eq!(shown(&tokenize("text<unfinished")), ["Text(text)"]);
    assert_eq!(shown(&tokenize("<>")), ["Tag()"]);
    assert!(tokenize("").is_empty());
}

#[test]
fn text_without_open_element_is_dropped() {
    let tree = build_tree(&tokenize("before<p>in</p>after"));
    assert_eq!(tree.len(), 2);
    assert_eq!(tag_of(&tree[0]), Some("p"));
    assert_eq!(text_of(&tree[1]), Some("in"));
}

#[test]
fn sibling_roots_and_unclosed_elements() {
    let tree = build_tree(&tokenize("<a></a><b><c>deep"));
    assert_eq!(tree.len(), 4);
    assert_eq!(tree[0].parent, None);
    assert_eq!(tree[1].parent, None);
    assert_eq!(tree[2].parent, Some(1));
    assert_eq!(tree[3].parent, Some(2));
    assert_eq!(text_of(&tree[3]), Some("deep"));
    assert!(tree[0].children.is_empty());
}

#[test]
fn end_tag_with_nothing_open_is_ignored() {
    let tree = build_tree(&tokenize("</p></p><a>x</a>"));
    assert_eq!(tree.len(), 2);
    assert_eq!(tree[0].parent, None);
}

#[test]
fn tag_text_is_kept_whole() {
    let tree = build_tree(&tokenize("<div class=\"x\" id=y><br/></div>"));
    assert_eq!(tag_of(&tree[0]), Some("div class=\"x\" id=y"));
    assert_eq!(tag_of(&tree[1]), Some("br/"));
    assert_eq!(tree[1].parent, Some(0));
}

#[test]
fn every_child_names_its_parent() {
    let tree = build_tree(&tokenize("<a><b>1<c>2</c>3</b><d>4</x>5</a>6<e>7"));
    for (at, node) in tree.iter().enumerate() {
        for &child in &node.children {
            assert!(child > at);
            assert_eq!(tree[child].parent, Some(at));
        }
        if let Some(parent) = node.parent {
            assert!(parent < at);
            assert_eq!(tree[parent].children.iter().filter(|&&c| c == at).count(), 1);
        }
    }
}

#[test]
fn builder_takes_tokens_one_by_one() {
    let mut parser = HTMLParser::new(String::new());
    parser.add_text("dropped".to_string());
    parser.add_tag("ul".to_string());
    parser.add_tag("li".to_string());
    parser.add_text("one".to_string());
    parser.add_tag("/li".to_string());
    parser.add_text("two".to_string());
    let tree = parser.finish();
    assert_eq!(tree.len(), 4);
    assert_eq!(tree[0].children, [1, 3]);
    assert_eq!(tree[1].children, [2]);
    assert_eq!(text_of(&tree[3]), Some("two"));
}

#[test]
fn parsing_twice_appends_to_the_arena() {
    let mut parser = HTMLParser::new("<p>x".to_string());
    assert_eq!(parser.parse().len(), 2);
    let tree = parser.parse();
    assert_eq!(tree.len(), 4);
    assert_eq!(tree[2].parent, Some(0));
    assert_eq!(tree[3].parent, Some(2));
}

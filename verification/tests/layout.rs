use docfetch::layout::text::{apply_tag, lex, visible_text, Body, TokenAction};
use docfetch::layout::{FontSize, FontStyle, FontWeight, LayoutFont};

fn plain() -> LayoutFont {
    LayoutFont::default()
}

fn runs(actions: &[TokenAction]) -> Vec<(String, LayoutFont)> {
    actions
        .iter()
        .map(|action| match action {
            TokenAction::Newline => ("\n".to_string(), plain()),
            TokenAction::Text(run) => (run.text.clone(), run.font),
        })
        .collect()
}

#[test]
fn default_font_is_plain() {
    let font = LayoutFont::default();
    assert_eq!(font.style, FontStyle::Normal);
    assert_eq!(font.weight, FontWeight::Normal);
    assert_eq!(font.size, FontSize::Regular);
}

#[test]
fn tags_set_one_trait_on_the_plain_font() {
    let bold = LayoutFont { weight: FontWeight::Bold, ..plain() };
    let italic = LayoutFont { style: FontStyle::Italic, ..plain() };
    let big = LayoutFont { size: FontSize::Big, ..plain() };
    let small = LayoutFont { size: FontSize::Small, ..plain() };
    assert_eq!(apply_tag("b", italic).font, bold);
    assert_eq!(apply_tag("i", bold).font, italic);
    assert_eq!(apply_tag("big", bold).font, big);
    assert_eq!(apply_tag("small", big).font, small);
    for closing in ["/b", "/i", "/big", "/small"] {
        assert_eq!(apply_tag(closing, bold).font, plain());
        assert!(!apply_tag(closing, bold).newline);
    }
    for other in ["p", "div", "", "B", "/p", "newline"] {
        assert_eq!(apply_tag(other, bold).font, bold);
    }
    assert!(apply_tag("/p", plain()).newline);
    assert!(apply_tag("newline", plain()).newline);
    assert!(!apply_tag("p", plain()).newline);
}

#[test]
fn lex_styles_the_text_between_tags() {
    let actions = lex("plain<b>bold</b><i>slanted</i><big>large</big><small>tiny</small>end");
    let bold = LayoutFont { weight: FontWeight::Bold, ..plain() };
    let italic = LayoutFont { style: FontStyle::Italic, ..plain() };
    let big = LayoutFont { size: FontSize::Big, ..plain() };
    let small = LayoutFont { size: FontSize::Small, ..plain() };
    assert_eq!(
        runs(&actions),
        [
            ("plain".to_string(), plain()),
            ("bold".to_string(), bold),
            ("slanted".to_string(), italic),
            ("large".to_string(), big),
            ("tiny".to_string(), small),
            ("end".to_string(), plain()),
        ]
    );
}

#[test]
fn lex_lowers_tag_names() {
    let bold = LayoutFont { weight: FontWeight::Bold, ..plain() };
    let actions = lex("<B>x</B>y<NewLine>z</P>");
    assert_eq!(actions.len(), 5);
    assert_eq!(
        runs(&actions),
        [
            ("x".to_string(), bold),
            ("y".to_string(), plain()),
            ("\n".to_string(), plain()),
            ("z".to_string(), plain()),
            ("\n".to_string(), plain()),
        ]
    );
    assert!(matches!(actions[2], TokenAction::Newline));
}

#[test]
fn lex_breaks_paragraphs_and_keeps_white_space() {
    let actions = lex("<p> one </p><p>two</p>");
    assert_eq!(
        runs(&actions),
        [
            (" one ".to_string(), plain()),
            ("\n".to_string(), plain()),
            ("two".to_string(), plain()),
            ("\n".to_string(), plain()),
        ]
    );
}

#[test]
fn lex_decodes_entities_and_tabs_first() {
    let actions = lex("a &amp; b\tc &quot;d&quot;");
    assert_eq!(runs(&actions), [("a & b    c \"d\"".to_string(), plain())]);
    let bold = LayoutFont { weight: FontWeight::Bold, ..plain() };
    let actions = lex("&lt;b&gt;x");
    assert_eq!(runs(&actions), [("x".to_string(), bold)]);
}

#[test]
fn lex_keeps_text_across_a_stray_closing_bracket() {
    let actions = lex("a>b");
    assert_eq!(runs(&actions), [("ab".to_string(), plain())]);
    assert!(lex("").is_empty());
    assert!(lex("<b><i>").is_empty());
    let actions = lex("x<unfinished");
    assert_eq!(runs(&actions), [("x".to_string(), plain())]);
}

#[test]
fn unknown_tags_leave_the_font_alone() {
    let bold = LayoutFont { weight: FontWeight::Bold, ..plain() };
    let actions = lex("<b>one<span>two<b class=x>three");
    assert_eq!(
        runs(&actions),
        [("one".to_string(), bold), ("two".to_string(), bold), ("three".to_string(), bold)]
    );
}

#[test]
fn body_keeps_the_text_and_its_tokens() {
    let body = Body::new("<i>a&amp;b</i>".to_string());
    assert_eq!(body.text(), "<i>a&amp;b</i>");
    let italic = LayoutFont { style: FontStyle::Italic, ..plain() };
    assert_eq!(runs(&body.tokens()), [("a&b".to_string(), italic)]);
    let copy = body.clone();
    assert_eq!(copy.text(), body.text());
    assert_eq!(runs(&copy.tokens()), runs(&body.tokens()));
}

#[test]
fn visible_text_drops_tags_then_decodes() {
    assert_eq!(visible_text("<p>Hello, <b>world</b>!</p>"), "Hello, world!");
    assert_eq!(visible_text("a &lt;b&gt; c\td"), "a <b> c    d");
    assert_eq!(visible_text("x<unfinished"), "x");
    assert_eq!(visible_text("a>b"), "ab");
    assert_eq!(visible_text(""), "");
}

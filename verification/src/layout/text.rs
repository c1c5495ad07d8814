//! The text of a page: its nodes and tokens, and the styled runs that the
//! presentation layer draws.

use vstd::prelude::*;
use crate::chars::{from_chars, replace_all, replaced, same, to_chars};
use crate::layout::{plain_font, FontSize, FontStyle, FontWeight, LayoutFont};

verus! {

/// What a node of the tree is: an element with the text of its tag, or a
/// leaf of text.
#[derive(Debug)]
pub enum NodeType {
    Element { tag: String },
    Text { text: String },
}

/// What a `NodeType` stands for.
pub enum NodeTypeView {
    Element { tag: Seq<char> },
    Text { text: Seq<char> },
}

/// A node of the tree. `children` and `parent` are positions in the arena
/// that holds the node.
#[derive(Debug)]
pub struct Node {
    pub children: Vec<usize>,
    pub node_type: NodeType,
    pub parent: Option<usize>,
}

/// What a `Node` stands for.
pub struct NodeView {
    pub children: Seq<usize>,
    pub node_type: NodeTypeView,
    pub parent: Option<usize>,
}

/// A token of markup: a run of text, or what stood between `<` and `>`.
#[derive(Debug)]
pub enum Token {
    Text(String),
    Tag(String),
}

/// What a `Token` stands for.
pub enum TokenView {
    Text(Seq<char>),
    Tag(Seq<char>),
}

/// A run of text with its style.
#[derive(Debug)]
pub struct StyledText {
    pub text: String,
    pub font: LayoutFont,
}

/// A step of the styled stream: a paragraph break, or a run of text.
#[derive(Debug)]
pub enum TokenAction {
    Newline,
    Text(StyledText),
}

/// What a `TokenAction` stands for.
pub enum TokenActionView {
    Newline,
    Text { text: Seq<char>, font: LayoutFont },
}

impl View for NodeType {
    type V = NodeTypeView;

    open spec fn view(&self) -> NodeTypeView {
        match self {
            NodeType::Element { tag } => NodeTypeView::Element { tag: tag@ },
            NodeType::Text { text } => NodeTypeView::Text { text: text@ },
        }
    }
}

impl View for Node {
    type V = NodeView;

    open spec fn view(&self) -> NodeView {
        NodeView { children: self.children@, node_type: self.node_type@, parent: self.parent }
    }
}

impl View for Token {
    type V = TokenView;

    open spec fn view(&self) -> TokenView {
        match self {
            Token::Text(text) => TokenView::Text(text@),
            Token::Tag(tag) => TokenView::Tag(tag@),
        }
    }
}

impl View for TokenAction {
    type V = TokenActionView;

    open spec fn view(&self) -> TokenActionView {
        match self {
            TokenAction::Newline => TokenActionView::Newline,
            TokenAction::Text(run) => TokenActionView::Text { text: run.text@, font: run.font },
        }
    }
}

impl Clone for NodeType {
    fn clone(&self) -> (r: Self)
        ensures
            r@ == self@,
    {
        match self {
            NodeType::Element { tag } => NodeType::Element { tag: tag.clone() },
            NodeType::Text { text } => NodeType::Text { text: text.clone() },
        }
    }
}

impl Clone for Node {
    fn clone(&self) -> (r: Self)
        ensures
            r@ == self@,
    {
        Node {
            children: self.children.clone(),
            node_type: self.node_type.clone(),
            parent: self.parent,
        }
    }
}

impl Clone for Token {
    fn clone(&self) -> (r: Self)
        ensures
            r@ == self@,
    {
        match self {
            Token::Text(text) => Token::Text(text.clone()),
            Token::Tag(tag) => Token::Tag(tag.clone()),
        }
    }
}

impl Clone for StyledText {
    fn clone(&self) -> (r: Self)
        ensures
            r.text@ == self.text@,
            r.font == self.font,
    {
        StyledText { text: self.text.clone(), font: self.font }
    }
}

impl Clone for TokenAction {
    fn clone(&self) -> (r: Self)
        ensures
            r@ == self@,
    {
        match self {
            TokenAction::Newline => TokenAction::Newline,
            TokenAction::Text(run) => TokenAction::Text(run.clone()),
        }
    }
}

impl Token {
    /// Whether the token is a run of text.
    pub fn is_text(&self) -> (r: bool)
        ensures
            r == (self@ is Text),
    {
        match self {
            Token::Text(_) => true,
            Token::Tag(_) => false,
        }
    }

    /// Whether the token is a tag.
    pub fn is_tag(&self) -> (r: bool)
        ensures
            r == (self@ is Tag),
    {
        match self {
            Token::Text(_) => false,
            Token::Tag(_) => true,
        }
    }
}

/// What the tokens of `v` stand for, in order.
pub open spec fn token_views(v: Seq<Token>) -> Seq<TokenView> {
    Seq::new(v.len(), |i: int| v[i]@)
}

/// What the nodes of `v` stand for, in order.
pub open spec fn node_views(v: Seq<Node>) -> Seq<NodeView> {
    Seq::new(v.len(), |i: int| v[i]@)
}

/// What the steps of `v` stand for, in order.
pub open spec fn action_views(v: Seq<TokenAction>) -> Seq<TokenActionView> {
    Seq::new(v.len(), |i: int| v[i]@)
}

/// `text` with the four entities `&lt;`, `&gt;`, `&amp;` and `&quot;`
/// replaced by the characters they name, one entity after the other in this
/// order, and then each tab by four spaces.
pub open spec fn decode(text: Seq<char>) -> Seq<char> {
    let a = replace_all(text, "&lt;"@, "<"@);
    let b = replace_all(a, "&gt;"@, ">"@);
    let c = replace_all(b, "&amp;"@, "&"@);
    let d = replace_all(c, "&quot;"@, "\""@);
    replace_all(d, "\t"@, "    "@)
}

/// Decodes the entities of `text` and expands its tabs.
pub fn decoded(text: &Vec<char>) -> (r: Vec<char>)
    ensures
        r@ == decode(text@),
{
    proof {
        reveal_strlit("&lt;");
        reveal_strlit("&gt;");
        reveal_strlit("&amp;");
        reveal_strlit("&quot;");
        reveal_strlit("\t");
    }
    let a = replaced(text, &to_chars("&lt;"), &to_chars("<"));
    let b = replaced(&a, &to_chars("&gt;"), &to_chars(">"));
    let c = replaced(&b, &to_chars("&amp;"), &to_chars("&"));
    let d = replaced(&c, &to_chars("&quot;"), &to_chars("\""));
    replaced(&d, &to_chars("\t"), &to_chars("    "))
}

/// The lower-case form of a text, as `str::to_lowercase` gives it.
pub uninterp spec fn lowered(s: Seq<char>) -> Seq<char>;

/// The lower-case form of `s`, by `str::to_lowercase`: the result is the
/// text that `lowered` names for the text of `s`.
#[verifier::external_body]
fn lowercase(s: &str) -> (r: String)
    ensures
        r@ == lowered(s@),
{
    s.to_lowercase()
}

/// Whether a tag, in lower case, breaks the paragraph.
pub open spec fn is_break(tag: Seq<char>) -> bool {
    tag == "/p"@ || tag == "newline"@
}

/// The style behind a tag, in lower case, where `font` was the style in
/// front of it. An opening `i`, `b`, `big` or `small` gives the plain style
/// with that one trait; the closing form of each gives the plain style; any
/// other tag leaves the style as it was.
pub open spec fn font_after(tag: Seq<char>, font: LayoutFont) -> LayoutFont {
    if tag == "i"@ {
        LayoutFont { style: FontStyle::Italic, ..plain_font() }
    } else if tag == "b"@ {
        LayoutFont { weight: FontWeight::Bold, ..plain_font() }
    } else if tag == "big"@ {
        LayoutFont { size: FontSize::Big, ..plain_font() }
    } else if tag == "small"@ {
        LayoutFont { size: FontSize::Small, ..plain_font() }
    } else if tag == "/i"@ || tag == "/b"@ || tag == "/big"@ || tag == "/small"@ {
        plain_font()
    } else {
        font
    }
}

/// What a tag does to the styled stream.
pub struct TagEffect {
    /// Whether the tag breaks the paragraph.
    pub newline: bool,
    /// The style of the text behind the tag.
    pub font: LayoutFont,
}

/// What the tag `tag`, given in lower case, does where `font` is the style
/// in front of it.
pub fn apply_tag(tag: &str, font: LayoutFont) -> (r: TagEffect)
    ensures
        r.newline == is_break(tag@),
        r.font == font_after(tag@, font),
{
    let t = to_chars(tag);
    let newline = same(&t, &to_chars("/p")) || same(&t, &to_chars("newline"));
    let plain = LayoutFont::default();
    let font = if same(&t, &to_chars("i")) {
        LayoutFont { style: FontStyle::Italic, weight: plain.weight, size: plain.size }
    } else if same(&t, &to_chars("b")) {
        LayoutFont { style: plain.style, weight: FontWeight::Bold, size: plain.size }
    } else if same(&t, &to_chars("big")) {
        LayoutFont { style: plain.style, weight: plain.weight, size: FontSize::Big }
    } else if same(&t, &to_chars("small")) {
        LayoutFont { style: plain.style, weight: plain.weight, size: FontSize::Small }
    } else if same(&t, &to_chars("/i")) || same(&t, &to_chars("/b")) || same(
        &t,
        &to_chars("/big"),
    ) || same(&t, &to_chars("/small")) {
        plain
    } else {
        font
    };
    TagEffect { newline, font }
}

/// Where the styling scan stands: the text gathered outside tags and not
/// yet given out, whether the scan is inside a tag, the text of that tag so
/// far, the style in force, and the steps given out.
pub struct LexState {
    pub buffer: Seq<char>,
    pub in_tag: bool,
    pub tag: Seq<char>,
    pub font: LayoutFont,
    pub out: Seq<TokenActionView>,
}

/// The scan before the first character.
pub open spec fn lex_start() -> LexState {
    LexState {
        buffer: Seq::empty(),
        in_tag: false,
        tag: Seq::empty(),
        font: plain_font(),
        out: Seq::empty(),
    }
}

/// The scan after one more character. `<` gives out the gathered text, if
/// there is any and the scan was outside a tag, and opens a tag; `>` closes
/// the tag and lets it act, by its lower-case form; any other character
/// joins the tag inside one and the text outside.
pub open spec fn lex_step(st: LexState, c: char) -> LexState {
    if c == '<' {
        if st.buffer.len() > 0 && !st.in_tag {
            LexState {
                buffer: Seq::empty(),
                in_tag: true,
                tag: Seq::empty(),
                out: st.out.push(TokenActionView::Text { text: st.buffer, font: st.font }),
                ..st
            }
        } else {
            LexState { in_tag: true, tag: Seq::empty(), ..st }
        }
    } else if c == '>' {
        let tag = lowered(st.tag);
        LexState {
            in_tag: false,
            tag: Seq::empty(),
            font: font_after(tag, st.font),
            out: if is_break(tag) {
                st.out.push(TokenActionView::Newline)
            } else {
                st.out
            },
            ..st
        }
    } else if st.in_tag {
        LexState { tag: st.tag.push(c), ..st }
    } else {
        LexState { buffer: st.buffer.push(c), ..st }
    }
}

/// The scan after the characters of `s`.
pub open spec fn lex_run(s: Seq<char>) -> LexState
    decreases s.len(),
{
    if s.len() == 0 {
        lex_start()
    } else {
        lex_step(lex_run(s.drop_last()), s.last())
    }
}

/// The steps at the end of the scan: those given out, and the gathered text
/// as a last run where there is any.
pub open spec fn lex_finish(st: LexState) -> Seq<TokenActionView> {
    if st.buffer.len() > 0 {
        st.out.push(TokenActionView::Text { text: st.buffer, font: st.font })
    } else {
        st.out
    }
}

/// The styled stream of a page's text: the scan runs over the decoded text.
pub open spec fn styled_tokens(text: Seq<char>) -> Seq<TokenActionView> {
    lex_finish(lex_run(decode(text)))
}

/// The styled stream of `text`: its entities are decoded and its tabs
/// expanded, and then the text outside tags is given out in runs, each with
/// the style that the tags in front of it have set, and with a break for
/// each tag that ends a paragraph. Tags count by their lower-case form.
pub fn lex(text: &str) -> (r: Vec<TokenAction>)
    ensures
        action_views(r@) == styled_tokens(text@),
{
    let s = decoded(&to_chars(text));
    let mut buffer: Vec<char> = Vec::new();
    let mut in_tag = false;
    let mut tag: Vec<char> = Vec::new();
    let mut font = LayoutFont::default();
    let mut out: Vec<TokenAction> = Vec::new();
    let mut i: usize = 0;
    assert(s@.take(0) =~= Seq::<char>::empty());
    assert(action_views(out@) =~= Seq::<TokenActionView>::empty());
    while i < s.len()
        invariant
            i <= s.len(),
            lex_run(s@.take(i as int)) == (LexState {
                buffer: buffer@,
                in_tag,
                tag: tag@,
                font,
                out: action_views(out@),
            }),
        decreases s.len() - i,
    {
        let c = s[i];
        let ghost before = lex_run(s@.take(i as int));
        let ghost next = s@.take(i + 1);
        assert(next.drop_last() =~= s@.take(i as int));
        assert(next.last() == c);
        let ghost steps = action_views(out@);
        if c == '<' {
            if buffer.len() > 0 && !in_tag {
                out.push(TokenAction::Text(StyledText { text: from_chars(&buffer), font }));
                assert(action_views(out@) =~= steps.push(
                    TokenActionView::Text { text: before.buffer, font: before.font },
                ));
                buffer = Vec::new();
            }
            in_tag = true;
            tag = Vec::new();
        } else if c == '>' {
            in_tag = false;
            let name = lowercase(from_chars(&tag).as_str());
            let effect = apply_tag(name.as_str(), font);
            if effect.newline {
                out.push(TokenAction::Newline);
                assert(action_views(out@) =~= steps.push(TokenActionView::Newline));
            }
            font = effect.font;
            tag = Vec::new();
        } else if in_tag {
            tag.push(c);
        } else {
            buffer.push(c);
        }
        i += 1;
    }
    assert(s@.take(s.len() as int) =~= s@);
    if buffer.len() > 0 {
        let ghost steps = action_views(out@);
        out.push(TokenAction::Text(StyledText { text: from_chars(&buffer), font }));
        assert(action_views(out@) =~= steps.push(
            TokenActionView::Text { text: buffer@, font },
        ));
    }
    out
}

/// Where the scan for visible text stands: the text kept so far, and
/// whether the scan is inside a tag.
pub struct ShowState {
    pub kept: Seq<char>,
    pub in_tag: bool,
}

/// The scan after one more character: `<` opens a tag, `>` closes it, and
/// any other character is kept outside a tag and dropped inside one.
pub open spec fn show_step(st: ShowState, c: char) -> ShowState {
    if c == '<' {
        ShowState { in_tag: true, ..st }
    } else if c == '>' {
        ShowState { in_tag: false, ..st }
    } else if st.in_tag {
        st
    } else {
        ShowState { kept: st.kept.push(c), ..st }
    }
}

/// The scan after the characters of `s`.
pub open spec fn show_run(s: Seq<char>) -> ShowState
    decreases s.len(),
{
    if s.len() == 0 {
        ShowState { kept: Seq::empty(), in_tag: false }
    } else {
        show_step(show_run(s.drop_last()), s.last())
    }
}

/// The text of a page without its tags, decoded.
pub open spec fn shown_text(text: Seq<char>) -> Seq<char> {
    decode(show_run(text).kept)
}

/// The text of `text` that a reader sees: what stands outside its tags,
/// with entities decoded and tabs expanded.
pub fn visible_text(text: &str) -> (r: String)
    ensures
        r@ == shown_text(text@),
{
    let s = to_chars(text);
    let mut kept: Vec<char> = Vec::new();
    let mut in_tag = false;
    let mut i: usize = 0;
    assert(s@.take(0) =~= Seq::<char>::empty());
    while i < s.len()
        invariant
            i <= s.len(),
            show_run(s@.take(i as int)) == (ShowState { kept: kept@, in_tag }),
        decreases s.len() - i,
    {
        let c = s[i];
        let ghost next = s@.take(i + 1);
        assert(next.drop_last() =~= s@.take(i as int));
        assert(next.last() == c);
        if c == '<' {
            in_tag = true;
        } else if c == '>' {
            in_tag = false;
        } else if !in_tag {
            kept.push(c);
        }
        i += 1;
    }
    assert(s@.take(s.len() as int) =~= s@);
    from_chars(&decoded(&kept))
}

/// The text of a page together with its styled stream.
#[derive(Debug)]
pub struct Body {
    text: String,
    tokens: Vec<TokenAction>,
}

impl View for Body {
    type V = Seq<char>;

    closed spec fn view(&self) -> Seq<char> {
        self.text@
    }
}

impl Body {
    #[verifier::type_invariant]
    spec fn styled(&self) -> bool {
        action_views(self.tokens@) == styled_tokens(self.text@)
    }

    /// The body of a page with the text `text`.
    pub fn new(text: String) -> (r: Self)
        ensures
            r@ == text@,
    {
        let tokens = lex(text.as_str());
        Body { text, tokens }
    }

    /// The text as it came.
    pub fn text(&self) -> (r: &str)
        ensures
            r@ == self@,
    {
        self.text.as_str()
    }

    /// The styled stream of the text.
    pub fn tokens(&self) -> (r: Vec<TokenAction>)
        ensures
            action_views(r@) == styled_tokens(self@),
    {
        proof {
            use_type_invariant(self);
        }
        let mut r: Vec<TokenAction> = Vec::new();
        let mut i: usize = 0;
        while i < self.tokens.len()
            invariant
                i <= self.tokens.len(),
                action_views(r@) == action_views(self.tokens@).take(i as int),
            decreases self.tokens.len() - i,
        {
            let ghost done = action_views(r@);
            r.push(self.tokens[i].clone());
            assert(action_views(r@) =~= done.push(self.tokens@[i as int]@));
            i += 1;
            assert(action_views(r@) =~= action_views(self.tokens@).take(i as int));
        }
        assert(action_views(self.tokens@).take(self.tokens.len() as int) =~= action_views(
            self.tokens@,
        ));
        r
    }
}

impl Clone for Body {
    fn clone(&self) -> (r: Self)
        ensures
            r@ == self@,
    {
        Body::new(self.text.clone())
    }
}

} // verus!
